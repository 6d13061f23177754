//! hostapd's replies.
use rerrb::config::MacError;
use rerrb::hostapd::{
    bssid, bssids, get_config, is_control_socket, parse_config, try_again, HostapdError,
};

#[test]
fn parses_get_config_reply() {
    let cfg = parse_config("bssid=22:0b:8b:ea:60:c9\nssid=Home\nkey_mgmt=FT-PSK\n\njunkline\n");
    assert_eq!(cfg.get("bssid"), Some("22:0b:8b:ea:60:c9"));
    assert!(!cfg.contains_key("junkline"));
    assert_eq!(cfg.len(), 3);
}

#[test]
fn lines_and_values() {
    let cfg = parse_config("a=1\r\nb=x=y\n=empty\na=2\nlast=cr\r");
    assert_eq!(cfg.get("a"), Some("2")); // the later line counts
    assert_eq!(cfg.get("b"), Some("x=y"));
    assert_eq!(cfg.get(""), Some("empty"));
    assert_eq!(cfg.get("last"), Some("cr\r")); // no line feed behind it
    assert_eq!(cfg.get("x"), None);
    assert_eq!(cfg.len(), 4);
    assert_eq!(parse_config("").len(), 0);
}

#[test]
fn replies_that_are_not_utf8() {
    assert!(matches!(get_config(b"bssid=\xff"), Err(HostapdError::NotUtf8)));
    assert_eq!(bssid(b"\xc0\x80"), Err(HostapdError::NotUtf8));
    let cfg = get_config("ssid=Caf\u{e9}\n".as_bytes()).unwrap_or_else(|_| panic!("refused"));
    assert_eq!(cfg.get("ssid"), Some("Caf\u{e9}"));
}

#[test]
fn reported_bssid() {
    assert_eq!(
        bssid(b"ssid=Home\nbssid=22:0b:8b:ea:60:c9\n"),
        Ok([0x22, 0x0b, 0x8b, 0xea, 0x60, 0xc9])
    );
    assert_eq!(bssid(b"ssid=Home\n"), Err(HostapdError::NoBssid));
    assert_eq!(bssid(b"bssid=22\n"), Err(HostapdError::Bssid(MacError::Octets)));
}

#[test]
fn control_sockets() {
    assert!(is_control_socket("wifi0ap1"));
    assert!(is_control_socket("wifi"));
    assert!(!is_control_socket("wif"));
    assert!(!is_control_socket("eth0wifi"));
    assert!(!is_control_socket(""));
}

#[test]
fn found_bssids_are_sorted_without_duplicates() {
    let a = [1u8, 0, 0, 0, 0, 0];
    let b = [0u8, 255, 255, 255, 255, 255];
    let c = [1u8, 0, 0, 0, 0, 1];
    assert_eq!(bssids(&vec![c, a, b, a, c]), Ok(vec![b, a, c]));
    assert_eq!(bssids(&vec![a, b, c]), Ok(vec![b, a, c]));
    assert_eq!(bssids(&vec![]), Err(HostapdError::NoSockets));
}

#[test]
fn sockets_are_looked_for_thirty_times() {
    assert!(try_again(0));
    assert!(try_again(29));
    assert!(!try_again(30));
}
