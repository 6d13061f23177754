//! Addresses, validation and the filter identity.
use rerrb::config::identity::{FilterError, Readings};
use rerrb::config::{
    default_mode, default_pps, default_pref, default_tap, default_target, default_vlan, mac,
    ApEntry, ConfigError, Limits, MacError, Mode, PeerEntry, Settings, DEFAULT_PREF,
};
use rerrb::proto::Filter;
use rerrb::relay::mac_string;

#[test]
fn mac_parsing() {
    assert_eq!(
        mac("22:0b:8b:ea:60:c9").unwrap(),
        [0x22, 0x0b, 0x8b, 0xea, 0x60, 0xc9]
    );
    assert!(mac("22:0b:8b:ea:60").is_err());
    assert!(mac("22:0b:8b:ea:60:cg").is_err());
    assert!(mac("220b8bea60c9").is_err());
}

#[test]
fn mac_errors() {
    assert_eq!(mac("22:0B:8b:EA:60:c9"), Ok([0x22, 0x0b, 0x8b, 0xea, 0x60, 0xc9]));
    assert_eq!(mac(""), Err(MacError::Octets));
    assert_eq!(mac("22:0b:8b:ea:60"), Err(MacError::Octets));
    assert_eq!(mac("22:0b:8b:ea:60:c9:00"), Err(MacError::Octets));
    assert_eq!(mac("22:b:8b:ea:60:c9"), Err(MacError::OctetLength(1)));
    assert_eq!(mac("22:0b:8b:ea:60:c9 "), Err(MacError::OctetLength(5)));
    assert_eq!(mac("22:0b:8b:ea:60:cg"), Err(MacError::OctetDigits(5)));
    assert_eq!(mac("-2:0b:8b:ea:60:c9"), Err(MacError::OctetDigits(0)));
    // Two bytes, one character.
    assert_eq!(mac("\u{e9}:0b:8b:ea:60:c9"), Err(MacError::OctetDigits(0)));
    assert_eq!(mac("\u{20ac}:0b:8b:ea:60:c9"), Err(MacError::OctetLength(0)));
    // A plus sign is no digit.
    assert_eq!(mac("+f:0b:8b:ea:60:c9"), Err(MacError::OctetDigits(0)));
    assert_eq!(mac("+1:0b:8b:ea:60:c9"), Err(MacError::OctetDigits(0)));
    assert_eq!(mac("22:0b:8b:ea:60:+9"), Err(MacError::OctetDigits(5)));
    assert_eq!(mac("++:0b:8b:ea:60:c9"), Err(MacError::OctetDigits(0)));
}

#[test]
fn addresses_read_back_from_their_text() {
    for m in [[0u8; 6], [255; 6], [0x22, 0x0b, 0x8b, 0xea, 0x60, 0xc9], [1, 16, 32, 128, 9, 10]] {
        assert_eq!(mac(&mac_string(&m)), Ok(m));
    }
}

fn ap(interface: &str) -> ApEntry {
    ApEntry {
        interface: interface.to_string(),
        r0kh_id: None,
    }
}

fn peer(mac: &str, bssids: &[&str]) -> PeerEntry {
    PeerEntry {
        mac: mac.to_string(),
        bssids: bssids.iter().map(|b| b.to_string()).collect(),
    }
}

fn settings() -> Settings {
    Settings {
        sources: vec!["eth1".to_string()],
        aps: vec![ap("wifi1ap4")],
        peers: vec![],
        target: default_target(),
        management_vlan: default_vlan(),
        mode: default_mode(),
        limits: Limits::default(),
        tap: default_tap(),
        pref: default_pref(),
    }
}

#[test]
fn defaults() {
    let s = settings();
    assert_eq!(s.target, "br0");
    assert_eq!(s.management_vlan, 1);
    assert_eq!(s.mode, Mode::Forward);
    assert_eq!(s.limits.packets_per_second, 20);
    assert_eq!(default_pps(), 20);
    assert_eq!(s.tap, "rrb0");
    assert_eq!(s.pref, DEFAULT_PREF);
    assert_eq!(DEFAULT_PREF, 49152);
    assert_eq!(s.validate(), Ok(()));
}

#[test]
fn validation_errors() {
    let check = |f: fn(&mut Settings), e: ConfigError| {
        let mut s = settings();
        f(&mut s);
        assert_eq!(s.validate(), Err(e));
    };
    check(|s| s.sources.clear(), ConfigError::NoSources);
    check(|s| s.aps.clear(), ConfigError::ApCount);
    check(|s| s.aps = (0..9).map(|i| ap(&format!("wifi{i}"))).collect(), ConfigError::ApCount);
    check(|s| s.peers = (0..9).map(|_| peer("", &[])).collect(), ConfigError::PeerCount);
    check(|s| s.sources[0].clear(), ConfigError::InvalidName(0));
    check(|s| s.sources[0] = "1234567890123456".to_string(), ConfigError::InvalidName(0));
    check(|s| s.aps[0].interface = "wifi 1".to_string(), ConfigError::InvalidName(1));
    check(|s| s.target = "br/0".to_string(), ConfigError::InvalidName(2));
    check(|s| s.tap = "r\u{e9}".to_string(), ConfigError::InvalidName(3));
    check(|s| s.sources.push("eth1".to_string()), ConfigError::ListedTwice(1));
    check(|s| s.tap = "br0".to_string(), ConfigError::ListedTwice(3));
    check(|s| s.target = "eth1".to_string(), ConfigError::ListedTwice(2));
    check(|s| s.management_vlan = 0, ConfigError::ManagementVlan);
    check(|s| s.management_vlan = 4095, ConfigError::ManagementVlan);
    check(|s| s.management_vlan = u16::MAX, ConfigError::ManagementVlan);
    check(|s| s.limits.packets_per_second = 0, ConfigError::PacketsPerSecond);
    let mut s = settings();
    s.sources[0] = "a.b-C_9.abcdefg".to_string();
    s.management_vlan = 4094;
    s.aps = (0..8).map(|i| ap(&format!("wifi{i}"))).collect();
    s.peers = (0..8).map(|_| peer("", &[])).collect();
    assert_eq!(s.validate(), Ok(()));
}

fn readings() -> Readings {
    Readings {
        target: Some("02:00:00:00:00:01\n".to_string()),
        aps: vec![Some("22:0b:8b:ea:60:c9\n".to_string())],
    }
}

const PEER: &str = "1c:0b:8b:ea:60:c9";

/// The filter, which must be assembled.
fn assembled(s: &Settings, r: &Readings, managed: Option<&Vec<[u8; 6]>>) -> Filter {
    match s.filter(r, managed) {
        Ok(f) => f,
        Err(e) => panic!("{e:?}"),
    }
}

#[test]
fn filter_identity() {
    let mut s = settings();
    s.management_vlan = 10;
    s.aps.push(ApEntry {
        interface: "wifi1ap5".to_string(),
        r0kh_id: Some("my-r0kh-id".to_string()),
    });
    s.peers = vec![peer(PEER, &[PEER, "22:0b:8b:ea:60:ca"]), peer("1c:0b:8b:ea:60:c8", &[])];
    let mut r = readings();
    r.aps.push(Some("22:0b:8b:ea:60:d0".to_string()));
    let managed = vec![[9u8; 6]];
    let f = assembled(&s, &r, Some(&managed));
    assert_eq!(f.target_mac, [2, 0, 0, 0, 0, 1]);
    assert_eq!(f.management_vlan, 10);
    assert_eq!((f.local_count, f.peer_count), (2, 2));
    assert_eq!(f.locals[0].bssid, [0x22, 0x0b, 0x8b, 0xea, 0x60, 0xc9]);
    assert_eq!(f.locals[0].r0kh_len, 12);
    assert_eq!(&f.locals[0].r0kh[..13], b"220b8bea60c9\0");
    assert_eq!(&f.locals[1].r0kh[..11], b"my-r0kh-id\0");
    assert_eq!(f.locals[1].r0kh_len, 10);
    assert_eq!(f.locals[2].r0kh_len, 0);
    assert_eq!(f.peers[0].bssid_count, 2);
    assert_eq!(f.peers[0].bssids[1], [0x22, 0x0b, 0x8b, 0xea, 0x60, 0xca]);
    assert_eq!(f.peers[0].bssids[2], [0; 6]);
    assert_eq!(f.peers[1].mac, [0x1c, 0x0b, 0x8b, 0xea, 0x60, 0xc8]);
    assert_eq!(f.peers[1].bssid_count, 1);
    assert_eq!(f.peers[1].bssids[0], [9; 6]);
    assert_eq!(f.peers[2].bssid_count, 0);
}

fn refused(s: &Settings, r: &Readings, managed: Option<&Vec<[u8; 6]>>) -> FilterError {
    match s.filter(r, managed) {
        Ok(_) => panic!("accepted"),
        Err(e) => e,
    }
}

#[test]
fn filter_address_errors() {
    let s = settings();
    let mut r = readings();
    r.target = None;
    assert_eq!(refused(&s, &r, None), FilterError::TargetUnreadable);
    r.target = Some("junk".to_string());
    assert_eq!(refused(&s, &r, None), FilterError::TargetMac(MacError::Octets));
    let mut r = readings();
    r.aps[0] = None;
    assert_eq!(refused(&s, &r, None), FilterError::ApUnreadable(0));
    r.aps[0] = Some("22:0b:8b:ea:60:cg".to_string());
    assert_eq!(refused(&s, &r, None), FilterError::ApMac(0, MacError::OctetDigits(5)));
    r.aps[0] = Some("ff:ff:ff:ff:ff:ff".to_string());
    assert_eq!(refused(&s, &r, None), FilterError::ApBroadcast(0));
    let mut s = settings();
    s.aps.push(ap("wifi1ap5"));
    let mut r = readings();
    r.aps.push(Some(" 22:0B:8b:ea:60:c9".to_string()));
    assert_eq!(refused(&s, &r, None), FilterError::ApDuplicate(1));
}

#[test]
fn filter_r0kh_errors() {
    let mut s = settings();
    for id in ["", "r0kh-\u{e9}", "1234567890123456789012345678901234567890123456789"] {
        s.aps[0].r0kh_id = Some(id.to_string());
        assert_eq!(refused(&s, &readings(), None), FilterError::R0khId(0), "{id:?}");
    }
    s.aps[0].r0kh_id = Some("123456789012345678901234567890123456789012345678".to_string());
    assert_eq!(assembled(&s, &readings(), None).locals[0].r0kh_len, 48);
}

#[test]
fn filter_peer_errors() {
    let mut s = settings();
    let check = |s: &Settings, managed: Option<&Vec<[u8; 6]>>, e: FilterError| {
        assert_eq!(refused(s, &readings(), managed), e);
    };
    s.peers = vec![peer("junk", &[PEER])];
    check(&s, None, FilterError::PeerMac(0, MacError::Octets));
    s.peers = vec![peer("ff:ff:ff:ff:ff:ff", &[PEER])];
    check(&s, None, FilterError::PeerBroadcast(0));
    s.peers = vec![peer(PEER, &[PEER]), peer(PEER, &[PEER])];
    check(&s, None, FilterError::PeerDuplicate(1));
    s.peers = vec![peer(PEER, &[])];
    check(&s, None, FilterError::HostapdNeeded);
    check(&s, Some(&vec![]), FilterError::NoBssids(0));
    check(&s, Some(&(0..9).map(|i| [i; 6]).collect()), FilterError::TooManyBssids(0));
    check(&s, Some(&vec![[1; 6], [255; 6]]), FilterError::BssidBroadcast(0, 1));
    check(&s, Some(&vec![[1; 6], [2; 6], [1; 6]]), FilterError::BssidDuplicate(0, 2));
    assert_eq!(assembled(&s, &readings(), Some(&vec![[1; 6]])).peers[0].bssids[0], [1; 6]);
    s.peers = vec![peer(PEER, &[PEER, "22"])];
    check(&s, None, FilterError::BssidMac(0, 1, MacError::Octets));
    // Errors of a later peer wait for an earlier one that needs hostapd.
    s.peers = vec![peer(PEER, &[]), peer("junk", &[])];
    check(&s, None, FilterError::HostapdNeeded);
    check(&s, Some(&vec![[1; 6]]), FilterError::PeerMac(1, MacError::Octets));
}
