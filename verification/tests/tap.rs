//! Commands and interface requests for the relay TAP.
use rerrb::tap::{action_stats, destroy, flags_request, set_up, tc_attach};
use rerrb::wire::ByteOrder;

#[test]
fn attach_commands() {
    let (qdisc, filter) = tc_attach("rrb0", "br0", 49152);
    assert_eq!(qdisc.join(" "), "qdisc add dev rrb0 handle ffff: ingress");
    assert_eq!(
        filter.join(" "),
        "filter add dev rrb0 parent ffff: protocol 0x88b7 pref 49152 \
         u32 match u32 0 0 action mirred ingress redirect dev br0"
    );
    assert_eq!(filter.len(), 21);
    assert_eq!(filter[9], "49152");
}

#[test]
fn destroy_commands() {
    let (filter, qdisc, link) = destroy("rrb0", 7);
    assert_eq!(filter.join(" "), "filter del dev rrb0 parent ffff: pref 7");
    assert_eq!(qdisc.join(" "), "qdisc del dev rrb0 ingress");
    assert_eq!(link.join(" "), "link del dev rrb0");
}

#[test]
fn stats_command() {
    assert_eq!(action_stats("rrb0").join(" "), "-s filter show dev rrb0 parent ffff:");
}

#[test]
fn interface_requests() {
    let req = flags_request("rrb0").unwrap();
    assert_eq!(&req[..5], b"rrb0\0");
    assert_eq!(&req[5..], &[0; 35]);
    assert!(flags_request("123456789012345").is_some());
    assert!(flags_request("1234567890123456").is_none());
    let mut req = req;
    req[16..18].copy_from_slice(&[0x02, 0x10]);
    let up = set_up(ByteOrder::Little, &req);
    assert_eq!(&up[16..18], &[0x03, 0x10]);
    assert_eq!(&up[..16], &req[..16]);
    assert_eq!(&up[18..], &req[18..]);
    assert_eq!(set_up(ByteOrder::Little, &up), up);
    assert_eq!(&set_up(ByteOrder::Big, &req)[16..18], &[0x02, 0x11]);
}
