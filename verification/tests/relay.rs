//! Untagging, message names and the rate limiter.
use rerrb::proto::parse::{Vlan, TPID_8021Q};
use rerrb::proto::Counter;
use rerrb::relay::{untag, Limiter};

#[test]
fn untag_removes_inline_tag() {
    // dst, src, TPID, TCI(VID 1), EtherType RRB, body
    let tagged = [
        1, 2, 3, 4, 5, 6, 7, 8, 9, 10, 11, 12, 0x81, 0x00, 0x00, 0x01, 0x88, 0xb7, 0xaa, 0xbb,
    ];
    let out = untag(
        &tagged,
        Vlan::default(), // not present: tag is inline
    );
    let mut expected = vec![];
    expected.extend_from_slice(&tagged[..12]);
    expected.extend_from_slice(&tagged[16..]);
    assert_eq!(out, expected);
    assert_eq!(&out[12..14], &[0x88, 0xb7]); // EtherType is now RRB
}

#[test]
fn untag_passthrough_when_tag_in_metadata() {
    let frame = [1, 2, 3, 4, 5, 6, 7, 8, 9, 10, 11, 12, 0x88, 0xb7, 0xaa];
    let vlan = Vlan {
        present: true,
        proto: TPID_8021Q,
        tci: 1,
    };
    assert_eq!(untag(&frame, vlan), frame);
}

#[test]
fn limiter_windows() {
    let mut l = Limiter::new(2);
    // window 1: two admits, third is rate-limited
    assert!(l.admit_frame(1).is_ok());
    assert!(l.admit_frame(1).is_ok());
    assert_eq!(l.admit_frame(1), Err(Counter::RateLimited));
    // window 2: fresh allowance
    assert!(l.admit_frame(2).is_ok());
    assert!(l.admit_frame(2).is_ok());
    assert_eq!(l.admit_frame(2), Err(Counter::RateLimited));
    // window 3: allowance resets again, forever
    assert!(l.admit_frame(3).is_ok());
}
