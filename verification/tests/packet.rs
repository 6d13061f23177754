//! The socket filter, packet metadata and the opening of a socket.
use rerrb::packet::{
    bind_address, open, received, Auxdata, OpenError, OpenStep, BPF_JEQ_K, BPF_LD_H_ABS, BPF_RET_K,
    PACKET_OUTGOING, SOCKET_FILTER,
};
use rerrb::proto::parse::{Vlan, TPID_8021Q};
use rerrb::wire::ByteOrder;

/// Run the socket filter on a frame.
fn kept(frame: &[u8]) -> u32 {
    let (mut pc, mut a) = (0usize, 0u32);
    loop {
        let (code, jt, jf, k) = SOCKET_FILTER[pc];
        pc += 1;
        if code == BPF_LD_H_ABS {
            let at = k as usize;
            if at + 2 > frame.len() {
                return 0;
            }
            a = u32::from(frame[at]) * 256 + u32::from(frame[at + 1]);
        } else if code == BPF_JEQ_K {
            pc += if a == k { jt as usize } else { jf as usize };
        } else {
            assert_eq!(code, BPF_RET_K);
            return k;
        }
    }
}

#[test]
fn socket_filter_keeps_candidates() {
    let mut frame = vec![0u8; 18];
    assert_eq!(kept(&frame), 0);
    frame[12..14].copy_from_slice(&[0x88, 0xb7]);
    assert_eq!(kept(&frame), 0xffff);
    assert_eq!(kept(&frame[..14]), 0xffff);
    assert_eq!(kept(&frame[..13]), 0);
    frame[12..14].copy_from_slice(&[0x81, 0x00]);
    assert_eq!(kept(&frame), 0);
    frame[16..18].copy_from_slice(&[0x88, 0xb7]);
    assert_eq!(kept(&frame), 0xffff);
    assert_eq!(kept(&frame[..17]), 0);
    frame[12..14].copy_from_slice(&[0x88, 0xa8]);
    assert_eq!(kept(&frame), 0);
}

fn aux(status: u32, vlan_tci: u16, vlan_tpid: u16) -> Auxdata {
    Auxdata { status, vlan_tci, vlan_tpid }
}

#[test]
fn stripped_tags_come_in_metadata() {
    assert_eq!(received(0, 60, &vec![]), Some((60, Vlan::default())));
    let tag = |proto, tci| Some((60, Vlan { present: true, proto, tci }));
    // Without the TPID bit the tag is taken for 802.1Q.
    assert_eq!(received(0, 60, &vec![aux(0x10, 5, 0x88a8)]), tag(TPID_8021Q, 5));
    assert_eq!(received(0, 60, &vec![aux(0x50, 5, 0x88a8)]), tag(0x88a8, 5));
    assert_eq!(received(0, 60, &vec![aux(0x41, 5, 0x88a8)]), Some((60, Vlan::default())));
    // The last message with a tag decides.
    let two = vec![aux(0x10, 5, 0), aux(0x10, 6, 0), aux(0, 7, 0)];
    assert_eq!(received(0, 60, &two), tag(TPID_8021Q, 6));
}

#[test]
fn own_frames_are_skipped() {
    assert_eq!(received(PACKET_OUTGOING, 60, &vec![aux(0x10, 5, 0)]), None);
}

#[test]
fn auxdata_layout() {
    let mut b = vec![0u8; 20];
    b[..4].copy_from_slice(&[0x50, 0, 0, 1]);
    b[16..20].copy_from_slice(&[1, 2, 3, 4]);
    assert_eq!(Auxdata::read(ByteOrder::Little, &b), aux(0x0100_0050, 0x0201, 0x0403));
    assert_eq!(Auxdata::read(ByteOrder::Big, &b), aux(0x5000_0001, 0x0102, 0x0304));
}

#[test]
fn bind_address_layout() {
    let a = bind_address(ByteOrder::Little, 0x0403_0201);
    assert_eq!(&a[..8], &[17, 0, 0, 3, 1, 2, 3, 4]);
    assert_eq!(&a[8..], &[0; 12]);
    assert_eq!(&bind_address(ByteOrder::Big, 1)[..8], &[0, 17, 0, 3, 0, 0, 0, 1]);
}

#[test]
fn a_socket_is_bound_last() {
    let steps = [
        (OpenStep::ResolveInterface, OpenError::Interface),
        (OpenStep::CreateSocket, OpenError::Socket),
        (OpenStep::AttachFilter, OpenError::Filter),
        (OpenStep::EnableAuxdata, OpenError::Auxdata),
        (OpenStep::IgnoreOutgoing, OpenError::Direction),
        (OpenStep::Bind, OpenError::Bind),
    ];
    let mut step = OpenStep::ResolveInterface;
    for (due, error) in steps {
        assert_eq!(step, due);
        assert_eq!(open(step, false), OpenStep::Failed(error));
        assert_eq!(open(OpenStep::Failed(error), true), OpenStep::Failed(error));
        step = open(step, true);
    }
    assert_eq!(step, OpenStep::Capturing);
}
