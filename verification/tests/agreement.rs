//! The userspace validator and the kernel action, configured alike.
use rerrb::common::{self, Config};
use rerrb::proto::parse::{self, classify, Vlan};
use rerrb::proto::{Filter, Local, Peer};
use rerrb::wire::ByteOrder;

fn config() -> Config {
    let mut c = Config {
        target_mac: [2, 0, 0, 0, 0, 1],
        local_bssid: [2, 0, 0, 0, 0, 2],
        peer_count: 1,
        r0kh_len: 5,
        ..Config::default()
    };
    c.peers[0] = common::Peer {
        mac: [2, 0, 0, 0, 1, 1],
        bssid: [2, 0, 0, 0, 1, 2],
    };
    c.r0kh[..5].copy_from_slice(b"local");
    c
}

fn filter() -> Filter {
    let c = config();
    let mut f = Filter {
        target_mac: c.target_mac,
        local_count: 1,
        peer_count: 1,
        ..Filter::default()
    };
    f.locals[0] = Local {
        bssid: c.local_bssid,
        r0kh_len: c.r0kh_len,
        r0kh: c.r0kh,
    };
    f.peers[0] = Peer {
        mac: c.peers[0].mac,
        bssid_count: 1,
        ..Peer::default()
    };
    f.peers[0].bssids[0] = c.peers[0].bssid;
    f
}

fn frame(kind: u8, destination: [u8; 6], auth: &[u8]) -> Vec<u8> {
    let c = config();
    let mut out = Vec::new();
    out.extend(c.target_mac);
    out.extend(c.peers[0].mac);
    out.extend([0x81, 0, 0, 1]);
    out.extend(parse::ETH_P_RRB.to_be_bytes());
    out.extend(parse::RRB_SELECTOR);
    out.extend([kind]);
    out.extend(c.peers[0].bssid);
    out.extend(destination);
    out.extend((auth.len() as u16).to_le_bytes());
    out.extend(auth);
    out.extend([0u8; parse::TRAILER_LEN]);
    out
}

#[test]
fn both_accept_the_same_frames() {
    let (c, f) = (config(), filter());
    let mut accepted = 0;
    for destination in [c.local_bssid, [255; 6]] {
        for auth in [&[][..], &[4, 0, 5, 0, b'l', b'o', b'c', b'a', b'l'], &[4, 0, 1, 0, b'x']] {
            for kind in 0..=6 {
                let good = frame(kind, destination, auth);
                for at in 0..good.len() {
                    for bit in [0u8, 1, 0x10, 0x80] {
                        let mut b = good.clone();
                        b[at] ^= bit;
                        let user = classify(&b.as_slice(), Vlan::default(), &f);
                        let kernel = common::parse::classify(&b.as_slice(), Vlan::default(), &c);
                        assert_eq!(user.is_ok(), kernel.is_ok(), "{b:02x?}");
                        if let (Ok(u), Ok(k)) = (user, kernel) {
                            assert_eq!((u.kind, u.body_offset), (k.kind, k.body_offset));
                            accepted += 1;
                        }
                    }
                }
            }
        }
    }
    assert!(accepted > 1000);
}

#[test]
fn fields_read_back() {
    for order in [ByteOrder::Little, ByteOrder::Big] {
        for n in [0u64, 1, 0x0102_0304_0506_0708, u64::MAX] {
            assert_eq!(order.get64(&order.put64(n), 0), n);
            assert_eq!(order.get32(&order.put32(n as u32), 0), n as u32);
            assert_eq!(order.get16(&order.put16(n as u16), 0), n as u16);
        }
    }
}
