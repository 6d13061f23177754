//! The kernel action, step by step.
use rerrb::common::parse::{self, Vlan};
use rerrb::common::{
    Budget, Config, Counter, Peer, ABI, MODE_FORWARD, MODE_OBSERVE, MODE_OFF,
};
use rerrb::ebpf::{
    active, admit_redirect, admitted, checked, on_source_port, popped, rechecked, rrb_redirect, vlan,
    Counters, Step, CONTINUE, DROP, NS_PER_SECOND, REDIRECT_INGRESS,
};
use rerrb::wire::ByteOrder;

const NOW: u64 = 5 * NS_PER_SECOND + 1;

fn config() -> Config {
    let mut c = Config {
        mode: MODE_FORWARD,
        target_ifindex: 9,
        packets_per_second: 2,
        source_count: 2,
        peer_count: 1,
        target_mac: [2, 0, 0, 0, 0, 1],
        local_bssid: [2, 0, 0, 0, 0, 2],
        ..Config::default()
    };
    c.source_ifindexes[0] = 3;
    c.source_ifindexes[1] = 4;
    c.source_ifindexes[2] = 5; // beyond source_count
    c.peers[0] = Peer { mac: [2, 0, 0, 0, 1, 1], bssid: [2, 0, 0, 0, 1, 2] };
    c
}

fn frame(kind: u8) -> Vec<u8> {
    let c = config();
    let mut out = Vec::new();
    out.extend(c.target_mac);
    out.extend(c.peers[0].mac);
    out.extend([0x81, 0, 0, 1]);
    out.extend(parse::ETH_P_RRB.to_be_bytes());
    out.extend(parse::RRB_SELECTOR);
    out.extend([kind]);
    out.extend(c.peers[0].bssid);
    out.extend(c.local_bssid);
    out.extend([0, 0]);
    out.extend([0u8; parse::TRAILER_LEN]);
    out
}

/// One arrival: the step and the events counted.
fn arrive(c: Option<&Config>, ifindex: u32, frame: &[u8]) -> (Step, Vec<usize>) {
    let mut counters = Counters::new();
    let step = rrb_redirect(c, NOW, ifindex, &frame, Vlan::default(), &mut counters);
    (step, events(&counters))
}

/// The slots that counted, once each.
fn events(c: &Counters) -> Vec<usize> {
    assert!(c.slots.iter().all(|n| *n <= 1));
    (0..c.slots.len()).filter(|i| c.slots[*i] == 1).collect()
}

fn slots(counters: &[Counter]) -> Vec<usize> {
    counters.iter().map(|c| c.index()).collect()
}

#[test]
fn a_genuine_frame_asks_the_budget() {
    let kinds = [
        Counter::Pull,
        Counter::Response,
        Counter::Push,
        Counter::SeqRequest,
        Counter::SeqResponse,
    ];
    for kind in 1..=5u8 {
        let (step, seen) = arrive(Some(&config()), 3, &frame(kind));
        assert_eq!(step, Step::Admit);
        assert_eq!(
            seen,
            slots(&[Counter::Seen, Counter::Matched, kinds[kind as usize - 1]])
        );
    }
}

#[test]
fn other_frames_keep_their_path() {
    let left = |c: Option<&Config>, ifindex, f: &[u8], counters: &[Counter]| {
        let (step, seen) = arrive(c, ifindex, f);
        assert_eq!(step, Step::Continue);
        assert_eq!(seen, slots(counters));
    };
    let f = frame(1);
    left(None, 3, &f, &[Counter::Seen]);
    left(Some(&config()), 5, &f, &[Counter::Seen]);
    left(Some(&Config { source_count: 0, ..config() }), 3, &f, &[Counter::Seen]);
    let off = Config { mode: MODE_OFF, ..config() };
    left(Some(&off), 3, &f, &[Counter::Seen, Counter::Disabled]);
    let old = Config { abi: ABI - 1, ..config() };
    left(Some(&old), 3, &f, &[Counter::Seen, Counter::Disabled]);
    let expired = Config { deadline_ns: NOW, ..config() };
    left(Some(&expired), 3, &f, &[Counter::Seen, Counter::Expired]);
    let unknown = Config { mode: 7, ..config() };
    left(Some(&unknown), 3, &f, &[Counter::Seen]);
    let observe = Config { mode: MODE_OBSERVE, ..config() };
    left(
        Some(&observe),
        3,
        &f,
        &[Counter::Seen, Counter::Matched, Counter::Observed, Counter::Pull],
    );
    left(Some(&config()), 3, &f[..10], &[Counter::Seen, Counter::Length]);
    let mut other = f.clone();
    other[0] ^= 0x10;
    left(Some(&config()), 3, &other, &[Counter::Seen, Counter::EtherAddress]);
}

#[test]
fn the_budget_decides() {
    let mut n = Counters::new();
    assert_eq!(admitted(Some(Ok(())), &mut n), Step::Recheck);
    assert_eq!(events(&n), slots(&[]));
    assert_eq!(admitted(Some(Err(Counter::RateLimited)), &mut n), Step::Continue);
    assert_eq!(events(&n), slots(&[Counter::RateLimited]));
    // A missing budget refuses.
    assert_eq!(admitted(None, &mut n), Step::Continue);
    assert_eq!(events(&n), slots(&[Counter::RateLimited, Counter::PacketLimit]));
}

#[test]
fn budget_windows_and_lifetime() {
    let mut c = config();
    let mut b = Budget::default();
    let second = NS_PER_SECOND;
    assert_eq!(admit_redirect(&c, &mut b, second), Ok(()));
    assert_eq!(admit_redirect(&c, &mut b, second + 1), Ok(()));
    assert_eq!(admit_redirect(&c, &mut b, 2 * second - 1), Err(Counter::RateLimited));
    assert_eq!((b.window, b.used, b.total), (1, 2, 2));
    // A new second brings a fresh allowance.
    assert_eq!(admit_redirect(&c, &mut b, 2 * second), Ok(()));
    assert_eq!((b.window, b.used, b.total), (2, 1, 3));
    // The lifetime cap comes before the allowance, and never resets.
    c.max_packets = 3;
    assert_eq!(admit_redirect(&c, &mut b, 9 * second), Err(Counter::PacketLimit));
    assert_eq!((b.window, b.used, b.total), (9, 0, 3));
    c.packets_per_second = 0;
    assert_eq!(admit_redirect(&c, &mut b, 9 * second), Err(Counter::PacketLimit));
    c.max_packets = 4;
    assert_eq!(admit_redirect(&c, &mut b, 9 * second), Err(Counter::RateLimited));
    // Without a cap the total wraps.
    let mut b = Budget { total: u64::MAX, ..Budget::default() };
    assert_eq!(admit_redirect(&config(), &mut b, 0), Ok(()));
    assert_eq!((b.used, b.total), (1, 0));
}

#[test]
fn liveness_is_checked_again() {
    let mut n = Counters::new();
    assert_eq!(rechecked(&config(), NOW, &mut n), Step::PopVlan);
    assert_eq!(events(&n), slots(&[]));
    let observe = Config { mode: MODE_OBSERVE, ..config() };
    assert_eq!(rechecked(&observe, NOW, &mut n), Step::Continue);
    assert_eq!(events(&n), slots(&[]));
    let expired = Config { deadline_ns: NOW - 1, ..config() };
    assert_eq!(rechecked(&expired, NOW, &mut n), Step::Continue);
    assert_eq!(events(&n), slots(&[Counter::Expired]));
    assert!(active(&config(), NOW, &mut n));
    assert!(!active(&Config { deadline_ns: 1, ..config() }, 1, &mut Counters::new()));
}

#[test]
fn a_changed_frame_is_redirected_or_dropped() {
    let mut n = Counters::new();
    assert_eq!(popped(true, &mut n), Step::CheckType);
    assert_eq!(events(&n), slots(&[]));
    assert_eq!(checked(&config(), Some([0x88, 0xb7]), &mut n), Step::Redirect(9, REDIRECT_INGRESS));
    assert_eq!(events(&n), slots(&[Counter::RedirectRequested]));
    let mut n = Counters::new();
    assert_eq!(popped(false, &mut n), Step::Drop);
    assert_eq!(events(&n), slots(&[Counter::VlanPopError]));
    for word in [Some([0x81, 0x00]), Some([0xb7, 0x88]), None] {
        let mut n = Counters::new();
        assert_eq!(checked(&config(), word, &mut n), Step::Drop);
        assert_eq!(events(&n), slots(&[Counter::VlanPopError]));
    }
    assert_eq!((CONTINUE, DROP, REDIRECT_INGRESS), (-1, 2, 1));
}

#[test]
fn source_ports() {
    let c = config();
    assert!(on_source_port(&c, 3));
    assert!(on_source_port(&c, 4));
    assert!(!on_source_port(&c, 5));
    let all = Config { source_count: 255, ..c };
    assert!(on_source_port(&all, 5));
    assert!(on_source_port(&all, 0)); // unused entries hold 0
}

#[test]
fn skb_metadata() {
    // 0x8100 in network byte order, as a little-endian machine reads it.
    let v = vlan(ByteOrder::Little, 1, 0x0081, 0xe001);
    assert_eq!(v, Vlan { present: true, proto: 0x8100, tci: 0xe001 });
    let v = vlan(ByteOrder::Big, 0, 0xffff_8100, 0xffff_0001);
    assert_eq!(v, Vlan { present: false, proto: 0x8100, tci: 1 });
}

#[test]
fn counters_wrap() {
    let mut n = Counters::new();
    n.slots[0] = u64::MAX;
    n.count(Counter::Seen);
    assert_eq!(n.slots[0], 0);
}
