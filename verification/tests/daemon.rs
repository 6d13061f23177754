//! What the daemon does with captured frames, and how it runs.
use rerrb::config::Mode;
use rerrb::daemon::{capture, inject, injected, run, start, Captured, Counters, RunStep};
use rerrb::proto::parse::{self, Vlan};
use rerrb::proto::{Counter, Filter, Local, Peer, COUNTER_NAMES};
use rerrb::relay::{kind_counter, kind_name, mac_string, Limiter};

fn filter() -> Filter {
    let mut f = Filter {
        target_mac: [2, 0, 0, 0, 0, 1],
        local_count: 1,
        peer_count: 1,
        ..Filter::default()
    };
    f.locals[0] = Local { bssid: [2, 0, 0, 0, 0, 2], ..Local::default() };
    f.peers[0] = Peer { mac: [2, 0, 0, 0, 1, 0xab], ..Peer::default() };
    f
}

fn frame(kind: u8, auth: &[u8]) -> Vec<u8> {
    let f = filter();
    let mut out = Vec::new();
    out.extend(f.target_mac);
    out.extend(f.peers[0].mac);
    out.extend([0x81, 0, 0, 1]);
    out.extend(parse::ETH_P_RRB.to_be_bytes());
    out.extend(parse::RRB_SELECTOR);
    out.extend([kind]);
    out.extend([9; 6]); // any source BSS: the peer lists none
    out.extend(f.locals[0].bssid);
    out.extend((auth.len() as u16).to_le_bytes());
    out.extend(auth);
    out.extend([0u8; parse::TRAILER_LEN]);
    out
}

const CLIENT: [u8; 10] = [6, 0, 6, 0, 0xaa, 0xbb, 0xcc, 0xdd, 0xee, 0xff];

#[test]
fn forwarding_hands_over_the_untagged_frame() {
    let mut n = Counters::new();
    let f = frame(4, &CLIENT);
    match capture(&f, Vlan::default(), &filter(), true, &mut n) {
        Captured::Forward(report, out) => {
            assert_eq!(report.kind, "seq_request");
            assert_eq!(report.from, "02:00:00:00:01:ab");
            assert_eq!(report.to, "02:00:00:00:00:01");
            assert_eq!(report.client.as_deref(), Some("aa:bb:cc:dd:ee:ff"));
            assert_eq!(report.len, f.len());
            assert_eq!(out, [&f[..12], &f[16..]].concat());
            assert_eq!(&out[12..14], &[0x88, 0xb7]);
        }
        _ => panic!("not forwarded"),
    }
    assert_eq!(n.log_line(), "seen=1 matched=1 seq_request=1");
}

#[test]
fn observing_only_counts() {
    let mut n = Counters::new();
    for kind in [1, 2, 3] {
        match capture(&frame(kind, &[]), Vlan::default(), &filter(), false, &mut n) {
            Captured::Observed(report) => assert_eq!(report.client, None),
            _ => panic!("not observed"),
        }
    }
    assert_eq!(n.log_line(), "seen=3 matched=3 observed=3 pull=1 response=1 push=1");
}

/// The reason of a rejection.
fn rejected(f: &[u8], vlan: Vlan, filter: &Filter) -> Counter {
    let mut n = Counters::new();
    match capture(f, vlan, filter, true, &mut n) {
        Captured::Rejected(reason) => {
            let name = COUNTER_NAMES[reason.index()];
            assert_eq!(n.log_line(), format!("seen=1 {name}=1"));
            reason
        }
        _ => panic!("accepted"),
    }
}

#[test]
fn every_rejection_has_its_counter() {
    let none = Vlan::default();
    let good = frame(1, &[]);
    let with = |at: usize, v: u8| {
        let mut f = good.clone();
        f[at] = v;
        f
    };
    let f = filter();
    assert_eq!(rejected(&good[..13], none, &f), Counter::Length);
    assert_eq!(rejected(&good[..20], none, &f), Counter::Length);
    assert_eq!(rejected(&vec![0; 2049], none, &f), Counter::Length);
    assert_eq!(rejected(&with(15, 2), none, &f), Counter::Vlan);
    assert_eq!(rejected(&with(0, 3), none, &f), Counter::EtherAddress);
    assert_eq!(rejected(&with(6, 3), none, &f), Counter::EtherAddress);
    assert_eq!(rejected(&with(18, 3), none, &f), Counter::OuiType);
    assert_eq!(rejected(&with(23, 0), none, &f), Counter::OuiType);
    assert_eq!(rejected(&with(23, 6), none, &f), Counter::OuiType);
    assert_eq!(rejected(&with(30, 3), none, &f), Counter::DestinationBss);
    assert_eq!(rejected(&with(36, 1), none, &f), Counter::AuthLength);
    assert_eq!(rejected(&frame(1, &[1, 0, 0]), none, &f), Counter::Tlv);
    let mut strict = filter();
    strict.peers[0].bssid_count = 1;
    assert_eq!(rejected(&good, none, &strict), Counter::SourceBss);
    let mut broadcast = good.clone();
    broadcast[30..36].fill(255);
    assert_eq!(rejected(&broadcast, none, &f), Counter::BroadcastScope);
    // Without local BSSes nothing matches.
    let mut closed = filter();
    closed.local_count = 0;
    assert_eq!(rejected(&good, none, &closed), Counter::DestinationBss);
}

#[test]
fn trailer_padding_and_tag_representation_do_not_matter() {
    let mut n = Counters::new();
    let mut f = frame(5, &CLIENT);
    let trailer = f.len() - parse::TRAILER_LEN;
    f[trailer..].fill(0x5a);
    f.extend([0xee; 20]);
    assert!(matches!(
        capture(&f, Vlan::default(), &filter(), true, &mut n),
        Captured::Forward(_, _)
    ));
    let lifted = Vlan { present: true, proto: parse::TPID_8021Q, tci: 0xf001 };
    let stripped = [&f[..12], &f[16..]].concat();
    match capture(&stripped, lifted, &filter(), true, &mut n) {
        Captured::Forward(_, out) => assert_eq!(out, stripped),
        _ => panic!("not forwarded"),
    }
}

#[test]
fn injection_is_rate_limited() {
    let mut n = Counters::new();
    let mut l = Limiter::new(1);
    assert!(inject(&mut l, 7, &mut n));
    injected(true, &mut n);
    assert!(!inject(&mut l, 7, &mut n));
    assert!(inject(&mut l, 8, &mut n));
    injected(false, &mut n);
    assert_eq!(n.log_line(), "rate_limited=1 injected=1 inject_error=1");
}

#[test]
fn counters_as_text() {
    let mut n = Counters::new();
    assert_eq!(n.log_line(), "");
    n.slots[19] = u64::MAX;
    n.slots[1] = 120;
    assert_eq!(n.log_line(), "reject_length=120 seq_response=18446744073709551615");
    n.bump(Counter::SeqResponse);
    assert_eq!(n.log_line(), "reject_length=120");
}

#[test]
fn names_of_kinds_and_addresses() {
    let names = ["unknown", "pull", "response", "push", "seq_request", "seq_response", "unknown"];
    for (kind, name) in names.iter().enumerate() {
        assert_eq!(kind_name(kind as u8), *name);
    }
    assert_eq!(kind_counter(1), Counter::Pull);
    assert_eq!(kind_counter(4), Counter::SeqRequest);
    assert_eq!(kind_counter(9), Counter::SeqResponse);
    assert_eq!(mac_string(&[0, 1, 0x9f, 0xa0, 0xff, 0x10]), "00:01:9f:a0:ff:10");
}

/// The steps of a run in which everything goes well.
fn steps(mode: Mode, sources: usize) -> Vec<RunStep> {
    let mut all = vec![start(mode, sources)];
    while all[all.len() - 1] != RunStep::Stopped {
        all.push(run(mode, sources, all[all.len() - 1], true));
    }
    all
}

#[test]
fn forwarding_runs_behind_the_tap() {
    assert_eq!(
        steps(Mode::Forward, 2),
        [
            RunStep::CreateTap,
            RunStep::Capture(0, true),
            RunStep::Capture(1, true),
            RunStep::AwaitSignal,
            RunStep::ReadActionStats,
            RunStep::Shutdown,
            RunStep::Stopped,
        ]
    );
    // Counters that cannot be read do not keep it from stopping.
    assert_eq!(run(Mode::Forward, 2, RunStep::ReadActionStats, false), RunStep::Shutdown);
}

#[test]
fn observing_has_no_tap() {
    assert_eq!(
        steps(Mode::Observe, 1),
        [
            RunStep::Capture(0, false),
            RunStep::AwaitSignal,
            RunStep::Shutdown,
            RunStep::Stopped,
        ]
    );
}

#[test]
fn a_failed_step_ends_the_run() {
    for step in [RunStep::CreateTap, RunStep::Capture(0, true), RunStep::AwaitSignal] {
        assert_eq!(run(Mode::Forward, 1, step, false), RunStep::Failed);
    }
    assert_eq!(run(Mode::Forward, 1, RunStep::Failed, true), RunStep::Failed);
}
