//! What the daemon does with captured frames: validate, count, report, and
//! hand untagged frames over for injection.
use vstd::prelude::*;
use vstd::string::*;
use crate::common::parse::reliable;
use crate::config::Mode;
use crate::proto::parse::{classify, verdict, MatchView, Vlan};
use crate::proto::{slots_are_distinct, Counter, Filter, COUNTER_COUNT, COUNTER_NAMES};
use crate::relay::{
    counter_of_kind, kind_counter, kind_name, mac_string, mac_text, name_of_kind, untag, untagged,
    Limiter,
};
use crate::text::{decimal, decimal_spells_its_number, decimal_text, number};

verus! {

/// Bounded queue between capture and injection: under a burst, excess frames
/// are dropped by the rate limiter anyway, so deep buffering would only add
/// latency.
pub const QUEUE_DEPTH: usize = 64;

/// Daemon statistics.
pub struct Counters {
    pub slots: [u64; COUNTER_COUNT],
}

/// The slots after one event.
pub open spec fn bumped(slots: Seq<u64>, event: Counter) -> Seq<u64> {
    slots.update(event.slot(), ((slots[event.slot()] + 1) % 0x1_0000_0000_0000_0000) as u64)
}

/// The slots after a sequence of events.
pub open spec fn counted(slots: Seq<u64>, events: Seq<Counter>) -> Seq<u64>
    decreases events.len(),
{
    if events.len() == 0 {
        slots
    } else {
        bumped(counted(slots, events.drop_last()), events.last())
    }
}

/// The nonzero ones of the first `n` counters as `name=value`, with spaces
/// between them.
pub open spec fn counter_line(slots: Seq<u64>, n: nat) -> Seq<char>
    decreases n,
{
    if n == 0 {
        seq![]
    } else {
        let before = counter_line(slots, (n - 1) as nat);
        let v = slots[n - 1];
        if v == 0 {
            before
        } else {
            let item = COUNTER_NAMES@[n - 1]@ + seq!['='] + decimal(v as nat);
            if before.len() == 0 {
                item
            } else {
                before + seq![' '] + item
            }
        }
    }
}

impl Counters {
    /// All zero.
    pub fn new() -> (c: Self)
        ensures
            c.slots@ == Seq::new(COUNTER_COUNT as nat, |i: int| 0u64),
    {
        let c = Counters { slots: [0; COUNTER_COUNT] };
        assert(c.slots@ =~= Seq::new(COUNTER_COUNT as nat, |i: int| 0u64));
        c
    }

    /// Count one event.
    pub fn bump(&mut self, event: Counter)
        ensures
            final(self).slots@ == bumped(old(self).slots@, event),
    {
        let i: usize = event.index();
        self.slots[i] = self.slots[i].wrapping_add(1);
        assert(self.slots@ =~= bumped(old(self).slots@, event));
    }

    /// The statistics as one line of text.
    pub fn log_line(&self) -> (s: String)
        ensures
            s@ == counter_line(self.slots@, COUNTER_COUNT as nat),
    {
        let mut s: String = String::new();
        let mut i: usize = 0;
        let mut first: bool = true;
        proof {
            reveal_strlit(" ");
            reveal_strlit("=");
        }
        while i < COUNTER_COUNT
            invariant
                i <= COUNTER_COUNT,
                " "@ =~= seq![' '],
                "="@ =~= seq!['='],
                first == (s@.len() == 0),
                s@ == counter_line(self.slots@, i as nat),
            decreases COUNTER_COUNT - i,
        {
            let v: u64 = self.slots[i];
            if v > 0 {
                let ghost before = s@;
                if !first {
                    s.append(" ");
                }
                s.append(COUNTER_NAMES[i]);
                s.append("=");
                s.append(decimal_text(v).as_str());
                first = false;
                proof {
                    let item = COUNTER_NAMES@[i as int]@ + seq!['='] + decimal(v as nat);
                    if before.len() == 0 {
                        assert(s@ =~= item);
                    } else {
                        assert(s@ =~= before + seq![' '] + item);
                    }
                }
            }
            i += 1;
        }
        s
    }
}

/// Detail of a matched frame, for the log.
pub struct Report {
    /// Message type.
    pub kind: &'static str,
    /// Sender.
    pub from: String,
    /// Receiver.
    pub to: String,
    /// The roaming device, where the frame names it.
    pub client: Option<String>,
    /// Length of the frame as captured.
    pub len: usize,
}

impl Report {
    /// The report tells of this match in this frame.
    pub open spec fn tells(self, frame: Seq<u8>, m: MatchView) -> bool {
        &&& self.kind@ == name_of_kind(m.kind)
        &&& self.from@ == mac_text(frame.subrange(6, 12))
        &&& self.to@ == mac_text(frame.subrange(0, 6))
        &&& self.client is Some <==> m.s1kh is Some
        &&& self.client is Some ==> self.client->0@ == mac_text(m.s1kh->0)
        &&& self.len == frame.len()
    }
}

/// What a captured frame leads to.
pub enum Captured {
    /// Hand the untagged frame over for injection.
    Forward(Report, Vec<u8>),
    /// Matched, but only observed.
    Observed(Report),
    /// Not a frame for us.
    Rejected(Counter),
}

/// Events that a captured frame counts.
pub open spec fn capture_events(frame: Seq<u8>, vlan: Vlan, f: Filter, forward: bool) -> Seq<
    Counter,
> {
    match verdict(frame, vlan, f) {
        Err(reason) => seq![Counter::Seen, reason],
        Ok(m) => if forward {
            seq![Counter::Seen, Counter::Matched, counter_of_kind(m.kind)]
        } else {
            seq![Counter::Seen, Counter::Matched, counter_of_kind(m.kind), Counter::Observed]
        },
    }
}

/// The address at an offset.
fn address_at(frame: &[u8], at: usize) -> (m: [u8; 6])
    requires
        at + 6 <= frame@.len(),
    ensures
        m@ == frame@.subrange(at as int, at + 6),
{
    assert(frame.len() == frame@.len());
    let m: [u8; 6] = [
        frame[at],
        frame[at + 1],
        frame[at + 2],
        frame[at + 3],
        frame[at + 4],
        frame[at + 5],
    ];
    assert(m@ =~= frame@.subrange(at as int, at + 6));
    m
}

/// A frame was captured: validate it and count it, and hand it on where the
/// daemon forwards.
pub fn capture(frame: &[u8], vlan: Vlan, f: &Filter, forward: bool, counters: &mut Counters) -> (r:
    Captured)
    ensures
        final(counters).slots@ == counted(
            old(counters).slots@,
            capture_events(frame@, vlan, *f, forward),
        ),
        match (verdict(frame@, vlan, *f), r) {
            (Err(reason), Captured::Rejected(c)) => c == reason,
            (Ok(m), Captured::Forward(report, out)) => forward && report.tells(frame@, m) && out@
                == untagged(frame@, vlan),
            (Ok(m), Captured::Observed(report)) => !forward && report.tells(frame@, m),
            _ => false,
        },
{
    let ghost before = counters.slots@;
    proof {
        reveal_with_fuel(counted, 5);
    }
    counters.bump(Counter::Seen);
    assert(reliable(&frame));
    match classify(&frame, vlan, f) {
        Err(reason) => {
            counters.bump(reason);
            assert(seq![Counter::Seen, reason].drop_last() =~= seq![Counter::Seen]);
            assert(seq![Counter::Seen].drop_last() =~= seq![]);
            Captured::Rejected(reason)
        },
        Ok(m) => {
            counters.bump(Counter::Matched);
            let kind: Counter = kind_counter(m.kind);
            counters.bump(kind);
            proof {
                assert(seq![Counter::Seen, Counter::Matched, kind, Counter::Observed].drop_last()
                    =~= seq![Counter::Seen, Counter::Matched, kind]);
                assert(seq![Counter::Seen, Counter::Matched, kind].drop_last() =~= seq![
                    Counter::Seen,
                    Counter::Matched,
                ]);
                assert(seq![Counter::Seen, Counter::Matched].drop_last() =~= seq![Counter::Seen]);
                assert(seq![Counter::Seen].drop_last() =~= seq![]);
            }
            let client: Option<String> = match m.s1kh {
                Some(s) => Some(mac_string(&s)),
                None => None,
            };
            let report = Report {
                kind: kind_name(m.kind),
                from: mac_string(&address_at(frame, 6)),
                to: mac_string(&address_at(frame, 0)),
                client: client,
                len: frame.len(),
            };
            if forward {
                Captured::Forward(report, untag(frame, vlan))
            } else {
                counters.bump(Counter::Observed);
                Captured::Observed(report)
            }
        },
    }
}

/// A frame is due for injection at second `now_secs`: whether the rate
/// limiter lets it through.
pub fn inject(limiter: &mut Limiter, now_secs: u64, counters: &mut Counters) -> (go: bool)
    ensures
        go == old(limiter)@.admits(now_secs),
        final(limiter)@ == old(limiter)@.after(now_secs),
        final(counters).slots@ == if go {
            old(counters).slots@
        } else {
            bumped(old(counters).slots@, Counter::RateLimited)
        },
{
    match limiter.admit_frame(now_secs) {
        Ok(_) => true,
        Err(reason) => {
            counters.bump(reason);
            false
        },
    }
}

/// The TAP took the frame, or did not.
pub fn injected(ok: bool, counters: &mut Counters)
    ensures
        final(counters).slots@ == bumped(
            old(counters).slots@,
            if ok {
                Counter::Injected
            } else {
                Counter::InjectError
            },
        ),
        ok && old(counters).slots@[13] < u64::MAX ==> final(counters).slots@[13] == old(
            counters,
        ).slots@[13] + 1,
        !ok && old(counters).slots@[14] < u64::MAX ==> final(counters).slots@[14] == old(
            counters,
        ).slots@[14] + 1,
{
    if ok {
        counters.bump(Counter::Injected);
    } else {
        counters.bump(Counter::InjectError);
    }
}

/// The work to do next while the daemon runs.
#[derive(Clone, Copy, Debug, PartialEq, Eq, Structural)]
pub enum RunStep {
    /// Create the relay TAP and start the inject task that owns it.
    CreateTap,
    /// Open the source at this place and start its capture task; the task
    /// gets the queue to the inject task where this says so.
    Capture(usize, bool),
    /// Wait for a signal.
    AwaitSignal,
    /// Read the kernel-side counters, while the TAP still exists.
    ReadActionStats,
    /// Stop all tasks and report the counters.
    Shutdown,
    /// Done.
    Stopped,
    /// A step failed.
    Failed,
}

/// The step at which source `i` is due.
pub open spec fn source_step(mode: Mode, sources: nat, i: int) -> RunStep {
    if i < sources {
        RunStep::Capture(i as usize, mode == Mode::Forward)
    } else {
        RunStep::AwaitSignal
    }
}

/// The first step: in forward mode the TAP, in observe mode no TAP at all.
pub open spec fn first_step(mode: Mode, sources: nat) -> RunStep {
    if mode == Mode::Forward {
        RunStep::CreateTap
    } else {
        source_step(mode, sources, 0)
    }
}

/// The step after `step` went well or not. Counters that cannot be read do
/// not keep the daemon from stopping.
pub open spec fn run_step(mode: Mode, sources: nat, step: RunStep, ok: bool) -> RunStep {
    match step {
        RunStep::CreateTap => if ok {
            source_step(mode, sources, 0)
        } else {
            RunStep::Failed
        },
        RunStep::Capture(i, _) => if ok {
            source_step(mode, sources, i + 1)
        } else {
            RunStep::Failed
        },
        RunStep::AwaitSignal => if !ok {
            RunStep::Failed
        } else if mode == Mode::Forward {
            RunStep::ReadActionStats
        } else {
            RunStep::Shutdown
        },
        RunStep::ReadActionStats => RunStep::Shutdown,
        RunStep::Shutdown => RunStep::Stopped,
        RunStep::Stopped => RunStep::Stopped,
        RunStep::Failed => RunStep::Failed,
    }
}

/// The step after the last of `outcomes`, from the first step on.
pub open spec fn run_after(mode: Mode, sources: nat, outcomes: Seq<bool>) -> RunStep
    decreases outcomes.len(),
{
    if outcomes.len() == 0 {
        first_step(mode, sources)
    } else {
        run_step(mode, sources, run_after(mode, sources, outcomes.drop_last()), outcomes.last())
    }
}

fn at_source(mode: Mode, sources: usize, i: usize) -> (s: RunStep)
    ensures
        s == source_step(mode, sources as nat, i as int),
{
    if i < sources {
        RunStep::Capture(i, mode == Mode::Forward)
    } else {
        RunStep::AwaitSignal
    }
}

/// How a run with this mode and this many sources starts.
pub fn start(mode: Mode, sources: usize) -> (s: RunStep)
    ensures
        s == first_step(mode, sources as nat),
{
    if mode == Mode::Forward {
        RunStep::CreateTap
    } else {
        at_source(mode, sources, 0)
    }
}

/// What to do after `step` went well or not.
pub fn run(mode: Mode, sources: usize, step: RunStep, ok: bool) -> (next: RunStep)
    requires
        step matches RunStep::Capture(i, _) ==> i < sources,
    ensures
        next == run_step(mode, sources as nat, step, ok),
        next matches RunStep::Capture(i, _) ==> i < sources,
{
    match step {
        RunStep::CreateTap => if ok {
            at_source(mode, sources, 0)
        } else {
            RunStep::Failed
        },
        RunStep::Capture(i, _) => if ok {
            at_source(mode, sources, i + 1)
        } else {
            RunStep::Failed
        },
        RunStep::AwaitSignal => if !ok {
            RunStep::Failed
        } else if mode == Mode::Forward {
            RunStep::ReadActionStats
        } else {
            RunStep::Shutdown
        },
        RunStep::ReadActionStats => RunStep::Shutdown,
        RunStep::Shutdown => RunStep::Stopped,
        RunStep::Stopped => RunStep::Stopped,
        RunStep::Failed => RunStep::Failed,
    }
}

/// Observing never creates the TAP, never asks for its counters, and hands
/// no capture task the queue to it.
pub proof fn observing_has_no_tap(sources: nat, outcomes: Seq<bool>)
    ensures
        ({
            let step = run_after(Mode::Observe, sources, outcomes);
            &&& step != RunStep::CreateTap
            &&& step != RunStep::ReadActionStats
            &&& step matches RunStep::Capture(_, forward) ==> !forward
        }),
    decreases outcomes.len(),
{
    if outcomes.len() > 0 {
        observing_has_no_tap(sources, outcomes.drop_last());
    }
}

/// Forwarding captures only once the TAP is up, and every capture task gets
/// the queue to it.
pub proof fn forwarding_captures_behind_the_tap(sources: nat, outcomes: Seq<bool>)
    ensures
        run_after(Mode::Forward, sources, outcomes) matches RunStep::Capture(_, forward)
            ==> forward && outcomes.len() > 0 && outcomes[0],
    decreases outcomes.len(),
{
    if outcomes.len() > 0 {
        let before = outcomes.drop_last();
        forwarding_captures_behind_the_tap(sources, before);
        if before.len() > 0 {
            assert(before[0] == outcomes[0]);
        }
    }
}

/// In forward mode the kernel-side counters are asked for before the tasks
/// are stopped: the TAP and its action disappear with the inject task.
pub proof fn counters_are_read_before_shutdown(sources: nat, outcomes: Seq<bool>)
    requires
        run_after(Mode::Forward, sources, outcomes) == RunStep::Shutdown,
    ensures
        outcomes.len() > 0,
        run_after(Mode::Forward, sources, outcomes.drop_last()) == RunStep::ReadActionStats,
{
}

/// Counting on after counting round is counting round once more.
proof fn next_wraps(n: int)
    ensures
        (n % 0x1_0000_0000_0000_0000 + 1) % 0x1_0000_0000_0000_0000 == (n + 1)
            % 0x1_0000_0000_0000_0000,
{
}

/// A slot holds how often its event came, on top of what it held, counting
/// round at the width of a slot.
#[verifier::spinoff_prover]
pub proof fn slots_hold_occurrences(slots: Seq<u64>, events: Seq<Counter>, e: Counter)
    requires
        slots.len() == 20,
    ensures
        counted(slots, events).len() == 20,
        counted(slots, events)[e.slot()] == (slots[e.slot()] + events.filter(
            |x: Counter| x == e,
        ).len()) % 0x1_0000_0000_0000_0000,
    decreases events.len(),
{
    reveal(Seq::filter);
    slots_are_distinct(e, e);
    if events.len() > 0 {
        let rest = events.drop_last();
        slots_hold_occurrences(slots, rest, e);
        let n = rest.filter(|x: Counter| x == e).len();
        slots_are_distinct(e, events.last());
        slots_are_distinct(events.last(), e);
        next_wraps((slots[e.slot()] + n) as int);
    }
}

/// The line lists the counters that are not zero, in the order of their slots:
/// each by its name and what it holds, with a space before all but the first.
/// Counters that are zero are left out.
pub proof fn line_lists_what_happened(slots: Seq<u64>, c: Counter)
    requires
        slots.len() == 20,
    ensures
        ({
            let n = c.slot() as nat;
            let before = counter_line(slots, n);
            let line = counter_line(slots, n + 1);
            let v = slots[c.slot()];
            let item = COUNTER_NAMES@[c.slot()]@ + seq!['='] + decimal(v as nat);
            &&& counter_line(slots, 0).len() == 0
            &&& v == 0 ==> line == before
            &&& v > 0 && before.len() == 0 ==> line == item
            &&& v > 0 && before.len() > 0 ==> line == before + seq![' '] + item
            &&& v > 0 ==> number(line.skip(line.len() - decimal(v as nat).len())) == v
        }),
{
    slots_are_distinct(c, c);
    let v = slots[c.slot()];
    let line = counter_line(slots, (c.slot() + 1) as nat);
    decimal_spells_its_number(v as nat);
    if v > 0 {
        assert(line.skip(line.len() - decimal(v as nat).len()) =~= decimal(v as nat));
    }
}

/// What a captured frame is counted under: as seen, and then either under why
/// it is refused, or as matched, under its message type, and as observed where
/// the daemon does not forward.
pub proof fn captures_are_counted(frame: Seq<u8>, vlan: Vlan, f: Filter, forward: bool)
    ensures
        ({
            let e = capture_events(frame, vlan, f, forward);
            &&& e[0] == Counter::Seen
            &&& verdict(frame, vlan, f) matches Err(reason) ==> e.len() == 2 && e[1] == reason
            &&& verdict(frame, vlan, f) matches Ok(m) ==> {
                &&& e[1] == Counter::Matched
                &&& m.kind == 1 ==> e[2] == Counter::Pull
                &&& m.kind == 2 ==> e[2] == Counter::Response
                &&& m.kind == 3 ==> e[2] == Counter::Push
                &&& m.kind == 4 ==> e[2] == Counter::SeqRequest
                &&& m.kind == 5 ==> e[2] == Counter::SeqResponse
                &&& forward ==> e.len() == 3
                &&& !forward ==> e.len() == 4 && e[3] == Counter::Observed
            }
        }),
{
}

/// A report names the message, the sender behind the receiver in the frame,
/// the client where the match has one, and the length.
pub proof fn reports_tell_of_the_frame(r: Report, frame: Seq<u8>, m: MatchView)
    requires
        r.tells(frame, m),
    ensures
        r.from@ == mac_text(frame.subrange(6, 12)),
        r.to@ == mac_text(frame.subrange(0, 6)),
        r.len == frame.len(),
        m.kind == 1 ==> r.kind@ == "pull"@,
        m.kind == 2 ==> r.kind@ == "response"@,
        m.kind == 3 ==> r.kind@ == "push"@,
        m.kind == 4 ==> r.kind@ == "seq_request"@,
        m.kind == 5 ==> r.kind@ == "seq_response"@,
        m.s1kh is None ==> r.client is None,
        m.s1kh matches Some(a) ==> r.client is Some && r.client->0@ == mac_text(a),
{
}

proof fn undisturbed(mode: Mode, sources: nat, n: nat) -> (all: Seq<bool>)
    ensures
        all == Seq::new(n, |i: int| true),
        n > 0 ==> run_after(mode, sources, all) == run_step(
            mode,
            sources,
            run_after(mode, sources, Seq::new((n - 1) as nat, |i: int| true)),
            true,
        ),
{
    let all = Seq::new(n, |i: int| true);
    if n > 0 {
        assert(all.drop_last() =~= Seq::new((n - 1) as nat, |i: int| true));
        assert(all.last());
    }
    all
}

/// A forwarding run that nothing disturbs: the TAP, every source in turn, the
/// signal, the kernel's counters, the end.
pub proof fn forwarding_runs_its_course(sources: nat, n: nat)
    requires
        sources < usize::MAX,
    ensures
        run_after(Mode::Forward, sources, Seq::new(n, |i: int| true)) == if n == 0 {
            RunStep::CreateTap
        } else if n <= sources {
            RunStep::Capture((n - 1) as usize, true)
        } else if n == sources + 1 {
            RunStep::AwaitSignal
        } else if n == sources + 2 {
            RunStep::ReadActionStats
        } else if n == sources + 3 {
            RunStep::Shutdown
        } else {
            RunStep::Stopped
        },
    decreases n,
{
    undisturbed(Mode::Forward, sources, n);
    if n > 0 {
        forwarding_runs_its_course(sources, (n - 1) as nat);
    }
}

/// An observing run that nothing disturbs: every source in turn, the signal,
/// the end.
pub proof fn observing_runs_its_course(sources: nat, n: nat)
    requires
        sources < usize::MAX,
    ensures
        run_after(Mode::Observe, sources, Seq::new(n, |i: int| true)) == if n < sources {
            RunStep::Capture(n as usize, false)
        } else if n == sources {
            RunStep::AwaitSignal
        } else if n == sources + 1 {
            RunStep::Shutdown
        } else {
            RunStep::Stopped
        },
    decreases n,
{
    undisturbed(Mode::Observe, sources, n);
    if n > 0 {
        observing_runs_its_course(sources, (n - 1) as nat);
    }
}

/// What fails before the end fails the run, but for counters that cannot be
/// read; what has ended does not go on.
pub proof fn failures_end_the_run(mode: Mode, sources: nat, i: usize, queue: bool, ok: bool)
    ensures
        run_step(mode, sources, RunStep::CreateTap, false) == RunStep::Failed,
        run_step(mode, sources, RunStep::Capture(i, queue), false) == RunStep::Failed,
        run_step(mode, sources, RunStep::AwaitSignal, false) == RunStep::Failed,
        run_step(mode, sources, RunStep::ReadActionStats, ok) == RunStep::Shutdown,
        run_step(mode, sources, RunStep::Shutdown, ok) == RunStep::Stopped,
        run_step(mode, sources, RunStep::Stopped, ok) == RunStep::Stopped,
        run_step(mode, sources, RunStep::Failed, ok) == RunStep::Failed,
{
}

} // verus!
