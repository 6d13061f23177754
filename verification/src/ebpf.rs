//! The tc action that relays RRB frames inside the kernel.
//!
//! The switch delivers RRB frames to the switch-facing ports, but hostapd
//! listens on the bridge, and nothing in the kernel forwards link-layer
//! frames between the two. The action hangs on each configured port's
//! ingress; for every frame it validates identity from scratch, and for a
//! genuine RRB frame it pops the management VLAN tag and redirects the frame
//! into the bridge's receive path.
//!
//! A run is a sequence of steps. Between them the kernel reads the clock,
//! pops the tag, reads the EtherType and redirects.
use vstd::prelude::*;
use crate::common::parse::{
    classify, reliable, unread, verdict, Match, ReadFrame, Vlan, ETH_P_RRB, KIND_PULL, KIND_PUSH,
    KIND_RESPONSE, KIND_SEQ_REQUEST,
};
use crate::common::{
    slots_are_distinct, Budget, Config, Counter, ABI, COUNTER_COUNT, MAX_SOURCES, MODE_FORWARD,
    MODE_OBSERVE, MODE_OFF,
};
use crate::wire::{be16, bytes16, octets_of_16_bit_field, value16, ByteOrder};

verus! {

/// TC_ACT_UNSPEC: "no opinion". The frame keeps its original path as if the
/// action never ran.
pub const CONTINUE: i32 = -1;

/// TC_ACT_SHOT: drop the frame. Used only once the frame has been changed;
/// a changed frame must not return to its original path.
pub const DROP: i32 = 2;

/// BPF_F_INGRESS: redirect to the receive side of the target interface.
pub const REDIRECT_INGRESS: u64 = 1;

/// Nanoseconds in one second: the rate-limit window granularity.
pub const NS_PER_SECOND: u64 = 1_000_000_000;

/// What happens to the frame next.
#[derive(Clone, Copy, Debug, PartialEq, Eq, Structural)]
pub enum Step {
    /// Leave the frame on its original path, unchanged.
    Continue,
    /// Genuine: ask the budget, with it locked.
    Admit,
    /// Admitted: read the clock again.
    Recheck,
    /// Pop the VLAN tag.
    PopVlan,
    /// Read the EtherType.
    CheckType,
    /// Redirect the frame to the interface with this index, with these flags.
    Redirect(u32, u64),
    /// Drop the frame.
    Drop,
}

/// Event counters of one CPU.
pub struct Counters {
    pub slots: [u64; COUNTER_COUNT],
}

/// The slots after one event.
pub open spec fn bumped(slots: Seq<u64>, event: Counter) -> Seq<u64> {
    slots.update(event.slot(), ((slots[event.slot()] + 1) % 0x1_0000_0000_0000_0000) as u64)
}

/// The slots after a sequence of events.
pub open spec fn counted(slots: Seq<u64>, events: Seq<Counter>) -> Seq<u64>
    decreases events.len(),
{
    if events.len() == 0 {
        slots
    } else {
        bumped(counted(slots, events.drop_last()), events.last())
    }
}

impl Counters {
    /// All zero.
    pub fn new() -> (c: Self)
        ensures
            c.slots@ == Seq::new(COUNTER_COUNT as nat, |i: int| 0u64),
    {
        let c = Counters { slots: [0; COUNTER_COUNT] };
        assert(c.slots@ =~= Seq::new(COUNTER_COUNT as nat, |i: int| 0u64));
        c
    }

    /// Count one event.
    pub fn count(&mut self, event: Counter)
        ensures
            final(self).slots@ == bumped(old(self).slots@, event),
            forall|before: Seq<u64>, events: Seq<Counter>|
                old(self).slots@ == #[trigger] counted(before, events) ==> final(self).slots@
                    == counted(before, events.push(event)),
    {
        let i: usize = event.index();
        self.slots[i] = self.slots[i].wrapping_add(1);
        assert(self.slots@ =~= bumped(old(self).slots@, event));
        assert forall|before: Seq<u64>, events: Seq<Counter>|
            old(self).slots@ == #[trigger] counted(before, events) implies self.slots@ == counted(
            before,
            events.push(event),
        ) by {
            assert(events.push(event).drop_last() =~= events);
        }
    }
}

/// The skb's VLAN metadata as the parser's view. The protocol lies
/// big-endian in memory, in the low half of its word; the parser works in
/// host byte order.
pub open spec fn skb_vlan(order: ByteOrder, present: u32, proto: u32, tci: u32) -> Vlan {
    Vlan {
        present: present != 0,
        proto: value16(ByteOrder::Big, bytes16(order, (proto % 65536) as u16), 0),
        tci: (tci % 65536) as u16,
    }
}

/// Lift the skb's VLAN metadata into the parser's view.
pub fn vlan(order: ByteOrder, present: u32, proto: u32, tci: u32) -> (v: Vlan)
    ensures
        v == skb_vlan(order, present, proto, tci),
{
    let raw: [u8; 2] = order.put16((proto % 65536) as u16);
    Vlan {
        present: present != 0,
        proto: ByteOrder::Big.get16(raw.as_slice(), 0),
        tci: (tci % 65536) as u16,
    }
}

/// Events counted where the action is not allowed to act: switched off or
/// of another ABI, or past its deadline.
pub open spec fn complaint(c: Config, now: u64) -> Seq<Counter> {
    if c.abi != ABI || c.mode == MODE_OFF {
        seq![Counter::Disabled]
    } else if c.deadline_ns != 0 && now >= c.deadline_ns {
        seq![Counter::Expired]
    } else {
        seq![]
    }
}

/// The action is allowed to act.
pub open spec fn is_active(c: Config, now: u64) -> bool {
    &&& complaint(c, now).len() == 0
    &&& c.mode == MODE_OBSERVE || c.mode == MODE_FORWARD
}

/// Is the action currently allowed to act at all?
pub fn active(c: &Config, now: u64, counters: &mut Counters) -> (r: bool)
    ensures
        r == is_active(*c, now),
        complaint(*c, now).len() == 0 ==> final(counters).slots@ == old(counters).slots@,
        complaint(*c, now).len() > 0 ==> final(counters).slots@ == bumped(
            old(counters).slots@,
            complaint(*c, now)[0],
        ),
        forall|before: Seq<u64>, events: Seq<Counter>|
            old(counters).slots@ == #[trigger] counted(before, events) ==> final(counters).slots@
                == counted(before, events + complaint(*c, now)),
{
    if c.abi != ABI || c.mode == MODE_OFF {
        counters.count(Counter::Disabled);
        assert forall|events: Seq<Counter>| #[trigger]
            events.push(Counter::Disabled) == events + complaint(*c, now) by {
            assert(events.push(Counter::Disabled) =~= events + complaint(*c, now));
        }
        return false;
    }
    if c.deadline_ns != 0 && now >= c.deadline_ns {
        counters.count(Counter::Expired);
        assert forall|events: Seq<Counter>| #[trigger]
            events.push(Counter::Expired) == events + complaint(*c, now) by {
            assert(events.push(Counter::Expired) =~= events + complaint(*c, now));
        }
        return false;
    }
    assert forall|before: Seq<u64>, events: Seq<Counter>|
        counters.slots@ == #[trigger] counted(before, events) implies counters.slots@ == counted(
        before,
        events + complaint(*c, now),
    ) by {
        assert(events + complaint(*c, now) =~= events);
    }
    c.mode == MODE_OBSERVE || c.mode == MODE_FORWARD
}

/// The budget in the window of `now`: a new window starts with nothing used.
pub open spec fn in_window(b: Budget, now: u64) -> Budget {
    let window = now / NS_PER_SECOND;
    if b.window != window {
        Budget { window: window, used: 0, ..b }
    } else {
        b
    }
}

/// Why a redirect is refused, if it is: the lifetime cap, then the allowance
/// of the second.
pub open spec fn refusal(c: Config, b: Budget, now: u64) -> Option<Counter> {
    if c.max_packets != 0 && b.total >= c.max_packets {
        Some(Counter::PacketLimit)
    } else if in_window(b, now).used >= c.packets_per_second {
        Some(Counter::RateLimited)
    } else {
        None
    }
}

/// The budget after a request for one redirect.
pub open spec fn charged(c: Config, b: Budget, now: u64) -> Budget {
    let p = in_window(b, now);
    if refusal(c, b, now) is Some {
        p
    } else {
        Budget {
            used: (p.used + 1) as u64,
            total: ((p.total + 1) % 0x1_0000_0000_0000_0000) as u64,
            ..p
        }
    }
}

/// Fixed-window rate and lifetime limiter, shared by all CPUs. It runs with
/// the budget locked.
pub fn admit_redirect(c: &Config, b: &mut Budget, now: u64) -> (r: Result<(), Counter>)
    ensures
        *final(b) == charged(*c, *old(b), now),
        r == (match refusal(*c, *old(b), now) {
            Some(reason) => Err::<(), Counter>(reason),
            None => Ok(()),
        }),
{
    let window: u64 = now / NS_PER_SECOND;
    if b.window != window {
        b.window = window;
        b.used = 0;
    }
    if c.max_packets != 0 && b.total >= c.max_packets {
        Err(Counter::PacketLimit)
    } else if b.used >= c.packets_per_second as u64 {
        Err(Counter::RateLimited)
    } else {
        b.used = b.used + 1;
        b.total = b.total.wrapping_add(1);
        Ok(())
    }
}

/// The interface is one of the configured switch-facing ports.
pub open spec fn is_source(c: Config, ifindex: u32) -> bool {
    exists|i: int|
        0 <= i < MAX_SOURCES && i < c.source_count && #[trigger] c.source_ifindexes@[i] == ifindex
}

/// Does the arrival interface belong to a configured switch-facing port?
pub fn on_source_port(c: &Config, ifindex: u32) -> (found: bool)
    ensures
        found == is_source(*c, ifindex),
{
    let mut i: usize = 0;
    while i < MAX_SOURCES
        invariant
            i <= MAX_SOURCES,
            forall|k: int|
                0 <= k < i && k < c.source_count ==> #[trigger] c.source_ifindexes@[k] != ifindex,
        decreases MAX_SOURCES - i,
    {
        if i < c.source_count as usize && c.source_ifindexes[i] == ifindex {
            assert(c.source_ifindexes@[i as int] == ifindex);
            return true;
        }
        i += 1;
    }
    false
}

/// Counter of a message type.
pub open spec fn kind_event(kind: u8) -> Counter {
    if kind == KIND_PULL {
        Counter::Pull
    } else if kind == KIND_RESPONSE {
        Counter::Response
    } else if kind == KIND_PUSH {
        Counter::Push
    } else if kind == KIND_SEQ_REQUEST {
        Counter::SeqRequest
    } else {
        Counter::SeqResponse
    }
}

/// Counter of a message type.
fn count_of(kind: u8) -> (c: Counter)
    ensures
        c == kind_event(kind),
{
    if kind == KIND_PULL {
        Counter::Pull
    } else if kind == KIND_RESPONSE {
        Counter::Response
    } else if kind == KIND_PUSH {
        Counter::Push
    } else if kind == KIND_SEQ_REQUEST {
        Counter::SeqRequest
    } else {
        Counter::SeqResponse
    }
}

/// What a frame's arrival leads to: the next step, and the events counted.
/// An absent configuration stands for a map entry that cannot be had.
pub open spec fn arrival(
    config: Option<Config>,
    now: u64,
    ifindex: u32,
    frame: Seq<u8>,
    vlan: Vlan,
) -> (Step, Seq<Counter>) {
    match config {
        None => (Step::Continue, seq![Counter::Seen]),
        Some(c) => if !is_active(c, now) {
            (Step::Continue, seq![Counter::Seen] + complaint(c, now))
        } else if !is_source(c, ifindex) {
            (Step::Continue, seq![Counter::Seen])
        } else {
            match verdict(frame, vlan, c) {
                Err(reason) => (Step::Continue, seq![Counter::Seen, reason]),
                Ok(m) => {
                    let events = seq![Counter::Seen, Counter::Matched, kind_event(m.kind)];
                    if c.mode == MODE_OBSERVE {
                        (Step::Continue, events.push(Counter::Observed))
                    } else {
                        (Step::Admit, events)
                    }
                },
            }
        },
    }
}

/// What the arrival of a frame that cannot be read leads to, where the
/// action is to look at it at all: it is counted as rejected and keeps its
/// path.
pub open spec fn unread_arrival(
    config: Option<Config>,
    now: u64,
    ifindex: u32,
    step: Step,
    before: Seq<u64>,
    after: Seq<u64>,
) -> bool {
    &&& config matches Some(c) && is_active(c, now) && is_source(c, ifindex)
    &&& step == Step::Continue
    &&& exists|m: Result<Match, Counter>| #[trigger]
        unread(m) && after == counted(before, seq![Counter::Seen, m->Err_0])
}

/// A frame arrived on interface `ifindex`. Whatever the reader, only a
/// genuine frame asks the budget.
pub fn rrb_redirect<R: ReadFrame>(
    config: Option<&Config>,
    now: u64,
    ifindex: u32,
    frame: &R,
    vlan: Vlan,
    counters: &mut Counters,
) -> (step: Step)
    ensures
        ({
            let c = match config {
                Some(c) => Some(*c),
                None => None,
            };
            let a = arrival(c, now, ifindex, frame.bytes(), vlan);
            let before = old(counters).slots@;
            let after = final(counters).slots@;
            &&& (step == a.0 && after == counted(before, a.1)) || (!reliable(frame)
                && unread_arrival(c, now, ifindex, step, before, after))
            &&& step == Step::Admit ==> a.0 == Step::Admit
        }),
{
    let ghost before = counters.slots@;
    assert(counted(before, seq![]) == before);
    counters.count(Counter::Seen);
    assert(seq![].push(Counter::Seen) =~= seq![Counter::Seen]);
    let c: &Config = match config {
        Some(c) => c,
        None => {
            return Step::Continue;
        },
    };
    assert(complaint(*c, now).len() == 0 ==> seq![Counter::Seen] + complaint(*c, now) =~= seq![
        Counter::Seen,
    ]);
    // Wrong ABI/mode, expired, or not arriving on a configured port: leave
    // the frame alone.
    if !active(c, now, counters) || !on_source_port(c, ifindex) {
        return Step::Continue;
    }
    assert(counters.slots@ == counted(before, seq![Counter::Seen]));
    let matched: Match = match classify(frame, vlan, c) {
        Ok(m) => m,
        Err(reason) => {
            counters.count(reason);
            assert(seq![Counter::Seen].push(reason) =~= seq![Counter::Seen, reason]);
            proof {
                let m = Err::<Match, Counter>(reason);
                assert(m == verdict(frame.bytes(), vlan, *c) || unread(m));
            }
            return Step::Continue;
        },
    };
    counters.count(Counter::Matched);
    counters.count(count_of(matched.kind));
    let ghost events = seq![Counter::Seen, Counter::Matched, kind_event(matched.kind)];
    assert(seq![Counter::Seen].push(Counter::Matched).push(kind_event(matched.kind)) =~= events);
    assert(counters.slots@ == counted(before, events));
    if c.mode == MODE_OBSERVE {
        counters.count(Counter::Observed);
        return Step::Continue;
    }
    Step::Admit
}

/// What the budget's answer leads to: the next step, and the events
/// counted. An absent answer stands for a budget that cannot be had.
pub open spec fn admission(answer: Option<Result<(), Counter>>) -> (Step, Seq<Counter>) {
    match answer {
        None => (Step::Continue, seq![Counter::PacketLimit]),
        Some(Err(reason)) => (Step::Continue, seq![reason]),
        Some(Ok(_)) => (Step::Recheck, seq![]),
    }
}

/// The budget was asked.
pub fn admitted(answer: Option<Result<(), Counter>>, counters: &mut Counters) -> (step: Step)
    ensures
        step == admission(answer).0,
        final(counters).slots@ == counted(old(counters).slots@, admission(answer).1),
{
    assert(counted(counters.slots@, seq![]) == counters.slots@);
    let reason: Counter = match answer {
        Some(Ok(_)) => {
            return Step::Recheck;
        },
        Some(Err(reason)) => reason,
        None => Counter::PacketLimit,
    };
    counters.count(reason);
    assert(seq![].push(reason) =~= seq![reason]);
    Step::Continue
}

/// The step after an admitted frame's liveness was checked again.
pub open spec fn recheck_step(c: Config, now: u64) -> Step {
    if is_active(c, now) && c.mode == MODE_FORWARD {
        Step::PopVlan
    } else {
        Step::Continue
    }
}

/// Re-check liveness with a fresh clock: the frame may have queued behind
/// the budget lock past the deadline, and the mode may have been rewritten.
pub fn rechecked(c: &Config, now: u64, counters: &mut Counters) -> (step: Step)
    ensures
        step == recheck_step(*c, now),
        final(counters).slots@ == counted(old(counters).slots@, complaint(*c, now)),
{
    assert(counted(counters.slots@, seq![]) == counters.slots@);
    assert(seq![] + complaint(*c, now) =~= complaint(*c, now));
    if !active(c, now, counters) || c.mode != MODE_FORWARD {
        return Step::Continue;
    }
    Step::PopVlan
}

/// The step after popping the tag.
pub open spec fn pop_step(ok: bool) -> Step {
    if ok {
        Step::CheckType
    } else {
        Step::Drop
    }
}

/// Events of a failed change of the frame.
pub open spec fn pop_failed(failed: bool) -> Seq<Counter> {
    if failed {
        seq![Counter::VlanPopError]
    } else {
        seq![]
    }
}

/// The tag was popped, or could not be. From the first attempt to change the
/// frame on, failures drop it.
pub fn popped(ok: bool, counters: &mut Counters) -> (step: Step)
    ensures
        step == pop_step(ok),
        final(counters).slots@ == counted(old(counters).slots@, pop_failed(!ok)),
{
    assert(counted(counters.slots@, seq![]) == counters.slots@);
    assert(seq![].push(Counter::VlanPopError) =~= seq![Counter::VlanPopError]);
    if !ok {
        counters.count(Counter::VlanPopError);
        return Step::Drop;
    }
    Step::CheckType
}

/// The word at the EtherType's place is the RRB EtherType.
pub open spec fn is_rrb_type(word: Option<[u8; 2]>) -> bool {
    word matches Some(w) && be16(w@, 0) == ETH_P_RRB
}

/// The step after reading the EtherType of the changed frame.
pub open spec fn type_step(c: Config, word: Option<[u8; 2]>) -> Step {
    if is_rrb_type(word) {
        Step::Redirect(c.target_ifindex, REDIRECT_INGRESS)
    } else {
        Step::Drop
    }
}

/// After popping one tag, the EtherType must be RRB's.
pub fn checked(c: &Config, word: Option<[u8; 2]>, counters: &mut Counters) -> (step: Step)
    ensures
        step == type_step(*c, word),
        final(counters).slots@ == counted(
            old(counters).slots@,
            if is_rrb_type(word) {
                seq![Counter::RedirectRequested]
            } else {
                seq![Counter::VlanPopError]
            },
        ),
{
    assert(counted(counters.slots@, seq![]) == counters.slots@);
    assert(seq![].push(Counter::VlanPopError) =~= seq![Counter::VlanPopError]);
    assert(seq![].push(Counter::RedirectRequested) =~= seq![Counter::RedirectRequested]);
    let ok: bool = match word {
        Some(w) => w[0] as u16 * 256 + w[1] as u16 == ETH_P_RRB,
        None => false,
    };
    if !ok {
        counters.count(Counter::VlanPopError);
        return Step::Drop;
    }
    counters.count(Counter::RedirectRequested);
    Step::Redirect(c.target_ifindex, REDIRECT_INGRESS)
}

// ---------------------------------------------------------------------------
// What a whole run keeps.
// ---------------------------------------------------------------------------

/// The answer of a budget that can be had.
pub open spec fn answer_of(c: Config, budget: Option<Budget>, now: u64) -> Option<
    Result<(), Counter>,
> {
    match budget {
        None => None,
        Some(b) => Some(
            match refusal(c, b, now) {
                Some(reason) => Err(reason),
                None => Ok(()),
            },
        ),
    }
}

/// What ends a run. `config` and `now` are read at arrival, `later` and
/// `then_now` once the frame is admitted; `pop_ok` and `word` are what popping
/// the tag and reading the EtherType gave.
pub open spec fn outcome(
    config: Option<Config>,
    now: u64,
    ifindex: u32,
    frame: Seq<u8>,
    vlan: Vlan,
    budget: Option<Budget>,
    later: Config,
    then_now: u64,
    pop_ok: bool,
    word: Option<[u8; 2]>,
) -> Step {
    let arrived = arrival(config, now, ifindex, frame, vlan).0;
    if arrived != Step::Admit {
        arrived
    } else {
        let answered = admission(answer_of(config->0, budget, now)).0;
        if answered != Step::Recheck {
            answered
        } else if recheck_step(later, then_now) != Step::PopVlan {
            recheck_step(later, then_now)
        } else if pop_step(pop_ok) != Step::CheckType {
            pop_step(pop_ok)
        } else {
            type_step(later, word)
        }
    }
}

/// The frame passes every check that comes before it is touched.
pub open spec fn eligible(
    config: Option<Config>,
    now: u64,
    ifindex: u32,
    frame: Seq<u8>,
    vlan: Vlan,
    budget: Option<Budget>,
) -> bool {
    &&& config matches Some(c)
    &&& is_active(c, now)
    &&& c.mode == MODE_FORWARD
    &&& is_source(c, ifindex)
    &&& verdict(frame, vlan, c) is Ok
    &&& budget matches Some(b)
    &&& refusal(c, b, now) is None
}

/// A frame is redirected if and only if it is eligible, forwarding is still
/// on after it was admitted, and popping the tag uncovers the RRB EtherType;
/// it then goes to the receive side of the target. A frame that is not
/// eligible, or no longer wanted, keeps its path unchanged: only a frame
/// past those checks can be dropped.
pub proof fn redirected_if_and_only_if(
    config: Option<Config>,
    now: u64,
    ifindex: u32,
    frame: Seq<u8>,
    vlan: Vlan,
    budget: Option<Budget>,
    later: Config,
    then_now: u64,
    pop_ok: bool,
    word: Option<[u8; 2]>,
)
    ensures
        ({
            let end = outcome(
                config,
                now,
                ifindex,
                frame,
                vlan,
                budget,
                later,
                then_now,
                pop_ok,
                word,
            );
            let wanted = eligible(config, now, ifindex, frame, vlan, budget) && is_active(
                later,
                then_now,
            ) && later.mode == MODE_FORWARD;
            &&& end == Step::Redirect(later.target_ifindex, REDIRECT_INGRESS) <==> wanted && pop_ok
                && is_rrb_type(word)
            &&& end == Step::Drop <==> wanted && !(pop_ok && is_rrb_type(word))
            &&& end == Step::Continue <==> !wanted
        }),
{
}

/// Observing never asks the budget, and so never touches a frame.
pub proof fn observing_touches_nothing(
    c: Config,
    now: u64,
    ifindex: u32,
    frame: Seq<u8>,
    vlan: Vlan,
)
    requires
        c.mode == MODE_OBSERVE,
    ensures
        arrival(Some(c), now, ifindex, frame, vlan).0 == Step::Continue,
{
}

/// Without source ports or peers, switched off, of another ABI, or past its
/// deadline, the action leaves every frame and the budget alone.
pub proof fn fails_closed(c: Config, now: u64, ifindex: u32, frame: Seq<u8>, vlan: Vlan)
    requires
        c.source_count == 0 || c.peer_count == 0 || c.mode == MODE_OFF || c.abi != ABI || (
        c.deadline_ns != 0 && now >= c.deadline_ns),
    ensures
        arrival(Some(c), now, ifindex, frame, vlan).0 == Step::Continue,
{
}

/// How many of the requests at `times` are admitted.
pub open spec fn admissions(c: Config, b: Budget, times: Seq<u64>) -> nat
    decreases times.len(),
{
    if times.len() == 0 {
        0
    } else {
        admissions(c, charged(c, b, times[0]), times.skip(1)) + if refusal(c, b, times[0]) is None {
            1nat
        } else {
            0nat
        }
    }
}

/// Within one second no more than the allowance is admitted, counting what
/// was used of it before.
pub proof fn allowance_per_second(c: Config, b: Budget, times: Seq<u64>)
    requires
        forall|i: int| 0 <= i < times.len() ==> #[trigger] times[i] / NS_PER_SECOND == b.window,
    ensures
        admissions(c, b, times) + b.used <= if b.used <= c.packets_per_second {
            c.packets_per_second as u64
        } else {
            b.used
        },
    decreases times.len(),
{
    if times.len() > 0 {
        let next = charged(c, b, times[0]);
        let rest = times.skip(1);
        assert(times[0] / NS_PER_SECOND == b.window);
        assert forall|i: int| 0 <= i < rest.len() implies #[trigger] rest[i] / NS_PER_SECOND
            == next.window by {
            assert(rest[i] == times[i + 1]);
        }
        allowance_per_second(c, next, rest);
    }
}

/// A lifetime cap is never exceeded, however long the action runs.
pub proof fn lifetime_cap(c: Config, b: Budget, times: Seq<u64>)
    requires
        c.max_packets != 0,
    ensures
        admissions(c, b, times) + b.total <= if b.total <= c.max_packets {
            c.max_packets
        } else {
            b.total
        },
    decreases times.len(),
{
    if times.len() > 0 {
        lifetime_cap(c, charged(c, b, times[0]), times.skip(1));
    }
}

// ---------------------------------------------------------------------------
// When the action acts, in terms of what it is given.
// ---------------------------------------------------------------------------

/// The action may act, and complains of nothing, where the ABI is its own,
/// the mode is to observe or to forward, and there is no deadline or it is
/// still to come; and in no other case.
pub proof fn acts_until_its_deadline(c: Config, now: u64)
    ensures
        c.abi == 3 && (c.mode == 1 || c.mode == 2) && (c.deadline_ns == 0 || now < c.deadline_ns)
            ==> is_active(c, now) && complaint(c, now) == Seq::<Counter>::empty(),
        is_active(c, now) ==> c.abi == 3 && (c.mode == 1 || c.mode == 2) && (c.deadline_ns == 0
            || now < c.deadline_ns),
{
    assert(complaint(c, now).len() == 0 ==> complaint(c, now) =~= Seq::<Counter>::empty());
}

/// What is counted where the action may not act: a foreign ABI or the mode
/// that switches it off as disabled; else a deadline that has come as expired;
/// a mode that is none of the three not at all.
pub proof fn complaints_name_their_cause(c: Config, now: u64)
    ensures
        c.abi != 3 || c.mode == 0 ==> complaint(c, now) == seq![Counter::Disabled],
        c.abi == 3 && c.mode != 0 && 0 < c.deadline_ns <= now ==> complaint(c, now) == seq![
            Counter::Expired,
        ],
        c.abi == 3 && c.mode > 2 && (c.deadline_ns == 0 || now < c.deadline_ns) ==> complaint(
            c,
            now,
        ).len() == 0 && !is_active(c, now),
{
}

/// A frame that the validator accepts, on any of the configured ports of an
/// action that may forward, asks the budget, whatever the port's place in the
/// list; it is counted as seen, as matched and under its message type, and
/// under nothing else.
pub proof fn genuine_frames_ask_the_budget(
    c: Config,
    now: u64,
    i: int,
    frame: Seq<u8>,
    vlan: Vlan,
    m: Match,
)
    requires
        c.abi == 3,
        c.mode == 2,
        c.deadline_ns == 0 || now < c.deadline_ns,
        0 <= i < 8,
        i < c.source_count,
        verdict(frame, vlan, c) == Ok::<Match, Counter>(m),
    ensures
        ({
            let a = arrival(Some(c), now, c.source_ifindexes@[i], frame, vlan);
            &&& a.0 == Step::Admit
            &&& a.1.len() == 3
            &&& a.1[0] == Counter::Seen
            &&& a.1[1] == Counter::Matched
            &&& m.kind == 1 ==> a.1[2] == Counter::Pull
            &&& m.kind == 2 ==> a.1[2] == Counter::Response
            &&& m.kind == 3 ==> a.1[2] == Counter::Push
            &&& m.kind == 4 ==> a.1[2] == Counter::SeqRequest
            &&& m.kind == 5 ==> a.1[2] == Counter::SeqResponse
        }),
{
    acts_until_its_deadline(c, now);
    assert(is_source(c, c.source_ifindexes@[i]));
}

/// An observing action counts a frame just as a forwarding one does, counts
/// it as observed besides, and leaves it alone.
pub proof fn observed_frames_are_counted(
    c: Config,
    now: u64,
    i: int,
    frame: Seq<u8>,
    vlan: Vlan,
    m: Match,
)
    requires
        c.abi == 3,
        c.mode == 1,
        c.deadline_ns == 0 || now < c.deadline_ns,
        0 <= i < 8,
        i < c.source_count,
        verdict(frame, vlan, c) == Ok::<Match, Counter>(m),
    ensures
        ({
            let a = arrival(Some(c), now, c.source_ifindexes@[i], frame, vlan);
            &&& a.0 == Step::Continue
            &&& a.1.len() == 4
            &&& a.1[0] == Counter::Seen
            &&& a.1[1] == Counter::Matched
            &&& m.kind == 1 ==> a.1[2] == Counter::Pull
            &&& m.kind == 2 ==> a.1[2] == Counter::Response
            &&& m.kind == 3 ==> a.1[2] == Counter::Push
            &&& m.kind == 4 ==> a.1[2] == Counter::SeqRequest
            &&& m.kind == 5 ==> a.1[2] == Counter::SeqResponse
            &&& a.1[3] == Counter::Observed
        }),
{
    acts_until_its_deadline(c, now);
    assert(is_source(c, c.source_ifindexes@[i]));
}

/// A frame that the validator refuses, on a configured port of an action that
/// may act, is left alone and counted as seen and under the reason.
pub proof fn refused_frames_are_counted(
    c: Config,
    now: u64,
    i: int,
    frame: Seq<u8>,
    vlan: Vlan,
    reason: Counter,
)
    requires
        c.abi == 3,
        c.mode == 1 || c.mode == 2,
        c.deadline_ns == 0 || now < c.deadline_ns,
        0 <= i < 8,
        i < c.source_count,
        verdict(frame, vlan, c) == Err::<Match, Counter>(reason),
    ensures
        arrival(Some(c), now, c.source_ifindexes@[i], frame, vlan) == (
            Step::Continue,
            seq![Counter::Seen, reason],
        ),
{
    acts_until_its_deadline(c, now);
    assert(is_source(c, c.source_ifindexes@[i]));
}

/// On a port that is not among the configured ones, or with no configuration,
/// a frame is left alone and at most the action's own state is counted.
pub proof fn foreign_ports_are_left_alone(
    c: Config,
    now: u64,
    ifindex: u32,
    frame: Seq<u8>,
    vlan: Vlan,
)
    requires
        forall|i: int|
            0 <= i < 8 && i < c.source_count ==> #[trigger] c.source_ifindexes@[i] != ifindex,
    ensures
        arrival(None, now, ifindex, frame, vlan) == (Step::Continue, seq![Counter::Seen]),
        arrival(Some(c), now, ifindex, frame, vlan).0 == Step::Continue,
        c.abi == 3 && c.mode != 0 && (c.deadline_ns == 0 || now < c.deadline_ns) ==> arrival(
            Some(c),
            now,
            ifindex,
            frame,
            vlan,
        ).1 == seq![Counter::Seen],
{
    assert(!is_source(c, ifindex));
    assert(complaint(c, now).len() == 0 ==> seq![Counter::Seen] + complaint(c, now) =~= seq![
        Counter::Seen,
    ]);
}

/// Where the action may not act, every frame is left alone and counted as
/// seen, and then under what keeps the action from acting.
pub proof fn idle_action_counts_why(
    c: Config,
    now: u64,
    ifindex: u32,
    frame: Seq<u8>,
    vlan: Vlan,
)
    ensures
        c.abi != 3 || c.mode == 0 ==> arrival(Some(c), now, ifindex, frame, vlan) == (
            Step::Continue,
            seq![Counter::Seen, Counter::Disabled],
        ),
        c.abi == 3 && c.mode != 0 && 0 < c.deadline_ns <= now ==> arrival(
            Some(c),
            now,
            ifindex,
            frame,
            vlan,
        ) == (Step::Continue, seq![Counter::Seen, Counter::Expired]),
        c.mode > 2 ==> arrival(Some(c), now, ifindex, frame, vlan).0 == Step::Continue,
{
    let s = seq![Counter::Seen];
    assert(s + seq![Counter::Disabled] =~= seq![Counter::Seen, Counter::Disabled]);
    assert(s + seq![Counter::Expired] =~= seq![Counter::Seen, Counter::Expired]);
}

/// One request to the budget: it is granted exactly where the lifetime cap,
/// if there is one, is not reached and the second's allowance is not used up,
/// a second other than the budget's being a fresh one. A cap that is reached
/// is told before an allowance that is.
pub proof fn requests_are_granted_within_limits(c: Config, b: Budget, now: u64)
    ensures
        c.max_packets > 0 && b.total >= c.max_packets ==> refusal(c, b, now) == Some(
            Counter::PacketLimit,
        ),
        (c.max_packets == 0 || b.total < c.max_packets) && b.window == now as int / 1_000_000_000
            && b.used >= c.packets_per_second ==> refusal(c, b, now) == Some(Counter::RateLimited),
        (c.max_packets == 0 || b.total < c.max_packets) && c.packets_per_second == 0 ==> refusal(
            c,
            b,
            now,
        ) == Some(Counter::RateLimited),
        (c.max_packets == 0 || b.total < c.max_packets) && b.window == now as int / 1_000_000_000
            && b.used < c.packets_per_second ==> refusal(c, b, now) is None,
        (c.max_packets == 0 || b.total < c.max_packets) && b.window != now as int / 1_000_000_000
            && c.packets_per_second > 0 ==> refusal(c, b, now) is None,
{
}

/// What a request leaves of the budget: the second of the request, one more
/// used and in total if it was granted and no more if it was not, and nothing
/// of an earlier second. Nothing else in it changes.
pub proof fn requests_are_accounted(c: Config, b: Budget, now: u64)
    ensures
        charged(c, b, now).window == now as int / 1_000_000_000,
        charged(c, b, now).lock == b.lock,
        charged(c, b, now).reserved == b.reserved,
        refusal(c, b, now) is Some ==> charged(c, b, now).total == b.total,
        refusal(c, b, now) is None && b.total < u64::MAX ==> charged(c, b, now).total == b.total
            + 1,
        refusal(c, b, now) is None && b.total == u64::MAX ==> charged(c, b, now).total == 0,
        b.window == now as int / 1_000_000_000 ==> charged(c, b, now).used == b.used + (
        if refusal(c, b, now) is None {
            1int
        } else {
            0
        }),
        b.window != now as int / 1_000_000_000 ==> charged(c, b, now).used == (if refusal(
            c,
            b,
            now,
        ) is None {
            1int
        } else {
            0
        }),
{
}

/// Without a lifetime cap every request of a second is granted until the
/// allowance is used up: as many as there are requests, or as the allowance
/// leaves.
pub proof fn allowance_is_granted(c: Config, b: Budget, times: Seq<u64>)
    requires
        c.max_packets == 0,
        b.used <= c.packets_per_second,
        forall|i: int| 0 <= i < times.len() ==> #[trigger] times[i] as int / 1_000_000_000
            == b.window,
    ensures
        admissions(c, b, times) == if times.len() <= c.packets_per_second - b.used {
            times.len() as int
        } else {
            c.packets_per_second - b.used
        },
    decreases times.len(),
{
    if times.len() > 0 {
        let next = charged(c, b, times[0]);
        let rest = times.skip(1);
        requests_are_granted_within_limits(c, b, times[0]);
        requests_are_accounted(c, b, times[0]);
        assert(times[0] as int / 1_000_000_000 == b.window);
        assert forall|i: int| 0 <= i < rest.len() implies #[trigger] rest[i] as int / 1_000_000_000
            == next.window by {
            assert(rest[i] == times[i + 1]);
        }
        allowance_is_granted(c, next, rest);
    }
}

/// Counting on after counting round is counting round once more.
proof fn next_wraps(n: int)
    ensures
        (n % 0x1_0000_0000_0000_0000 + 1) % 0x1_0000_0000_0000_0000 == (n + 1)
            % 0x1_0000_0000_0000_0000,
{
}

/// A slot holds how often its event came, on top of what it held, counting
/// round at the width of a slot.
#[verifier::spinoff_prover]
pub proof fn slots_hold_occurrences(slots: Seq<u64>, events: Seq<Counter>, e: Counter)
    requires
        slots.len() == 23,
    ensures
        counted(slots, events).len() == 23,
        counted(slots, events)[e.slot()] == (slots[e.slot()] + events.filter(
            |x: Counter| x == e,
        ).len()) % 0x1_0000_0000_0000_0000,
    decreases events.len(),
{
    reveal(Seq::filter);
    slots_are_distinct(e, e);
    if events.len() > 0 {
        let rest = events.drop_last();
        slots_hold_occurrences(slots, rest, e);
        let n = rest.filter(|x: Counter| x == e).len();
        slots_are_distinct(e, events.last());
        slots_are_distinct(events.last(), e);
        next_wraps((slots[e.slot()] + n) as int);
    }
}

/// The tag's protocol is the low half of its word as it lies in memory, the
/// more significant octet first; its control information is the low half of
/// its word.
#[verifier::spinoff_prover]
pub proof fn tags_are_read_from_memory(present: u32, proto: u32, tci: u32)
    ensures
        ({
            let v = skb_vlan(ByteOrder::Little, present, proto, tci);
            &&& v.present <==> present != 0
            &&& v.proto == 256 * (proto as int % 256) + proto as int / 256 % 256
            &&& v.tci == tci as int % 65536
        }),
        ({
            let v = skb_vlan(ByteOrder::Big, present, proto, tci);
            &&& v.present <==> present != 0
            &&& v.proto == proto as int % 65536
            &&& v.tci == tci as int % 65536
        }),
{
    let p = (proto % 65536) as u16;
    octets_of_16_bit_field(bytes16(ByteOrder::Little, p), 0);
    octets_of_16_bit_field(bytes16(ByteOrder::Big, p), 0);
    assert(bytes16(ByteOrder::Big, p)[0] == bytes16(ByteOrder::Little, p)[1]);
    assert(bytes16(ByteOrder::Big, p)[1] == bytes16(ByteOrder::Little, p)[0]);
}

/// A genuine frame that the budget grants is redirected to the receive side
/// of the target, where the action still forwards once it was admitted, the
/// tag comes off and the RRB EtherType lies behind it.
pub proof fn genuine_frames_are_redirected(
    c: Config,
    now: u64,
    i: int,
    frame: Seq<u8>,
    vlan: Vlan,
    b: Budget,
    later: Config,
    then_now: u64,
    word: [u8; 2],
)
    requires
        c.abi == 3 && c.mode == 2 && (c.deadline_ns == 0 || now < c.deadline_ns),
        0 <= i < 8,
        i < c.source_count,
        verdict(frame, vlan, c) is Ok,
        c.max_packets == 0 || b.total < c.max_packets,
        b.window == now as int / 1_000_000_000 ==> b.used < c.packets_per_second,
        c.packets_per_second > 0,
        later.abi == 3 && later.mode == 2 && (later.deadline_ns == 0 || then_now
            < later.deadline_ns),
    ensures
        outcome(
            Some(c),
            now,
            c.source_ifindexes@[i],
            frame,
            vlan,
            Some(b),
            later,
            then_now,
            true,
            Some(word),
        ) == if word@[0] == 0x88 && word@[1] == 0xb7 {
            Step::Redirect(later.target_ifindex, 1)
        } else {
            Step::Drop
        },
        outcome(
            Some(c),
            now,
            c.source_ifindexes@[i],
            frame,
            vlan,
            Some(b),
            later,
            then_now,
            true,
            None,
        ) == Step::Drop,
        outcome(
            Some(c),
            now,
            c.source_ifindexes@[i],
            frame,
            vlan,
            Some(b),
            later,
            then_now,
            false,
            Some(word),
        ) == Step::Drop,
        outcome(
            Some(c),
            now,
            c.source_ifindexes@[i],
            frame,
            vlan,
            None,
            later,
            then_now,
            true,
            Some(word),
        ) == Step::Continue,
{
    acts_until_its_deadline(c, now);
    acts_until_its_deadline(later, then_now);
    requests_are_granted_within_limits(c, b, now);
    assert(is_source(c, c.source_ifindexes@[i]));
}

/// What each answer of the budget, of popping and of reading the EtherType is
/// counted under; a budget that cannot be had counts as a cap that is
/// reached. Only an admitted frame goes on.
pub proof fn answers_are_counted(reason: Counter, later: Config, then_now: u64)
    ensures
        admission(None) == (Step::Continue, seq![Counter::PacketLimit]),
        admission(Some(Err(reason))) == (Step::Continue, seq![reason]),
        admission(Some(Ok(()))).0 == Step::Recheck,
        admission(Some(Ok(()))).1.len() == 0,
        recheck_step(later, then_now) == Step::PopVlan <==> later.abi == 3 && later.mode == 2 && (
        later.deadline_ns == 0 || then_now < later.deadline_ns),
        recheck_step(later, then_now) != Step::PopVlan ==> recheck_step(later, then_now)
            == Step::Continue,
        pop_step(true) == Step::CheckType,
        pop_step(false) == Step::Drop,
        pop_failed(true) == seq![Counter::VlanPopError],
        pop_failed(false).len() == 0,
{
}

/// A frame that cannot be read is left alone, and is counted as seen and as
/// refused for its length, its tag or its elements; and that only by an action
/// that may act, on a configured port.
pub proof fn unread_frames_are_left_alone(
    config: Option<Config>,
    now: u64,
    ifindex: u32,
    step: Step,
    before: Seq<u64>,
    after: Seq<u64>,
)
    requires
        unread_arrival(config, now, ifindex, step, before, after),
    ensures
        step == Step::Continue,
        config is Some,
        config->0.abi == 3,
        config->0.mode == 1 || config->0.mode == 2,
        config->0.deadline_ns == 0 || now < config->0.deadline_ns,
        exists|i: int|
            0 <= i < 8 && i < config->0.source_count && #[trigger] config->0.source_ifindexes@[i]
                == ifindex,
        after == counted(before, seq![Counter::Seen, Counter::Length]) || after == counted(
            before,
            seq![Counter::Seen, Counter::Vlan],
        ) || after == counted(before, seq![Counter::Seen, Counter::Tlv]),
{
    acts_until_its_deadline(config->0, now);
}

/// Verdicts and flags are numbered as the kernel numbers them.
pub proof fn verdicts_are_the_kernels()
    ensures
        CONTINUE == -1,
        DROP == 2,
        REDIRECT_INGRESS == 1,
{
}

} // verus!
