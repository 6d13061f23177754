//! Pure relay logic: untagging, kind counters, and the rate limiter.
use vstd::prelude::*;
use vstd::slice::slice_to_vec;
use vstd::slice::slice_subrange;
use vstd::string::*;
use crate::proto::parse::{
    Vlan, ETH_TYPE_OFFSET, KIND_PULL, KIND_PUSH, KIND_RESPONSE, KIND_SEQ_REQUEST,
    KIND_SEQ_RESPONSE, VLAN_TAG_LEN,
};
use crate::proto::{Counter, COUNTER_NAMES};
use crate::text;

verus! {

/// The frame without its management tag: itself where the tag is in metadata,
/// else without the bytes 12..16.
pub open spec fn untagged(frame: Seq<u8>, vlan: Vlan) -> Seq<u8> {
    if vlan.present {
        frame
    } else {
        frame.take(12) + frame.skip(16)
    }
}

/// Strip the management VLAN tag before injection. Frames that passed the
/// parser carry the tag in exactly one of the two representations.
pub fn untag(frame: &[u8], vlan: Vlan) -> (out: Vec<u8>)
    requires
        !vlan.present ==> frame@.len() >= 16,
    ensures
        out@ == untagged(frame@, vlan),
{
    if vlan.present {
        slice_to_vec(frame)
    } else {
        let mut out: Vec<u8> = slice_to_vec(slice_subrange(frame, 0, ETH_TYPE_OFFSET));
        let mut rest: Vec<u8> = slice_to_vec(
            slice_subrange(frame, ETH_TYPE_OFFSET + VLAN_TAG_LEN, frame.len()),
        );
        out.append(&mut rest);
        assert(out@ =~= untagged(frame@, vlan));
        out
    }
}

/// Counter of an RRB message type.
pub open spec fn counter_of_kind(kind: u8) -> Counter {
    if kind == KIND_PULL {
        Counter::Pull
    } else if kind == KIND_RESPONSE {
        Counter::Response
    } else if kind == KIND_PUSH {
        Counter::Push
    } else if kind == KIND_SEQ_REQUEST {
        Counter::SeqRequest
    } else {
        Counter::SeqResponse
    }
}

/// Map an RRB message type to its counter slot.
pub fn kind_counter(kind: u8) -> (c: Counter)
    ensures
        c == counter_of_kind(kind),
{
    match kind {
        KIND_PULL => Counter::Pull,
        KIND_RESPONSE => Counter::Response,
        KIND_PUSH => Counter::Push,
        KIND_SEQ_REQUEST => Counter::SeqRequest,
        _ => Counter::SeqResponse,
    }
}

/// Name of an RRB message type.
pub open spec fn name_of_kind(kind: u8) -> Seq<char> {
    if kind == KIND_PULL {
        "pull"@
    } else if kind == KIND_RESPONSE {
        "response"@
    } else if kind == KIND_PUSH {
        "push"@
    } else if kind == KIND_SEQ_REQUEST {
        "seq_request"@
    } else if kind == KIND_SEQ_RESPONSE {
        "seq_response"@
    } else {
        "unknown"@
    }
}

/// Human-readable name of an RRB message type, for logs.
pub fn kind_name(kind: u8) -> (s: &'static str)
    ensures
        s@ == name_of_kind(kind),
{
    match kind {
        KIND_PULL => "pull",
        KIND_RESPONSE => "response",
        KIND_PUSH => "push",
        KIND_SEQ_REQUEST => "seq_request",
        KIND_SEQ_RESPONSE => "seq_response",
        _ => "unknown",
    }
}

/// A MAC address as text: two lowercase hex digits per octet, colons between.
pub open spec fn mac_text(m: Seq<u8>) -> Seq<char> {
    Seq::new(
        17,
        |i: int|
            if i % 3 == 0 {
                text::digit(m[i / 3] as int / 16)
            } else if i % 3 == 1 {
                text::digit(m[i / 3] as int % 16)
            } else {
                ':'
            },
    )
}

/// "xx:xx:xx:xx:xx:xx", lowercase hex.
pub fn mac_string(mac: &[u8; 6]) -> (s: String)
    ensures
        s@ == mac_text(mac@),
{
    let mut s: String = String::new();
    let mut i: usize = 0;
    proof {
        reveal_strlit(":");
    }
    while i < 6
        invariant
            i <= 6,
            ":"@ == seq![':'],
            s@ == mac_text(mac@).take(if i == 6 {
                17
            } else {
                3 * i as int
            }),
        decreases 6 - i,
    {
        text::append_hex(&mut s, mac[i]);
        if i < 5 {
            s.append(":");
        }
        proof {
            let one = seq![mac@[i as int]];
            let h = text::hex(one);
            assert(h.len() == 2);
            assert(h[0] == text::digit(mac@[i as int] as int / 16));
            assert(h[1] == text::digit(mac@[i as int] as int % 16));
            let m = mac_text(mac@);
            assert(m[3 * i as int] == h[0]);
            assert(m[3 * i + 1] == h[1]);
            if i < 5 {
                assert(m[3 * i + 2] == ':');
                assert(s@ =~= m.take(3 * i + 3));
            } else {
                assert(s@ =~= m.take(17));
            }
        }
        i += 1;
    }
    assert(s@ =~= mac_text(mac@));
    s
}

/// State of the rate limiter.
pub struct LimiterState {
    /// Second that `used` counts in.
    pub window: u64,
    /// Frames admitted in that second.
    pub used: u64,
    /// Frames allowed per second.
    pub per_second: u32,
}

impl LimiterState {
    /// The state at second `now`: a new second starts at zero.
    pub open spec fn at(self, now: u64) -> LimiterState {
        if self.window == now {
            self
        } else {
            LimiterState { window: now, used: 0, per_second: self.per_second }
        }
    }

    /// Whether a frame is admitted at second `now`.
    pub open spec fn admits(self, now: u64) -> bool {
        self.at(now).used < self.per_second
    }

    /// The state after a frame at second `now`.
    pub open spec fn after(self, now: u64) -> LimiterState {
        if self.admits(now) {
            LimiterState { used: (self.at(now).used + 1) as u64, ..self.at(now) }
        } else {
            self.at(now)
        }
    }

    /// How many of `n` frames, all at second `now`, are admitted.
    pub open spec fn admitted(self, now: u64, n: nat) -> nat
        decreases n,
    {
        if n == 0 {
            0
        } else {
            self.after(now).admitted(now, (n - 1) as nat) + if self.admits(now) {
                1nat
            } else {
                0nat
            }
        }
    }
}

/// Fixed-window (not token bucket) rate limiter over a seconds counter.
pub struct Limiter {
    window: u64,
    used: u64,
    per_second: u32,
}

impl View for Limiter {
    type V = LimiterState;

    closed spec fn view(&self) -> LimiterState {
        LimiterState { window: self.window, used: self.used, per_second: self.per_second }
    }
}

impl Limiter {
    /// A limiter that has admitted nothing yet.
    pub fn new(per_second: u32) -> (l: Self)
        ensures
            l@ == (LimiterState { window: u64::MAX, used: 0, per_second: per_second }),
    {
        // A window no clock reaches forces a reset on the first admit.
        Limiter { window: u64::MAX, used: 0, per_second: per_second }
    }

    /// Admit one frame at second `now_secs`, or name the counter of the
    /// refusal.
    pub fn admit_frame(&mut self, now_secs: u64) -> (r: Result<(), Counter>)
        ensures
            r == (if old(self)@.admits(now_secs) {
                Ok::<(), Counter>(())
            } else {
                Err::<(), Counter>(Counter::RateLimited)
            }),
            final(self)@ == old(self)@.after(now_secs),
    {
        if self.window != now_secs {
            self.window = now_secs;
            self.used = 0;
        }
        if self.used >= self.per_second as u64 {
            return Err(Counter::RateLimited);
        }
        self.used += 1;
        Ok(())
    }
}

/// In one second exactly the allowance is admitted: of `n` frames within a
/// second that the limiter has admitted `s.at(now).used` frames in, all go
/// through until the allowance is used up, and none after that.
pub proof fn allowance_per_window(s: LimiterState, now: u64, n: nat)
    requires
        s.at(now).used <= s.per_second,
    ensures
        s.admitted(now, n) == if n <= s.per_second - s.at(now).used {
            n as int
        } else {
            s.per_second - s.at(now).used
        },
    decreases n,
{
    if n > 0 {
        allowance_per_window(s.after(now), now, (n - 1) as nat);
    }
}

/// A new second brings a fresh allowance, whatever came before.
pub proof fn window_starts_afresh(s: LimiterState, now: u64, n: nat)
    requires
        s.window != now,
        n <= s.per_second,
    ensures
        s.admitted(now, n) == n,
{
    allowance_per_window(s, now, n);
}

/// No sequence of frames brings a limiter over its allowance.
pub proof fn allowance_is_kept(s: LimiterState, now: u64)
    requires
        s.used <= s.per_second,
    ensures
        s.after(now).used <= s.after(now).per_second,
        s.after(now).per_second == s.per_second,
{
}

/// Untagging takes out the four bytes of an inline tag behind the addresses
/// and nothing else; a frame whose tag is in metadata is left as it is.
pub proof fn untagging_takes_out_the_tag(frame: Seq<u8>, vlan: Vlan)
    requires
        !vlan.present ==> frame.len() >= 16,
    ensures
        vlan.present ==> untagged(frame, vlan) == frame,
        !vlan.present ==> untagged(frame, vlan).len() == frame.len() - 4,
        !vlan.present ==> forall|i: int| 0 <= i < 12 ==> untagged(frame, vlan)[i] == frame[i],
        !vlan.present ==> forall|i: int|
            12 <= i < frame.len() - 4 ==> #[trigger] untagged(frame, vlan)[i] == frame[i + 4],
{
}

/// Every message type has a counter and a name of its own.
pub proof fn kinds_are_told_apart(a: u8, b: u8)
    requires
        1 <= a <= 5,
        1 <= b <= 5,
        a != b,
    ensures
        counter_of_kind(a) != counter_of_kind(b),
        name_of_kind(a) != name_of_kind(b),
        COUNTER_NAMES@[counter_of_kind(a).slot()]@ == name_of_kind(a),
        counter_of_kind(1) == Counter::Pull,
        counter_of_kind(2) == Counter::Response,
        counter_of_kind(3) == Counter::Push,
        counter_of_kind(4) == Counter::SeqRequest,
        counter_of_kind(5) == Counter::SeqResponse,
{
    reveal_strlit("pull");
    reveal_strlit("response");
    reveal_strlit("push");
    reveal_strlit("seq_request");
    reveal_strlit("seq_response");
    assert("pull"@[2] == 'l' && "push"@[2] == 's');
    assert("pull"@.len() == 4 && "push"@.len() == 4 && "response"@.len() == 8);
    assert("seq_request"@.len() == 11 && "seq_response"@.len() == 12);
}

/// An address is written as two lowercase hex digits per octet with colons
/// between them.
pub proof fn addresses_are_written_in_pairs(m: Seq<u8>, i: int)
    requires
        m.len() == 6,
        0 <= i < 6,
    ensures
        mac_text(m).len() == 17,
        mac_text(m).subrange(3 * i, 3 * i + 2) == text::hex(m).subrange(2 * i, 2 * i + 2),
        i < 5 ==> mac_text(m)[3 * i + 2] == ':',
{
    let t = mac_text(m);
    let h = text::hex(m);
    assert((3 * i) % 3 == 0 && (3 * i + 1) % 3 == 1 && (3 * i) / 3 == i && (3 * i + 1) / 3 == i);
    assert((2 * i) / 2 == i && (2 * i + 1) / 2 == i && (2 * i + 1) % 2 == 1);
    assert(t[3 * i] == h[2 * i]);
    assert(t[3 * i + 1] == h[2 * i + 1]);
    assert(t.subrange(3 * i, 3 * i + 2) =~= h.subrange(2 * i, 2 * i + 2));
}

/// In the second it counts, a limiter admits a frame while less than the
/// allowance is used, and counts it; in any other second it starts at zero.
/// A refused frame is not counted, and the allowance never changes.
pub proof fn limiter_counts_within_a_second(s: LimiterState, now: u64)
    ensures
        now == s.window ==> (s.admits(now) <==> s.used < s.per_second),
        now != s.window ==> (s.admits(now) <==> 0 < s.per_second),
        s.after(now).window == now,
        s.after(now).per_second == s.per_second,
        s.after(now).used == (if now == s.window {
            s.used as int
        } else {
            0
        }) + (if s.admits(now) {
            1int
        } else {
            0
        }),
{
}

} // verus!
