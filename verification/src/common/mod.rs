//! The map ABI that the loader and the kernel-side action share, and the
//! bounded protocol parser.
pub mod laws;
pub mod parse;

use vstd::prelude::*;

verus! {

/// Version tag of the `Config`/`Budget` map ABI. Bumped whenever a field is
/// added, removed, or re-typed; the action refuses to act on a `Config`
/// whose `abi` does not match, and the loader refuses to read an old one.
pub const ABI: u32 = 3;

/// Upper bound on configured peer APs.
pub const MAX_PEERS: usize = 8;

/// Upper bound on switch-facing source interfaces.
pub const MAX_SOURCES: usize = 8;

/// Largest Ethernet frame ever inspected, in bytes.
pub const MAX_FRAME: usize = 2048;

/// Upper bound on TLVs inside one RRB auth-data block.
pub const MAX_TLVS: usize = 16;

/// Maximum R0KH-ID length in octets, as fixed by IEEE 802.11r.
pub const MAX_R0KH: usize = 48;

/// Action disabled: every frame passes through untouched.
pub const MODE_OFF: u32 = 0;

/// Match and count, but never mutate or redirect.
pub const MODE_OBSERVE: u32 = 1;

/// Match, count, strip the management VLAN tag, and redirect into the bridge.
pub const MODE_FORWARD: u32 = 2;

/// One peer AP allowed to source RRB traffic toward us.
#[derive(Clone, Copy, Debug)]
pub struct Peer {
    /// MAC address the peer puts in the Ethernet source field.
    pub mac: [u8; 6],
    /// BSSID the peer must claim inside the RRB header.
    pub bssid: [u8; 6],
}

impl Default for Peer {
    fn default() -> (p: Self)
        ensures
            p.mac@ == Seq::new(6, |i: int| 0u8),
            p.bssid@ == Seq::new(6, |i: int| 0u8),
    {
        let p = Peer { mac: [0; 6], bssid: [0; 6] };
        assert(p.mac@ =~= Seq::new(6, |i: int| 0u8));
        assert(p.bssid@ =~= Seq::new(6, |i: int| 0u8));
        p
    }
}

/// Runtime configuration, written by the loader into the single-entry
/// `CONFIG` map and read by the action on every frame.
#[derive(Clone, Copy, Debug)]
pub struct Config {
    /// Absolute monotonic deadline in nanoseconds; 0 means no deadline.
    pub deadline_ns: u64,
    /// Lifetime cap on redirected packets; 0 means unlimited.
    pub max_packets: u64,
    /// Must equal `ABI`, else the action treats itself as disabled.
    pub abi: u32,
    /// One of `MODE_OFF` / `MODE_OBSERVE` / `MODE_FORWARD`.
    pub mode: u32,
    /// ifindexes of the switch-facing interfaces the action is attached to;
    /// only the first `source_count` are in use.
    pub source_ifindexes: [u32; MAX_SOURCES],
    /// ifindex of the redirect target, the bridge that hostapd listens on.
    pub target_ifindex: u32,
    /// Redirects allowed per 1-second window, shared across all CPUs.
    pub packets_per_second: u32,
    /// 802.1Q VID of the management network the frame must be tagged with.
    pub management_vlan: u16,
    /// Number of valid entries in `peers` (0..=MAX_PEERS).
    pub peer_count: u8,
    /// Number of valid bytes in `r0kh` (0..=MAX_R0KH).
    pub r0kh_len: u8,
    /// Number of valid entries in `source_ifindexes` (0..=MAX_SOURCES).
    /// 0 matches nothing: fail-closed until the loader writes real ports.
    pub source_count: u8,
    /// MAC of the redirect target; unicast RRB frames must be addressed here.
    pub target_mac: [u8; 6],
    /// BSSID of the local AP; unicast RRB destination BSS must match it.
    pub local_bssid: [u8; 6],
    /// Expected R0KH-ID, checked only for broadcast PULL/SEQ_REQ frames.
    pub r0kh: [u8; MAX_R0KH],
    /// Peers allowed to send us RRB frames; only the first `peer_count` used.
    pub peers: [Peer; MAX_PEERS],
}

impl Default for Config {
    fn default() -> (c: Self)
        ensures
            c.deadline_ns == 0,
            c.max_packets == 0,
            c.abi == ABI,
            c.mode == MODE_OFF,
            c.source_ifindexes@ == Seq::new(MAX_SOURCES as nat, |i: int| 0u32),
            c.target_ifindex == 0,
            c.packets_per_second == 20,
            c.management_vlan == 1,
            c.peer_count == 0,
            c.r0kh_len == 0,
            c.source_count == 0,
            c.target_mac@ == Seq::new(6, |i: int| 0u8),
            c.local_bssid@ == Seq::new(6, |i: int| 0u8),
            c.r0kh@ == Seq::new(MAX_R0KH as nat, |i: int| 0u8),
            forall|i: int|
                0 <= i < MAX_PEERS ==> (#[trigger] c.peers@[i]).mac@ == Seq::new(6, |k: int| 0u8),
            forall|i: int|
                0 <= i < MAX_PEERS ==> (#[trigger] c.peers@[i]).bssid@ == Seq::new(
                    6,
                    |k: int| 0u8,
                ),
    {
        let p: Peer = Peer::default();
        let c = Config {
            deadline_ns: 0,
            max_packets: 0,
            abi: ABI,
            mode: MODE_OFF,
            source_ifindexes: [0; MAX_SOURCES],
            target_ifindex: 0,
            packets_per_second: 20,  // sane floor: FT bursts are a few frames
            management_vlan: 1,  // UDR management VLAN
            peer_count: 0,
            r0kh_len: 0,
            source_count: 0,
            target_mac: [0; 6],
            local_bssid: [0; 6],
            r0kh: [0; MAX_R0KH],
            peers: [p, p, p, p, p, p, p, p],
        };
        assert(c.source_ifindexes@ =~= Seq::new(MAX_SOURCES as nat, |i: int| 0u32));
        assert(c.target_mac@ =~= Seq::new(6, |i: int| 0u8));
        assert(c.local_bssid@ =~= Seq::new(6, |i: int| 0u8));
        assert(c.r0kh@ =~= Seq::new(MAX_R0KH as nat, |i: int| 0u8));
        c
    }
}

/// Shared rate-limit state, living in a single-entry map whose BTF
/// description marks `lock` as a kernel `bpf_spin_lock`.
#[derive(Clone, Copy, Debug, PartialEq, Eq, Structural)]
pub struct Budget {
    /// Kernel-managed spinlock word.
    pub lock: u32,
    /// Spare, must be 0.
    pub reserved: u32,
    /// Current 1-second window; a new window resets `used`.
    pub window: u64,
    /// Redirects already admitted in the current window.
    pub used: u64,
    /// Lifetime total of admitted redirects.
    pub total: u64,
}

impl Default for Budget {
    fn default() -> (b: Self)
        ensures
            b == (Budget { lock: 0, reserved: 0, window: 0, used: 0, total: 0 }),
    {
        Budget { lock: 0, reserved: 0, window: 0, used: 0, total: 0 }
    }
}

/// One slot per event in the `COUNTERS` per-CPU map.
#[derive(Clone, Copy, Debug, PartialEq, Eq, Structural)]
pub enum Counter {
    /// Every frame the action runs on.
    Seen,
    /// Config ABI/mode said "disabled".
    Disabled,
    /// `deadline_ns` passed.
    Expired,
    /// Frame too short/long to even be Ethernet + RRB.
    Length,
    /// Wrong/missing/extra VLAN tag or wrong VID.
    Vlan,
    /// Ethernet dst not us/broadcast, or src not a configured peer.
    EtherAddress,
    /// Not the RRB OUI+protocol, or unknown message type.
    OuiType,
    /// RRB source BSS does not match the peer's BSSID.
    SourceBss,
    /// RRB destination BSS is neither broadcast nor our BSSID.
    DestinationBss,
    /// Auth-data length overruns the frame.
    AuthLength,
    /// Malformed TLV stream (truncated, duplicate, or overrun).
    Tlv,
    /// Broadcast frame failing the R0KH-ID / message-type restriction.
    BroadcastScope,
    /// Passed all checks: genuinely an RRB frame for us.
    Matched,
    /// Matched while in observe mode (counted, left on the original path).
    Observed,
    /// Matched but over the per-second budget.
    RateLimited,
    /// Matched but the lifetime packet budget is exhausted.
    PacketLimit,
    /// VLAN pop or post-pop sanity check failed; frame dropped.
    VlanPopError,
    /// Redirect issued toward the bridge.
    RedirectRequested,
    /// Matched message types 1..=5 (802.11r RRB over Ethernet).
    Pull,
    Response,
    Push,
    SeqRequest,
    SeqResponse,
}

/// Number of counter slots.
pub const COUNTER_COUNT: usize = 23;

/// Names in the exact order of the counter slots.
pub const COUNTER_NAMES: [&'static str; COUNTER_COUNT] = [
    "seen",
    "disabled",
    "expired",
    "reject_length",
    "reject_vlan",
    "reject_ether_address",
    "reject_oui_or_type",
    "reject_source_bss",
    "reject_destination_bss",
    "reject_auth_length",
    "reject_tlv",
    "reject_broadcast_scope",
    "matched",
    "observed",
    "rate_limited",
    "packet_limit",
    "vlan_pop_error",
    "redirect_requested",
    "pull",
    "response",
    "push",
    "seq_request",
    "seq_response",
];

impl Counter {
    /// Slot of the counter in the `COUNTERS` map.
    pub open spec fn slot(self) -> int {
        match self {
            Counter::Seen => 0,
            Counter::Disabled => 1,
            Counter::Expired => 2,
            Counter::Length => 3,
            Counter::Vlan => 4,
            Counter::EtherAddress => 5,
            Counter::OuiType => 6,
            Counter::SourceBss => 7,
            Counter::DestinationBss => 8,
            Counter::AuthLength => 9,
            Counter::Tlv => 10,
            Counter::BroadcastScope => 11,
            Counter::Matched => 12,
            Counter::Observed => 13,
            Counter::RateLimited => 14,
            Counter::PacketLimit => 15,
            Counter::VlanPopError => 16,
            Counter::RedirectRequested => 17,
            Counter::Pull => 18,
            Counter::Response => 19,
            Counter::Push => 20,
            Counter::SeqRequest => 21,
            Counter::SeqResponse => 22,
        }
    }

    /// Slot of the counter in the `COUNTERS` map.
    pub fn index(self) -> (i: usize)
        ensures
            i == self.slot(),
            i < COUNTER_COUNT,
    {
        match self {
            Counter::Seen => 0,
            Counter::Disabled => 1,
            Counter::Expired => 2,
            Counter::Length => 3,
            Counter::Vlan => 4,
            Counter::EtherAddress => 5,
            Counter::OuiType => 6,
            Counter::SourceBss => 7,
            Counter::DestinationBss => 8,
            Counter::AuthLength => 9,
            Counter::Tlv => 10,
            Counter::BroadcastScope => 11,
            Counter::Matched => 12,
            Counter::Observed => 13,
            Counter::RateLimited => 14,
            Counter::PacketLimit => 15,
            Counter::VlanPopError => 16,
            Counter::RedirectRequested => 17,
            Counter::Pull => 18,
            Counter::Response => 19,
            Counter::Push => 20,
            Counter::SeqRequest => 21,
            Counter::SeqResponse => 22,
        }
    }
}

/// No two counters share a slot.
pub proof fn slots_are_distinct(a: Counter, b: Counter)
    ensures
        a.slot() == b.slot() ==> a == b,
        0 <= a.slot() < COUNTER_COUNT,
{
}

/// The name in a counter's slot is the counter's own.
pub proof fn slots_bear_their_names(c: Counter)
    ensures
        COUNTER_NAMES@[c.slot()]@ == match c {
            Counter::Seen => "seen"@,
            Counter::Disabled => "disabled"@,
            Counter::Expired => "expired"@,
            Counter::Length => "reject_length"@,
            Counter::Vlan => "reject_vlan"@,
            Counter::EtherAddress => "reject_ether_address"@,
            Counter::OuiType => "reject_oui_or_type"@,
            Counter::SourceBss => "reject_source_bss"@,
            Counter::DestinationBss => "reject_destination_bss"@,
            Counter::AuthLength => "reject_auth_length"@,
            Counter::Tlv => "reject_tlv"@,
            Counter::BroadcastScope => "reject_broadcast_scope"@,
            Counter::Matched => "matched"@,
            Counter::Observed => "observed"@,
            Counter::RateLimited => "rate_limited"@,
            Counter::PacketLimit => "packet_limit"@,
            Counter::VlanPopError => "vlan_pop_error"@,
            Counter::RedirectRequested => "redirect_requested"@,
            Counter::Pull => "pull"@,
            Counter::Response => "response"@,
            Counter::Push => "push"@,
            Counter::SeqRequest => "seq_request"@,
            Counter::SeqResponse => "seq_response"@,
        },
{
}

} // verus!
