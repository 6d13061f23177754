//! RRB protocol model and validator of the userspace relay.
//!
//! Frames are captured passively, validated here against the configured
//! [`Filter`], untagged, and injected into a relay TAP whose TC `mirred`
//! rule forwards them into the bridge. This module is the frame validator
//! ([`parse`]) plus the [`Counter`] vocabulary the daemon reports with.
pub mod laws;
pub mod parse;

use vstd::prelude::*;

verus! {

/// Upper bound on configured peer APs.
pub const MAX_PEERS: usize = 8;

/// Upper bound on local AP interfaces (BSSes) this relay serves.
pub const MAX_LOCALS: usize = 8;

/// Largest Ethernet frame ever inspected, in bytes.
pub const MAX_FRAME: usize = 2048;

/// Upper bound on TLVs inside one RRB auth-data block.
pub const MAX_TLVS: usize = 16;

/// Maximum R0KH-ID length in octets, as fixed by IEEE 802.11r.
pub const MAX_R0KH: usize = 48;

/// Upper bound on BSSIDs one peer may claim in the RRB header.
pub const MAX_PEER_BSSIDS: usize = 8;

/// `n` zero bytes.
pub open spec fn zeros(n: nat) -> Seq<u8> {
    Seq::new(n, |i: int| 0u8)
}

/// One peer AP allowed to source RRB traffic toward us.
#[derive(Clone, Copy, Debug)]
pub struct Peer {
    /// MAC address the peer puts in the Ethernet source field.
    pub mac: [u8; 6],
    /// Number of valid entries in `bssids` (0..=MAX_PEER_BSSIDS). 0 is a
    /// wildcard: the peer may claim any source BSS.
    pub bssid_count: u8,
    /// BSSIDs the peer may claim inside the RRB header; only the first
    /// `bssid_count` used.
    pub bssids: [[u8; 6]; MAX_PEER_BSSIDS],
}

impl Peer {
    /// The peer with nothing configured.
    pub open spec fn is_blank(self) -> bool {
        &&& self.mac@ == zeros(6)
        &&& self.bssid_count == 0
        &&& forall|i: int| 0 <= i < MAX_PEER_BSSIDS ==> (#[trigger] self.bssids@[i])@ == zeros(6)
    }
}

impl Default for Peer {
    fn default() -> (p: Self)
        ensures
            p.is_blank(),
    {
        let p = Peer { mac: [0; 6], bssid_count: 0, bssids: [[0; 6]; MAX_PEER_BSSIDS] };
        assert(p.mac@ =~= zeros(6));
        assert forall|i: int| 0 <= i < MAX_PEER_BSSIDS implies (#[trigger] p.bssids@[i])@ == zeros(
            6,
        ) by {
            assert(p.bssids@[i]@ =~= zeros(6));
        }
        p
    }
}

/// One local AP interface (BSS) this relay serves.
#[derive(Clone, Copy, Debug)]
pub struct Local {
    /// BSSID of the AP interface; unicast RRB destination BSS must match one
    /// of the configured locals.
    pub bssid: [u8; 6],
    /// Number of valid bytes in `r0kh` (0..=MAX_R0KH).
    pub r0kh_len: u8,
    /// R0KH-ID of this BSS. Broadcast PULL/SEQ_REQ frames must name one of
    /// the configured locals' IDs.
    pub r0kh: [u8; MAX_R0KH],
}

impl Local {
    /// The local BSS with nothing configured.
    pub open spec fn is_blank(self) -> bool {
        &&& self.bssid@ == zeros(6)
        &&& self.r0kh_len == 0
        &&& self.r0kh@ == zeros(MAX_R0KH as nat)
    }
}

impl Default for Local {
    fn default() -> (l: Self)
        ensures
            l.is_blank(),
    {
        let l = Local { bssid: [0; 6], r0kh_len: 0, r0kh: [0; MAX_R0KH] };
        assert(l.bssid@ =~= zeros(6));
        assert(l.r0kh@ =~= zeros(MAX_R0KH as nat));
        l
    }
}

/// Filter identity: everything [`parse::classify`] checks a wire frame
/// against before the daemon injects it into the TAP.
#[derive(Clone, Copy, Debug)]
pub struct Filter {
    /// 802.1Q VID of the management network the RRB frame must be tagged
    /// with on the wire.
    pub management_vlan: u16,
    /// Number of valid entries in `peers` (0..=MAX_PEERS). 0 is a wildcard:
    /// any sender is accepted as a peer.
    pub peer_count: u8,
    /// Number of valid entries in `locals` (0..=MAX_LOCALS). 0 matches
    /// nothing: fail-closed until real BSSes are configured.
    pub local_count: u8,
    /// MAC of the local bridge; unicast RRB frames must be addressed here.
    pub target_mac: [u8; 6],
    /// Local BSSes we serve; only the first `local_count` used.
    pub locals: [Local; MAX_LOCALS],
    /// Peers allowed to send us RRB frames; only the first `peer_count` used.
    pub peers: [Peer; MAX_PEERS],
}

impl Default for Filter {
    fn default() -> (f: Self)
        ensures
            f.management_vlan == 1,
            f.peer_count == 0,
            f.local_count == 0,
            f.target_mac@ == zeros(6),
            forall|i: int| 0 <= i < MAX_LOCALS ==> (#[trigger] f.locals@[i]).is_blank(),
            forall|i: int| 0 <= i < MAX_PEERS ==> (#[trigger] f.peers@[i]).is_blank(),
    {
        let l: Local = Local::default();
        let p: Peer = Peer::default();
        let f = Filter {
            management_vlan: 1,  // UDR management VLAN
            peer_count: 0,
            local_count: 0,
            target_mac: [0; 6],
            locals: [l; MAX_LOCALS],
            peers: [p; MAX_PEERS],
        };
        assert(f.target_mac@ =~= zeros(6));
        f
    }
}

/// Event vocabulary for daemon statistics. Rejections are returned by
/// [`parse::classify`]; the rest the daemon increments itself.
#[derive(Clone, Copy, Debug, PartialEq, Eq, Structural)]
pub enum Counter {
    /// Every frame the packet sockets delivered (post socket filter).
    Seen,
    /// Frame too short/long to even be Ethernet + RRB.
    Length,
    /// Wrong/missing/extra VLAN tag or wrong VID.
    Vlan,
    /// Ethernet dst not us/broadcast, or src not a configured peer.
    EtherAddress,
    /// Not the RRB OUI+protocol, or unknown message type.
    OuiType,
    /// RRB source BSS matches none of the peer's BSSIDs.
    SourceBss,
    /// RRB destination BSS is neither broadcast nor a local BSS.
    DestinationBss,
    /// Auth-data length overruns the frame.
    AuthLength,
    /// Malformed TLV stream (truncated, duplicate, or overrun).
    Tlv,
    /// Broadcast frame failing the R0KH-ID / message-type restriction.
    BroadcastScope,
    /// Passed all checks: genuinely an RRB frame for us.
    Matched,
    /// Matched while in observe mode (counted, not relayed).
    Observed,
    /// Matched but over the per-second budget.
    RateLimited,
    /// Frame written to the relay TAP.
    Injected,
    /// TAP write failed.
    InjectError,
    /// Matched message types 1..=5 (802.11r RRB over Ethernet).
    Pull,
    Response,
    Push,
    SeqRequest,
    SeqResponse,
}

/// Number of counter slots.
pub const COUNTER_COUNT: usize = 20;

/// Names in the exact order of the counter slots.
pub const COUNTER_NAMES: [&'static str; COUNTER_COUNT] = [
    "seen",
    "reject_length",
    "reject_vlan",
    "reject_ether_address",
    "reject_oui_or_type",
    "reject_source_bss",
    "reject_destination_bss",
    "reject_auth_length",
    "reject_tlv",
    "reject_broadcast_scope",
    "matched",
    "observed",
    "rate_limited",
    "injected",
    "inject_error",
    "pull",
    "response",
    "push",
    "seq_request",
    "seq_response",
];

impl Counter {
    /// Slot of the counter in the statistics.
    pub open spec fn slot(self) -> int {
        match self {
            Counter::Seen => 0,
            Counter::Length => 1,
            Counter::Vlan => 2,
            Counter::EtherAddress => 3,
            Counter::OuiType => 4,
            Counter::SourceBss => 5,
            Counter::DestinationBss => 6,
            Counter::AuthLength => 7,
            Counter::Tlv => 8,
            Counter::BroadcastScope => 9,
            Counter::Matched => 10,
            Counter::Observed => 11,
            Counter::RateLimited => 12,
            Counter::Injected => 13,
            Counter::InjectError => 14,
            Counter::Pull => 15,
            Counter::Response => 16,
            Counter::Push => 17,
            Counter::SeqRequest => 18,
            Counter::SeqResponse => 19,
        }
    }

    /// Slot of the counter in the statistics.
    pub fn index(self) -> (i: usize)
        ensures
            i == self.slot(),
            i < COUNTER_COUNT,
    {
        match self {
            Counter::Seen => 0,
            Counter::Length => 1,
            Counter::Vlan => 2,
            Counter::EtherAddress => 3,
            Counter::OuiType => 4,
            Counter::SourceBss => 5,
            Counter::DestinationBss => 6,
            Counter::AuthLength => 7,
            Counter::Tlv => 8,
            Counter::BroadcastScope => 9,
            Counter::Matched => 10,
            Counter::Observed => 11,
            Counter::RateLimited => 12,
            Counter::Injected => 13,
            Counter::InjectError => 14,
            Counter::Pull => 15,
            Counter::Response => 16,
            Counter::Push => 17,
            Counter::SeqRequest => 18,
            Counter::SeqResponse => 19,
        }
    }
}

/// No two counters share a slot.
pub proof fn slots_are_distinct(a: Counter, b: Counter)
    ensures
        a.slot() == b.slot() ==> a == b,
        0 <= a.slot() < COUNTER_COUNT,
{
}

/// The name in a counter's slot is the counter's own.
pub proof fn slots_bear_their_names(c: Counter)
    ensures
        COUNTER_NAMES@[c.slot()]@ == match c {
            Counter::Seen => "seen"@,
            Counter::Length => "reject_length"@,
            Counter::Vlan => "reject_vlan"@,
            Counter::EtherAddress => "reject_ether_address"@,
            Counter::OuiType => "reject_oui_or_type"@,
            Counter::SourceBss => "reject_source_bss"@,
            Counter::DestinationBss => "reject_destination_bss"@,
            Counter::AuthLength => "reject_auth_length"@,
            Counter::Tlv => "reject_tlv"@,
            Counter::BroadcastScope => "reject_broadcast_scope"@,
            Counter::Matched => "matched"@,
            Counter::Observed => "observed"@,
            Counter::RateLimited => "rate_limited"@,
            Counter::Injected => "injected"@,
            Counter::InjectError => "inject_error"@,
            Counter::Pull => "pull"@,
            Counter::Response => "response"@,
            Counter::Push => "push"@,
            Counter::SeqRequest => "seq_request"@,
            Counter::SeqResponse => "seq_response"@,
        },
{
}

} // verus!
