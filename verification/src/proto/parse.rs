//! Validator of RRB frames against the userspace [`Filter`].
//!
//! The wire format is the one of [`crate::common::parse`]; the identity that
//! frames are held against is richer here: several local BSSes, several
//! BSSIDs per peer, and wildcards.
use vstd::prelude::*;
use vstd::slice::slice_subrange;
use crate::common::parse::{
    auth_data, auth_len, body_of, element, in_use, known_type, locate_body, may_broadcast,
    names_r0kh, r0kh_matches, reliable, tlvs, tlvs_ok, walk_tlvs, TlvIndex,
};
use crate::proto::{Counter, Filter, Local, Peer, MAX_FRAME, MAX_LOCALS, MAX_PEERS, MAX_PEER_BSSIDS};
use crate::wire::{same_bytes, same_mac};

pub use crate::common::parse::{
    ReadFrame, Vlan, BROADCAST, ETH_HEADER_LEN, ETH_P_RRB, ETH_TYPE_OFFSET, KIND_PULL, KIND_PUSH,
    KIND_RESPONSE, KIND_SEQ_REQUEST, KIND_SEQ_RESPONSE, RRB_HEADER_LEN, RRB_SELECTOR,
    TCI_VID_MASK, TLV_HEADER_LEN, TLV_R0KH, TLV_S1KH, TPID_8021Q, TRAILER_LEN, VLAN_TAG_LEN,
};

verus! {

/// A frame that passed every check.
#[derive(Clone, Copy, Debug)]
pub struct Match {
    /// RRB message type, one of `KIND_*` (1..=5).
    pub kind: u8,
    /// Offset of the RRB header: 14 with a metadata tag, 18 with an inline
    /// tag.
    pub body_offset: usize,
    /// MAC address of the roaming client, where the frame carries a
    /// well-sized S1KH-ID. Never a gate.
    pub s1kh: Option<[u8; 6]>,
}

/// What a [`Match`] says.
pub struct MatchView {
    pub kind: u8,
    pub body_offset: int,
    pub s1kh: Option<Seq<u8>>,
}

impl View for Match {
    type V = MatchView;

    open spec fn view(&self) -> MatchView {
        MatchView {
            kind: self.kind,
            body_offset: self.body_offset as int,
            s1kh: match self.s1kh {
                Some(a) => Some(a@),
                None => None,
            },
        }
    }
}

/// The last of the first `n` peers that has this address.
pub open spec fn peer_with(peers: Seq<Peer>, n: nat, mac: Seq<u8>) -> Option<Peer>
    decreases n,
{
    if n == 0 {
        None
    } else if peers[n - 1].mac@ == mac {
        Some(peers[n - 1])
    } else {
        peer_with(peers, (n - 1) as nat, mac)
    }
}

/// The configured peer that sends from `mac`.
pub open spec fn sender(f: Filter, mac: Seq<u8>) -> Option<Peer> {
    peer_with(f.peers@, in_use(f.peer_count, MAX_PEERS), mac)
}

/// Whether any sender is accepted as a peer.
pub open spec fn any_sender(f: Filter) -> bool {
    f.peer_count == 0
}

/// Whether a peer may claim the source BSS `bss`.
pub open spec fn may_claim(p: Peer, bss: Seq<u8>) -> bool {
    ||| p.bssid_count == 0
    ||| exists|i: int|
        0 <= i < in_use(p.bssid_count, MAX_PEER_BSSIDS) && (#[trigger] p.bssids@[i])@ == bss
}

/// Whether `bss` is one of the local BSSes.
pub open spec fn is_local(f: Filter, bss: Seq<u8>) -> bool {
    exists|i: int|
        0 <= i < in_use(f.local_count, MAX_LOCALS) && (#[trigger] f.locals@[i]).bssid@ == bss
}

/// Whether the auth-data block names the R0KH-ID of a local BSS.
pub open spec fn names_local(f: Filter, auth: Seq<u8>) -> bool {
    exists|i: int|
        0 <= i < in_use(f.local_count, MAX_LOCALS) && names_r0kh(
            auth,
            (#[trigger] f.locals@[i]).r0kh@,
            f.locals@[i].r0kh_len,
        )
}

/// The client address in the auth-data block: the S1KH-ID, where it has the
/// size of an address.
pub open spec fn client_of(auth: Seq<u8>) -> Option<Seq<u8>> {
    let id = element(tlvs(auth)->0, TLV_S1KH);
    if id.len() == 6 {
        Some(id)
    } else {
        None
    }
}

/// Verdict on the RRB frame whose header stands at `body`: the first check
/// that fails names the counter.
pub open spec fn rrb_verdict(b: Seq<u8>, body: int, f: Filter) -> Result<MatchView, Counter> {
    if b.len() < 12 {
        Err(Counter::Length)
    } else if b.subrange(0, 6) != f.target_mac@ && b.subrange(0, 6) != BROADCAST@ {
        Err(Counter::EtherAddress)
    } else if !any_sender(f) && sender(f, b.subrange(6, 12)) is None {
        Err(Counter::EtherAddress)
    } else if body + 20 > b.len() {
        Err(Counter::Length)
    } else if !known_type(b, body) {
        Err(Counter::OuiType)
    } else if !any_sender(f) && !may_claim(
        sender(f, b.subrange(6, 12))->0,
        b.subrange(body + 6, body + 12),
    ) {
        Err(Counter::SourceBss)
    } else if b.subrange(body + 12, body + 18) != BROADCAST@ && !is_local(
        f,
        b.subrange(body + 12, body + 18),
    ) {
        Err(Counter::DestinationBss)
    } else if body + 20 + auth_len(b, body) + 16 > b.len() {
        Err(Counter::AuthLength)
    } else if !tlvs_ok(auth_data(b, body)) {
        Err(Counter::Tlv)
    } else if b.subrange(body + 12, body + 18) == BROADCAST@ && !(may_broadcast(b[body + 5])
        && names_local(f, auth_data(b, body))) {
        Err(Counter::BroadcastScope)
    } else {
        Ok(
            MatchView {
                kind: b[body + 5],
                body_offset: body,
                s1kh: client_of(auth_data(b, body)),
            },
        )
    }
}

/// Verdict on a frame as received: geometry, then VLAN scope, then the RRB
/// frame behind the tag.
pub open spec fn verdict(b: Seq<u8>, vlan: Vlan, f: Filter) -> Result<MatchView, Counter> {
    if b.len() < 14 || b.len() > MAX_FRAME {
        Err(Counter::Length)
    } else {
        match body_of(b, vlan, f.management_vlan) {
            None => Err(Counter::Vlan),
            Some(body) => rrb_verdict(b, body, f),
        }
    }
}

/// A result says what the verdict says.
pub open spec fn says(m: Result<Match, Counter>, v: Result<MatchView, Counter>) -> bool {
    match m {
        Ok(x) => v == Ok::<MatchView, Counter>(x@),
        Err(e) => v == Err::<MatchView, Counter>(e),
    }
}

/// The counters of frames that cannot be read.
pub open spec fn unread(e: Counter) -> bool {
    e == Counter::Length || e == Counter::Vlan || e == Counter::Tlv
}

/// A result where a read failed: a rejection, or the match without its
/// client, which is never a gate.
pub open spec fn partly_says(m: Result<Match, Counter>, v: Result<MatchView, Counter>) -> bool {
    match m {
        Ok(x) => v matches Ok(y) && x@ == (MatchView { s1kh: None, ..y }),
        Err(e) => unread(e),
    }
}

/// The last configured peer that has the Ethernet source `src`.
fn find_peer(f: &Filter, src: &[u8; 6]) -> (p: Option<Peer>)
    ensures
        p == sender(*f, src@),
{
    let mut found: Option<Peer> = None;
    let mut i: usize = 0;
    while i < MAX_PEERS && i < f.peer_count as usize
        invariant
            i <= MAX_PEERS,
            i <= f.peer_count,
            found == peer_with(f.peers@, i as nat, src@),
        decreases MAX_PEERS - i,
    {
        if same_mac(&f.peers[i].mac, src) {
            found = Some(f.peers[i]);
        }
        i += 1;
    }
    found
}

/// Whether `p` may claim the source BSS `bss`.
fn claim_allowed(p: &Peer, bss: &[u8]) -> (ok: bool)
    ensures
        ok == may_claim(*p, bss@),
{
    if p.bssid_count == 0 {
        return true;
    }
    let mut i: usize = 0;
    while i < MAX_PEER_BSSIDS && i < p.bssid_count as usize
        invariant
            i <= MAX_PEER_BSSIDS,
            i <= p.bssid_count,
            p.bssid_count != 0,
            forall|k: int| 0 <= k < i ==> (#[trigger] p.bssids@[k])@ != bss@,
        decreases MAX_PEER_BSSIDS - i,
    {
        if same_bytes(p.bssids[i].as_slice(), bss) {
            assert(p.bssids@[i as int]@ == bss@);
            return true;
        }
        i += 1;
    }
    false
}

/// Whether `bss` is one of the local BSSes.
fn is_local_bss(f: &Filter, bss: &[u8]) -> (ok: bool)
    ensures
        ok == is_local(*f, bss@),
{
    let mut i: usize = 0;
    while i < MAX_LOCALS && i < f.local_count as usize
        invariant
            i <= MAX_LOCALS,
            i <= f.local_count,
            forall|k: int| 0 <= k < i ==> (#[trigger] f.locals@[k]).bssid@ != bss@,
        decreases MAX_LOCALS - i,
    {
        if same_bytes(f.locals[i].bssid.as_slice(), bss) {
            assert(f.locals@[i as int].bssid@ == bss@);
            return true;
        }
        i += 1;
    }
    false
}

/// Whether the R0KH element that `index` found names a local BSS; `None` when
/// it cannot be read.
fn local_named<R: ReadFrame>(r: &R, index: &TlvIndex, f: &Filter, Ghost(auth): Ghost<Seq<u8>>) -> (
    named: Option<bool>)
    requires
        tlvs(auth) is Some,
        index.points_at(r.bytes(), tlvs(auth)->0),
    ensures
        match named {
            Some(ok) => ok == names_local(*f, auth),
            None => !reliable(r),
        },
{
    let mut i: usize = 0;
    while i < MAX_LOCALS && i < f.local_count as usize
        invariant
            i <= MAX_LOCALS,
            i <= f.local_count,
            tlvs(auth) is Some,
            index.points_at(r.bytes(), tlvs(auth)->0),
            forall|k: int|
                0 <= k < i ==> !names_r0kh(
                    auth,
                    (#[trigger] f.locals@[k]).r0kh@,
                    f.locals@[k].r0kh_len,
                ),
        decreases MAX_LOCALS - i,
    {
        let local: &Local = &f.locals[i];
        match r0kh_matches(r, index.r0kh_at, index.r0kh_size, &local.r0kh, local.r0kh_len) {
            Some(true) => {
                assert(names_r0kh(auth, f.locals@[i as int].r0kh@, f.locals@[i as int].r0kh_len));
                return Some(true);
            },
            Some(false) => {},
            None => return None,
        }
        i += 1;
    }
    Some(false)
}

/// Full ingress gate: geometry, VLAN scope, Ethernet addresses, RRB header,
/// TLV stream, and broadcast restrictions, in that order. The error is the
/// counter of the first check that fails. A frame that cannot be read is
/// rejected, so whatever the reader, only a frame of the configured identity
/// is accepted.
pub fn classify<R: ReadFrame>(r: &R, vlan: Vlan, f: &Filter) -> (m: Result<Match, Counter>)
    ensures
        says(m, verdict(r.bytes(), vlan, *f)) || (!reliable(r) && partly_says(
            m,
            verdict(r.bytes(), vlan, *f),
        )),
        m is Ok ==> verdict(r.bytes(), vlan, *f) is Ok,
{
    if r.len() < ETH_HEADER_LEN || r.len() > MAX_FRAME {
        return Err(Counter::Length);
    }
    let word: [u8; 2] = match r.read::<2>(ETH_TYPE_OFFSET) {
        Some(w) => w,
        None => return Err(Counter::Length),
    };
    match locate_body(r, word, vlan, f.management_vlan) {
        Some(body) => parse_rrb(r, body, f),
        None => Err(Counter::Vlan),
    }
}

/// Validate the RRB body starting at `body` against the filter identity.
pub fn parse_rrb<R: ReadFrame>(r: &R, body: usize, f: &Filter) -> (m: Result<Match, Counter>)
    ensures
        says(m, rrb_verdict(r.bytes(), body as int, *f)) || (!reliable(r) && partly_says(
            m,
            rrb_verdict(r.bytes(), body as int, *f),
        )),
        m is Ok ==> rrb_verdict(r.bytes(), body as int, *f) is Ok,
{
    let ghost b = r.bytes();
    let dst: [u8; 6] = match r.read::<6>(0) {
        Some(a) => a,
        None => return Err(Counter::Length),
    };
    let src: [u8; 6] = match r.read::<6>(6) {
        Some(a) => a,
        None => return Err(Counter::Length),
    };
    // Addressed to our bridge, or broadcast (PULL/SEQ_REQ discovery).
    if !same_mac(&dst, &f.target_mac) && !same_mac(&dst, &BROADCAST) {
        return Err(Counter::EtherAddress);
    }
    let peer: Option<Peer> = find_peer(f, &src);
    if f.peer_count != 0 && peer.is_none() {
        return Err(Counter::EtherAddress);
    }
    let header: [u8; 20] = match r.read::<20>(body) {
        Some(h) => h,
        None => return Err(Counter::Length),
    };
    let h: &[u8] = header.as_slice();
    proof {
        assert(h@.subrange(0, 5) =~= b.subrange(body as int, body + 5));
        assert(h@.subrange(6, 12) =~= b.subrange(body + 6, body + 12));
        assert(h@.subrange(12, 18) =~= b.subrange(body + 12, body + 18));
        assert(header@[5] == b[body + 5]);
        assert(header@[18] == b[body + 18]);
        assert(header@[19] == b[body + 19]);
    }
    if !same_bytes(slice_subrange(h, 0, 5), RRB_SELECTOR.as_slice()) || header[5] < KIND_PULL
        || header[5] > KIND_SEQ_RESPONSE {
        return Err(Counter::OuiType);
    }
    // The BSS the frame claims to originate from must be one of the peer's.
    if f.peer_count != 0 {
        if let Some(p) = peer {
            if !claim_allowed(&p, slice_subrange(h, 6, 12)) {
                return Err(Counter::SourceBss);
            }
        }
    }
    let broadcast: bool = same_bytes(slice_subrange(h, 12, 18), BROADCAST.as_slice());
    if !broadcast && !is_local_bss(f, slice_subrange(h, 12, 18)) {
        return Err(Counter::DestinationBss);
    }
    let alen: usize = header[18] as usize + header[19] as usize * 256;
    let total: usize = r.len();
    if alen + TRAILER_LEN > total - body - RRB_HEADER_LEN {
        return Err(Counter::AuthLength);
    }
    let start: usize = body + RRB_HEADER_LEN;
    let index: TlvIndex = match walk_tlvs(r, start, start + alen) {
        Some(ix) => ix,
        None => return Err(Counter::Tlv),
    };
    // Broadcast frames are how an intruder would spray RRB onto the segment,
    // so they face an extra restriction: only PULL and SEQ_REQ may be
    // broadcast, and they must name the R0KH-ID of a local BSS.
    if broadcast {
        if header[5] != KIND_PULL && header[5] != KIND_SEQ_REQUEST {
            return Err(Counter::BroadcastScope);
        }
        match local_named(r, &index, f, Ghost(auth_data(b, body as int))) {
            Some(true) => {},
            Some(false) => return Err(Counter::BroadcastScope),
            None => return Err(Counter::Tlv),
        }
    }
    let s1kh: Option<[u8; 6]> = if index.s1kh_size == 6 {
        r.read::<6>(index.s1kh_at)
    } else {
        None
    };
    Ok(Match { kind: header[5], body_offset: body, s1kh: s1kh })
}

} // verus!
