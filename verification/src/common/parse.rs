//! Bounded, allocation-free parser for UniFi-style 802.11r RRB frames.
//!
//! Frame layout expected on a switch-facing port:
//!
//! ```text
//!  0        6        12   14           18
//!  | dst MAC | src MAC | TPID | TCI | EtherType | RRB header | auth TLVs | trailer |
//!                         `-- 802.1Q tag (4 bytes, optional, see below)
//! ```
//!
//! Exactly one 802.1Q management tag must reach the parser, either as
//! metadata (`Vlan::present`) or inline in the frame.
use vstd::prelude::*;
use vstd::slice::slice_subrange;
use crate::common::{Config, Counter, Peer, MAX_FRAME, MAX_PEERS, MAX_R0KH, MAX_TLVS};
use crate::wire::{be16, le16, same_bytes, same_mac};

verus! {

/// EtherType assigned to 802.11r RRB (Fast BSS Transition over the
/// distribution system).
pub const ETH_P_RRB: u16 = 0x88b7;

/// 802.1Q tag protocol identifier.
pub const TPID_8021Q: u16 = 0x8100;

/// Mask extracting the 12-bit VLAN ID out of a 16-bit TCI
/// (TCI = PCP[15:13] | DEI[12] | VID[11:0]).
pub const TCI_VID_MASK: u16 = 0x0fff;

/// Length of the Ethernet II header up to and including the EtherType.
pub const ETH_HEADER_LEN: usize = 14;

/// Offset of the EtherType/TPID field inside an Ethernet II header.
pub const ETH_TYPE_OFFSET: usize = 12;

/// Bytes added by one inline 802.1Q tag (TPID + TCI).
pub const VLAN_TAG_LEN: usize = 4;

/// RRB fixed header length: 5-byte protocol selector, 1-byte message type,
/// 6-byte source BSS, 6-byte destination BSS, 2-byte auth-data length.
pub const RRB_HEADER_LEN: usize = 20;

/// RRB protocol selector that must prefix every frame body: the 3-octet OUI
/// 00:13:74 followed by the two protocol octets 00 01.
pub const RRB_SELECTOR: [u8; 5] = [0x00, 0x13, 0x74, 0x00, 0x01];

/// RRB message types (the byte right after the selector).
pub const KIND_PULL: u8 = 1;

pub const KIND_RESPONSE: u8 = 2;

pub const KIND_PUSH: u8 = 3;

pub const KIND_SEQ_REQUEST: u8 = 4;

pub const KIND_SEQ_RESPONSE: u8 = 5;

/// TLV tag carrying the R0KH-ID inside the auth-data block.
pub const TLV_R0KH: u16 = 4;

/// TLV tag carrying the S1KH-ID, the MAC address of the roaming client.
pub const TLV_S1KH: u16 = 6;

/// Fixed header length of one TLV: 2-byte tag + 2-byte size, both
/// little-endian.
pub const TLV_HEADER_LEN: usize = 4;

/// Trailing authenticator appended after the auth-data block; its length is
/// part of the frame geometry, its contents are left to hostapd.
pub const TRAILER_LEN: usize = 16;

/// Broadcast address.
pub const BROADCAST: [u8; 6] = [255, 255, 255, 255, 255, 255];

/// Read access to a frame, so that one parser runs on a userspace buffer and
/// on kernel packet reads alike.
pub trait ReadFrame {
    /// The bytes of the frame. Every implementor must say which they are:
    /// `len` and `read` are held to them. The default says nothing, so no
    /// verified impl can rest on it; it only lets code outside the library
    /// implement the trait, and such an impl answers for `len` and `read`
    /// itself.
    open spec fn bytes(&self) -> Seq<u8> {
        arbitrary()
    }

    /// Reads inside the frame that are sure to answer. A reader that can
    /// fail, as kernel packet reads can, leaves those out; the default is a
    /// reader that promises none.
    open spec fn answers(&self, offset: int, n: int) -> bool {
        false
    }

    /// Number of bytes in the frame.
    fn len(&self) -> (n: usize)
        ensures
            n == self.bytes().len(),
    ;

    /// Read exactly `N` bytes at `offset`, or `None` if out of bounds or if
    /// the read fails.
    fn read<const N: usize>(&self, offset: usize) -> (r: Option<[u8; N]>)
        ensures
            r matches Some(a) ==> offset + N <= self.bytes().len() && a@ == self.bytes().subrange(
                offset as int,
                offset + N,
            ),
            offset + N <= self.bytes().len() && self.answers(offset as int, N as int) ==> r is Some,
    ;

    /// Whether the frame has no bytes.
    fn is_empty(&self) -> (r: bool)
        ensures
            r == (self.bytes().len() == 0),
    {
        self.len() == 0
    }
}

/// A reader that never fails: every read inside the frame answers.
pub open spec fn reliable<R: ReadFrame>(r: &R) -> bool {
    forall|offset: int, n: int|
        0 <= offset && 0 <= n && offset + n <= r.bytes().len() ==> #[trigger] r.answers(offset, n)
}

impl ReadFrame for &[u8] {
    open spec fn bytes(&self) -> Seq<u8> {
        self@
    }

    open spec fn answers(&self, offset: int, n: int) -> bool {
        true
    }

    fn len(&self) -> (n: usize) {
        <[u8]>::len(self)
    }

    fn read<const N: usize>(&self, offset: usize) -> (r: Option<[u8; N]>) {
        let have: usize = <[u8]>::len(self);
        if offset > have || N > have - offset {
            return None;
        }
        let mut out: [u8; N] = [0u8;N];
        let mut i: usize = 0;
        while i < N
            invariant
                i <= N,
                have == self@.len(),
                offset + N <= have,
                forall|k: int| 0 <= k < i ==> out@[k] == self@[offset + k],
            decreases N - i,
        {
            out[i] = self[offset + i];
            i += 1;
        }
        assert(out@ =~= self@.subrange(offset as int, offset + N));
        Some(out)
    }
}

/// How the management VLAN tag reached us.
#[derive(Clone, Copy, Debug, PartialEq, Eq, Structural)]
pub struct Vlan {
    /// True when the tag was lifted into metadata; the 4 tag bytes are then
    /// not in the frame.
    pub present: bool,
    /// Tagged protocol, host byte order. Only meaningful if `present`.
    pub proto: u16,
    /// Full TCI (PCP|DEI|VID), host byte order; only the VID is checked.
    pub tci: u16,
}

impl Default for Vlan {
    fn default() -> (v: Self)
        ensures
            v == (Vlan { present: false, proto: 0, tci: 0 }),
    {
        Vlan { present: false, proto: 0, tci: 0 }
    }
}

/// A frame that passed every check.
#[derive(Clone, Copy, Debug, PartialEq, Eq, Structural)]
pub struct Match {
    /// RRB message type, one of `KIND_*` (1..=5).
    pub kind: u8,
    /// Offset of the RRB header: 14 with a metadata tag, 18 with an inline
    /// tag.
    pub body_offset: usize,
}

// ---------------------------------------------------------------------------
// What a frame is.
// ---------------------------------------------------------------------------

/// VLAN ID of a TCI: its low 12 bits.
pub open spec fn vid(tci: int) -> int {
    tci % 4096
}

/// Whether the frame carries the management tag in metadata and nothing else
/// in front of the RRB EtherType.
pub open spec fn tagged_in_metadata(b: Seq<u8>, vlan: Vlan, management_vlan: u16) -> bool {
    &&& vlan.present
    &&& vlan.proto == TPID_8021Q
    &&& vid(vlan.tci as int) == management_vlan
    &&& be16(b, 12) == ETH_P_RRB
}

/// Whether the frame carries the management tag inline, right before the RRB
/// EtherType.
pub open spec fn tagged_inline(b: Seq<u8>, vlan: Vlan, management_vlan: u16) -> bool {
    &&& !vlan.present
    &&& b.len() >= 18
    &&& be16(b, 12) == TPID_8021Q
    &&& vid(be16(b, 14)) == management_vlan
    &&& be16(b, 16) == ETH_P_RRB
}

/// Offset of the RRB header in a frame with exactly the management tag;
/// nothing for a frame tagged otherwise.
pub open spec fn body_of(b: Seq<u8>, vlan: Vlan, management_vlan: u16) -> Option<int> {
    if tagged_in_metadata(b, vlan, management_vlan) {
        Some(14)
    } else if tagged_inline(b, vlan, management_vlan) {
        Some(18)
    } else {
        None
    }
}

/// One element of the auth-data block.
pub struct Tlv {
    pub tag: u16,
    pub value: Seq<u8>,
}

/// The block `s` read as consecutive elements, each a little-endian tag, a
/// little-endian size and that many bytes; nothing where `s` ends inside an
/// element.
pub open spec fn tlvs(s: Seq<u8>) -> Option<Seq<Tlv>>
    decreases s.len(),
{
    if s.len() == 0 {
        Some(seq![])
    } else if s.len() < 4 || 4 + le16(s, 2) > s.len() {
        None
    } else {
        let first = Tlv { tag: le16(s, 0) as u16, value: s.subrange(4, 4 + le16(s, 2)) };
        prepend(seq![first], tlvs(s.skip(4 + le16(s, 2))))
    }
}

/// `done` followed by the elements of `rest`, if those could be read.
pub open spec fn prepend(done: Seq<Tlv>, rest: Option<Seq<Tlv>>) -> Option<Seq<Tlv>> {
    match rest {
        Some(more) => Some(done + more),
        None => None,
    }
}

/// No tag occurs twice.
pub open spec fn distinct_tags(l: Seq<Tlv>) -> bool {
    forall|i: int, j: int| 0 <= i < j < l.len() ==> (#[trigger] l[i]).tag != (#[trigger] l[j]).tag
}

/// Whether `s` is a block of at most `MAX_TLVS` elements with distinct tags.
pub open spec fn tlvs_ok(s: Seq<u8>) -> bool {
    &&& tlvs(s) is Some
    &&& tlvs(s)->0.len() <= MAX_TLVS
    &&& distinct_tags(tlvs(s)->0)
}

/// Value of the element with the given tag; empty where there is none.
pub open spec fn element(l: Seq<Tlv>, tag: u16) -> Seq<u8>
    decreases l.len(),
{
    if l.len() == 0 {
        seq![]
    } else if l.last().tag == tag {
        l.last().value
    } else {
        element(l.drop_last(), tag)
    }
}

/// Entries in use of a table with `max` slots of which `count` are declared.
pub open spec fn in_use(count: u8, max: usize) -> nat {
    if count < max {
        count as nat
    } else {
        max as nat
    }
}

/// The last of the first `n` peers that has this address.
pub open spec fn peer_with(peers: Seq<Peer>, n: nat, mac: Seq<u8>) -> Option<Peer>
    decreases n,
{
    if n == 0 {
        None
    } else if peers[n - 1].mac@ == mac {
        Some(peers[n - 1])
    } else {
        peer_with(peers, (n - 1) as nat, mac)
    }
}

/// Length of the auth-data block that the RRB header at `body` announces.
pub open spec fn auth_len(b: Seq<u8>, body: int) -> int {
    le16(b, body + 18)
}

/// The auth-data block of the RRB frame at `body`.
pub open spec fn auth_data(b: Seq<u8>, body: int) -> Seq<u8> {
    b.subrange(body + 20, body + 20 + auth_len(b, body))
}

/// Whether a selector and a known message type stand at `body`.
pub open spec fn known_type(b: Seq<u8>, body: int) -> bool {
    &&& b.subrange(body, body + 5) == RRB_SELECTOR@
    &&& KIND_PULL <= b[body + 5] <= KIND_SEQ_RESPONSE
}

/// Whether a message type may be broadcast.
pub open spec fn may_broadcast(kind: u8) -> bool {
    kind == KIND_PULL || kind == KIND_SEQ_REQUEST
}

/// Whether the auth-data block names the R0KH-ID `id` of `len` bytes.
pub open spec fn names_r0kh(auth: Seq<u8>, id: Seq<u8>, len: u8) -> bool {
    let value = element(tlvs(auth)->0, TLV_R0KH);
    &&& 0 < value.len() <= MAX_R0KH
    &&& value.len() == len
    &&& value == id.take(len as int)
}

/// Verdict on the RRB frame whose header stands at `body`: the first check
/// that fails names the counter.
pub open spec fn rrb_verdict(b: Seq<u8>, body: int, c: Config) -> Result<Match, Counter> {
    if b.len() < 12 {
        Err(Counter::Length)
    } else if b.subrange(0, 6) != c.target_mac@ && b.subrange(0, 6) != BROADCAST@ {
        Err(Counter::EtherAddress)
    } else if peer_with(c.peers@, in_use(c.peer_count, MAX_PEERS), b.subrange(6, 12)) is None {
        Err(Counter::EtherAddress)
    } else if body + 20 > b.len() {
        Err(Counter::Length)
    } else if !known_type(b, body) {
        Err(Counter::OuiType)
    } else if b.subrange(body + 6, body + 12) != peer_with(
        c.peers@,
        in_use(c.peer_count, MAX_PEERS),
        b.subrange(6, 12),
    )->0.bssid@ {
        Err(Counter::SourceBss)
    } else if b.subrange(body + 12, body + 18) != BROADCAST@ && b.subrange(body + 12, body + 18)
        != c.local_bssid@ {
        Err(Counter::DestinationBss)
    } else if body + 20 + auth_len(b, body) + 16 > b.len() {
        Err(Counter::AuthLength)
    } else if !tlvs_ok(auth_data(b, body)) {
        Err(Counter::Tlv)
    } else if b.subrange(body + 12, body + 18) == BROADCAST@ && !(may_broadcast(b[body + 5])
        && names_r0kh(auth_data(b, body), c.r0kh@, c.r0kh_len)) {
        Err(Counter::BroadcastScope)
    } else {
        Ok(Match { kind: b[body + 5], body_offset: body as usize })
    }
}

/// Verdict on a frame as received: geometry, then VLAN scope, then the RRB
/// frame behind the tag.
pub open spec fn verdict(b: Seq<u8>, vlan: Vlan, c: Config) -> Result<Match, Counter> {
    if b.len() < 14 || b.len() > MAX_FRAME {
        Err(Counter::Length)
    } else {
        match body_of(b, vlan, c.management_vlan) {
            None => Err(Counter::Vlan),
            Some(body) => rrb_verdict(b, body, c),
        }
    }
}

// ---------------------------------------------------------------------------
// The parser.
// ---------------------------------------------------------------------------

/// VLAN ID of a TCI.
pub fn vlan_id(tci: u16) -> (v: u16)
    ensures
        v == vid(tci as int),
{
    assert(tci & 0x0fff == tci % 4096) by (bit_vector);
    tci & TCI_VID_MASK
}

/// Offset of the RRB header behind exactly the management tag, wherever that
/// tag is; `None` when the frame is tagged otherwise, or when the tag cannot
/// be read. `word` is what stands at the EtherType's place.
pub fn locate_body<R: ReadFrame>(r: &R, word: [u8; 2], vlan: Vlan, management_vlan: u16) -> (body:
    Option<usize>)
    requires
        r.bytes().len() >= 14,
        word@ == r.bytes().subrange(12, 14),
    ensures
        match body {
            Some(n) => body_of(r.bytes(), vlan, management_vlan) == Some(n as int),
            None => body_of(r.bytes(), vlan, management_vlan) is None || !reliable(r),
        },
{
    let proto: u16 = word[0] as u16 * 256 + word[1] as u16;
    if vlan.present {
        // The tag lives in metadata: the on-wire EtherType must already be
        // RRB, and the metadata tag must be our management VLAN.
        if vlan.proto != TPID_8021Q || vlan_id(vlan.tci) != management_vlan || proto != ETH_P_RRB {
            return None;
        }
        Some(ETH_HEADER_LEN)
    } else {
        // The tag must be inline right after the addresses: TPID 0x8100, our
        // management VID, then the RRB EtherType. PCP/DEI are ignored on
        // purpose.
        let tag: [u8; 4] = match r.read::<4>(ETH_HEADER_LEN) {
            Some(t) => t,
            None => return None,
        };
        let tci: u16 = tag[0] as u16 * 256 + tag[1] as u16;
        let inner: u16 = tag[2] as u16 * 256 + tag[3] as u16;
        if proto != TPID_8021Q || vlan_id(tci) != management_vlan || inner != ETH_P_RRB {
            return None;
        }
        Some(ETH_HEADER_LEN + VLAN_TAG_LEN)
    }
}

/// Where the elements that the relay looks at lie in the frame; size 0 for
/// one that is absent.
#[derive(Clone, Copy, Debug, PartialEq, Eq, Structural)]
pub struct TlvIndex {
    pub r0kh_at: usize,
    pub r0kh_size: usize,
    pub s1kh_at: usize,
    pub s1kh_size: usize,
}

impl TlvIndex {
    /// The index points at the elements of `l` inside `b`.
    pub open spec fn points_at(self, b: Seq<u8>, l: Seq<Tlv>) -> bool {
        &&& self.r0kh_at + self.r0kh_size <= b.len()
        &&& self.s1kh_at + self.s1kh_size <= b.len()
        &&& b.subrange(self.r0kh_at as int, self.r0kh_at + self.r0kh_size) == element(l, TLV_R0KH)
        &&& b.subrange(self.s1kh_at as int, self.s1kh_at + self.s1kh_size) == element(l, TLV_S1KH)
    }
}

/// Walk the TLVs between `start` and `end` with a fixed iteration bound;
/// duplicates are rejected so one TLV cannot smuggle conflicting values past
/// a naive first-match reader.
pub fn walk_tlvs<R: ReadFrame>(r: &R, start: usize, end: usize) -> (index: Option<TlvIndex>)
    requires
        start <= end <= r.bytes().len(),
    ensures
        match index {
            Some(ix) => tlvs_ok(r.bytes().subrange(start as int, end as int)) && ix.points_at(
                r.bytes(),
                tlvs(r.bytes().subrange(start as int, end as int))->0,
            ),
            None => !tlvs_ok(r.bytes().subrange(start as int, end as int)) || !reliable(r),
        },
{
    let ghost b = r.bytes();
    let ghost auth = b.subrange(start as int, end as int);
    let ghost mut done: Seq<Tlv> = seq![];
    let mut index = TlvIndex { r0kh_at: 0, r0kh_size: 0, s1kh_at: 0, s1kh_size: 0 };
    let mut pos: usize = start;
    let mut tags: [u16; MAX_TLVS] = [0; MAX_TLVS];
    let mut i: usize = 0;
    proof {
        assert(auth.skip(0) =~= auth);
        assert(prepend(done, tlvs(auth)) == tlvs(auth)) by {
            if tlvs(auth) is Some {
                assert(done + tlvs(auth)->0 =~= tlvs(auth)->0);
            }
        }
        assert(b.subrange(0, 0) =~= Seq::<u8>::empty());
    }
    while i < MAX_TLVS && pos != end
        invariant
            i <= MAX_TLVS,
            start <= pos <= end <= b.len(),
            b == r.bytes(),
            auth == b.subrange(start as int, end as int),
            done.len() == i,
            distinct_tags(done),
            forall|k: int| 0 <= k < i ==> tags@[k] == (#[trigger] done[k]).tag,
            tlvs(auth) == prepend(done, tlvs(auth.skip(pos - start))),
            index.points_at(b, done),
        decreases MAX_TLVS - i,
    {
        let ghost rest = auth.skip(pos - start);
        if end - pos < TLV_HEADER_LEN {
            return None;
        }
        let head: [u8; 4] = match r.read::<4>(pos) {
            Some(h) => h,
            None => return None,
        };
        let tag: u16 = head[0] as u16 + head[1] as u16 * 256;
        let size: usize = head[2] as usize + head[3] as usize * 256;
        proof {
            assert(rest[0] == head@[0]);
            assert(rest[1] == head@[1]);
            assert(rest[2] == head@[2]);
            assert(rest[3] == head@[3]);
        }
        let mut j: usize = 0;
        while j < i
            invariant
                j <= i < MAX_TLVS,
                auth == r.bytes().subrange(start as int, end as int),
                done.len() == i,
                forall|k: int| 0 <= k < i ==> tags@[k] == (#[trigger] done[k]).tag,
                forall|k: int| 0 <= k < j ==> (#[trigger] done[k]).tag != tag,
                rest.len() >= 4,
                tag == le16(rest, 0),
                tlvs(auth) == prepend(done, tlvs(rest)),
            decreases i - j,
        {
            if tags[j] == tag {
                proof {
                    if tlvs(auth) is Some {
                        let l = tlvs(auth)->0;
                        assert(tlvs(rest)->0[0].tag == tag);
                        assert(l[j as int].tag == tag);
                        assert(l[i as int].tag == tag);
                    }
                }
                return None;
            }
            j += 1;
        }
        tags[i] = tag;
        pos += TLV_HEADER_LEN;
        if size > end - pos {
            return None;
        }
        if tag == TLV_R0KH {
            index.r0kh_at = pos;
            index.r0kh_size = size;
        }
        if tag == TLV_S1KH {
            index.s1kh_at = pos;
            index.s1kh_size = size;
        }
        proof {
            let value = rest.subrange(4, 4 + le16(rest, 2));
            let first = Tlv { tag: tag, value: value };
            let before = done;
            done = before.push(first);
            assert(done.drop_last() =~= before);
            assert(b.subrange(pos as int, pos + size) =~= value);
            let tail = rest.skip(4 + le16(rest, 2));
            assert(auth.skip(pos + size - start) =~= tail);
            if tlvs(tail) is Some {
                assert(before + (seq![first] + tlvs(tail)->0) =~= done + tlvs(tail)->0);
            }
        }
        pos += size;
        i += 1;
    }
    proof {
        let rest = auth.skip(pos - start);
        if pos == end {
            assert(rest.len() == 0);
            assert(done + Seq::<Tlv>::empty() =~= done);
        } else if tlvs(rest) is Some {
            assert(tlvs(rest)->0.len() > 0);
            assert(tlvs(auth)->0.len() > MAX_TLVS);
        }
    }
    if pos != end {
        return None;
    }
    Some(index)
}

/// Whether the R0KH element at `at` is exactly the first `len` bytes of `id`;
/// `None` when it cannot be read.
pub fn r0kh_matches<R: ReadFrame>(
    r: &R,
    at: usize,
    size: usize,
    id: &[u8; MAX_R0KH],
    len: u8,
) -> (r0kh: Option<bool>)
    requires
        at + size <= r.bytes().len(),
    ensures
        match r0kh {
            Some(ok) => ok == ({
                let value = r.bytes().subrange(at as int, at + size);
                0 < value.len() <= MAX_R0KH && value.len() == len && value == id@.take(len as int)
            }),
            None => !reliable(r),
        },
{
    let ghost value = r.bytes().subrange(at as int, at + size);
    if size == 0 || size > MAX_R0KH || size != len as usize {
        return Some(false);
    }
    let total: usize = r.len();
    let mut j: usize = 0;
    while j < size
        invariant
            j <= size <= MAX_R0KH,
            total == r.bytes().len(),
            at + size <= total,
            value == r.bytes().subrange(at as int, at + size),
            size == len,
            forall|k: int| 0 <= k < j ==> value[k] == id@[k],
        decreases size - j,
    {
        let byte: u8 = match r.read::<1>(at + j) {
            Some(x) => x[0],
            None => return None,
        };
        assert(byte == value[j as int]);
        if byte != id[j] {
            assert(id@.take(len as int)[j as int] != value[j as int]);
            return Some(false);
        }
        j += 1;
    }
    assert(value =~= id@.take(len as int));
    Some(true)
}

/// The counters of frames that cannot be read.
pub open spec fn unread(m: Result<Match, Counter>) -> bool {
    m matches Err(e) && (e == Counter::Length || e == Counter::Vlan || e == Counter::Tlv)
}

/// Full ingress gate: geometry, VLAN scope, Ethernet addresses, RRB header,
/// TLV stream, and broadcast restrictions, in that order. The error is the
/// counter of the first check that fails. A frame that cannot be read is
/// rejected, so whatever the reader, only a frame of the configured identity
/// is accepted.
pub fn classify<R: ReadFrame>(r: &R, vlan: Vlan, c: &Config) -> (m: Result<Match, Counter>)
    ensures
        m == verdict(r.bytes(), vlan, *c) || (!reliable(r) && unread(m)),
        m is Ok ==> m == verdict(r.bytes(), vlan, *c),
{
    if r.len() < ETH_HEADER_LEN || r.len() > MAX_FRAME {
        return Err(Counter::Length);
    }
    let word: [u8; 2] = match r.read::<2>(ETH_TYPE_OFFSET) {
        Some(w) => w,
        None => return Err(Counter::Length),
    };
    match locate_body(r, word, vlan, c.management_vlan) {
        Some(body) => parse_rrb(r, body, c),
        None => Err(Counter::Vlan),
    }
}

/// The last configured peer that has the Ethernet source `src`.
fn find_peer(c: &Config, src: &[u8; 6]) -> (p: Option<Peer>)
    ensures
        p == peer_with(c.peers@, in_use(c.peer_count, MAX_PEERS), src@),
{
    let mut found: Option<Peer> = None;
    let mut i: usize = 0;
    while i < MAX_PEERS && i < c.peer_count as usize
        invariant
            i <= MAX_PEERS,
            i <= c.peer_count,
            found == peer_with(c.peers@, i as nat, src@),
        decreases MAX_PEERS - i,
    {
        if same_mac(&c.peers[i].mac, src) {
            found = Some(c.peers[i]);
        }
        i += 1;
    }
    found
}

/// Validate the RRB body starting at `body` against the configured identity.
pub fn parse_rrb<R: ReadFrame>(r: &R, body: usize, c: &Config) -> (m: Result<Match, Counter>)
    ensures
        m == rrb_verdict(r.bytes(), body as int, *c) || (!reliable(r) && unread(m)),
        m is Ok ==> m == rrb_verdict(r.bytes(), body as int, *c),
{
    let ghost b = r.bytes();
    let dst: [u8; 6] = match r.read::<6>(0) {
        Some(a) => a,
        None => return Err(Counter::Length),
    };
    let src: [u8; 6] = match r.read::<6>(6) {
        Some(a) => a,
        None => return Err(Counter::Length),
    };
    // Addressed to our bridge, or broadcast (PULL/SEQ_REQ discovery).
    if !same_mac(&dst, &c.target_mac) && !same_mac(&dst, &BROADCAST) {
        return Err(Counter::EtherAddress);
    }
    let peer: Peer = match find_peer(c, &src) {
        Some(p) => p,
        None => return Err(Counter::EtherAddress),
    };
    let header: [u8; 20] = match r.read::<20>(body) {
        Some(h) => h,
        None => return Err(Counter::Length),
    };
    let h: &[u8] = header.as_slice();
    proof {
        assert(h@.subrange(0, 5) =~= b.subrange(body as int, body + 5));
        assert(h@.subrange(6, 12) =~= b.subrange(body + 6, body + 12));
        assert(h@.subrange(12, 18) =~= b.subrange(body + 12, body + 18));
        assert(header@[5] == b[body + 5]);
        assert(header@[18] == b[body + 18]);
        assert(header@[19] == b[body + 19]);
    }
    if !same_bytes(slice_subrange(h, 0, 5), RRB_SELECTOR.as_slice()) || header[5] < KIND_PULL
        || header[5] > KIND_SEQ_RESPONSE {
        return Err(Counter::OuiType);
    }
    // The BSS the frame claims to originate from must be the peer's own.
    if !same_bytes(slice_subrange(h, 6, 12), peer.bssid.as_slice()) {
        return Err(Counter::SourceBss);
    }
    let broadcast: bool = same_bytes(slice_subrange(h, 12, 18), BROADCAST.as_slice());
    if !broadcast && !same_bytes(slice_subrange(h, 12, 18), c.local_bssid.as_slice()) {
        return Err(Counter::DestinationBss);
    }
    let alen: usize = header[18] as usize + header[19] as usize * 256;
    let total: usize = r.len();
    if alen + TRAILER_LEN > total - body - RRB_HEADER_LEN {
        return Err(Counter::AuthLength);
    }
    let start: usize = body + RRB_HEADER_LEN;
    let index: TlvIndex = match walk_tlvs(r, start, start + alen) {
        Some(ix) => ix,
        None => return Err(Counter::Tlv),
    };
    // Broadcast frames are how an intruder would spray RRB onto the segment,
    // so they face an extra restriction: only PULL and SEQ_REQ may be
    // broadcast, and they must name exactly our R0KH-ID.
    if broadcast {
        if header[5] != KIND_PULL && header[5] != KIND_SEQ_REQUEST {
            return Err(Counter::BroadcastScope);
        }
        match r0kh_matches(r, index.r0kh_at, index.r0kh_size, &c.r0kh, c.r0kh_len) {
            Some(true) => {},
            Some(false) => return Err(Counter::BroadcastScope),
            None => return Err(Counter::Tlv),
        }
    }
    Ok(Match { kind: header[5], body_offset: body })
}

} // verus!
