//! What holds of the frame parser as a whole.
use vstd::prelude::*;
use crate::common::parse::{
    auth_data, auth_len, body_of, element, in_use, known_type, may_broadcast, names_r0kh,
    peer_with, reliable, rrb_verdict, tlvs, tlvs_ok, unread, verdict, vid, Match, Tlv, Vlan,
    BROADCAST, RRB_SELECTOR, TLV_R0KH, TPID_8021Q, TRAILER_LEN,
};
use crate::common::{Config, Counter, Peer, MAX_FRAME, MAX_PEERS, MAX_R0KH};
use crate::relay::untagged;
use crate::wire::{be16, le16, le_bytes16};

verus! {

/// The same verdict with the RRB header at `body`.
pub open spec fn with_body(r: Result<Match, Counter>, body: int) -> Result<Match, Counter> {
    match r {
        Ok(m) => Ok(Match { kind: m.kind, body_offset: body as usize }),
        Err(e) => Err(e),
    }
}

/// A part of a frame behind `body` is a part of its tail.
pub proof fn part_of_tail(b: Seq<u8>, body: int, from: int, to: int)
    requires
        0 <= body,
        0 <= from <= to,
        body + to <= b.len(),
    ensures
        b.subrange(body + from, body + to) == b.skip(body).subrange(from, to),
{
    assert(b.subrange(body + from, body + to) =~= b.skip(body).subrange(from, to));
}

/// Frames with the same addresses and the same bytes from the RRB header on
/// get the same verdict, wherever that header stands.
pub proof fn verdict_on_tail(a: Seq<u8>, at: int, b: Seq<u8>, to: int, c: Config)
    requires
        12 <= at <= a.len(),
        12 <= to <= b.len() <= MAX_FRAME,
        a.take(12) == b.take(12),
        a.skip(at) == b.skip(to),
    ensures
        rrb_verdict(b, to, c) == with_body(rrb_verdict(a, at, c), to),
{
    let t = a.skip(at);
    assert(t.len() == a.len() - at);
    assert(t.len() == b.len() - to);
    assert(a.subrange(0, 6) =~= a.take(12).subrange(0, 6));
    assert(b.subrange(0, 6) =~= b.take(12).subrange(0, 6));
    assert(a.subrange(6, 12) =~= a.take(12).subrange(6, 12));
    assert(b.subrange(6, 12) =~= b.take(12).subrange(6, 12));
    if t.len() >= 20 {
        part_of_tail(a, at, 0, 5);
        part_of_tail(b, to, 0, 5);
        part_of_tail(a, at, 6, 12);
        part_of_tail(b, to, 6, 12);
        part_of_tail(a, at, 12, 18);
        part_of_tail(b, to, 12, 18);
        assert(a[at + 5] == t[5] && b[to + 5] == b.skip(to)[5]);
        assert(a[at + 18] == t[18] && b[to + 18] == b.skip(to)[18]);
        assert(a[at + 19] == t[19] && b[to + 19] == b.skip(to)[19]);
        let n = auth_len(a, at);
        assert(auth_len(b, to) == n);
        if 20 + n + 16 <= t.len() {
            part_of_tail(a, at, 20, 20 + n);
            part_of_tail(b, to, 20, 20 + n);
        }
    }
}

/// The management tag may come inline or in metadata: the verdict on a frame
/// with an inline 802.1Q tag is the one on the same frame without the tag
/// and with the tag in metadata, but for where the RRB header stands.
pub proof fn tag_representations_agree(b: Seq<u8>, c: Config)
    requires
        18 <= b.len() <= MAX_FRAME,
        be16(b, 12) == TPID_8021Q,
    ensures
        ({
            let inline = Vlan { present: false, proto: 0, tci: 0 };
            let lifted = Vlan { present: true, proto: TPID_8021Q, tci: be16(b, 14) as u16 };
            verdict(b, inline, c) == with_body(verdict(untagged(b, inline), lifted, c), 18)
        }),
{
    let inline = Vlan { present: false, proto: 0, tci: 0 };
    let s = untagged(b, inline);
    assert(s[12] == b[16] && s[13] == b[17]);
    assert(s.take(12) =~= b.take(12));
    assert(s.skip(14) =~= b.skip(18));
    verdict_on_tail(s, 14, b, 18, c);
}

/// An accepted frame with an inline tag is such a frame.
pub proof fn accepted_inline_frame(b: Seq<u8>, vlan: Vlan, c: Config)
    requires
        !vlan.present,
        verdict(b, vlan, c) is Ok,
    ensures
        18 <= b.len() <= MAX_FRAME,
        be16(b, 12) == TPID_8021Q,
        verdict(b, vlan, c) == verdict(b, (Vlan { present: false, proto: 0, tci: 0 }), c),
{
}

/// Priority and drop-eligibility bits of the metadata tag do not matter.
pub proof fn metadata_priority_is_ignored(b: Seq<u8>, vlan: Vlan, tci: u16, c: Config)
    requires
        vid(tci as int) == vid(vlan.tci as int),
    ensures
        verdict(b, (Vlan { tci: tci, ..vlan }), c) == verdict(b, vlan, c),
{
}

/// Priority and drop-eligibility bits of an inline tag do not matter.
pub proof fn inline_priority_is_ignored(a: Seq<u8>, b: Seq<u8>, vlan: Vlan, c: Config)
    requires
        !vlan.present,
        a.len() == b.len(),
        forall|i: int| 0 <= i < a.len() && i != 14 && i != 15 ==> a[i] == b[i],
        a.len() >= 16 ==> vid(be16(a, 14)) == vid(be16(b, 14)),
    ensures
        verdict(a, vlan, c) == verdict(b, vlan, c),
{
    if 18 <= a.len() <= MAX_FRAME {
        assert(a.take(12) =~= b.take(12));
        assert(a.skip(18) =~= b.skip(18));
        verdict_on_tail(a, 18, b, 18, c);
    }
}

/// Bytes that an accepted frame needs, from its start to the end of the
/// trailer.
pub open spec fn needed(b: Seq<u8>, body: int) -> int {
    body + 20 + auth_len(b, body) + 16
}

/// Cut anywhere before the end of its trailer, an accepted frame is
/// rejected.
pub proof fn truncation_is_rejected(b: Seq<u8>, vlan: Vlan, c: Config, n: int)
    requires
        verdict(b, vlan, c) is Ok,
        0 <= n < needed(b, body_of(b, vlan, c.management_vlan)->0),
    ensures
        verdict(b.take(n), vlan, c) is Err,
{
    let t = b.take(n);
    let body = body_of(b, vlan, c.management_vlan)->0;
    if verdict(t, vlan, c) is Ok {
        assert(t[12] == b[12] && t[13] == b[13]);
        assert(body_of(t, vlan, c.management_vlan) == Some(body));
        assert(t[body + 18] == b[body + 18] && t[body + 19] == b[body + 19]);
    }
}

/// Bytes behind the trailer of an accepted frame do not matter, as long as
/// the frame does not grow too long.
pub proof fn padding_is_ignored(b: Seq<u8>, pad: Seq<u8>, vlan: Vlan, c: Config)
    requires
        verdict(b, vlan, c) is Ok,
        b.len() + pad.len() <= MAX_FRAME,
    ensures
        verdict(b + pad, vlan, c) == verdict(b, vlan, c),
{
    let p = b + pad;
    let body = body_of(b, vlan, c.management_vlan)->0;
    assert(p[12] == b[12] && p[13] == b[13]);
    assert(body_of(p, vlan, c.management_vlan) == Some(body));
    assert(p.subrange(0, 6) =~= b.subrange(0, 6));
    assert(p.subrange(6, 12) =~= b.subrange(6, 12));
    assert(p.subrange(body, body + 5) =~= b.subrange(body, body + 5));
    assert(p.subrange(body + 6, body + 12) =~= b.subrange(body + 6, body + 12));
    assert(p.subrange(body + 12, body + 18) =~= b.subrange(body + 12, body + 18));
    assert(p[body + 18] == b[body + 18] && p[body + 19] == b[body + 19]);
    assert(auth_data(p, body) =~= auth_data(b, body));
}

/// The contents of the trailer are not validated, nor is what stands behind
/// it: a frame that differs from an accepted one only there gets the same
/// verdict.
pub proof fn trailer_is_not_validated(a: Seq<u8>, b: Seq<u8>, vlan: Vlan, c: Config)
    requires
        verdict(a, vlan, c) is Ok,
        a.len() == b.len(),
        forall|i: int|
            0 <= i < needed(a, body_of(a, vlan, c.management_vlan)->0) - TRAILER_LEN ==> a[i] == b[i],
    ensures
        verdict(b, vlan, c) == verdict(a, vlan, c),
{
    let body = body_of(a, vlan, c.management_vlan)->0;
    assert(a[12] == b[12] && a[13] == b[13]);
    assert(body_of(b, vlan, c.management_vlan) == Some(body));
    assert(b.subrange(0, 6) =~= a.subrange(0, 6));
    assert(b.subrange(6, 12) =~= a.subrange(6, 12));
    assert(b.subrange(body, body + 5) =~= a.subrange(body, body + 5));
    assert(b.subrange(body + 6, body + 12) =~= a.subrange(body + 6, body + 12));
    assert(b.subrange(body + 12, body + 18) =~= a.subrange(body + 12, body + 18));
    assert(b[body + 18] == a[body + 18] && b[body + 19] == a[body + 19]);
    assert(auth_data(b, body) =~= auth_data(a, body));
}

/// A broadcast is accepted only as a request that names the local R0KH-ID.
pub proof fn broadcast_is_restricted(b: Seq<u8>, vlan: Vlan, c: Config)
    requires
        verdict(b, vlan, c) is Ok,
        ({
            let body = body_of(b, vlan, c.management_vlan)->0;
            b.subrange(body + 12, body + 18) == BROADCAST@
        }),
    ensures
        ({
            let body = body_of(b, vlan, c.management_vlan)->0;
            &&& may_broadcast(verdict(b, vlan, c)->Ok_0.kind)
            &&& names_r0kh(auth_data(b, body), c.r0kh@, c.r0kh_len)
        }),
{
}

/// A frame for one BSS may name any R0KH-ID: the configured one does not
/// matter.
pub proof fn unicast_names_any_r0kh(
    b: Seq<u8>,
    vlan: Vlan,
    c: Config,
    r0kh: [u8; MAX_R0KH],
    r0kh_len: u8,
)
    requires
        body_of(b, vlan, c.management_vlan) matches Some(body) ==> b.subrange(
            body + 12,
            body + 18,
        ) != BROADCAST@,
    ensures
        verdict(b, vlan, (Config { r0kh: r0kh, r0kh_len: r0kh_len, ..c })) == verdict(b, vlan, c),
{
}

/// Without peers nothing is accepted.
pub proof fn no_peers_no_match(b: Seq<u8>, vlan: Vlan, c: Config)
    requires
        c.peer_count == 0,
    ensures
        verdict(b, vlan, c) is Err,
{
}

/// An accepted frame comes from a configured peer, is addressed to the
/// target or to all, and is for the local BSS or for all.
pub proof fn accepted_frames_are_in_scope(b: Seq<u8>, vlan: Vlan, c: Config)
    requires
        verdict(b, vlan, c) is Ok,
    ensures
        ({
            let body = body_of(b, vlan, c.management_vlan)->0;
            let src = peer_with(c.peers@, in_use(c.peer_count, MAX_PEERS), b.subrange(6, 12));
            &&& b.subrange(0, 6) == c.target_mac@ || b.subrange(0, 6) == BROADCAST@
            &&& src is Some
            &&& b.subrange(body + 6, body + 12) == src->0.bssid@
            &&& b.subrange(body + 12, body + 18) == c.local_bssid@ || b.subrange(
                body + 12,
                body + 18,
            ) == BROADCAST@
            &&& needed(b, body) <= b.len() <= MAX_FRAME
            &&& 1 <= verdict(b, vlan, c)->Ok_0.kind <= 5
        }),
{
}

/// One element as bytes: little-endian tag and size, then the value.
pub open spec fn tlv_bytes(t: Tlv) -> Seq<u8> {
    le_bytes16(t.tag) + le_bytes16(t.value.len() as u16) + t.value
}

/// Elements as bytes, one behind the other.
pub open spec fn tlvs_bytes(l: Seq<Tlv>) -> Seq<u8>
    decreases l.len(),
{
    if l.len() == 0 {
        seq![]
    } else {
        tlv_bytes(l[0]) + tlvs_bytes(l.skip(1))
    }
}

/// Elements written one behind the other read back as the same elements.
#[verifier::spinoff_prover]
pub proof fn tlvs_read_back(l: Seq<Tlv>)
    requires
        forall|i: int| 0 <= i < l.len() ==> (#[trigger] l[i]).value.len() <= 0xffff,
    ensures
        tlvs(tlvs_bytes(l)) == Some(l),
    decreases l.len(),
{
    if l.len() == 0 {
        assert(tlvs(tlvs_bytes(l)) == Some(Seq::<Tlv>::empty()));
        assert(l =~= Seq::empty());
    } else {
        let t = l[0];
        let rest = l.skip(1);
        assert forall|i: int| 0 <= i < rest.len() implies (#[trigger] rest[i]).value.len()
            <= 0xffff by {
            assert(rest[i] == l[i + 1]);
        }
        tlvs_read_back(rest);
        let s = tlvs_bytes(l);
        let n = t.value.len() as int;
        assert(s[0] == le_bytes16(t.tag)[0] && s[1] == le_bytes16(t.tag)[1]);
        assert(s[2] == le_bytes16(n as u16)[0] && s[3] == le_bytes16(n as u16)[1]);
        assert(le16(s, 0) == t.tag);
        assert(le16(s, 2) == n);
        assert(s.subrange(4, 4 + n) =~= t.value);
        assert(s.skip(4 + n) =~= tlvs_bytes(rest));
        assert(seq![t] + rest =~= l);
    }
}

/// A well-formed block is nothing but its elements, one behind the other.
pub proof fn tlvs_write_back(s: Seq<u8>)
    requires
        tlvs(s) is Some,
    ensures
        tlvs_bytes(tlvs(s)->0) == s,
        forall|i: int|
            0 <= i < tlvs(s)->0.len() ==> (#[trigger] tlvs(s)->0[i]).value.len() <= 0xffff,
    decreases s.len(),
{
    let l = tlvs(s)->0;
    if s.len() == 0 {
        assert(tlvs_bytes(l) =~= s);
    } else {
        let n = le16(s, 2);
        let rest = s.skip(4 + n);
        tlvs_write_back(rest);
        let more = tlvs(rest)->0;
        let t = Tlv { tag: le16(s, 0) as u16, value: s.subrange(4, 4 + n) };
        assert(l == seq![t] + more);
        assert(l.skip(1) =~= more);
        assert(tlv_bytes(t) =~= s.take(4 + n));
        assert(tlvs_bytes(l) =~= s);
        assert forall|i: int| 0 <= i < l.len() implies (#[trigger] l[i]).value.len() <= 0xffff by {
            if i > 0 {
                assert(l[i] == more[i - 1]);
            }
        }
    }
}

/// An element starts with its tag and its size, each with the less
/// significant octet first, and the block goes on right behind its value.
pub proof fn elements_follow_each_other(s: Seq<u8>)
    requires
        s.len() > 0,
    ensures
        s.len() < 4 ==> tlvs(s) is None,
        s.len() >= 4 ==> {
            let n = s[2] + 256 * s[3];
            &&& 4 + n > s.len() ==> tlvs(s) is None
            &&& 4 + n <= s.len() ==> {
                let rest = tlvs(s.skip(4 + n));
                &&& tlvs(s) is Some <==> rest is Some
                &&& rest is Some ==> {
                    let l = tlvs(s)->0;
                    &&& l.len() == 1 + rest->0.len()
                    &&& l[0].tag == s[0] + 256 * s[1]
                    &&& l[0].value == s.subrange(4, 4 + n)
                    &&& l.skip(1) == rest->0
                }
            }
        },
{
    if s.len() >= 4 && 4 + le16(s, 2) <= s.len() {
        if let Some(more) = tlvs(s.skip(4 + le16(s, 2))) {
            assert(tlvs(s)->0.skip(1) =~= more);
        }
    }
}

/// Where no tag occurs twice, a tag stands for the value of the one element
/// that has it, wherever in the block it lies.
pub proof fn elements_are_found(l: Seq<Tlv>, i: int)
    requires
        forall|j: int, k: int|
            0 <= j < k < l.len() ==> (#[trigger] l[j]).tag != (#[trigger] l[k]).tag,
        0 <= i < l.len(),
    ensures
        element(l, l[i].tag) == l[i].value,
    decreases l.len(),
{
    if i < l.len() - 1 {
        assert(l.drop_last()[i] == l[i]);
        elements_are_found(l.drop_last(), i);
    }
}

/// A tag that no element has stands for nothing.
pub proof fn absent_elements_are_empty(l: Seq<Tlv>, tag: u16)
    requires
        forall|i: int| 0 <= i < l.len() ==> (#[trigger] l[i]).tag != tag,
    ensures
        element(l, tag).len() == 0,
    decreases l.len(),
{
    if l.len() > 0 {
        assert(l.last() == l[l.len() - 1]);
        assert forall|i: int| 0 <= i < l.drop_last().len() implies (
        #[trigger] l.drop_last()[i]).tag != tag by {
            assert(l.drop_last()[i] == l[i]);
        }
        absent_elements_are_empty(l.drop_last(), tag);
    }
}

/// A value that stands for a tag is that of an element.
proof fn present_element(l: Seq<Tlv>, tag: u16) -> (k: int)
    requires
        element(l, tag).len() > 0,
    ensures
        0 <= k < l.len(),
        l[k].tag == tag,
        l[k].value == element(l, tag),
    decreases l.len(),
{
    if l.last().tag == tag {
        l.len() - 1
    } else {
        present_element(l.drop_last(), tag)
    }
}

/// The management tag `id` is all that stands before the RRB EtherType, and
/// the RRB header stands at `body`: in metadata with the EtherType right
/// behind the addresses, or inline between the two.
pub open spec fn tag_before(b: Seq<u8>, vlan: Vlan, id: u16, body: int) -> bool {
    if vlan.present {
        &&& body == 14
        &&& vlan.proto == 0x8100
        &&& vlan.tci as int % 4096 == id
        &&& b[12] == 0x88
        &&& b[13] == 0xb7
    } else {
        &&& body == 18
        &&& b.len() >= 18
        &&& b[12] == 0x81
        &&& b[13] == 0x00
        &&& (256 * b[14] + b[15]) % 4096 == id
        &&& b[16] == 0x88
        &&& b[17] == 0xb7
    }
}

/// All octets of the address at `i` are set.
pub open spec fn to_all(b: Seq<u8>, i: int) -> bool {
    &&& b[i] == 0xff
    &&& b[i + 1] == 0xff
    &&& b[i + 2] == 0xff
    &&& b[i + 3] == 0xff
    &&& b[i + 4] == 0xff
    &&& b[i + 5] == 0xff
}

/// The selector octets and one of the five message types stand at `body`.
pub open spec fn message_at(b: Seq<u8>, body: int) -> bool {
    &&& b[body] == 0x00
    &&& b[body + 1] == 0x13
    &&& b[body + 2] == 0x74
    &&& b[body + 3] == 0x00
    &&& b[body + 4] == 0x01
    &&& 1 <= b[body + 5] <= 5
}

/// Where the auth-data block behind the header at `body` ends.
pub open spec fn block_end(b: Seq<u8>, body: int) -> int {
    body + 20 + (b[body + 18] + 256 * b[body + 19])
}

/// The bytes behind the header at `body`, as many as it announces, are the
/// elements `l`: sixteen at most, no tag twice.
pub open spec fn block_holds(b: Seq<u8>, body: int, l: Seq<Tlv>) -> bool {
    &&& b.subrange(body + 20, block_end(b, body)) == tlvs_bytes(l)
    &&& l.len() <= 16
    &&& forall|i: int| 0 <= i < l.len() ==> (#[trigger] l[i]).value.len() <= 0xffff
    &&& forall|i: int, j: int|
        0 <= i < j < l.len() ==> (#[trigger] l[i]).tag != (#[trigger] l[j]).tag
}

/// One of the elements is an R0KH-ID, and is `id` of `len` octets.
pub open spec fn holds_r0kh(l: Seq<Tlv>, id: Seq<u8>, len: u8) -> bool {
    exists|k: int|
        0 <= k < l.len() && (#[trigger] l[k]).tag == 4 && 0 < l[k].value.len() <= 48
            && l[k].value.len() == len && l[k].value == id.take(len as int)
}

/// The tag is found where it stands.
pub proof fn tag_is_located(b: Seq<u8>, vlan: Vlan, id: u16, body: int)
    requires
        b.len() >= 14,
    ensures
        tag_before(b, vlan, id, body) <==> body_of(b, vlan, id) == Some(body),
        !tag_before(b, vlan, id, 14) && !tag_before(b, vlan, id, 18) <==> body_of(b, vlan, id)
            is None,
{
}

/// What a block is found to hold is what its bytes are.
pub proof fn blocks_are_read(b: Seq<u8>, body: int, l: Seq<Tlv>)
    requires
        0 <= body,
        body + 20 <= b.len(),
        block_end(b, body) <= b.len(),
    ensures
        block_end(b, body) == body + 20 + auth_len(b, body),
        block_holds(b, body, l) ==> tlvs_ok(auth_data(b, body)) && tlvs(auth_data(b, body))
            == Some(l),
        tlvs_ok(auth_data(b, body)) ==> block_holds(b, body, tlvs(auth_data(b, body))->0),
{
    let s = auth_data(b, body);
    if block_holds(b, body, l) {
        tlvs_read_back(l);
    }
    if tlvs_ok(s) {
        tlvs_write_back(s);
    }
}

/// An R0KH-ID is named where one of the elements is that one.
pub proof fn r0kh_is_named(s: Seq<u8>, id: Seq<u8>, len: u8)
    requires
        tlvs_ok(s),
    ensures
        names_r0kh(s, id, len) <==> holds_r0kh(tlvs(s)->0, id, len),
{
    let l = tlvs(s)->0;
    if names_r0kh(s, id, len) {
        let k = present_element(l, TLV_R0KH);
        assert(l[k].tag == 4);
    }
    if holds_r0kh(l, id, len) {
        let k = choose|k: int|
            0 <= k < l.len() && (#[trigger] l[k]).tag == 4 && 0 < l[k].value.len() <= 48
                && l[k].value.len() == len && l[k].value == id.take(len as int);
        elements_are_found(l, k);
    }
}

/// Literal octets of the addresses and the selector.
pub proof fn octets_are_compared(b: Seq<u8>, i: int)
    requires
        0 <= i,
        i + 6 <= b.len(),
    ensures
        to_all(b, i) <==> b.subrange(i, i + 6) == BROADCAST@,
        message_at(b, i) <==> known_type(b, i),
{
    let a = b.subrange(i, i + 6);
    if to_all(b, i) {
        assert(a =~= BROADCAST@);
    }
    if a == BROADCAST@ {
        assert(a[0] == b[i] && a[1] == b[i + 1] && a[2] == b[i + 2]);
        assert(a[3] == b[i + 3] && a[4] == b[i + 4] && a[5] == b[i + 5]);
    }
    let t = b.subrange(i, i + 5);
    if message_at(b, i) {
        assert(t =~= RRB_SELECTOR@);
    }
    if t == RRB_SELECTOR@ {
        assert(t[0] == b[i] && t[1] == b[i + 1] && t[2] == b[i + 2]);
        assert(t[3] == b[i + 3] && t[4] == b[i + 4]);
    }
}

/// Of the first `n` peers, `p` is the last with the address `mac`.
pub open spec fn last_with(peers: Seq<Peer>, n: int, mac: Seq<u8>, p: int) -> bool {
    &&& 0 <= p < n
    &&& peers[p].mac@ == mac
    &&& forall|q: int| p < q < n ==> (#[trigger] peers[q]).mac@ != mac
}

/// The last peer with an address is the one that counts, wherever it stands;
/// an address that no peer has counts for none.
pub proof fn peers_are_found(peers: Seq<Peer>, n: nat, mac: Seq<u8>, p: int)
    ensures
        last_with(peers, n as int, mac, p) ==> peer_with(peers, n, mac) == Some(peers[p]),
        (forall|q: int| 0 <= q < n ==> (#[trigger] peers[q]).mac@ != mac) ==> peer_with(
            peers,
            n,
            mac,
        ) is None,
        peer_with(peers, n, mac) is Some ==> exists|q: int| last_with(peers, n as int, mac, q),
    decreases n,
{
    if n > 0 {
        let m = (n - 1) as nat;
        peers_are_found(peers, m, mac, p);
        if peers[m as int].mac@ == mac {
            assert(last_with(peers, n as int, mac, m as int));
        } else if peer_with(peers, m, mac) is Some {
            let q = choose|q: int| last_with(peers, m as int, mac, q);
            assert(last_with(peers, n as int, mac, q));
        }
    }
}

/// Peers in use: as many as are declared, eight at most.
pub open spec fn peers_in_use(c: Config) -> int {
    if c.peer_count <= 8 {
        c.peer_count as int
    } else {
        8
    }
}

/// The frame is a genuine RRB message to this AP with its header at `body`,
/// from the peer `p`, and holds the elements `l`.
pub open spec fn genuine(
    b: Seq<u8>,
    vlan: Vlan,
    c: Config,
    body: int,
    p: int,
    l: Seq<Tlv>,
) -> bool {
    &&& 14 <= b.len() <= 2048
    &&& tag_before(b, vlan, c.management_vlan, body)
    &&& b.subrange(0, 6) == c.target_mac@ || to_all(b, 0)
    &&& last_with(c.peers@, peers_in_use(c), b.subrange(6, 12), p)
    &&& body + 20 <= b.len()
    &&& message_at(b, body)
    &&& b.subrange(body + 6, body + 12) == c.peers@[p].bssid@
    &&& block_end(b, body) + 16 <= b.len()
    &&& block_holds(b, body, l)
    &&& if to_all(b, body + 12) {
        (b[body + 5] == 1 || b[body + 5] == 4) && holds_r0kh(l, c.r0kh@, c.r0kh_len)
    } else {
        b.subrange(body + 12, body + 18) == c.local_bssid@
    }
}

/// Every genuine frame is accepted, from any of the configured peers, as the
/// message that it is.
pub proof fn genuine_frames_are_accepted(
    b: Seq<u8>,
    vlan: Vlan,
    c: Config,
    body: int,
    p: int,
    l: Seq<Tlv>,
)
    requires
        genuine(b, vlan, c, body, p, l),
    ensures
        verdict(b, vlan, c) == Ok::<Match, Counter>(
            (Match { kind: b[body + 5], body_offset: body as usize }),
        ),
{
    tag_is_located(b, vlan, c.management_vlan, body);
    octets_are_compared(b, 0);
    octets_are_compared(b, body);
    octets_are_compared(b, body + 12);
    peers_are_found(c.peers@, in_use(c.peer_count, MAX_PEERS), b.subrange(6, 12), p);
    blocks_are_read(b, body, l);
    r0kh_is_named(auth_data(b, body), c.r0kh@, c.r0kh_len);
}

/// Only genuine frames are accepted, as the message that they are.
pub proof fn accepted_frames_are_genuine(b: Seq<u8>, vlan: Vlan, c: Config)
    requires
        verdict(b, vlan, c) is Ok,
    ensures
        ({
            let m = verdict(b, vlan, c)->Ok_0;
            exists|p: int, l: Seq<Tlv>| #[trigger]
                genuine(b, vlan, c, m.body_offset as int, p, l) && m.kind == b[m.body_offset + 5]
        }),
{
    let m = verdict(b, vlan, c)->Ok_0;
    let body = m.body_offset as int;
    tag_is_located(b, vlan, c.management_vlan, body);
    octets_are_compared(b, 0);
    octets_are_compared(b, body);
    octets_are_compared(b, body + 12);
    let mac = b.subrange(6, 12);
    peers_are_found(c.peers@, in_use(c.peer_count, MAX_PEERS), mac, 0);
    let p = choose|q: int| last_with(c.peers@, peers_in_use(c), mac, q);
    peers_are_found(c.peers@, in_use(c.peer_count, MAX_PEERS), mac, p);
    let l = tlvs(auth_data(b, body))->0;
    blocks_are_read(b, body, l);
    r0kh_is_named(auth_data(b, body), c.r0kh@, c.r0kh_len);
    assert(genuine(b, vlan, c, body, p, l));
}

/// Frames of another length, or not behind the management tag, are refused
/// as such.
pub proof fn misplaced_frames_are_refused(b: Seq<u8>, vlan: Vlan, c: Config)
    ensures
        b.len() < 14 || b.len() > 2048 ==> verdict(b, vlan, c) == Err::<Match, Counter>(
            Counter::Length,
        ),
        14 <= b.len() <= 2048 && !tag_before(b, vlan, c.management_vlan, 14) && !tag_before(
            b,
            vlan,
            c.management_vlan,
            18,
        ) ==> verdict(b, vlan, c) == Err::<Match, Counter>(Counter::Vlan),
{
    if 14 <= b.len() {
        tag_is_located(b, vlan, c.management_vlan, 14);
    }
}

/// A frame behind the management tag is refused for the first thing that is
/// wrong with it: its addresses, its length, its type, the BSS it claims to
/// come from, the BSS it is for, the length of its block, the block, and what
/// it broadcasts, in that order.
pub proof fn refusals_name_the_first_fault(
    b: Seq<u8>,
    vlan: Vlan,
    c: Config,
    body: int,
    p: int,
    l: Seq<Tlv>,
)
    requires
        14 <= b.len() <= 2048,
        tag_before(b, vlan, c.management_vlan, body),
    ensures
        ({
            let v = verdict(b, vlan, c);
            let to_us = b.subrange(0, 6) == c.target_mac@ || to_all(b, 0);
            let from = to_us && last_with(c.peers@, peers_in_use(c), b.subrange(6, 12), p);
            let whole = from && body + 20 <= b.len();
            let typed = whole && message_at(b, body);
            let claimed = typed && b.subrange(body + 6, body + 12) == c.peers@[p].bssid@;
            let all = to_all(b, body + 12);
            let meant = claimed && (all || b.subrange(body + 12, body + 18) == c.local_bssid@);
            let fits = meant && block_end(b, body) + 16 <= b.len();
            &&& !to_us ==> v == Err::<Match, Counter>(Counter::EtherAddress)
            &&& (forall|q: int|
                0 <= q < peers_in_use(c) ==> (#[trigger] c.peers@[q]).mac@ != b.subrange(6, 12))
                ==> v == Err::<Match, Counter>(Counter::EtherAddress)
            &&& from && !whole ==> v == Err::<Match, Counter>(Counter::Length)
            &&& whole && !typed ==> v == Err::<Match, Counter>(Counter::OuiType)
            &&& typed && !claimed ==> v == Err::<Match, Counter>(Counter::SourceBss)
            &&& claimed && !meant ==> v == Err::<Match, Counter>(Counter::DestinationBss)
            &&& meant && !fits ==> v == Err::<Match, Counter>(Counter::AuthLength)
            &&& fits && (forall|k: Seq<Tlv>| !#[trigger] block_holds(b, body, k)) ==> v == Err::<
                Match,
                Counter,
            >(Counter::Tlv)
            &&& fits && block_holds(b, body, l) && all && !((b[body + 5] == 1 || b[body + 5] == 4)
                && holds_r0kh(l, c.r0kh@, c.r0kh_len)) ==> v == Err::<Match, Counter>(
                Counter::BroadcastScope,
            )
        }),
{
    tag_is_located(b, vlan, c.management_vlan, body);
    octets_are_compared(b, 0);
    peers_are_found(c.peers@, in_use(c.peer_count, MAX_PEERS), b.subrange(6, 12), p);
    if body + 20 <= b.len() {
        octets_are_compared(b, body);
        octets_are_compared(b, body + 12);
        if block_end(b, body) + 16 <= b.len() {
            blocks_are_read(b, body, l);
            if tlvs_ok(auth_data(b, body)) {
                r0kh_is_named(auth_data(b, body), c.r0kh@, c.r0kh_len);
            }
        }
    }
}

/// A frame that cannot be read is refused for its length, its tag or its
/// elements, and for nothing else.
pub proof fn unread_frames_are_refused(m: Result<Match, Counter>)
    ensures
        unread(m) <==> m == Err::<Match, Counter>(Counter::Length) || m == Err::<Match, Counter>(
            Counter::Vlan,
        ) || m == Err::<Match, Counter>(Counter::Tlv),
{
}

/// A frame in memory can always be read.
pub proof fn slices_are_reliable(b: &[u8])
    ensures
        reliable(&b),
{
}

} // verus!
