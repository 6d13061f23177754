//! What holds of the userspace validator as a whole.
use vstd::prelude::*;
use crate::common;
use crate::common::laws::{
    absent_elements_are_empty, block_end, block_holds, blocks_are_read, elements_are_found,
    holds_r0kh, message_at, needed, octets_are_compared, part_of_tail, r0kh_is_named, tag_before,
    tag_is_located, to_all,
};
use crate::common::parse::{
    auth_data, auth_len, body_of, in_use, may_broadcast, names_r0kh, tlvs, tlvs_ok, vid, Tlv,
};
use crate::proto::parse::{
    any_sender, client_of, is_local, may_claim, names_local, partly_says, peer_with, rrb_verdict,
    says, sender, verdict, Match, MatchView, Vlan, BROADCAST, ETH_P_RRB, TPID_8021Q, TRAILER_LEN,
};
use crate::proto::{Counter, Filter, Peer, MAX_FRAME, MAX_LOCALS, MAX_PEERS, MAX_PEER_BSSIDS};
use crate::relay::untagged;
use crate::wire::be16;

verus! {

/// The same verdict with the RRB header at `body`.
pub open spec fn with_body(r: Result<MatchView, Counter>, body: int) -> Result<MatchView, Counter> {
    match r {
        Ok(m) => Ok(MatchView { body_offset: body, ..m }),
        Err(e) => Err(e),
    }
}

/// Frames with the same addresses and the same bytes from the RRB header on
/// get the same verdict, wherever that header stands.
pub proof fn verdict_on_tail(a: Seq<u8>, at: int, b: Seq<u8>, to: int, f: Filter)
    requires
        12 <= at <= a.len(),
        12 <= to <= b.len(),
        a.take(12) == b.take(12),
        a.skip(at) == b.skip(to),
    ensures
        rrb_verdict(b, to, f) == with_body(rrb_verdict(a, at, f), to),
{
    let t = a.skip(at);
    assert(t.len() == a.len() - at);
    assert(t.len() == b.len() - to);
    assert(a.subrange(0, 6) =~= a.take(12).subrange(0, 6));
    assert(b.subrange(0, 6) =~= b.take(12).subrange(0, 6));
    assert(a.subrange(6, 12) =~= a.take(12).subrange(6, 12));
    assert(b.subrange(6, 12) =~= b.take(12).subrange(6, 12));
    if t.len() >= 20 {
        part_of_tail(a, at, 0, 5);
        part_of_tail(b, to, 0, 5);
        part_of_tail(a, at, 6, 12);
        part_of_tail(b, to, 6, 12);
        part_of_tail(a, at, 12, 18);
        part_of_tail(b, to, 12, 18);
        assert(a[at + 5] == t[5] && b[to + 5] == b.skip(to)[5]);
        assert(a[at + 18] == t[18] && b[to + 18] == b.skip(to)[18]);
        assert(a[at + 19] == t[19] && b[to + 19] == b.skip(to)[19]);
        let n = auth_len(a, at);
        assert(auth_len(b, to) == n);
        if 20 + n + 16 <= t.len() {
            part_of_tail(a, at, 20, 20 + n);
            part_of_tail(b, to, 20, 20 + n);
        }
    }
}

/// The management tag may come inline or in metadata: the verdict on a frame
/// with an inline 802.1Q tag is the one on the same frame without the tag
/// and with the tag in metadata, but for where the RRB header stands.
pub proof fn tag_representations_agree(b: Seq<u8>, f: Filter)
    requires
        18 <= b.len() <= MAX_FRAME,
        be16(b, 12) == TPID_8021Q,
    ensures
        ({
            let inline = Vlan { present: false, proto: 0, tci: 0 };
            let lifted = Vlan { present: true, proto: TPID_8021Q, tci: be16(b, 14) as u16 };
            verdict(b, inline, f) == with_body(verdict(untagged(b, inline), lifted, f), 18)
        }),
{
    let inline = Vlan { present: false, proto: 0, tci: 0 };
    let s = untagged(b, inline);
    assert(s[12] == b[16] && s[13] == b[17]);
    assert(s.take(12) =~= b.take(12));
    assert(s.skip(14) =~= b.skip(18));
    verdict_on_tail(s, 14, b, 18, f);
}

/// What is injected for an accepted frame keeps its addresses and is a bare
/// RRB frame: the RRB EtherType stands right behind the addresses, and the
/// RRB message right behind that.
pub proof fn injected_frame_is_bare(b: Seq<u8>, vlan: Vlan, f: Filter)
    requires
        verdict(b, vlan, f) is Ok,
    ensures
        ({
            let body = body_of(b, vlan, f.management_vlan)->0;
            let out = untagged(b, vlan);
            &&& out.take(12) == b.take(12)
            &&& out.len() >= 14
            &&& be16(out, 12) == ETH_P_RRB
            &&& out.skip(14) == b.skip(body)
        }),
{
    let out = untagged(b, vlan);
    if vlan.present {
    } else {
        assert(out[12] == b[16] && out[13] == b[17]);
        assert(out.take(12) =~= b.take(12));
        assert(out.skip(14) =~= b.skip(18));
    }
}

/// Priority and drop-eligibility bits of the metadata tag do not matter.
pub proof fn metadata_priority_is_ignored(b: Seq<u8>, vlan: Vlan, tci: u16, f: Filter)
    requires
        vid(tci as int) == vid(vlan.tci as int),
    ensures
        verdict(b, (Vlan { tci: tci, ..vlan }), f) == verdict(b, vlan, f),
{
}

/// Priority and drop-eligibility bits of an inline tag do not matter.
pub proof fn inline_priority_is_ignored(a: Seq<u8>, b: Seq<u8>, vlan: Vlan, f: Filter)
    requires
        !vlan.present,
        a.len() == b.len(),
        forall|i: int| 0 <= i < a.len() && i != 14 && i != 15 ==> a[i] == b[i],
        a.len() >= 16 ==> vid(be16(a, 14)) == vid(be16(b, 14)),
    ensures
        verdict(a, vlan, f) == verdict(b, vlan, f),
{
    if 18 <= a.len() <= MAX_FRAME {
        assert(a.take(12) =~= b.take(12));
        assert(a.skip(18) =~= b.skip(18));
        verdict_on_tail(a, 18, b, 18, f);
    }
}

/// Cut anywhere before the end of its trailer, an accepted frame is
/// rejected.
pub proof fn truncation_is_rejected(b: Seq<u8>, vlan: Vlan, f: Filter, n: int)
    requires
        verdict(b, vlan, f) is Ok,
        0 <= n < needed(b, body_of(b, vlan, f.management_vlan)->0),
    ensures
        verdict(b.take(n), vlan, f) is Err,
{
    let t = b.take(n);
    let body = body_of(b, vlan, f.management_vlan)->0;
    if verdict(t, vlan, f) is Ok {
        assert(t[12] == b[12] && t[13] == b[13]);
        assert(body_of(t, vlan, f.management_vlan) == Some(body));
        assert(t[body + 18] == b[body + 18] && t[body + 19] == b[body + 19]);
    }
}

/// Bytes behind the trailer of an accepted frame do not matter, as long as
/// the frame does not grow too long.
pub proof fn padding_is_ignored(b: Seq<u8>, pad: Seq<u8>, vlan: Vlan, f: Filter)
    requires
        verdict(b, vlan, f) is Ok,
        b.len() + pad.len() <= MAX_FRAME,
    ensures
        verdict(b + pad, vlan, f) == verdict(b, vlan, f),
{
    let p = b + pad;
    let body = body_of(b, vlan, f.management_vlan)->0;
    assert(p[12] == b[12] && p[13] == b[13]);
    assert(body_of(p, vlan, f.management_vlan) == Some(body));
    assert(p.subrange(0, 6) =~= b.subrange(0, 6));
    assert(p.subrange(6, 12) =~= b.subrange(6, 12));
    assert(p.subrange(body, body + 5) =~= b.subrange(body, body + 5));
    assert(p.subrange(body + 6, body + 12) =~= b.subrange(body + 6, body + 12));
    assert(p.subrange(body + 12, body + 18) =~= b.subrange(body + 12, body + 18));
    assert(p[body + 18] == b[body + 18] && p[body + 19] == b[body + 19]);
    assert(auth_data(p, body) =~= auth_data(b, body));
}

/// The contents of the trailer are not validated, nor is what stands behind
/// it: a frame that differs from an accepted one only there gets the same
/// verdict.
pub proof fn trailer_is_not_validated(a: Seq<u8>, b: Seq<u8>, vlan: Vlan, f: Filter)
    requires
        verdict(a, vlan, f) is Ok,
        a.len() == b.len(),
        forall|i: int|
            0 <= i < needed(a, body_of(a, vlan, f.management_vlan)->0) - TRAILER_LEN ==> a[i] == b[i],
    ensures
        verdict(b, vlan, f) == verdict(a, vlan, f),
{
    let body = body_of(a, vlan, f.management_vlan)->0;
    assert(a[12] == b[12] && a[13] == b[13]);
    assert(body_of(b, vlan, f.management_vlan) == Some(body));
    assert(b.subrange(0, 6) =~= a.subrange(0, 6));
    assert(b.subrange(6, 12) =~= a.subrange(6, 12));
    assert(b.subrange(body, body + 5) =~= a.subrange(body, body + 5));
    assert(b.subrange(body + 6, body + 12) =~= a.subrange(body + 6, body + 12));
    assert(b.subrange(body + 12, body + 18) =~= a.subrange(body + 12, body + 18));
    assert(b[body + 18] == a[body + 18] && b[body + 19] == a[body + 19]);
    assert(auth_data(b, body) =~= auth_data(a, body));
}

/// A broadcast is accepted only as a request that names the R0KH-ID of a
/// local BSS.
pub proof fn broadcast_is_restricted(b: Seq<u8>, vlan: Vlan, f: Filter)
    requires
        verdict(b, vlan, f) is Ok,
        ({
            let body = body_of(b, vlan, f.management_vlan)->0;
            b.subrange(body + 12, body + 18) == BROADCAST@
        }),
    ensures
        ({
            let body = body_of(b, vlan, f.management_vlan)->0;
            &&& may_broadcast(verdict(b, vlan, f)->Ok_0.kind)
            &&& names_local(f, auth_data(b, body))
        }),
{
}

/// Without local BSSes nothing is accepted.
pub proof fn no_locals_no_match(b: Seq<u8>, vlan: Vlan, f: Filter)
    requires
        f.local_count == 0,
    ensures
        verdict(b, vlan, f) is Err,
{
}

/// An accepted frame comes from a sender that is allowed, is addressed to
/// the target or to all, and is for a local BSS or for all.
pub proof fn accepted_frames_are_in_scope(b: Seq<u8>, vlan: Vlan, f: Filter)
    requires
        verdict(b, vlan, f) is Ok,
    ensures
        ({
            let body = body_of(b, vlan, f.management_vlan)->0;
            let src = sender(f, b.subrange(6, 12));
            &&& b.subrange(0, 6) == f.target_mac@ || b.subrange(0, 6) == BROADCAST@
            &&& any_sender(f) || (src is Some && may_claim(
                src->0,
                b.subrange(body + 6, body + 12),
            ))
            &&& is_local(f, b.subrange(body + 12, body + 18)) || b.subrange(body + 12, body + 18)
                == BROADCAST@
            &&& needed(b, body) <= b.len() <= MAX_FRAME
            &&& 1 <= verdict(b, vlan, f)->Ok_0.kind <= 5
        }),
{
}

/// Two frames differ at most in the Ethernet source and in the source BSS
/// of the RRB header at `body`.
pub open spec fn differ_in_sender(a: Seq<u8>, b: Seq<u8>, body: int) -> bool {
    &&& a.len() == b.len()
    &&& forall|i: int|
        0 <= i < a.len() && !(6 <= i < 12) && !(body + 6 <= i < body + 12) ==> a[i] == b[i]
}

/// With an empty peer list every sender is accepted: neither the Ethernet
/// source nor the claimed source BSS matters, and everything else does as
/// before.
pub proof fn empty_peer_list_is_a_wildcard(a: Seq<u8>, b: Seq<u8>, body: int, f: Filter)
    requires
        f.peer_count == 0,
        body >= 14,
        differ_in_sender(a, b, body),
    ensures
        rrb_verdict(a, body, f) == rrb_verdict(b, body, f),
{
    if a.len() >= 12 {
        assert(a.subrange(0, 6) =~= b.subrange(0, 6));
    }
    if body + 20 <= a.len() {
        assert(a.subrange(body, body + 5) =~= b.subrange(body, body + 5));
        assert(a.subrange(body + 12, body + 18) =~= b.subrange(body + 12, body + 18));
        assert(auth_len(a, body) == auth_len(b, body));
        if body + 20 + auth_len(a, body) + 16 <= a.len() {
            assert(auth_data(a, body) =~= auth_data(b, body));
        }
    }
}

/// A peer with an empty BSSID list may claim any source BSS, but its
/// Ethernet source still counts.
pub proof fn empty_bssid_list_is_a_wildcard(a: Seq<u8>, b: Seq<u8>, body: int, f: Filter)
    requires
        body >= 14,
        differ_in_sender(a, b, body),
        a.len() >= 12,
        a.subrange(6, 12) == b.subrange(6, 12),
        sender(f, a.subrange(6, 12)) matches Some(p) && p.bssid_count == 0,
    ensures
        rrb_verdict(a, body, f) == rrb_verdict(b, body, f),
{
    assert(a.subrange(0, 6) =~= b.subrange(0, 6));
    if body + 20 <= a.len() {
        assert(a.subrange(body, body + 5) =~= b.subrange(body, body + 5));
        assert(a.subrange(body + 12, body + 18) =~= b.subrange(body + 12, body + 18));
        assert(auth_len(a, body) == auth_len(b, body));
        if body + 20 + auth_len(a, body) + 16 <= a.len() {
            assert(auth_data(a, body) =~= auth_data(b, body));
        }
    }
}

/// The userspace filter and the action's configuration describe the same
/// identity: one local BSS, and peers with one BSSID each.
pub open spec fn same_identity(f: Filter, c: common::Config) -> bool {
    &&& f.management_vlan == c.management_vlan
    &&& f.target_mac@ == c.target_mac@
    &&& f.local_count == 1
    &&& f.locals@[0].bssid@ == c.local_bssid@
    &&& f.locals@[0].r0kh_len == c.r0kh_len
    &&& f.locals@[0].r0kh@ == c.r0kh@
    &&& f.peer_count == c.peer_count
    &&& f.peer_count > 0
    &&& forall|i: int|
        0 <= i < MAX_PEERS ==> {
            let p = #[trigger] f.peers@[i];
            &&& p.mac@ == c.peers@[i].mac@
            &&& p.bssid_count == 1
            &&& p.bssids@[0]@ == c.peers@[i].bssid@
        }
}

proof fn same_sender(f: Filter, c: common::Config, n: nat, mac: Seq<u8>)
    requires
        same_identity(f, c),
        n <= MAX_PEERS,
    ensures
        match (peer_with(f.peers@, n, mac), common::parse::peer_with(c.peers@, n, mac)) {
            (None, None) => true,
            (Some(p), Some(q)) => p.bssid_count == 1 && p.bssids@[0]@ == q.bssid@,
            _ => false,
        },
    decreases n,
{
    if n > 0 {
        let p = f.peers@[n - 1];
        same_sender(f, c, (n - 1) as nat, mac);
    }
}

/// The userspace validator and the kernel action accept the same frames
/// where they are configured alike, as the same message at the same place.
/// The client address, which the action does not look at, is no gate.
pub proof fn validators_agree(b: Seq<u8>, vlan: Vlan, f: Filter, c: common::Config)
    requires
        same_identity(f, c),
    ensures
        verdict(b, vlan, f) is Ok <==> common::parse::verdict(b, vlan, c) is Ok,
        verdict(b, vlan, f) is Ok ==> {
            let u = verdict(b, vlan, f)->Ok_0;
            let k = common::parse::verdict(b, vlan, c)->Ok_0;
            u.kind == k.kind && u.body_offset == k.body_offset
        },
{
    if b.len() >= 12 {
        same_sender(f, c, in_use(f.peer_count, MAX_PEERS), b.subrange(6, 12));
        if let Some(body) = body_of(b, vlan, f.management_vlan) {
            let bss = b.subrange(body + 12, body + 18);
            let own = f.locals@[0];
            assert(in_use(1, MAX_LOCALS) == 1);
            assert(is_local(f, bss) <==> own.bssid@ == bss);
            assert(names_local(f, auth_data(b, body)) <==> common::parse::names_r0kh(
                auth_data(b, body),
                c.r0kh@,
                c.r0kh_len,
            ));
            if let Some(p) = sender(f, b.subrange(6, 12)) {
                assert(may_claim(p, b.subrange(body + 6, body + 12)) <==> p.bssids@[0]@
                    == b.subrange(body + 6, body + 12));
            }
        }
    }
}

/// Of the first `n` peers, `p` is the last with the address `mac`.
pub open spec fn last_with(peers: Seq<Peer>, n: int, mac: Seq<u8>, p: int) -> bool {
    &&& 0 <= p < n
    &&& peers[p].mac@ == mac
    &&& forall|q: int| p < q < n ==> (#[trigger] peers[q]).mac@ != mac
}

/// The last peer with an address is the one that counts, wherever it stands;
/// an address that no peer has counts for none.
pub proof fn peers_are_found(peers: Seq<Peer>, n: nat, mac: Seq<u8>, p: int)
    ensures
        last_with(peers, n as int, mac, p) ==> peer_with(peers, n, mac) == Some(peers[p]),
        (forall|q: int| 0 <= q < n ==> (#[trigger] peers[q]).mac@ != mac) ==> peer_with(
            peers,
            n,
            mac,
        ) is None,
        peer_with(peers, n, mac) is Some ==> exists|q: int| last_with(peers, n as int, mac, q),
    decreases n,
{
    if n > 0 {
        let m = (n - 1) as nat;
        peers_are_found(peers, m, mac, p);
        if peers[m as int].mac@ == mac {
            assert(last_with(peers, n as int, mac, m as int));
        } else if peer_with(peers, m, mac) is Some {
            let q = choose|q: int| last_with(peers, m as int, mac, q);
            assert(last_with(peers, n as int, mac, q));
        }
    }
}

/// Entries in use: as many as are declared, eight at most.
pub open spec fn up_to_eight(count: u8) -> int {
    if count <= 8 {
        count as int
    } else {
        8
    }
}

/// The BSS `bss` is on the list of the peer, or the peer has no list.
pub open spec fn listed(p: Peer, bss: Seq<u8>) -> bool {
    p.bssid_count == 0 || exists|j: int|
        0 <= j < up_to_eight(p.bssid_count) && (#[trigger] p.bssids@[j])@ == bss
}

/// The frame comes from the peer `p` and claims a BSS of its own; or there
/// are no peers to come from.
pub open spec fn sent_by(b: Seq<u8>, f: Filter, body: int, p: int) -> bool {
    f.peer_count == 0 || (last_with(f.peers@, up_to_eight(f.peer_count), b.subrange(6, 12), p)
        && listed(f.peers@[p], b.subrange(body + 6, body + 12)))
}

/// The frame is a genuine RRB message to this AP with its header at `body`,
/// from the peer `p` if there are peers, for the local BSS `i` or naming its
/// R0KH-ID, and holds the elements `l`.
pub open spec fn genuine(
    b: Seq<u8>,
    vlan: Vlan,
    f: Filter,
    body: int,
    p: int,
    i: int,
    l: Seq<Tlv>,
) -> bool {
    &&& 14 <= b.len() <= 2048
    &&& tag_before(b, vlan, f.management_vlan, body)
    &&& b.subrange(0, 6) == f.target_mac@ || to_all(b, 0)
    &&& body + 20 <= b.len()
    &&& message_at(b, body)
    &&& sent_by(b, f, body, p)
    &&& block_end(b, body) + 16 <= b.len()
    &&& block_holds(b, body, l)
    &&& 0 <= i < up_to_eight(f.local_count)
    &&& if to_all(b, body + 12) {
        (b[body + 5] == 1 || b[body + 5] == 4) && holds_r0kh(
            l,
            f.locals@[i].r0kh@,
            f.locals@[i].r0kh_len,
        )
    } else {
        b.subrange(body + 12, body + 18) == f.locals@[i].bssid@
    }
}

/// Every genuine frame is accepted, from any of the configured peers and for
/// any of the local BSSes, as the message that it is. Its client is the
/// S1KH-ID among its elements, where that has the size of an address.
pub proof fn genuine_frames_are_accepted(
    b: Seq<u8>,
    vlan: Vlan,
    f: Filter,
    body: int,
    p: int,
    i: int,
    l: Seq<Tlv>,
)
    requires
        genuine(b, vlan, f, body, p, i, l),
    ensures
        verdict(b, vlan, f) is Ok,
        verdict(b, vlan, f)->Ok_0.kind == b[body + 5],
        verdict(b, vlan, f)->Ok_0.body_offset == body,
        forall|k: int|
            0 <= k < l.len() && (#[trigger] l[k]).tag == 6 && l[k].value.len() == 6 ==> verdict(
                b,
                vlan,
                f,
            )->Ok_0.s1kh == Some(l[k].value),
        (forall|k: int| 0 <= k < l.len() && (#[trigger] l[k]).tag == 6 ==> l[k].value.len() != 6)
            ==> verdict(b, vlan, f)->Ok_0.s1kh is None,
{
    tag_is_located(b, vlan, f.management_vlan, body);
    octets_are_compared(b, 0);
    octets_are_compared(b, body);
    octets_are_compared(b, body + 12);
    peers_are_found(f.peers@, in_use(f.peer_count, MAX_PEERS), b.subrange(6, 12), p);
    blocks_are_read(b, body, l);
    let auth = auth_data(b, body);
    r0kh_is_named(auth, f.locals@[i].r0kh@, f.locals@[i].r0kh_len);
    if !to_all(b, body + 12) {
        assert(is_local(f, f.locals@[i].bssid@));
    }
    assert forall|k: int|
        0 <= k < l.len() && (#[trigger] l[k]).tag == 6 && l[k].value.len() == 6 implies client_of(
        auth,
    ) == Some(l[k].value) by {
        elements_are_found(l, k);
    }
    if forall|k: int| 0 <= k < l.len() && (#[trigger] l[k]).tag == 6 ==> l[k].value.len() != 6 {
        if exists|k: int| 0 <= k < l.len() && (#[trigger] l[k]).tag == 6 {
            let k = choose|k: int| 0 <= k < l.len() && (#[trigger] l[k]).tag == 6;
            elements_are_found(l, k);
        } else {
            absent_elements_are_empty(l, 6);
        }
    }
}

/// Only genuine frames are accepted, as the message that they are.
pub proof fn accepted_frames_are_genuine(b: Seq<u8>, vlan: Vlan, f: Filter)
    requires
        verdict(b, vlan, f) is Ok,
    ensures
        ({
            let m = verdict(b, vlan, f)->Ok_0;
            exists|p: int, i: int, l: Seq<Tlv>| #[trigger]
                genuine(b, vlan, f, m.body_offset, p, i, l) && m.kind == b[m.body_offset + 5]
        }),
{
    let m = verdict(b, vlan, f)->Ok_0;
    let body = m.body_offset;
    tag_is_located(b, vlan, f.management_vlan, body);
    octets_are_compared(b, 0);
    octets_are_compared(b, body);
    octets_are_compared(b, body + 12);
    let mac = b.subrange(6, 12);
    peers_are_found(f.peers@, in_use(f.peer_count, MAX_PEERS), mac, 0);
    let p = choose|q: int| last_with(f.peers@, up_to_eight(f.peer_count), mac, q);
    peers_are_found(f.peers@, in_use(f.peer_count, MAX_PEERS), mac, p);
    let auth = auth_data(b, body);
    let l = tlvs(auth)->0;
    blocks_are_read(b, body, l);
    if to_all(b, body + 12) {
        let i = choose|i: int|
            0 <= i < in_use(f.local_count, MAX_LOCALS) && names_r0kh(
                auth,
                (#[trigger] f.locals@[i]).r0kh@,
                f.locals@[i].r0kh_len,
            );
        r0kh_is_named(auth, f.locals@[i].r0kh@, f.locals@[i].r0kh_len);
        assert(genuine(b, vlan, f, body, p, i, l));
    } else {
        let i = choose|i: int|
            0 <= i < in_use(f.local_count, MAX_LOCALS) && (#[trigger] f.locals@[i]).bssid@
                == b.subrange(body + 12, body + 18);
        assert(genuine(b, vlan, f, body, p, i, l));
    }
}

/// A frame for any of the local BSSes, at whatever place in the list, is
/// accepted where everything else about it is in order.
pub proof fn every_local_bss_is_served(
    b: Seq<u8>,
    vlan: Vlan,
    f: Filter,
    body: int,
    p: int,
    i: int,
    l: Seq<Tlv>,
)
    requires
        14 <= b.len() <= 2048,
        tag_before(b, vlan, f.management_vlan, body),
        b.subrange(0, 6) == f.target_mac@ || to_all(b, 0),
        body + 20 <= b.len(),
        message_at(b, body),
        sent_by(b, f, body, p),
        0 <= i < 8,
        i < f.local_count,
        b.subrange(body + 12, body + 18) == f.locals@[i].bssid@,
        !to_all(b, body + 12),
        block_end(b, body) + 16 <= b.len(),
        block_holds(b, body, l),
    ensures
        verdict(b, vlan, f) is Ok,
        verdict(b, vlan, f)->Ok_0.kind == b[body + 5],
        verdict(b, vlan, f)->Ok_0.body_offset == body,
{
    genuine_frames_are_accepted(b, vlan, f, body, p, i, l);
}

/// A peer may claim any BSS on its list, at whatever place in it.
pub proof fn every_listed_bss_may_be_claimed(p: Peer, j: int)
    requires
        0 <= j < 8,
        j < p.bssid_count,
    ensures
        may_claim(p, p.bssids@[j]@),
{
}

/// A peer with a list may claim nothing that is not on it.
pub proof fn unlisted_bsses_may_not_be_claimed(p: Peer, bss: Seq<u8>)
    requires
        p.bssid_count > 0,
        forall|j: int| 0 <= j < 8 && j < p.bssid_count ==> (#[trigger] p.bssids@[j])@ != bss,
    ensures
        !may_claim(p, bss),
{
}

/// Frames of another length, or not behind the management tag, are refused
/// as such.
pub proof fn misplaced_frames_are_refused(b: Seq<u8>, vlan: Vlan, f: Filter)
    ensures
        b.len() < 14 || b.len() > 2048 ==> verdict(b, vlan, f) == Err::<MatchView, Counter>(
            Counter::Length,
        ),
        14 <= b.len() <= 2048 && !tag_before(b, vlan, f.management_vlan, 14) && !tag_before(
            b,
            vlan,
            f.management_vlan,
            18,
        ) ==> verdict(b, vlan, f) == Err::<MatchView, Counter>(Counter::Vlan),
{
    if 14 <= b.len() {
        tag_is_located(b, vlan, f.management_vlan, 14);
    }
}

/// A frame behind the management tag is refused for the first thing that is
/// wrong with it: its addresses, its length, its type, the BSS it claims to
/// come from, the BSS it is for, the length of its block, the block, and what
/// it broadcasts, in that order.
pub proof fn refusals_name_the_first_fault(
    b: Seq<u8>,
    vlan: Vlan,
    f: Filter,
    body: int,
    p: int,
    l: Seq<Tlv>,
)
    requires
        14 <= b.len() <= 2048,
        tag_before(b, vlan, f.management_vlan, body),
    ensures
        ({
            let v = verdict(b, vlan, f);
            let to_us = b.subrange(0, 6) == f.target_mac@ || to_all(b, 0);
            let from = to_us && (f.peer_count == 0 || last_with(
                f.peers@,
                up_to_eight(f.peer_count),
                b.subrange(6, 12),
                p,
            ));
            let whole = from && body + 20 <= b.len();
            let typed = whole && message_at(b, body);
            let claimed = typed && (f.peer_count == 0 || listed(
                f.peers@[p],
                b.subrange(body + 6, body + 12),
            ));
            let all = to_all(b, body + 12);
            let meant = claimed && (all || exists|i: int|
                0 <= i < up_to_eight(f.local_count) && (#[trigger] f.locals@[i]).bssid@
                    == b.subrange(body + 12, body + 18));
            let fits = meant && block_end(b, body) + 16 <= b.len();
            &&& !to_us ==> v == Err::<MatchView, Counter>(Counter::EtherAddress)
            &&& f.peer_count > 0 && (forall|q: int|
                0 <= q < up_to_eight(f.peer_count) ==> (#[trigger] f.peers@[q]).mac@ != b.subrange(
                    6,
                    12,
                )) ==> v == Err::<MatchView, Counter>(Counter::EtherAddress)
            &&& from && !whole ==> v == Err::<MatchView, Counter>(Counter::Length)
            &&& whole && !typed ==> v == Err::<MatchView, Counter>(Counter::OuiType)
            &&& typed && !claimed ==> v == Err::<MatchView, Counter>(Counter::SourceBss)
            &&& claimed && !meant ==> v == Err::<MatchView, Counter>(Counter::DestinationBss)
            &&& meant && !fits ==> v == Err::<MatchView, Counter>(Counter::AuthLength)
            &&& fits && (forall|k: Seq<Tlv>| !#[trigger] block_holds(b, body, k)) ==> v == Err::<
                MatchView,
                Counter,
            >(Counter::Tlv)
            &&& fits && block_holds(b, body, l) && all && !((b[body + 5] == 1 || b[body + 5] == 4)
                && exists|i: int|
                0 <= i < up_to_eight(f.local_count) && holds_r0kh(
                    l,
                    (#[trigger] f.locals@[i]).r0kh@,
                    f.locals@[i].r0kh_len,
                )) ==> v == Err::<MatchView, Counter>(Counter::BroadcastScope)
        }),
{
    tag_is_located(b, vlan, f.management_vlan, body);
    octets_are_compared(b, 0);
    peers_are_found(f.peers@, in_use(f.peer_count, MAX_PEERS), b.subrange(6, 12), p);
    assert(in_use(f.local_count, MAX_LOCALS) == up_to_eight(f.local_count));
    if body + 20 <= b.len() {
        octets_are_compared(b, body);
        octets_are_compared(b, body + 12);
        if f.peer_count > 0 {
            if let Some(q) = sender(f, b.subrange(6, 12)) {
                assert(in_use(q.bssid_count, MAX_PEER_BSSIDS) == up_to_eight(q.bssid_count));
            }
        }
        if block_end(b, body) + 16 <= b.len() {
            blocks_are_read(b, body, l);
            let auth = auth_data(b, body);
            if tlvs_ok(auth) {
                assert forall|i: int| names_r0kh(
                    auth,
                    (#[trigger] f.locals@[i]).r0kh@,
                    f.locals@[i].r0kh_len,
                ) == holds_r0kh(tlvs(auth)->0, f.locals@[i].r0kh@, f.locals@[i].r0kh_len) by {
                    r0kh_is_named(auth, f.locals@[i].r0kh@, f.locals@[i].r0kh_len);
                }
            }
        }
    }
}

/// A result says what the verdict says where both accept the same message at
/// the same place with the same client, or both refuse for the same reason.
pub proof fn results_say_the_verdict(m: Result<Match, Counter>, v: Result<MatchView, Counter>)
    ensures
        says(m, v) <==> match (m, v) {
            (Ok(x), Ok(y)) => {
                &&& x.kind == y.kind
                &&& x.body_offset == y.body_offset
                &&& x.s1kh is Some <==> y.s1kh is Some
                &&& x.s1kh matches Some(a) ==> a@ == y.s1kh->0
            },
            (Err(e), Err(reason)) => e == reason,
            _ => false,
        },
{
}

/// A frame that cannot be read is refused for its length, its tag or its
/// elements; one of which only the client cannot be read is accepted as the
/// message that it is, without a client.
pub proof fn unread_frames_are_refused(m: Result<Match, Counter>, v: Result<MatchView, Counter>)
    requires
        partly_says(m, v),
    ensures
        m matches Err(e) ==> e == Counter::Length || e == Counter::Vlan || e == Counter::Tlv,
        m matches Ok(x) ==> v is Ok && x.kind == v->Ok_0.kind && x.body_offset
            == v->Ok_0.body_offset && x.s1kh is None,
{
}

} // verus!
