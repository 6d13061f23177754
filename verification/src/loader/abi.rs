//! Byte layout of the map values, as the kernel keeps them.
use vstd::prelude::*;
use vstd::slice::slice_to_vec;
use crate::common::{Budget, Config, Peer, MAX_PEERS, MAX_R0KH, MAX_SOURCES};
use crate::wire::{
    bytes16, bytes32, bytes64, value16, value16_at, value16_of_bytes16, value32, value32_at,
    value32_of_bytes32, value64, value64_at, value64_of_bytes64, ByteOrder,
};
use super::btf::{word_lies_at, words_bytes, words_bytes_len};
use super::{BUDGET_SIZE, CONFIG_SIZE};

verus! {

/// A peer entry: MAC, then BSSID.
pub open spec fn peer_bytes(p: Peer) -> Seq<u8> {
    p.mac@ + p.bssid@
}

/// Peer entries one behind the other.
pub open spec fn peers_bytes(peers: Seq<Peer>) -> Seq<u8>
    decreases peers.len(),
{
    if peers.len() == 0 {
        seq![]
    } else {
        peers_bytes(peers.drop_last()) + peer_bytes(peers.last())
    }
}

/// The `CONFIG` map's value: the fields in declaration order, each naturally
/// aligned without gaps, and seven bytes of padding behind them.
pub open spec fn config_bytes(order: ByteOrder, c: Config) -> Seq<u8> {
    bytes64(order, c.deadline_ns) + bytes64(order, c.max_packets) + bytes32(order, c.abi)
        + bytes32(order, c.mode) + words_bytes(order, c.source_ifindexes@) + bytes32(
        order,
        c.target_ifindex,
    ) + bytes32(order, c.packets_per_second) + bytes16(order, c.management_vlan) + seq![
        c.peer_count,
        c.r0kh_len,
        c.source_count,
    ] + c.target_mac@ + c.local_bssid@ + c.r0kh@ + peers_bytes(c.peers@) + seq![
        0u8,
        0u8,
        0u8,
        0u8,
        0u8,
        0u8,
        0u8,
    ]
}

/// The peer entry at `i`.
pub open spec fn peer_at(s: Seq<u8>, i: int, p: Peer) -> bool {
    &&& p.mac@ == s.subrange(i, i + 6)
    &&& p.bssid@ == s.subrange(i + 6, i + 12)
}

/// `c` is what the bytes of a `CONFIG` value say. Padding says nothing.
pub open spec fn config_at(order: ByteOrder, s: Seq<u8>, c: Config) -> bool {
    &&& c.deadline_ns == value64(order, s, 0)
    &&& c.max_packets == value64(order, s, 8)
    &&& c.abi == value32(order, s, 16)
    &&& c.mode == value32(order, s, 20)
    &&& forall|k: int|
        0 <= k < MAX_SOURCES ==> #[trigger] c.source_ifindexes@[k] == value32(order, s, 24 + 4 * k)
    &&& c.target_ifindex == value32(order, s, 56)
    &&& c.packets_per_second == value32(order, s, 60)
    &&& c.management_vlan == value16(order, s, 64)
    &&& c.peer_count == s[66]
    &&& c.r0kh_len == s[67]
    &&& c.source_count == s[68]
    &&& c.target_mac@ == s.subrange(69, 75)
    &&& c.local_bssid@ == s.subrange(75, 81)
    &&& c.r0kh@ == s.subrange(81, 129)
    &&& forall|k: int| 0 <= k < MAX_PEERS ==> peer_at(s, 129 + 12 * k, #[trigger] c.peers@[k])
}

/// The `BUDGET` map's value.
pub open spec fn budget_bytes(order: ByteOrder, b: Budget) -> Seq<u8> {
    bytes32(order, b.lock) + bytes32(order, b.reserved) + bytes64(order, b.window) + bytes64(
        order,
        b.used,
    ) + bytes64(order, b.total)
}

/// Each peer entry lies at twelve times its index.
proof fn peer_lies_at(peers: Seq<Peer>, k: int)
    ensures
        peers_bytes(peers).len() == 12 * peers.len(),
        0 <= k < peers.len() ==> peers_bytes(peers).subrange(12 * k, 12 * k + 12) == peer_bytes(
            peers[k],
        ),
    decreases peers.len(),
{
    if peers.len() > 0 {
        let rest = peers.drop_last();
        peer_lies_at(rest, k);
        if k == rest.len() {
            assert(peers_bytes(peers).subrange(12 * k, 12 * k + 12) =~= peer_bytes(peers[k]));
        } else if 0 <= k < rest.len() {
            assert(peers_bytes(peers).subrange(12 * k, 12 * k + 12) =~= peers_bytes(rest).subrange(
                12 * k,
                12 * k + 12,
            ));
        }
    }
}

/// A field between what stands before and behind it lies at the length of
/// what stands before it.
proof fn lies_between(before: Seq<u8>, field: Seq<u8>, behind: Seq<u8>)
    ensures
        (before + field + behind).subrange(
            before.len() as int,
            (before.len() + field.len()) as int,
        ) == field,
{
    assert((before + field + behind).subrange(
        before.len() as int,
        (before.len() + field.len()) as int,
    ) =~= field);
}

/// The fields of a `CONFIG` value in order, each on its own.
spec fn config_fields(order: ByteOrder, c: Config) -> Seq<Seq<u8>> {
    seq![
        bytes64(order, c.deadline_ns),
        bytes64(order, c.max_packets),
        bytes32(order, c.abi),
        bytes32(order, c.mode),
        words_bytes(order, c.source_ifindexes@),
        bytes32(order, c.target_ifindex),
        bytes32(order, c.packets_per_second),
        bytes16(order, c.management_vlan),
        seq![c.peer_count, c.r0kh_len, c.source_count],
        c.target_mac@,
        c.local_bssid@,
        c.r0kh@,
        peers_bytes(c.peers@),
        seq![0u8, 0u8, 0u8, 0u8, 0u8, 0u8, 0u8],
    ]
}

/// Fields one behind the other.
spec fn joined(fields: Seq<Seq<u8>>) -> Seq<u8>
    decreases fields.len(),
{
    if fields.len() == 0 {
        seq![]
    } else {
        joined(fields.drop_last()) + fields.last()
    }
}

/// Field `i` lies where the fields before it end.
proof fn joined_at(fields: Seq<Seq<u8>>, i: int)
    requires
        0 <= i < fields.len(),
    ensures
        ({
            let from = joined(fields.take(i)).len();
            let to = from + fields[i].len();
            &&& to <= joined(fields).len()
            &&& joined(fields.take(i + 1)).len() == to
            &&& joined(fields).subrange(from as int, to as int) == fields[i]
        }),
    decreases fields.len(),
{
    let rest = fields.drop_last();
    let head = joined(fields.take(i));
    assert(fields.take(i + 1).drop_last() =~= fields.take(i));
    if i == rest.len() {
        assert(fields.take(i) =~= rest);
        assert(fields.take(i + 1) =~= fields);
        lies_between(joined(rest), fields[i], seq![]);
        assert(joined(rest) + fields[i] + seq![] =~= joined(fields));
    } else {
        joined_at(rest, i);
        assert(rest.take(i) =~= fields.take(i));
        assert(rest.take(i + 1) =~= fields.take(i + 1));
        let to = (head.len() + fields[i].len()) as int;
        assert(joined(fields).subrange(head.len() as int, to) =~= joined(rest).subrange(
            head.len() as int,
            to,
        ));
    }
}

/// A `CONFIG` value is its fields, one behind the other.
proof fn config_is_joined(order: ByteOrder, c: Config)
    ensures
        config_bytes(order, c) == joined(config_fields(order, c)),
{
    let f = config_fields(order, c);
    assert(f.take(14) =~= f);
    assert forall|i: int| 0 < i <= 14 implies joined(#[trigger] f.take(i)) == joined(f.take(i - 1))
        + f[i - 1] by {
        assert(f.take(i).drop_last() =~= f.take(i - 1));
    }
    assert(joined(f.take(1)) =~= f[0]) by {
        assert(f.take(0) =~= seq![]);
    }
    assert(joined(f.take(2)) == f[0] + f[1]);
    assert(joined(f.take(3)) == f[0] + f[1] + f[2]);
    assert(joined(f.take(4)) == f[0] + f[1] + f[2] + f[3]);
    assert(joined(f.take(5)) == joined(f.take(4)) + f[4]);
    assert(joined(f.take(6)) == joined(f.take(5)) + f[5]);
    assert(joined(f.take(7)) == joined(f.take(6)) + f[6]);
    assert(joined(f.take(8)) == joined(f.take(7)) + f[7]);
    assert(joined(f.take(9)) == joined(f.take(8)) + f[8]);
    assert(joined(f.take(10)) == joined(f.take(9)) + f[9]);
    assert(joined(f.take(11)) == joined(f.take(10)) + f[10]);
    assert(joined(f.take(12)) == joined(f.take(11)) + f[11]);
    assert(joined(f.take(13)) == joined(f.take(12)) + f[12]);
    assert(joined(f.take(14)) == joined(f.take(13)) + f[13]);
}

/// The sections of a `CONFIG` value lie at their offsets.
proof fn config_sections(order: ByteOrder, c: Config)
    ensures
        ({
            let s = config_bytes(order, c);
            &&& s.len() == CONFIG_SIZE
            &&& s.subrange(0, 8) == bytes64(order, c.deadline_ns)
            &&& s.subrange(8, 16) == bytes64(order, c.max_packets)
            &&& s.subrange(16, 20) == bytes32(order, c.abi)
            &&& s.subrange(20, 24) == bytes32(order, c.mode)
            &&& s.subrange(24, 56) == words_bytes(order, c.source_ifindexes@)
            &&& s.subrange(56, 60) == bytes32(order, c.target_ifindex)
            &&& s.subrange(60, 64) == bytes32(order, c.packets_per_second)
            &&& s.subrange(64, 66) == bytes16(order, c.management_vlan)
            &&& s.subrange(66, 69) == seq![c.peer_count, c.r0kh_len, c.source_count]
            &&& s.subrange(69, 75) == c.target_mac@
            &&& s.subrange(75, 81) == c.local_bssid@
            &&& s.subrange(81, 129) == c.r0kh@
            &&& s.subrange(129, 225) == peers_bytes(c.peers@)
            &&& s.subrange(225, 232) == seq![0u8, 0u8, 0u8, 0u8, 0u8, 0u8, 0u8]
        }),
{
    value64_of_bytes64(order, c.deadline_ns);
    value64_of_bytes64(order, c.max_packets);
    value32_of_bytes32(order, c.abi);
    value32_of_bytes32(order, c.mode);
    value32_of_bytes32(order, c.target_ifindex);
    value32_of_bytes32(order, c.packets_per_second);
    value16_of_bytes16(order, c.management_vlan);
    words_bytes_len(order, c.source_ifindexes@);
    peer_lies_at(c.peers@, 0);
    config_is_joined(order, c);
    let f = config_fields(order, c);
    assert(f.take(0) =~= seq![]);
    assert(f.take(14) =~= f);
    joined_at(f, 0);
    joined_at(f, 1);
    joined_at(f, 2);
    joined_at(f, 3);
    joined_at(f, 4);
    joined_at(f, 5);
    joined_at(f, 6);
    joined_at(f, 7);
    joined_at(f, 8);
    joined_at(f, 9);
    joined_at(f, 10);
    joined_at(f, 11);
    joined_at(f, 12);
    joined_at(f, 13);
}

/// Two arrays with the same elements are the same array.
proof fn array_ext<T, const N: usize>(a: [T; N], b: [T; N])
    requires
        a@ == b@,
    ensures
        a == b,
{
    assert(forall|i: int| 0 <= i < N ==> a[i] == b[i]) by {
        assert(forall|i: int| 0 <= i < N ==> a@[i] == b@[i]);
    }
    assert(a =~= b);
}

/// What was written as a `CONFIG` value reads back as the same
/// configuration, and as no other.
pub proof fn config_round_trip(order: ByteOrder, c: Config, d: Config)
    ensures
        config_bytes(order, c).len() == CONFIG_SIZE,
        config_at(order, config_bytes(order, c), d) <==> d == c,
{
    let s = config_bytes(order, c);
    config_sections(order, c);
    let counts = s.subrange(66, 69);
    assert(s[66] == counts[0] && s[67] == counts[1] && s[68] == counts[2]);
    value64_at(order, s, 0, c.deadline_ns);
    value64_at(order, s, 8, c.max_packets);
    value32_at(order, s, 16, c.abi);
    value32_at(order, s, 20, c.mode);
    value32_at(order, s, 56, c.target_ifindex);
    value32_at(order, s, 60, c.packets_per_second);
    value16_at(order, s, 64, c.management_vlan);
    assert forall|k: int| 0 <= k < MAX_SOURCES implies #[trigger] c.source_ifindexes@[k]
        == value32(order, s, 24 + 4 * k) by {
        word_lies_at(order, c.source_ifindexes@, k);
        assert(s.subrange(24 + 4 * k, 24 + 4 * k + 4) =~= s.subrange(24, 56).subrange(
            4 * k,
            4 * k + 4,
        ));
        value32_at(order, s, 24 + 4 * k, c.source_ifindexes@[k]);
    }
    assert forall|k: int| 0 <= k < MAX_PEERS implies peer_at(
        s,
        129 + 12 * k,
        #[trigger] c.peers@[k],
    ) by {
        peer_lies_at(c.peers@, k);
        let p = c.peers@[k];
        let e = s.subrange(129, 225).subrange(12 * k, 12 * k + 12);
        assert(s.subrange(129 + 12 * k, 129 + 12 * k + 6) =~= e.subrange(0, 6));
        assert(s.subrange(129 + 12 * k + 6, 129 + 12 * k + 12) =~= e.subrange(6, 12));
        assert(p.mac@ =~= e.subrange(0, 6));
        assert(p.bssid@ =~= e.subrange(6, 12));
    }
    if config_at(order, s, d) {
        assert(d.source_ifindexes@ =~= c.source_ifindexes@) by {
            assert(forall|k: int|
                0 <= k < MAX_SOURCES ==> d.source_ifindexes@[k] == c.source_ifindexes@[k]);
        }
        array_ext(d.source_ifindexes, c.source_ifindexes);
        array_ext(d.target_mac, c.target_mac);
        array_ext(d.local_bssid, c.local_bssid);
        array_ext(d.r0kh, c.r0kh);
        assert forall|k: int| 0 <= k < MAX_PEERS implies d.peers@[k] == c.peers@[k] by {
            let p = d.peers@[k];
            let q = c.peers@[k];
            assert(peer_at(s, 129 + 12 * k, p));
            assert(peer_at(s, 129 + 12 * k, q));
            array_ext(p.mac, q.mac);
            array_ext(p.bssid, q.bssid);
        }
        assert(d.peers@ =~= c.peers@);
        array_ext(d.peers, c.peers);
    }
}

/// Each field of a configuration is written at its own offset, and nothing
/// but zeros is written behind them.
pub proof fn config_fields_lie_at_their_offsets(order: ByteOrder, c: Config)
    ensures
        ({
            let s = config_bytes(order, c);
            &&& s.len() == 232
            &&& value64(order, s, 0) == c.deadline_ns
            &&& value64(order, s, 8) == c.max_packets
            &&& value32(order, s, 16) == c.abi
            &&& value32(order, s, 20) == c.mode
            &&& forall|k: int|
                0 <= k < 8 ==> value32(order, s, 24 + 4 * k) == #[trigger] c.source_ifindexes@[k]
            &&& value32(order, s, 56) == c.target_ifindex
            &&& value32(order, s, 60) == c.packets_per_second
            &&& value16(order, s, 64) == c.management_vlan
            &&& s[66] == c.peer_count
            &&& s[67] == c.r0kh_len
            &&& s[68] == c.source_count
            &&& s.subrange(69, 75) == c.target_mac@
            &&& s.subrange(75, 81) == c.local_bssid@
            &&& s.subrange(81, 129) == c.r0kh@
            &&& forall|k: int|
                0 <= k < 8 ==> s.subrange(129 + 12 * k, 135 + 12 * k) == (
                #[trigger] c.peers@[k]).mac@
            &&& forall|k: int|
                0 <= k < 8 ==> s.subrange(135 + 12 * k, 141 + 12 * k) == (
                #[trigger] c.peers@[k]).bssid@
            &&& forall|i: int| 225 <= i < 232 ==> #[trigger] s[i] == 0
        }),
{
    let s = config_bytes(order, c);
    config_round_trip(order, c, c);
    assert(config_at(order, s, c));
    assert forall|k: int| 0 <= k < 8 implies s.subrange(129 + 12 * k, 135 + 12 * k) == (
    #[trigger] c.peers@[k]).mac@ by {
        assert(peer_at(s, 129 + 12 * k, c.peers@[k]));
    }
    assert forall|k: int| 0 <= k < 8 implies s.subrange(135 + 12 * k, 141 + 12 * k) == (
    #[trigger] c.peers@[k]).bssid@ by {
        assert(peer_at(s, 129 + 12 * k, c.peers@[k]));
    }
    config_sections(order, c);
    let pad = s.subrange(225, 232);
    assert forall|i: int| 225 <= i < 232 implies #[trigger] s[i] == 0 by {
        assert(pad[i - 225] == s[i]);
    }
}

/// Each field of a configuration is read from its own offset.
pub proof fn config_fields_are_read_from_their_offsets(order: ByteOrder, s: Seq<u8>, c: Config)
    requires
        s.len() == 232,
        config_at(order, s, c),
    ensures
        c.deadline_ns == value64(order, s, 0),
        c.max_packets == value64(order, s, 8),
        c.abi == value32(order, s, 16),
        c.mode == value32(order, s, 20),
        forall|k: int|
            0 <= k < 8 ==> #[trigger] c.source_ifindexes@[k] == value32(order, s, 24 + 4 * k),
        c.target_ifindex == value32(order, s, 56),
        c.packets_per_second == value32(order, s, 60),
        c.management_vlan == value16(order, s, 64),
        c.peer_count == s[66],
        c.r0kh_len == s[67],
        c.source_count == s[68],
        c.target_mac@ == s.subrange(69, 75),
        c.local_bssid@ == s.subrange(75, 81),
        c.r0kh@ == s.subrange(81, 129),
        forall|k: int|
            0 <= k < 8 ==> (#[trigger] c.peers@[k]).mac@ == s.subrange(129 + 12 * k, 135 + 12 * k),
        forall|k: int|
            0 <= k < 8 ==> (#[trigger] c.peers@[k]).bssid@ == s.subrange(
                135 + 12 * k,
                141 + 12 * k,
            ),
{
    assert forall|k: int| 0 <= k < 8 implies peer_at(s, 129 + 12 * k, #[trigger] c.peers@[k]) by {
    }
}

/// The fields of a `BUDGET` value lie at the bit offsets that the BTF blob
/// gives for them, and `used` and `total` are what a reader of the map gets.
pub proof fn budget_layout(order: ByteOrder, b: Budget)
    ensures
        budget_bytes(order, b).len() == BUDGET_SIZE,
        value32(order, budget_bytes(order, b), 0) == b.lock,
        value32(order, budget_bytes(order, b), 4) == b.reserved,
        value64(order, budget_bytes(order, b), 8) == b.window,
        value64(order, budget_bytes(order, b), 16) == b.used,
        value64(order, budget_bytes(order, b), 24) == b.total,
{
    let s = budget_bytes(order, b);
    value32_of_bytes32(order, b.lock);
    value32_of_bytes32(order, b.reserved);
    value64_of_bytes64(order, b.window);
    value64_of_bytes64(order, b.used);
    value64_of_bytes64(order, b.total);
    assert(s.subrange(0, 4) =~= bytes32(order, b.lock));
    assert(s.subrange(4, 8) =~= bytes32(order, b.reserved));
    assert(s.subrange(8, 16) =~= bytes64(order, b.window));
    assert(s.subrange(16, 24) =~= bytes64(order, b.used));
    assert(s.subrange(24, 32) =~= bytes64(order, b.total));
    value32_at(order, s, 0, b.lock);
    value32_at(order, s, 4, b.reserved);
    value64_at(order, s, 8, b.window);
    value64_at(order, s, 16, b.used);
    value64_at(order, s, 24, b.total);
}

/// Append bytes.
fn push_bytes(out: &mut Vec<u8>, b: &[u8])
    ensures
        final(out)@ == old(out)@ + b@,
{
    let mut rest: Vec<u8> = slice_to_vec(b);
    out.append(&mut rest);
}

/// The `CONFIG` map's value for a machine of the given byte order.
pub fn encode_config(order: ByteOrder, c: &Config) -> (out: Vec<u8>)
    ensures
        out@ == config_bytes(order, *c),
{
    let mut out: Vec<u8> = Vec::new();
    push_bytes(&mut out, order.put64(c.deadline_ns).as_slice());
    push_bytes(&mut out, order.put64(c.max_packets).as_slice());
    push_bytes(&mut out, order.put32(c.abi).as_slice());
    push_bytes(&mut out, order.put32(c.mode).as_slice());
    assert(out@ =~= bytes64(order, c.deadline_ns) + bytes64(order, c.max_packets) + bytes32(
        order,
        c.abi,
    ) + bytes32(order, c.mode));
    let ghost head = out@;
    let mut i: usize = 0;
    assert(head + words_bytes(order, c.source_ifindexes@.take(0)) =~= head);
    while i < MAX_SOURCES
        invariant
            i <= MAX_SOURCES,
            out@ == head + words_bytes(order, c.source_ifindexes@.take(i as int)),
        decreases MAX_SOURCES - i,
    {
        push_bytes(&mut out, order.put32(c.source_ifindexes[i]).as_slice());
        proof {
            let next = c.source_ifindexes@.take(i + 1);
            assert(next.drop_last() =~= c.source_ifindexes@.take(i as int));
            assert(out@ =~= head + words_bytes(order, next));
        }
        i += 1;
    }
    assert(c.source_ifindexes@.take(i as int) =~= c.source_ifindexes@);
    push_bytes(&mut out, order.put32(c.target_ifindex).as_slice());
    push_bytes(&mut out, order.put32(c.packets_per_second).as_slice());
    push_bytes(&mut out, order.put16(c.management_vlan).as_slice());
    let counts: [u8; 3] = [c.peer_count, c.r0kh_len, c.source_count];
    push_bytes(&mut out, counts.as_slice());
    assert(counts@ =~= seq![c.peer_count, c.r0kh_len, c.source_count]);
    push_bytes(&mut out, c.target_mac.as_slice());
    push_bytes(&mut out, c.local_bssid.as_slice());
    push_bytes(&mut out, c.r0kh.as_slice());
    let ghost body = out@;
    let mut k: usize = 0;
    assert(body + peers_bytes(c.peers@.take(0)) =~= body);
    while k < MAX_PEERS
        invariant
            k <= MAX_PEERS,
            out@ == body + peers_bytes(c.peers@.take(k as int)),
        decreases MAX_PEERS - k,
    {
        push_bytes(&mut out, c.peers[k].mac.as_slice());
        push_bytes(&mut out, c.peers[k].bssid.as_slice());
        proof {
            let next = c.peers@.take(k + 1);
            assert(next.drop_last() =~= c.peers@.take(k as int));
            assert(out@ =~= body + peers_bytes(next));
        }
        k += 1;
    }
    assert(c.peers@.take(k as int) =~= c.peers@);
    let padding: [u8; 7] = [0, 0, 0, 0, 0, 0, 0];
    push_bytes(&mut out, padding.as_slice());
    assert(padding@ =~= seq![0u8, 0u8, 0u8, 0u8, 0u8, 0u8, 0u8]);
    out
}

/// Six bytes as an address.
fn mac_at(s: &[u8], i: usize) -> (m: [u8; 6])
    requires
        i + 6 <= s@.len(),
    ensures
        m@ == s@.subrange(i as int, i + 6),
{
    assert(s.len() == s@.len());
    let m: [u8; 6] = [s[i], s[i + 1], s[i + 2], s[i + 3], s[i + 4], s[i + 5]];
    assert(m@ =~= s@.subrange(i as int, i + 6));
    m
}

/// Read a `CONFIG` map's value. Every bit pattern is valid.
pub fn decode_config(order: ByteOrder, s: &[u8]) -> (c: Config)
    requires
        s@.len() == CONFIG_SIZE,
    ensures
        config_at(order, s@, c),
{
    let mut c: Config = Config::default();
    c.deadline_ns = order.get64(s, 0);
    c.max_packets = order.get64(s, 8);
    c.abi = order.get32(s, 16);
    c.mode = order.get32(s, 20);
    let mut i: usize = 0;
    while i < MAX_SOURCES
        invariant
            i <= MAX_SOURCES,
            s@.len() == CONFIG_SIZE,
            c.deadline_ns == value64(order, s@, 0),
            c.max_packets == value64(order, s@, 8),
            c.abi == value32(order, s@, 16),
            c.mode == value32(order, s@, 20),
            forall|k: int|
                0 <= k < i ==> #[trigger] c.source_ifindexes@[k] == value32(order, s@, 24 + 4 * k),
        decreases MAX_SOURCES - i,
    {
        c.source_ifindexes[i] = order.get32(s, 24 + 4 * i);
        i += 1;
    }
    c.target_ifindex = order.get32(s, 56);
    c.packets_per_second = order.get32(s, 60);
    c.management_vlan = order.get16(s, 64);
    c.peer_count = s[66];
    c.r0kh_len = s[67];
    c.source_count = s[68];
    c.target_mac = mac_at(s, 69);
    c.local_bssid = mac_at(s, 75);
    let mut r0kh: [u8; MAX_R0KH] = [0; MAX_R0KH];
    let mut k: usize = 0;
    while k < MAX_R0KH
        invariant
            k <= MAX_R0KH,
            s@.len() == CONFIG_SIZE,
            forall|j: int| 0 <= j < k ==> r0kh@[j] == s@[81 + j],
        decreases MAX_R0KH - k,
    {
        r0kh[k] = s[81 + k];
        k += 1;
    }
    assert(r0kh@ =~= s@.subrange(81, 129));
    c.r0kh = r0kh;
    let p: Peer = Peer::default();
    let mut peers: [Peer; MAX_PEERS] = [p, p, p, p, p, p, p, p];
    let mut j: usize = 0;
    while j < MAX_PEERS
        invariant
            j <= MAX_PEERS,
            s@.len() == CONFIG_SIZE,
            forall|n: int| 0 <= n < j ==> peer_at(s@, 129 + 12 * n, #[trigger] peers@[n]),
        decreases MAX_PEERS - j,
    {
        peers[j] = Peer { mac: mac_at(s, 129 + 12 * j), bssid: mac_at(s, 135 + 12 * j) };
        j += 1;
    }
    c.peers = peers;
    c
}

/// The `used` and `total` fields of a `BUDGET` map's value.
pub fn budget_usage(order: ByteOrder, s: &[u8]) -> (r: (u64, u64))
    requires
        s@.len() == BUDGET_SIZE,
    ensures
        r.0 == value64(order, s@, 16),
        r.1 == value64(order, s@, 24),
{
    (order.get64(s, 16), order.get64(s, 24))
}

} // verus!
