//! What holds of configurations, in terms of what they say.
use vstd::prelude::*;
use vstd::string::*;
use vstd::utf8::*;
use crate::proto::parse::BROADCAST;
use crate::proto::Filter;
use crate::text::{first, first_is_first, hex, pieces_lie_between_separators, split, trimmed};
use super::address::{hex_value, mac_of, octet_value, octets, MacError};
use super::identity::{
    claims_verdict, listed_of, local_entry, local_of, locals_of, managed_macs, peer_entry, peer_of,
    peers_of, r0kh_of, valid_r0kh, FilterError, FilterId, LocalId, PeerId, Readings,
};
use super::{accepted_names, names_verdict, valid_name, ApEntry, ConfigError, PeerEntry, Settings};

verus! {

// ---------------------------------------------------------------------------
// Addresses.
// ---------------------------------------------------------------------------

/// Hex digits are those of either case, and nothing else is one.
pub proof fn hex_digits_have_their_values(c: char)
    ensures
        0x30 <= c as int <= 0x39 ==> hex_value(c) == Some((c as int - 0x30) as u8),
        0x41 <= c as int <= 0x46 ==> hex_value(c) == Some((c as int - 0x41 + 10) as u8),
        0x61 <= c as int <= 0x66 ==> hex_value(c) == Some((c as int - 0x61 + 10) as u8),
        hex_value(c) is Some ==> 0x30 <= c as int <= 0x39 || 0x41 <= c as int <= 0x46 || 0x61
            <= c as int <= 0x66,
        hex_value(c) is Some ==> hex_value(c)->0 < 16 && c != ':' && c as int <= 0x7f,
{
}

/// Two hex digits spell an octet, the more significant first; nothing else
/// does.
pub proof fn octets_are_two_digits(p: Seq<char>)
    ensures
        octet_value(p) is Some <==> p.len() == 2 && hex_value(p[0]) is Some && hex_value(p[1])
            is Some,
        octet_value(p) is Some ==> octet_value(p)->0 == 16 * hex_value(p[0])->0 + hex_value(
            p[1],
        )->0,
        octet_value(p) is Some ==> encode_utf8(p).len() == 2,
        octet_value(p) is Some ==> !p.contains(':'),
{
    if p.len() == 2 && hex_value(p[0]) is Some && hex_value(p[1]) is Some {
        hex_digits_have_their_values(p[0]);
        hex_digits_have_their_values(p[1]);
        assert(is_ascii_chars(p));
        is_ascii_chars_encode_utf8(p);
    }
}

/// Octets that are all spelled come out in order.
proof fn spelled_octets(parts: Seq<Seq<char>>, m: Seq<u8>)
    requires
        parts.len() == m.len(),
        forall|k: int| 0 <= k < m.len() ==> octet_value(#[trigger] parts[k]) == Some(m[k]),
    ensures
        octets(parts) == Ok::<Seq<u8>, MacError>(m),
    decreases m.len(),
{
    if m.len() > 0 {
        let rest = parts.drop_last();
        assert forall|k: int| 0 <= k < m.drop_last().len() implies octet_value(#[trigger] rest[k])
            == Some(m.drop_last()[k]) by {
            assert(rest[k] == parts[k]);
        }
        spelled_octets(rest, m.drop_last());
        octets_are_two_digits(parts.last());
        assert(parts.last() == parts[m.len() - 1]);
        assert(m.drop_last().push(m.last()) =~= m);
    } else {
        assert(m =~= seq![]);
    }
}

/// Octets that are read were all spelled.
proof fn read_octets(parts: Seq<Seq<char>>)
    ensures
        octets(parts) matches Ok(m) ==> m.len() == parts.len() && forall|k: int|
            0 <= k < m.len() ==> octet_value(#[trigger] parts[k]) == Some(m[k]),
    decreases parts.len(),
{
    if parts.len() > 0 && octets(parts) is Ok {
        let rest = parts.drop_last();
        read_octets(rest);
        let m = octets(parts)->Ok_0;
        assert forall|k: int| 0 <= k < m.len() implies octet_value(#[trigger] parts[k]) == Some(
            m[k],
        ) by {
            if k < rest.len() {
                assert(rest[k] == parts[k]);
            }
        }
    }
}

/// The first octet that is none decides: by its length, else by its digits.
pub proof fn first_bad_octet_decides(parts: Seq<Seq<char>>, i: int)
    requires
        0 <= i < parts.len() <= usize::MAX,
        octets(parts.take(i)) is Ok,
        octet_value(parts[i]) is None,
    ensures
        octets(parts) == Err::<Seq<u8>, MacError>(
            if encode_utf8(parts[i]).len() != 2 {
                MacError::OctetLength(i as usize)
            } else {
                MacError::OctetDigits(i as usize)
            },
        ),
    decreases parts.len(),
{
    let rest = parts.drop_last();
    if i == rest.len() {
        assert(parts.take(i) =~= rest);
    } else {
        assert(rest.take(i) =~= parts.take(i));
        first_bad_octet_decides(rest, i);
    }
}

/// The first piece of a text, and what the other pieces are of.
proof fn piece_heads(s: Seq<char>, c: char) -> (rest: Seq<char>)
    ensures
        split(s, c).len() >= 1,
        split(s, c).len() == 1 ==> s == split(s, c)[0],
        split(s, c).len() > 1 ==> s == split(s, c)[0] + seq![c] + rest && split(rest, c) == split(
            s,
            c,
        ).skip(1),
{
    let k = first(s, c);
    first_is_first(s, c);
    if k < s.len() {
        let rest = s.skip(k as int + 1);
        assert(s =~= s.take(k as int) + seq![c] + rest);
        assert(split(s, c).skip(1) =~= split(rest, c));
        rest
    } else {
        s
    }
}

/// The text with the octets `p` and colons between them.
pub open spec fn six_octets(p: Seq<Seq<char>>) -> Seq<char> {
    p[0] + seq![':'] + (p[1] + seq![':'] + (p[2] + seq![':'] + (p[3] + seq![':'] + (p[4] + seq![
        ':',
    ] + p[5]))))
}

/// Six pairs of hex digits of either case, with colons between them, are the
/// address of those octets.
pub proof fn spelled_addresses_are_read(p: Seq<Seq<char>>, m: Seq<u8>)
    requires
        p.len() == 6,
        m.len() == 6,
        forall|k: int|
            0 <= k < 6 ==> (#[trigger] p[k]).len() == 2 && hex_value(p[k][0]) is Some && hex_value(
                p[k][1],
            ) is Some && m[k] == 16 * hex_value(p[k][0])->0 + hex_value(p[k][1])->0,
    ensures
        mac_of(six_octets(p)) == Ok::<Seq<u8>, MacError>(m),
{
    octets_are_two_digits(p[0]);
    octets_are_two_digits(p[1]);
    octets_are_two_digits(p[2]);
    octets_are_two_digits(p[3]);
    octets_are_two_digits(p[4]);
    octets_are_two_digits(p[5]);
    let s4 = p[4] + seq![':'] + p[5];
    let s3 = p[3] + seq![':'] + s4;
    let s2 = p[2] + seq![':'] + s3;
    let s1 = p[1] + seq![':'] + s2;
    pieces_lie_between_separators(p[5], ':', p[5]);
    pieces_lie_between_separators(p[4], ':', p[5]);
    pieces_lie_between_separators(p[3], ':', s4);
    pieces_lie_between_separators(p[2], ':', s3);
    pieces_lie_between_separators(p[1], ':', s2);
    pieces_lie_between_separators(p[0], ':', s1);
    assert(split(six_octets(p), ':') =~= p);
    assert forall|k: int| 0 <= k < m.len() implies octet_value(#[trigger] p[k]) == Some(m[k]) by {
        octets_are_two_digits(p[k]);
    }
    spelled_octets(p, m);
}

/// Nothing else is an address: seventeen characters, colons between the
/// pairs, and each pair the octet in its place.
pub proof fn read_addresses_are_spelled(s: Seq<char>, k: int)
    requires
        mac_of(s) is Ok,
        0 <= k < 6,
    ensures
        s.len() == 17,
        k < 5 ==> s[3 * k + 2] == ':',
        hex_value(s[3 * k]) is Some,
        hex_value(s[3 * k + 1]) is Some,
        mac_of(s)->Ok_0.len() == 6,
        mac_of(s)->Ok_0[k] == 16 * hex_value(s[3 * k])->0 + hex_value(s[3 * k + 1])->0,
{
    let p = split(s, ':');
    read_octets(p);
    let s1 = piece_heads(s, ':');
    let s2 = piece_heads(s1, ':');
    let s3 = piece_heads(s2, ':');
    let s4 = piece_heads(s3, ':');
    let s5 = piece_heads(s4, ':');
    let s6 = piece_heads(s5, ':');
    assert(split(s1, ':')[0] == p[1]);
    assert(split(s2, ':')[0] == p[2]);
    assert(split(s3, ':')[0] == p[3]);
    assert(split(s4, ':')[0] == p[4]);
    assert(split(s5, ':')[0] == p[5]);
    octets_are_two_digits(p[0]);
    octets_are_two_digits(p[1]);
    octets_are_two_digits(p[2]);
    octets_are_two_digits(p[3]);
    octets_are_two_digits(p[4]);
    octets_are_two_digits(p[5]);
    assert(s5 == p[5]);
    assert(s4 == p[4] + seq![':'] + s5);
    assert(s3 == p[3] + seq![':'] + s4);
    assert(s2 == p[2] + seq![':'] + s3);
    assert(s1 == p[1] + seq![':'] + s2);
    assert(s == p[0] + seq![':'] + s1);
    if k == 0 {
        assert(s[0] == p[0][0] && s[1] == p[0][1]);
    } else if k == 1 {
        assert(s[3] == s1[0] && s[4] == s1[1] && s[5] == s1[2]);
    } else if k == 2 {
        assert(s[6] == s1[3] && s[7] == s1[4] && s[8] == s1[5]);
        assert(s1[3] == s2[0] && s1[4] == s2[1] && s1[5] == s2[2]);
    } else if k == 3 {
        assert(s[9] == s1[6] && s[10] == s1[7] && s[11] == s1[8]);
        assert(s1[6] == s2[3] && s1[7] == s2[4] && s1[8] == s2[5]);
        assert(s2[3] == s3[0] && s2[4] == s3[1] && s2[5] == s3[2]);
    } else if k == 4 {
        assert(s[12] == s1[9] && s[13] == s1[10] && s[14] == s1[11]);
        assert(s1[9] == s2[6] && s1[10] == s2[7] && s1[11] == s2[8]);
        assert(s2[6] == s3[3] && s2[7] == s3[4] && s2[8] == s3[5]);
        assert(s3[3] == s4[0] && s3[4] == s4[1] && s3[5] == s4[2]);
    } else {
        assert(s[15] == s1[12] && s[16] == s1[13]);
        assert(s1[12] == s2[9] && s1[13] == s2[10]);
        assert(s2[9] == s3[6] && s2[10] == s3[7]);
        assert(s3[6] == s4[3] && s3[7] == s4[4]);
        assert(s4[3] == s5[0] && s4[4] == s5[1]);
    }
}

/// A text with more or fewer than five colons is refused as a whole.
pub proof fn other_counts_of_octets_are_refused(s: Seq<char>)
    requires
        split(s, ':').len() != 6,
    ensures
        mac_of(s) == Err::<Seq<u8>, MacError>(MacError::Octets),
{
}

// ---------------------------------------------------------------------------
// Validation.
// ---------------------------------------------------------------------------

/// An interface name has one to fifteen characters, each an ASCII letter, a
/// digit, a dot, a dash or an underscore.
pub proof fn names_are_short_and_plain(n: Seq<char>)
    ensures
        valid_name(n) <==> 1 <= n.len() <= 15 && forall|i: int|
            0 <= i < n.len() ==> {
                let c = #[trigger] n[i] as int;
                0x61 <= c <= 0x7a || 0x41 <= c <= 0x5a || 0x30 <= c <= 0x39 || c == 0x2e || c
                    == 0x2d || c == 0x5f
            },
{
}

/// Names are those of the sources, of the APs, of the target and of the TAP,
/// in that order.
pub proof fn names_are_listed_in_order(s: Settings, i: int)
    ensures
        s.names().len() == s.sources@.len() + s.aps@.len() + 2,
        0 <= i < s.sources@.len() ==> s.names()[i] == s.sources@[i]@,
        0 <= i < s.aps@.len() ==> s.names()[s.sources@.len() + i] == s.aps@[i].interface@,
        s.names()[s.sources@.len() as int + s.aps@.len()] == s.target@,
        s.names()[s.sources@.len() as int + s.aps@.len() + 1] == s.tap@,
{
}

/// The first name that is none, or that came before, decides.
pub proof fn first_bad_name_decides(names: Seq<Seq<char>>, i: int)
    requires
        0 <= i < names.len() <= usize::MAX,
        names_verdict(names.take(i)) is Ok,
        !valid_name(names[i]) || names.take(i).contains(names[i]),
    ensures
        names_verdict(names) == Err::<(), ConfigError>(
            if !valid_name(names[i]) {
                ConfigError::InvalidName(i as usize)
            } else {
                ConfigError::ListedTwice(i as usize)
            },
        ),
    decreases names.len(),
{
    let rest = names.drop_last();
    if i == rest.len() {
        assert(names.take(i) =~= rest);
    } else {
        assert(rest.take(i) =~= names.take(i));
        first_bad_name_decides(rest, i);
    }
}

/// A configuration passes where it has a source, one to eight APs, at most
/// eight peers, names that are names and all different, a VLAN ID and an
/// allowance; what is wrong first is what is told.
pub proof fn validation_is_complete(s: Settings)
    ensures
        ({
            let v = s.verdict();
            let named = s.sources@.len() > 0 && 1 <= s.aps@.len() <= 8 && s.peers@.len() <= 8;
            let good = (forall|i: int|
                0 <= i < s.names().len() ==> valid_name(#[trigger] s.names()[i]))
                && s.names().no_duplicates();
            let tagged = 1 <= s.management_vlan <= 4094;
            &&& v is Ok <==> named && good && tagged && s.limits.packets_per_second > 0
            &&& s.sources@.len() == 0 ==> v == Err::<(), ConfigError>(ConfigError::NoSources)
            &&& s.sources@.len() > 0 && !(1 <= s.aps@.len() <= 8) ==> v == Err::<(), ConfigError>(
                ConfigError::ApCount,
            )
            &&& s.sources@.len() > 0 && 1 <= s.aps@.len() <= 8 && s.peers@.len() > 8 ==> v == Err::<
                (),
                ConfigError,
            >(ConfigError::PeerCount)
            &&& named && !good ==> v == names_verdict(s.names())
            &&& named && good && !tagged ==> v == Err::<(), ConfigError>(
                ConfigError::ManagementVlan,
            )
            &&& named && good && tagged && s.limits.packets_per_second == 0 ==> v == Err::<
                (),
                ConfigError,
            >(ConfigError::PacketsPerSecond)
        }),
{
    accepted_names(s.names());
}

// ---------------------------------------------------------------------------
// Identity.
// ---------------------------------------------------------------------------

/// BSSIDs that are read are those listed, all of them, in order.
pub proof fn listed_bssids_are_read(list: Seq<String>, i: usize, n: nat)
    requires
        n <= list.len(),
    ensures
        listed_of(list, i, n) is Ok <==> forall|j: int|
            0 <= j < n ==> mac_of((#[trigger] list[j])@) is Ok,
        listed_of(list, i, n) matches Ok(l) ==> l.len() == n && forall|j: int|
            0 <= j < n ==> mac_of((#[trigger] list[j])@) == Ok::<Seq<u8>, MacError>(l[j]),
    decreases n,
{
    if n > 0 {
        listed_bssids_are_read(list, i, (n - 1) as nat);
    }
}

/// The first listed BSSID that is no address decides.
pub proof fn first_bad_bssid_decides(list: Seq<String>, i: usize, j: nat, n: nat)
    requires
        j < n <= list.len() <= usize::MAX,
        listed_of(list, i, j) is Ok,
        mac_of(list[j as int]@) is Err,
    ensures
        listed_of(list, i, n) == Err::<Seq<Seq<u8>>, FilterError>(
            FilterError::BssidMac(i, j as usize, mac_of(list[j as int]@)->Err_0),
        ),
    decreases n,
{
    if j < n - 1 {
        first_bad_bssid_decides(list, i, j, (n - 1) as nat);
    }
}

/// BSSIDs pass where none is broadcast and no two are the same.
pub proof fn different_bssids_pass(bssids: Seq<Seq<u8>>, i: usize, n: nat)
    requires
        n <= bssids.len(),
        forall|j: int| 0 <= j < n ==> #[trigger] bssids[j] != BROADCAST@,
        forall|j: int, k: int| 0 <= j < k < n ==> #[trigger] bssids[j] != #[trigger] bssids[k],
    ensures
        claims_verdict(bssids, i, n) is Ok,
    decreases n,
{
    if n > 0 {
        different_bssids_pass(bssids, i, (n - 1) as nat);
        let before = bssids.take(n - 1);
        if before.contains(bssids[n - 1]) {
            let k = choose|k: int| 0 <= k < before.len() && before[k] == bssids[n - 1];
            assert(before[k] == bssids[k]);
        }
    }
}

/// The first BSSID that is broadcast, or that came before, decides.
pub proof fn first_bad_claim_decides(bssids: Seq<Seq<u8>>, i: usize, j: nat, n: nat)
    requires
        j < n <= bssids.len() <= usize::MAX,
        claims_verdict(bssids, i, j) is Ok,
    ensures
        bssids[j as int] == BROADCAST@ ==> claims_verdict(bssids, i, n) == Err::<(), FilterError>(
            FilterError::BssidBroadcast(i, j as usize),
        ),
        bssids[j as int] != BROADCAST@ && (exists|k: int|
            0 <= k < j && #[trigger] bssids[k] == bssids[j as int]) ==> claims_verdict(bssids, i, n)
            == Err::<(), FilterError>(FilterError::BssidDuplicate(i, j as usize)),
    decreases n,
{
    if j < n - 1 {
        first_bad_claim_decides(bssids, i, j, (n - 1) as nat);
    } else {
        let before = bssids.take(j as int);
        if exists|k: int| 0 <= k < j && #[trigger] bssids[k] == bssids[j as int] {
            let k = choose|k: int| 0 <= k < j && #[trigger] bssids[k] == bssids[j as int];
            assert(before[k] == bssids[j as int]);
            assert(before.contains(bssids[j as int]));
        }
    }
}

/// The local BSS at `l` is the AP that was read: its address, and its R0KH-ID
/// as configured, else its address in hex.
pub open spec fn serves(ap: ApEntry, reading: Option<String>, l: LocalId) -> bool {
    &&& reading is Some
    &&& mac_of(trimmed(reading->0@)) == Ok::<Seq<u8>, MacError>(l.bssid)
    &&& l.r0kh == match ap.r0kh_id {
        Some(id) => encode_utf8(id@),
        None => encode_utf8(hex(l.bssid)),
    }
}

/// The peer at `p` is the configured one: its address, and its BSSIDs as
/// listed, all of them and in order, else those that hostapd manages.
pub open spec fn hears(e: PeerEntry, managed: Option<Seq<Seq<u8>>>, p: PeerId) -> bool {
    &&& mac_of(e.mac@) == Ok::<Seq<u8>, MacError>(p.mac)
    &&& e.bssids@.len() == 0 ==> managed == Some(p.bssids)
    &&& e.bssids@.len() > 0 ==> p.bssids.len() == e.bssids@.len() && forall|j: int|
        0 <= j < e.bssids@.len() ==> mac_of((#[trigger] e.bssids@[j])@) == Ok::<
            Seq<u8>,
            MacError,
        >(p.bssids[j])
}

proof fn locals_are_served(aps: Seq<ApEntry>, readings: Seq<Option<String>>, n: nat)
    ensures
        locals_of(aps, readings, n) matches Ok(l) ==> l.len() == n && forall|i: int|
            0 <= i < n ==> serves(aps[i], readings[i], #[trigger] l[i]),
    decreases n,
{
    if n > 0 {
        locals_are_served(aps, readings, (n - 1) as nat);
    }
}

proof fn peers_are_heard(peers: Seq<PeerEntry>, managed: Option<Seq<Seq<u8>>>, n: nat)
    ensures
        peers_of(peers, managed, n) matches Ok(l) ==> l.len() == n && forall|i: int|
            0 <= i < n ==> hears(peers[i], managed, #[trigger] l[i]),
    decreases n,
{
    if n > 0 && peers_of(peers, managed, n) is Ok {
        peers_are_heard(peers, managed, (n - 1) as nat);
        let e = peers[n - 1];
        if e.bssids@.len() > 0 {
            listed_bssids_are_read(e.bssids@, (n - 1) as usize, e.bssids@.len());
        }
        let l = peers_of(peers, managed, n)->Ok_0;
        assert(hears(e, managed, l[n - 1]));
    }
}

/// An identity is the one that is configured. Its target is the address that
/// was read; each AP is served under the address that was read and under its
/// own R0KH-ID; each peer is heard from its configured address and under every
/// BSSID that it lists.
pub proof fn identity_is_as_configured(
    s: Settings,
    readings: Readings,
    managed: Option<Seq<Seq<u8>>>,
)
    ensures
        s.identity(readings, managed) matches Ok(id) ==> {
            &&& readings.target is Some
            &&& mac_of(trimmed(readings.target->0@)) == Ok::<Seq<u8>, MacError>(id.target)
            &&& id.management_vlan == s.management_vlan
            &&& id.locals.len() == s.aps@.len()
            &&& forall|i: int|
                0 <= i < id.locals.len() ==> serves(
                    s.aps@[i],
                    readings.aps@[i],
                    #[trigger] id.locals[i],
                )
            &&& id.peers.len() == s.peers@.len()
            &&& forall|i: int|
                0 <= i < id.peers.len() ==> hears(s.peers@[i], managed, #[trigger] id.peers[i])
        },
{
    locals_are_served(s.aps@, readings.aps@, s.aps@.len());
    peers_are_heard(s.peers@, managed, s.peers@.len());
}

/// Every BSSID that a peer lists is one that it may claim, each in its place
/// and none besides; and the peer is the one with the configured address.
pub proof fn every_listed_bssid_counts(
    s: Settings,
    readings: Readings,
    managed: Option<Seq<Seq<u8>>>,
    i: int,
)
    requires
        s.identity(readings, managed) is Ok,
        0 <= i < s.peers@.len(),
    ensures
        ({
            let id = s.identity(readings, managed)->Ok_0;
            let list = s.peers@[i].bssids@;
            &&& id.peers.len() == s.peers@.len()
            &&& mac_of(s.peers@[i].mac@) == Ok::<Seq<u8>, MacError>(id.peers[i].mac)
            &&& list.len() > 0 ==> id.peers[i].bssids.len() == list.len()
            &&& forall|j: int|
                0 <= j < list.len() ==> mac_of((#[trigger] list[j])@) == Ok::<Seq<u8>, MacError>(
                    id.peers[i].bssids[j],
                )
            &&& list.len() == 0 ==> managed is Some && id.peers[i].bssids == managed->0
        }),
{
    identity_is_as_configured(s, readings, managed);
    let id = s.identity(readings, managed)->Ok_0;
    assert(hears(s.peers@[i], managed, id.peers[i]));
}

proof fn served_locals_pass(
    aps: Seq<ApEntry>,
    readings: Seq<Option<String>>,
    l: Seq<LocalId>,
    n: nat,
)
    requires
        n <= l.len(),
        forall|i: int| 0 <= i < n ==> serves(aps[i], readings[i], #[trigger] l[i]),
        forall|i: int| 0 <= i < n ==> valid_r0kh(r0kh_of(aps[i], (#[trigger] l[i]).bssid)),
        forall|i: int| 0 <= i < n ==> (#[trigger] l[i]).bssid != BROADCAST@,
        forall|i: int, j: int|
            0 <= i < j < n ==> (#[trigger] l[i]).bssid != (#[trigger] l[j]).bssid,
    ensures
        locals_of(aps, readings, n) == Ok::<Seq<LocalId>, FilterError>(l.take(n as int)),
    decreases n,
{
    if n > 0 {
        let i = n - 1;
        served_locals_pass(aps, readings, l, i as nat);
        let done = l.take(i);
        assert(serves(aps[i], readings[i], l[i]));
        assert forall|k: int| 0 <= k < done.len() implies (#[trigger] done[k]).bssid
            != l[i].bssid by {
            assert(done[k] == l[k]);
        }
        assert(local_of(aps[i], readings[i], i as usize, done) == Ok::<LocalId, FilterError>(l[i]));
        assert(l.take(n as int) =~= done.push(l[i]));
    } else {
        assert(l.take(0) =~= seq![]);
    }
}

proof fn heard_peers_pass(
    peers: Seq<PeerEntry>,
    managed: Option<Seq<Seq<u8>>>,
    l: Seq<PeerId>,
    n: nat,
)
    requires
        n <= l.len(),
        forall|i: int| 0 <= i < n ==> hears(peers[i], managed, #[trigger] l[i]),
        forall|i: int| 0 <= i < n ==> (#[trigger] l[i]).mac != BROADCAST@,
        forall|i: int| 0 <= i < n ==> 1 <= (#[trigger] l[i]).bssids.len() <= 8,
        forall|i: int| 0 <= i < n ==> (#[trigger] l[i]).bssids.no_duplicates(),
        forall|i: int| 0 <= i < n ==> !(#[trigger] l[i]).bssids.contains(BROADCAST@),
        forall|i: int, j: int| 0 <= i < j < n ==> (#[trigger] l[i]).mac != (#[trigger] l[j]).mac,
    ensures
        peers_of(peers, managed, n) == Ok::<Seq<PeerId>, FilterError>(l.take(n as int)),
    decreases n,
{
    if n > 0 {
        let i = n - 1;
        heard_peers_pass(peers, managed, l, i as nat);
        let done = l.take(i);
        let e = peers[i];
        let p = l[i];
        assert(hears(e, managed, p));
        assert forall|k: int| 0 <= k < done.len() implies (#[trigger] done[k]).mac != p.mac by {
            assert(done[k] == l[k]);
        }
        if e.bssids@.len() > 0 {
            listed_bssids_are_read(e.bssids@, i as usize, e.bssids@.len());
            let read = listed_of(e.bssids@, i as usize, e.bssids@.len())->Ok_0;
            assert forall|j: int| 0 <= j < read.len() implies read[j] == p.bssids[j] by {
                assert(mac_of(e.bssids@[j]@) == Ok::<Seq<u8>, MacError>(read[j]));
            }
            assert(read =~= p.bssids);
        }
        assert forall|j: int| 0 <= j < p.bssids.len() implies #[trigger] p.bssids[j]
            != BROADCAST@ by {
            assert(p.bssids.contains(p.bssids[j]));
        }
        different_bssids_pass(p.bssids, i as usize, p.bssids.len());
        assert(peer_of(e, managed, i as usize, done) == Ok::<PeerId, FilterError>(p));
        assert(l.take(n as int) =~= done.push(p));
    } else {
        assert(l.take(0) =~= seq![]);
    }
}

/// Where the target was read, every AP can be served and every peer heard, no
/// two under one address and none under the broadcast address, the identity
/// is that of the configuration.
pub proof fn sound_configurations_are_accepted(
    s: Settings,
    readings: Readings,
    managed: Option<Seq<Seq<u8>>>,
    id: FilterId,
)
    requires
        readings.target is Some,
        mac_of(trimmed(readings.target->0@)) == Ok::<Seq<u8>, MacError>(id.target),
        id.management_vlan == s.management_vlan,
        id.locals.len() == s.aps@.len(),
        forall|i: int|
            0 <= i < id.locals.len() ==> serves(
                s.aps@[i],
                readings.aps@[i],
                #[trigger] id.locals[i],
            ),
        forall|i: int|
            0 <= i < id.locals.len() ==> valid_r0kh(
                r0kh_of(s.aps@[i], (#[trigger] id.locals[i]).bssid),
            ),
        forall|i: int| 0 <= i < id.locals.len() ==> (#[trigger] id.locals[i]).bssid != BROADCAST@,
        forall|i: int, j: int|
            0 <= i < j < id.locals.len() ==> (#[trigger] id.locals[i]).bssid != (
            #[trigger] id.locals[j]).bssid,
        id.peers.len() == s.peers@.len(),
        forall|i: int|
            0 <= i < id.peers.len() ==> hears(s.peers@[i], managed, #[trigger] id.peers[i]),
        forall|i: int| 0 <= i < id.peers.len() ==> (#[trigger] id.peers[i]).mac != BROADCAST@,
        forall|i: int|
            0 <= i < id.peers.len() ==> 1 <= (#[trigger] id.peers[i]).bssids.len() <= 8,
        forall|i: int|
            0 <= i < id.peers.len() ==> (#[trigger] id.peers[i]).bssids.no_duplicates(),
        forall|i: int|
            0 <= i < id.peers.len() ==> !(#[trigger] id.peers[i]).bssids.contains(BROADCAST@),
        forall|i: int, j: int|
            0 <= i < j < id.peers.len() ==> (#[trigger] id.peers[i]).mac != (
            #[trigger] id.peers[j]).mac,
    ensures
        s.identity(readings, managed) == Ok::<FilterId, FilterError>(id),
{
    served_locals_pass(s.aps@, readings.aps@, id.locals, id.locals.len());
    heard_peers_pass(s.peers@, managed, id.peers, id.peers.len());
    assert(id.locals.take(id.locals.len() as int) =~= id.locals);
    assert(id.peers.take(id.peers.len() as int) =~= id.peers);
}

/// An R0KH-ID is one to 48 ASCII characters, and so as many bytes; it is the
/// configured one, or the address in hex.
pub proof fn r0kh_ids_are_short_and_plain(ap: ApEntry, bssid: Seq<u8>)
    ensures
        ap.r0kh_id matches Some(id) ==> r0kh_of(ap, bssid) == id@,
        ap.r0kh_id is None ==> r0kh_of(ap, bssid) == hex(bssid),
        valid_r0kh(r0kh_of(ap, bssid)) <==> 1 <= r0kh_of(ap, bssid).len() <= 48 && forall|i: int|
            0 <= i < r0kh_of(ap, bssid).len() ==> 0 <= (#[trigger] r0kh_of(
                ap,
                bssid,
            )[i]) as int <= 0x7f,
        valid_r0kh(r0kh_of(ap, bssid)) ==> encode_utf8(r0kh_of(ap, bssid)).len() == r0kh_of(
            ap,
            bssid,
        ).len(),
{
    let id = r0kh_of(ap, bssid);
    if valid_r0kh(id) {
        is_ascii_chars_encode_utf8(id);
        assert forall|i: int| 0 <= i < id.len() implies 0 <= (#[trigger] id[i]) as int <= 0x7f by {
            assert(is_ascii_chars(id));
        }
    }
    if forall|i: int| 0 <= i < id.len() ==> 0 <= (#[trigger] id[i]) as int <= 0x7f {
        assert forall|i: int| 0 <= i < id.len() implies '\0' <= #[trigger] id[i] <= '\u{7f}' by {
            let c = id[i] as int;
            assert(c <= 0x7f);
        }
        assert(is_ascii_chars(id));
    }
}

/// The first AP that cannot be served decides, by what is wrong with it
/// first.
pub proof fn first_bad_ap_decides(
    aps: Seq<ApEntry>,
    readings: Seq<Option<String>>,
    i: nat,
    n: nat,
)
    requires
        i < n <= usize::MAX,
        locals_of(aps, readings, i) is Ok,
    ensures
        ({
            let done = locals_of(aps, readings, i)->Ok_0;
            let v = locals_of(aps, readings, n);
            let at = i as usize;
            &&& readings[i as int] is None ==> v == Err::<Seq<LocalId>, FilterError>(
                FilterError::ApUnreadable(at),
            )
            &&& readings[i as int] matches Some(t) ==> match mac_of(trimmed(t@)) {
                Err(e) => v == Err::<Seq<LocalId>, FilterError>(FilterError::ApMac(at, e)),
                Ok(m) => {
                    let id = match aps[i as int].r0kh_id {
                        Some(id) => id@,
                        None => hex(m),
                    };
                    let plain = 1 <= id.len() <= 48 && is_ascii_chars(id);
                    &&& !plain ==> v == Err::<Seq<LocalId>, FilterError>(FilterError::R0khId(at))
                    &&& plain && m == BROADCAST@ ==> v == Err::<Seq<LocalId>, FilterError>(
                        FilterError::ApBroadcast(at),
                    )
                    &&& plain && m != BROADCAST@ && (exists|k: int|
                        0 <= k < done.len() && (#[trigger] done[k]).bssid == m) ==> v == Err::<
                        Seq<LocalId>,
                        FilterError,
                    >(FilterError::ApDuplicate(at))
                },
            }
        }),
    decreases n,
{
    if i < n - 1 {
        first_bad_ap_decides(aps, readings, i, (n - 1) as nat);
    }
}

/// The first peer that cannot be heard decides, by what is wrong with it
/// first.
pub proof fn first_bad_peer_decides(
    peers: Seq<PeerEntry>,
    managed: Option<Seq<Seq<u8>>>,
    i: nat,
    n: nat,
)
    requires
        i < n <= usize::MAX,
        peers_of(peers, managed, i) is Ok,
    ensures
        ({
            let done = peers_of(peers, managed, i)->Ok_0;
            let v = peers_of(peers, managed, n);
            let at = i as usize;
            let e = peers[i as int];
            match mac_of(e.mac@) {
                Err(err) => v == Err::<Seq<PeerId>, FilterError>(FilterError::PeerMac(at, err)),
                Ok(m) => {
                    let known = exists|k: int| 0 <= k < done.len() && (#[trigger] done[k]).mac == m;
                    let new = m != BROADCAST@ && !known;
                    let bare = e.bssids@.len() == 0;
                    &&& m == BROADCAST@ ==> v == Err::<Seq<PeerId>, FilterError>(
                        FilterError::PeerBroadcast(at),
                    )
                    &&& m != BROADCAST@ && known ==> v == Err::<Seq<PeerId>, FilterError>(
                        FilterError::PeerDuplicate(at),
                    )
                    &&& new && bare && managed is None ==> v == Err::<Seq<PeerId>, FilterError>(
                        FilterError::HostapdNeeded,
                    )
                    &&& new && bare && managed is Some && managed->0.len() == 0 ==> v == Err::<
                        Seq<PeerId>,
                        FilterError,
                    >(FilterError::NoBssids(at))
                    &&& new && bare && managed is Some && managed->0.len() > 8 ==> v == Err::<
                        Seq<PeerId>,
                        FilterError,
                    >(FilterError::TooManyBssids(at))
                    &&& new && !bare && listed_of(e.bssids@, at, e.bssids@.len()) is Err ==> v
                        is Err && v->Err_0 == listed_of(e.bssids@, at, e.bssids@.len())->Err_0
                    &&& new && !bare && listed_of(e.bssids@, at, e.bssids@.len()) is Ok
                        && e.bssids@.len() > 8 ==> v == Err::<Seq<PeerId>, FilterError>(
                        FilterError::TooManyBssids(at),
                    )
                },
            }
        }),
    decreases n,
{
    if i < n - 1 {
        first_bad_peer_decides(peers, managed, i, (n - 1) as nat);
    } else {
        let e = peers[i as int];
        if e.bssids@.len() > 0 {
            listed_bssids_are_read(e.bssids@, i as usize, e.bssids@.len());
        }
    }
}

/// What is wrong with the target comes before what is wrong with an AP, and
/// that before what is wrong with a peer.
pub proof fn identity_faults_in_order(
    s: Settings,
    readings: Readings,
    managed: Option<Seq<Seq<u8>>>,
)
    ensures
        ({
            let v = s.identity(readings, managed);
            let locals = locals_of(s.aps@, readings.aps@, s.aps@.len());
            let peers = peers_of(s.peers@, managed, s.peers@.len());
            &&& readings.target is None ==> v == Err::<FilterId, FilterError>(
                FilterError::TargetUnreadable,
            )
            &&& readings.target matches Some(t) ==> match mac_of(trimmed(t@)) {
                Err(e) => v == Err::<FilterId, FilterError>(FilterError::TargetMac(e)),
                Ok(_) => {
                    &&& locals is Err ==> v == Err::<FilterId, FilterError>(locals->Err_0)
                    &&& locals is Ok && peers is Err ==> v == Err::<FilterId, FilterError>(
                        peers->Err_0,
                    )
                    &&& locals is Ok && peers is Ok ==> v is Ok
                },
            }
        }),
{
}

/// The tables hold the identity: as many entries as it has, each with its
/// addresses and with as much of its R0KH-ID or its BSSIDs as there is; what
/// is not in use is zero.
pub proof fn tables_hold_the_identity(f: Filter, id: FilterId, i: int)
    requires
        f.stands_for(id),
        forall|k: int| 0 <= k < id.locals.len() ==> (#[trigger] id.locals[k]).r0kh.len() <= 48,
    ensures
        f.target_mac@ == id.target,
        f.management_vlan == id.management_vlan,
        f.local_count == id.locals.len(),
        f.peer_count == id.peers.len(),
        0 <= i < id.locals.len() && i < 8 ==> {
            let l = f.locals@[i];
            &&& l.bssid@ == id.locals[i].bssid
            &&& l.r0kh_len == id.locals[i].r0kh.len()
            &&& l.r0kh@.take(l.r0kh_len as int) == id.locals[i].r0kh
            &&& forall|k: int| l.r0kh_len <= k < 48 ==> #[trigger] l.r0kh@[k] == 0
        },
        0 <= i < id.peers.len() && i < 8 ==> {
            let p = f.peers@[i];
            &&& p.mac@ == id.peers[i].mac
            &&& p.bssid_count == id.peers[i].bssids.len()
            &&& forall|j: int|
                0 <= j < 8 && j < p.bssid_count ==> (#[trigger] p.bssids@[j])@
                    == id.peers[i].bssids[j]
        },
        id.locals.len() <= i < 8 ==> f.locals@[i].r0kh_len == 0 && f.locals@[i].bssid@ == seq![
            0u8,
            0u8,
            0u8,
            0u8,
            0u8,
            0u8,
        ],
        id.peers.len() <= i < 8 ==> f.peers@[i].bssid_count == 0 && f.peers@[i].mac@ == seq![
            0u8,
            0u8,
            0u8,
            0u8,
            0u8,
            0u8,
        ],
{
    if 0 <= i < id.locals.len() && i < 8 {
        let l = f.locals@[i];
        assert(local_entry(l, id.locals[i]));
        assert(l.r0kh@.take(l.r0kh_len as int) =~= id.locals[i].r0kh);
    }
    if 0 <= i < id.peers.len() && i < 8 {
        assert(peer_entry(f.peers@[i], id.peers[i]));
    }
    if id.locals.len() <= i < 8 {
        assert(f.locals@[i].is_blank());
        assert(f.locals@[i].bssid@ =~= seq![0u8, 0u8, 0u8, 0u8, 0u8, 0u8]);
    }
    if id.peers.len() <= i < 8 {
        assert(f.peers@[i].is_blank());
        assert(f.peers@[i].mac@ =~= seq![0u8, 0u8, 0u8, 0u8, 0u8, 0u8]);
    }
}

/// Addresses as byte strings are their octets, in order; where hostapd was not
/// asked there are none.
pub proof fn managed_addresses_are_in_order(v: &Vec<[u8; 6]>, i: int)
    requires
        0 <= i < v@.len(),
    ensures
        managed_macs(None) is None,
        managed_macs(Some(v)) matches Some(l) && l.len() == v@.len() && l[i] == v@[i]@,
{
}

} // verus!
