//! Replies of hostapd's control interface.
//!
//! hostapd exposes one datagram socket per managed interface. The relay
//! sends `GET_CONFIG`, which is answered with `key=value` lines. The key of
//! interest is `bssid`: on UniFi the R0KH-ID is the BSSID itself.
use vstd::prelude::*;
use vstd::string::*;
use vstd::utf8::*;
use crate::config::address::{mac, mac_of, mac_reads_its_text, MacError};
use crate::relay::mac_text;
use crate::text::{chars_of, first, first_is_unique, piece, same_chars, same_text};

verus! {

/// Directory hostapd places its control sockets in.
pub const SOCKET_DIR: &'static str = "/run/hostapd";

/// Only wifi* sockets are considered; the directory may also hold sockets
/// for unrelated hostapd instances.
pub const SOCKET_PREFIX: &'static str = "wifi";

/// The query.
pub const QUERY: &'static str = "GET_CONFIG";

/// Seconds to wait for a reply; hostapd is local and answers instantly, so
/// this only guards against a stuck daemon.
pub const REPLY_TIMEOUT_SECS: u64 = 1;

/// GET_CONFIG answers comfortably within one datagram of this length.
pub const REPLY_BUF: usize = 8192;

/// How often the sockets are looked for: hostapd's per-BSS setup runs in the
/// background, so they can appear tens of seconds after its start.
pub const ATTEMPTS: u32 = 30;

/// Seconds between two attempts.
pub const RETRY_SECS: u64 = 1;

/// What can be wrong with hostapd's answers.
#[derive(Clone, Copy, Debug, PartialEq, Eq, Structural)]
pub enum HostapdError {
    /// The reply is not UTF-8.
    NotUtf8,
    /// The reply holds no `bssid`.
    NoBssid,
    /// The reported `bssid` is no address.
    Bssid(MacError),
    /// There are no control sockets.
    NoSockets,
}

/// One `key=value` line.
pub struct Entry {
    pub key: String,
    pub value: String,
}

/// Parsed `GET_CONFIG` reply.
pub struct Config {
    entries: Vec<Entry>,
}

/// The line without a carriage return at its end.
pub open spec fn without_cr(line: Seq<char>) -> Seq<char> {
    if line.len() > 0 && line.last() == '\r' {
        line.drop_last()
    } else {
        line
    }
}

/// The settings after one more line: text before the first `=` is the key,
/// text behind it the value; a line without `=` is ignored.
pub open spec fn with_line(m: Map<Seq<char>, Seq<char>>, line: Seq<char>) -> Map<
    Seq<char>,
    Seq<char>,
> {
    let k = first(line, '=') as int;
    if k < line.len() {
        m.insert(line.take(k), line.skip(k + 1))
    } else {
        m
    }
}

/// The settings after the lines of a text. Lines end with a line feed, or
/// with a carriage return and a line feed; the last line may end without.
pub open spec fn with_text(m: Map<Seq<char>, Seq<char>>, s: Seq<char>) -> Map<
    Seq<char>,
    Seq<char>,
>
    decreases s.len(),
{
    let i = first(s, '\n') as int;
    if i >= s.len() {
        with_line(m, s)
    } else {
        with_text(with_line(m, without_cr(s.take(i))), s.skip(i + 1))
    }
}

/// Set a key among entries.
fn put(entries: &mut Vec<Entry>, key: String, value: String)
    requires
        distinct(old(entries)@),
    ensures
        distinct(final(entries)@),
        entries_map(final(entries)@) == entries_map(old(entries)@).insert(key@, value@),
{
    let ghost before = entries@;
    let mut i: usize = 0;
    while i < entries.len()
        invariant
            i <= entries@.len(),
            entries@ == before,
            before == old(entries)@,
            distinct(before),
            forall|k: int| 0 <= k < i ==> (#[trigger] before[k]).key@ != key@,
        decreases entries@.len() - i,
    {
        if same_text(entries[i].key.as_str(), key.as_str()) {
            let e = Entry { key: key, value: value };
            entries.set(i, e);
            proof {
                set_entry(before, i as int, e);
            }
            return;
        }
        i += 1;
    }
    let e = Entry { key: key, value: value };
    entries.push(e);
    assert(entries@.drop_last() =~= before);
}

impl Config {
    /// No key occurs twice.
    #[verifier::type_invariant]
    spec fn well_formed(self) -> bool {
        distinct(self.entries@)
    }

    /// The settings.
    pub closed spec fn view(self) -> Map<Seq<char>, Seq<char>> {
        entries_map(self.entries@)
    }

    /// The value of a key.
    pub fn get(&self, key: &str) -> (r: Option<&str>)
        ensures
            match r {
                Some(v) => self@.dom().contains(key@) && v@ == self@[key@],
                None => !self@.dom().contains(key@),
            },
    {
        let mut i: usize = 0;
        proof {
            use_type_invariant(self);
            entries_lookup(self.entries@);
        }
        while i < self.entries.len()
            invariant
                i <= self.entries@.len(),
                forall|k: int| 0 <= k < i ==> (#[trigger] self.entries@[k]).key@ != key@,
                forall|k: int|
                    0 <= k < self.entries@.len() ==> self@.dom().contains(
                        (#[trigger] self.entries@[k]).key@,
                    ) && self@[self.entries@[k].key@] == self.entries@[k].value@,
                forall|q: Seq<char>| #[trigger]
                    self@.dom().contains(q) ==> exists|k: int|
                        0 <= k < self.entries@.len() && (#[trigger] self.entries@[k]).key@ == q,
            decreases self.entries@.len() - i,
        {
            if same_text(self.entries[i].key.as_str(), key) {
                assert(self.entries@[i as int].key@ == key@);
                return Some(self.entries[i].value.as_str());
            }
            i += 1;
        }
        None
    }

    /// Whether a key is set.
    pub fn contains_key(&self, key: &str) -> (r: bool)
        ensures
            r == self@.dom().contains(key@),
    {
        self.get(key).is_some()
    }

    /// How many keys are set.
    pub fn len(&self) -> (n: usize)
        ensures
            n == self@.dom().len(),
            self@.dom().finite(),
    {
        proof {
            use_type_invariant(self);
            entries_count(self.entries@);
        }
        self.entries.len()
    }
}

/// The map that entries make, later ones last.
spec fn entries_map(entries: Seq<Entry>) -> Map<Seq<char>, Seq<char>>
    decreases entries.len(),
{
    if entries.len() == 0 {
        Map::empty()
    } else {
        entries_map(entries.drop_last()).insert(entries.last().key@, entries.last().value@)
    }
}

/// No key occurs twice.
spec fn distinct(entries: Seq<Entry>) -> bool {
    forall|i: int, j: int|
        0 <= i < j < entries.len() ==> (#[trigger] entries[i]).key@ != (#[trigger] entries[j]).key@
}

/// The map holds the entries and nothing else.
proof fn entries_lookup(entries: Seq<Entry>)
    requires
        distinct(entries),
    ensures
        forall|k: int|
            0 <= k < entries.len() ==> entries_map(entries).dom().contains(
                (#[trigger] entries[k]).key@,
            ) && entries_map(entries)[entries[k].key@] == entries[k].value@,
        forall|q: Seq<char>| #[trigger]
            entries_map(entries).dom().contains(q) ==> exists|k: int|
                0 <= k < entries.len() && (#[trigger] entries[k]).key@ == q,
    decreases entries.len(),
{
    if entries.len() > 0 {
        let rest = entries.drop_last();
        assert forall|i: int, j: int| 0 <= i < j < rest.len() implies (#[trigger] rest[i]).key@ != (
        #[trigger] rest[j]).key@ by {
            assert(rest[i] == entries[i] && rest[j] == entries[j]);
        }
        entries_lookup(rest);
        assert forall|k: int| 0 <= k < entries.len() implies entries_map(entries).dom().contains(
            (#[trigger] entries[k]).key@,
        ) && entries_map(entries)[entries[k].key@] == entries[k].value@ by {
            if k < rest.len() {
                assert(rest[k] == entries[k]);
                assert(entries[k].key@ != entries[entries.len() - 1].key@);
            }
        }
        assert forall|q: Seq<char>| #[trigger] entries_map(entries).dom().contains(q) implies exists|
            k: int,
        |
            0 <= k < entries.len() && (#[trigger] entries[k]).key@ == q by {
            if q == entries.last().key@ {
                assert(entries[entries.len() - 1].key@ == q);
            } else {
                assert(entries_map(rest).dom().contains(q));
                let k = choose|k: int| 0 <= k < rest.len() && (#[trigger] rest[k]).key@ == q;
                assert(entries[k].key@ == q);
            }
        }
    }
}

/// Overwriting an entry of the same key sets the key.
proof fn set_entry(entries: Seq<Entry>, i: int, e: Entry)
    requires
        distinct(entries),
        0 <= i < entries.len(),
        entries[i].key@ == e.key@,
    ensures
        distinct(entries.update(i, e)),
        entries_map(entries.update(i, e)) == entries_map(entries).insert(e.key@, e.value@),
{
    let after = entries.update(i, e);
    assert(distinct(after));
    entries_lookup(entries);
    entries_lookup(after);
    let m = entries_map(entries).insert(e.key@, e.value@);
    let n = entries_map(after);
    assert forall|q: Seq<char>| m.dom().contains(q) == n.dom().contains(q) by {
        if n.dom().contains(q) {
            let k = choose|k: int| 0 <= k < after.len() && (#[trigger] after[k]).key@ == q;
            assert(entries[k].key@ == q);
        }
        if entries_map(entries).dom().contains(q) {
            let k = choose|k: int| 0 <= k < entries.len() && (#[trigger] entries[k]).key@ == q;
            assert(after[k].key@ == q);
        }
        if q == e.key@ {
            assert(after[i].key@ == q);
        }
    }
    assert forall|q: Seq<char>| n.dom().contains(q) implies m[q] == n[q] by {
        let k = choose|k: int| 0 <= k < after.len() && (#[trigger] after[k]).key@ == q;
        assert(n[q] == after[k].value@);
        if k != i {
            assert(entries[k] == after[k]);
            if k < i {
                assert(entries[k].key@ != entries[i].key@);
            } else {
                assert(entries[i].key@ != entries[k].key@);
            }
        }
    }
    assert(m =~= n);
}

/// As many keys as entries.
proof fn entries_count(entries: Seq<Entry>)
    requires
        distinct(entries),
    ensures
        entries_map(entries).dom().finite(),
        entries_map(entries).dom().len() == entries.len(),
    decreases entries.len(),
{
    if entries.len() > 0 {
        let rest = entries.drop_last();
        assert forall|i: int, j: int| 0 <= i < j < rest.len() implies (#[trigger] rest[i]).key@ != (
        #[trigger] rest[j]).key@ by {
            assert(rest[i] == entries[i] && rest[j] == entries[j]);
        }
        entries_count(rest);
        entries_lookup(rest);
        let last = entries.last().key@;
        if entries_map(rest).dom().contains(last) {
            let k = choose|k: int| 0 <= k < rest.len() && (#[trigger] rest[k]).key@ == last;
            assert(entries[k].key@ == entries[entries.len() - 1].key@);
        }
        assert(entries_map(entries).dom() =~= entries_map(rest).dom().insert(last));
    }
}

/// key=value lines; blank lines and anything without '=' are ignored.
pub fn parse_config(text: &str) -> (c: Config)
    ensures
        c@ == with_text(Map::empty(), text@),
{
    let v: Vec<char> = chars_of(text);
    let mut entries: Vec<Entry> = Vec::new();
    let mut from: usize = 0;
    let mut i: usize = 0;
    assert(text@.skip(0) =~= text@);
    while i < v.len()
        invariant
            v@ == text@,
            from <= i <= v@.len(),
            distinct(entries@),
            forall|k: int| from <= k < i ==> v@[k] != '\n',
            with_text(entries_map(entries@), text@.skip(from as int)) == with_text(Map::empty(), text@),
        decreases v@.len() - i,
    {
        if v[i] == '\n' {
            let to: usize = if i > from && v[i - 1] == '\r' {
                i - 1
            } else {
                i
            };
            proof {
                let rest = text@.skip(from as int);
                first_is_unique(rest, '\n', i - from);
                assert(without_cr(rest.take(i - from)) =~= text@.subrange(from as int, to as int));
                assert(rest.skip(i - from + 1) =~= text@.skip(i + 1));
            }
            add_line(&mut entries, text, &v, from, to);
            from = i + 1;
        }
        i += 1;
    }
    proof {
        let rest = text@.skip(from as int);
        first_is_unique(rest, '\n', rest.len() as int);
        assert(rest =~= text@.subrange(from as int, i as int));
    }
    add_line(&mut entries, text, &v, from, i);
    Config { entries: entries }
}

/// Take the line between two positions among the entries.
fn add_line(entries: &mut Vec<Entry>, text: &str, v: &Vec<char>, from: usize, to: usize)
    requires
        distinct(old(entries)@),
        v@ == text@,
        from <= to <= v@.len(),
    ensures
        distinct(final(entries)@),
        entries_map(final(entries)@) == with_line(
            entries_map(old(entries)@),
            text@.subrange(from as int, to as int),
        ),
{
    let ghost line = text@.subrange(from as int, to as int);
    let mut k: usize = from;
    while k < to && v[k] != '='
        invariant
            from <= k <= to <= v@.len(),
            v@ == text@,
            line == text@.subrange(from as int, to as int),
            forall|j: int| 0 <= j < k - from ==> line[j] != '=',
        decreases to - k,
    {
        assert(line[k - from] == v@[k as int]);
        k += 1;
    }
    proof {
        if k < to {
            assert(line[k - from] == v@[k as int]);
        }
        first_is_unique(line, '=', k - from);
    }
    if k < to {
        let key: String = text.substring_char(from, k).to_owned();
        let value: String = text.substring_char(k + 1, to).to_owned();
        assert(key@ =~= line.take(k - from));
        assert(value@ =~= line.skip(k - from + 1));
        put(entries, key, value);
    }
}

/// `std::str::from_utf8`: the text that the bytes encode, if they are valid
/// UTF-8.
#[verifier::external_body]
fn utf8_text(b: &[u8]) -> (r: Option<String>)
    ensures
        match r {
            Some(s) => valid_utf8(b@) && s@ == decode_utf8(b@),
            None => !valid_utf8(b@),
        },
{
    match std::str::from_utf8(b) {
        Ok(s) => Some(s.to_owned()),
        Err(_) => None,
    }
}

/// The settings that a reply holds.
pub open spec fn reply_settings(reply: Seq<u8>) -> Map<Seq<char>, Seq<char>> {
    with_text(Map::empty(), decode_utf8(reply))
}

/// Read a `GET_CONFIG` reply.
pub fn get_config(reply: &[u8]) -> (r: Result<Config, HostapdError>)
    ensures
        match r {
            Ok(c) => valid_utf8(reply@) && c@ == reply_settings(reply@),
            Err(e) => !valid_utf8(reply@) && e == HostapdError::NotUtf8,
        },
{
    match utf8_text(reply) {
        Some(text) => Ok(parse_config(text.as_str())),
        None => Err(HostapdError::NotUtf8),
    }
}

/// The BSSID that a reply reports.
pub open spec fn reported_bssid(reply: Seq<u8>) -> Result<Seq<u8>, HostapdError> {
    let settings = reply_settings(reply);
    if !valid_utf8(reply) {
        Err(HostapdError::NotUtf8)
    } else if !settings.dom().contains("bssid"@) {
        Err(HostapdError::NoBssid)
    } else {
        match mac_of(settings["bssid"@]) {
            Ok(m) => Ok(m),
            Err(e) => Err(HostapdError::Bssid(e)),
        }
    }
}

/// BSSID that hostapd reports in its `GET_CONFIG` reply.
pub fn bssid(reply: &[u8]) -> (r: Result<[u8; 6], HostapdError>)
    ensures
        match r {
            Ok(m) => reported_bssid(reply@) == Ok::<Seq<u8>, HostapdError>(m@),
            Err(e) => reported_bssid(reply@) == Err::<Seq<u8>, HostapdError>(e),
        },
{
    let c: Config = match get_config(reply) {
        Ok(c) => c,
        Err(e) => {
            return Err(e);
        },
    };
    match c.get("bssid") {
        None => Err(HostapdError::NoBssid),
        Some(text) => match mac(text) {
            Ok(m) => Ok(m),
            Err(e) => Err(HostapdError::Bssid(e)),
        },
    }
}

/// Whether a file under the socket directory is a control socket to ask.
pub fn is_control_socket(name: &str) -> (r: bool)
    ensures
        r == SOCKET_PREFIX@.is_prefix_of(name@),
        r <==> name@.len() >= 4 && name@[0] == 'w' && name@[1] == 'i' && name@[2] == 'f' && name@[3]
            == 'i',
{
    proof {
        reveal_strlit("wifi");
        assert("wifi"@.len() == 4);
        let head = name@.take(4);
        if name@.len() >= 4 && name@[0] == 'w' && name@[1] == 'i' && name@[2] == 'f' && name@[3]
            == 'i' {
            assert(head =~= "wifi"@);
        }
        if name@.len() >= 4 {
            assert(name@.subrange(0, 4) =~= head);
            assert(head[0] == name@[0] && head[1] == name@[1]);
            assert(head[2] == name@[2] && head[3] == name@[3]);
        }
        assert("wifi"@[0] == 'w' && "wifi"@[1] == 'i' && "wifi"@[2] == 'f' && "wifi"@[3] == 'i');
    }
    let v: Vec<char> = chars_of(name);
    let p: Vec<char> = chars_of(SOCKET_PREFIX);
    if p.len() > v.len() {
        return false;
    }
    let head: Vec<char> = piece(&v, 0, p.len());
    same_chars(&head, &p)
}

/// An address as a number, first octet most significant; addresses are
/// ordered as these numbers are.
pub open spec fn mac_number(m: [u8; 6]) -> int {
    ((((m@[0] * 256 + m@[1]) * 256 + m@[2]) * 256 + m@[3]) * 256 + m@[4]) * 256 + m@[5]
}

/// In ascending order, none twice.
pub open spec fn ascending(v: Seq<[u8; 6]>) -> bool {
    forall|i: int, j: int| 0 <= i < j < v.len() ==> mac_number(v[i]) < mac_number(v[j])
}

/// An address as a number.
fn number_of(m: &[u8; 6]) -> (n: u64)
    ensures
        n == mac_number(*m),
{
    ((((m[0] as u64 * 256 + m[1] as u64) * 256 + m[2] as u64) * 256 + m[3] as u64) * 256
        + m[4] as u64) * 256 + m[5] as u64
}

/// A number determines its last octet and what stands before it.
proof fn last_octet(x: int, y: int, a: u8, b: u8)
    requires
        x * 256 + a == y * 256 + b,
    ensures
        x == y,
        a == b,
{
}

/// Different addresses are different numbers.
pub proof fn mac_number_is_injective(a: [u8; 6], b: [u8; 6])
    requires
        mac_number(a) == mac_number(b),
    ensures
        a == b,
{
    let a1 = a@[0] * 256 + a@[1];
    let a2 = a1 * 256 + a@[2];
    let a3 = a2 * 256 + a@[3];
    let a4 = a3 * 256 + a@[4];
    let b1 = b@[0] * 256 + b@[1];
    let b2 = b1 * 256 + b@[2];
    let b3 = b2 * 256 + b@[3];
    let b4 = b3 * 256 + b@[4];
    last_octet(a4, b4, a@[5], b@[5]);
    last_octet(a3, b3, a@[4], b@[4]);
    last_octet(a2, b2, a@[3], b@[3]);
    last_octet(a1, b1, a@[2], b@[2]);
    last_octet(a@[0] as int, b@[0] as int, a@[1], b@[1]);
    assert(forall|i: int| 0 <= i < 6 ==> a[i] == b[i]);
    assert(a =~= b);
}

/// Put an address into its place, unless it is there.
fn insert_sorted(v: &mut Vec<[u8; 6]>, m: [u8; 6])
    requires
        ascending(old(v)@),
    ensures
        ascending(final(v)@),
        forall|x: [u8; 6]| #[trigger]
            final(v)@.contains(x) <==> old(v)@.contains(x) || x == m,
{
    let ghost before = v@;
    let mut i: usize = 0;
    while i < v.len() && number_of(&v[i]) < number_of(&m)
        invariant
            i <= v@.len(),
            v@ == before,
            forall|k: int| 0 <= k < i ==> mac_number(before[k]) < mac_number(m),
        decreases v@.len() - i,
    {
        i += 1;
    }
    if i < v.len() && number_of(&v[i]) == number_of(&m) {
        proof {
            mac_number_is_injective(before[i as int], m);
            assert(before.contains(m));
        }
        return;
    }
    v.insert(i, m);
    proof {
        let after = v@;
        assert(after == before.insert(i as int, m));
        assert forall|a: int, b: int| 0 <= a < b < after.len() implies mac_number(after[a])
            < mac_number(after[b]) by {
            if a < i && b > i {
                assert(after[a] == before[a] && after[b] == before[b - 1]);
            } else if a > i {
                assert(after[a] == before[a - 1] && after[b] == before[b - 1]);
            } else if a == i {
                assert(after[b] == before[b - 1]);
                assert(mac_number(m) < mac_number(before[i as int]));
                assert(b - 1 == i || mac_number(before[i as int]) < mac_number(before[b - 1]));
            } else if b < i {
                assert(after[a] == before[a] && after[b] == before[b]);
            } else {
                assert(after[a] == before[a]);
            }
        }
        assert forall|x: [u8; 6]| #[trigger] after.contains(x) <==> before.contains(x) || x == m by {
            if after.contains(x) {
                let k = choose|k: int| 0 <= k < after.len() && after[k] == x;
                if k < i {
                    assert(before[k] == x);
                } else if k > i {
                    assert(before[k - 1] == x);
                }
            }
            if before.contains(x) {
                let k = choose|k: int| 0 <= k < before.len() && before[k] == x;
                if k < i {
                    assert(after[k] == x);
                } else {
                    assert(after[k + 1] == x);
                }
            }
            assert(after[i as int] == m);
        }
    }
}

/// The BSSIDs found on this host, sorted and without duplicates.
pub fn bssids(found: &Vec<[u8; 6]>) -> (r: Result<Vec<[u8; 6]>, HostapdError>)
    ensures
        match r {
            Ok(v) => {
                &&& found@.len() > 0
                &&& ascending(v@)
                &&& forall|x: [u8; 6]| #[trigger] v@.contains(x) <==> found@.contains(x)
            },
            Err(e) => found@.len() == 0 && e == HostapdError::NoSockets,
        },
{
    if found.len() == 0 {
        return Err(HostapdError::NoSockets);
    }
    let mut v: Vec<[u8; 6]> = Vec::new();
    let mut i: usize = 0;
    while i < found.len()
        invariant
            i <= found@.len(),
            ascending(v@),
            forall|x: [u8; 6]| #[trigger]
                v@.contains(x) <==> found@.take(i as int).contains(x),
        decreases found@.len() - i,
    {
        let ghost before = v@;
        insert_sorted(&mut v, found[i]);
        proof {
            let next = found@.take(i + 1);
            let done = found@.take(i as int);
            assert forall|x: [u8; 6]| #[trigger] v@.contains(x) <==> next.contains(x) by {
                if next.contains(x) {
                    let k = choose|k: int| 0 <= k < next.len() && next[k] == x;
                    if k < i {
                        assert(done[k] == x);
                        assert(done.contains(x));
                    }
                }
                if done.contains(x) {
                    let k = choose|k: int| 0 <= k < done.len() && done[k] == x;
                    assert(next[k] == x);
                }
                assert(next[i as int] == found@[i as int]);
            }
        }
        i += 1;
    }
    assert(found@.take(i as int) =~= found@);
    Ok(v)
}

/// Whether to look for the sockets again after this many failures.
pub fn try_again(failures: u32) -> (r: bool)
    ensures
        r == (failures < ATTEMPTS),
        r <==> failures < 30,
{
    failures < ATTEMPTS
}

/// A line that sets a key is read as just that, whatever stood before it and
/// stands behind it.
pub proof fn setting_is_read(
    m: Map<Seq<char>, Seq<char>>,
    key: Seq<char>,
    value: Seq<char>,
    rest: Seq<char>,
)
    requires
        !key.contains('='),
        !key.contains('\n'),
        !value.contains('\n'),
        value.len() > 0 ==> value.last() != '\r',
    ensures
        with_text(m, key + seq!['='] + value + seq!['\n'] + rest) == with_text(
            m.insert(key, value),
            rest,
        ),
{
    let line = key + seq!['='] + value;
    let s = line + seq!['\n'] + rest;
    let n = line.len() as int;
    assert forall|k: int| 0 <= k < n implies s[k] != '\n' by {
        assert(s[k] == line[k]);
        if k < key.len() {
            assert(line[k] == key[k]);
        } else if k > key.len() {
            assert(line[k] == value[k - key.len() - 1]);
        }
    }
    first_is_unique(s, '\n', n);
    assert(s.take(n) =~= line);
    assert(s.skip(n + 1) =~= rest);
    assert forall|k: int| 0 <= k < key.len() implies line[k] != '=' by {
        assert(line[k] == key[k]);
    }
    first_is_unique(line, '=', key.len() as int);
    assert(line.take(key.len() as int) =~= key);
    assert(line.skip((key.len() + 1) as int) =~= value);
    assert(without_cr(line) == line) by {
        if value.len() > 0 {
            assert(line.last() == value.last());
        } else {
            assert(line.last() == '=');
        }
    }
}

/// A line without `=` changes nothing.
pub proof fn junk_is_ignored(m: Map<Seq<char>, Seq<char>>, line: Seq<char>, rest: Seq<char>)
    requires
        !line.contains('='),
        !line.contains('\n'),
    ensures
        with_text(m, line + seq!['\n'] + rest) == with_text(m, rest),
{
    let s = line + seq!['\n'] + rest;
    let n = line.len() as int;
    assert forall|k: int| 0 <= k < n implies s[k] != '\n' by {
        assert(s[k] == line[k]);
    }
    first_is_unique(s, '\n', n);
    assert(s.take(n) =~= line);
    assert(s.skip(n + 1) =~= rest);
    let t = without_cr(line);
    assert forall|k: int| 0 <= k < t.len() implies t[k] != '=' by {
        assert(t[k] == line[k]);
    }
    first_is_unique(t, '=', t.len() as int);
}

/// The order in which BSSIDs are found, and how often, does not matter: two
/// ascending lists of the same addresses are the same list.
pub proof fn ascending_is_unique(a: Seq<[u8; 6]>, b: Seq<[u8; 6]>)
    requires
        ascending(a),
        ascending(b),
        forall|x: [u8; 6]| a.contains(x) <==> b.contains(x),
    ensures
        a == b,
    decreases a.len(),
{
    if a.len() == 0 {
        if b.len() > 0 {
            assert(b.contains(b[0]));
            assert(a.contains(b[0]));
        }
        assert(a =~= b);
    } else {
        assert(a.contains(a.last()));
        assert(b.contains(a.last()));
        assert(b.contains(b.last()));
        assert(a.contains(b.last()));
        let i = choose|i: int| 0 <= i < b.len() && b[i] == a.last();
        let j = choose|j: int| 0 <= j < a.len() && a[j] == b.last();
        assert(i == b.len() - 1 || mac_number(b[i]) < mac_number(b[b.len() - 1]));
        assert(j == a.len() - 1 || mac_number(a[j]) < mac_number(a[a.len() - 1]));
        mac_number_is_injective(a.last(), b.last());
        let p = a.drop_last();
        let q = b.drop_last();
        assert forall|x: [u8; 6]| p.contains(x) <==> q.contains(x) by {
            if p.contains(x) {
                let k = choose|k: int| 0 <= k < p.len() && p[k] == x;
                assert(a[k] == x);
                assert(mac_number(a[k]) < mac_number(a[a.len() - 1]));
                assert(a.contains(x));
                assert(b.contains(x));
                let l = choose|l: int| 0 <= l < b.len() && b[l] == x;
                assert(q[l] == x);
            }
            if q.contains(x) {
                let k = choose|k: int| 0 <= k < q.len() && q[k] == x;
                assert(b[k] == x);
                assert(mac_number(b[k]) < mac_number(b[b.len() - 1]));
                assert(b.contains(x));
                assert(a.contains(x));
                let l = choose|l: int| 0 <= l < a.len() && a[l] == x;
                assert(p[l] == x);
            }
        }
        ascending_is_unique(p, q);
        assert(a =~= p.push(a.last()));
        assert(b =~= q.push(b.last()));
    }
}

/// A line that ends with a carriage return and a line feed is read as one
/// that ends with a line feed.
pub proof fn carriage_returns_are_ignored(
    m: Map<Seq<char>, Seq<char>>,
    key: Seq<char>,
    value: Seq<char>,
    rest: Seq<char>,
)
    requires
        !key.contains('='),
        !key.contains('\n'),
        !value.contains('\n'),
    ensures
        with_text(m, key + seq!['='] + value + seq!['\r', '\n'] + rest) == with_text(
            m.insert(key, value),
            rest,
        ),
{
    let line = key + seq!['='] + value;
    let full = line + seq!['\r'];
    let s = line + seq!['\r', '\n'] + rest;
    let n = full.len() as int;
    assert forall|k: int| 0 <= k < n implies s[k] != '\n' by {
        assert(s[k] == full[k]);
        if k < key.len() {
            assert(full[k] == key[k]);
        } else if key.len() < k < line.len() {
            assert(full[k] == value[k - key.len() - 1]);
        }
    }
    first_is_unique(s, '\n', n);
    assert(s.take(n) =~= full);
    assert(s.skip(n + 1) =~= rest);
    assert(without_cr(full) =~= line);
    assert forall|k: int| 0 <= k < key.len() implies line[k] != '=' by {
        assert(line[k] == key[k]);
    }
    first_is_unique(line, '=', key.len() as int);
    assert(line.take(key.len() as int) =~= key);
    assert(line.skip((key.len() + 1) as int) =~= value);
}

/// The last line counts without an end of line too; an empty text sets
/// nothing, and so does a last line without a key.
pub proof fn last_line_counts(
    m: Map<Seq<char>, Seq<char>>,
    key: Seq<char>,
    value: Seq<char>,
    junk: Seq<char>,
)
    requires
        !key.contains('='),
        !key.contains('\n'),
        !value.contains('\n'),
        !junk.contains('='),
        !junk.contains('\n'),
    ensures
        with_text(m, key + seq!['='] + value) == m.insert(key, value),
        with_text(m, junk) == m,
        with_text(m, seq![]) == m,
{
    let line = key + seq!['='] + value;
    assert forall|k: int| 0 <= k < line.len() implies line[k] != '\n' by {
        if k < key.len() {
            assert(line[k] == key[k]);
        } else if k > key.len() {
            assert(line[k] == value[k - key.len() - 1]);
        }
    }
    first_is_unique(line, '\n', line.len() as int);
    assert forall|k: int| 0 <= k < key.len() implies line[k] != '=' by {
        assert(line[k] == key[k]);
    }
    first_is_unique(line, '=', key.len() as int);
    assert(line.take(key.len() as int) =~= key);
    assert(line.skip((key.len() + 1) as int) =~= value);
    assert forall|k: int| 0 <= k < junk.len() implies junk[k] != '\n' && junk[k] != '=' by {
        assert(junk.contains(junk[k]));
    }
    first_is_unique(junk, '\n', junk.len() as int);
    first_is_unique(junk, '=', junk.len() as int);
    let none = Seq::<char>::empty();
    first_is_unique(none, '\n', 0);
    first_is_unique(none, '=', 0);
}

/// Of two lines that set the same key the later counts.
pub proof fn later_settings_count(
    m: Map<Seq<char>, Seq<char>>,
    key: Seq<char>,
    a: Seq<char>,
    b: Seq<char>,
)
    requires
        !key.contains('='),
        !key.contains('\n'),
        !a.contains('\n'),
        a.len() > 0 ==> a.last() != '\r',
        !b.contains('\n'),
    ensures
        with_text(m, key + seq!['='] + a + seq!['\n'] + (key + seq!['='] + b))[key] == b,
{
    setting_is_read(m, key, a, key + seq!['='] + b);
    last_line_counts(m.insert(key, a), key, b, seq![]);
}

/// What a reply reports: nothing where it is no text; no BSSID where no line
/// sets one; else the address that the line spells, or what is wrong with it.
pub proof fn replies_report_their_bssid(reply: Seq<u8>)
    ensures
        !valid_utf8(reply) ==> reported_bssid(reply) == Err::<Seq<u8>, HostapdError>(
            HostapdError::NotUtf8,
        ),
        valid_utf8(reply) ==> {
            let settings = with_text(Map::empty(), decode_utf8(reply));
            &&& !settings.dom().contains("bssid"@) ==> reported_bssid(reply) == Err::<
                Seq<u8>,
                HostapdError,
            >(HostapdError::NoBssid)
            &&& settings.dom().contains("bssid"@) ==> match mac_of(settings["bssid"@]) {
                Ok(m) => reported_bssid(reply) == Ok::<Seq<u8>, HostapdError>(m),
                Err(e) => reported_bssid(reply) == Err::<Seq<u8>, HostapdError>(
                    HostapdError::Bssid(e),
                ),
            }
        },
{
}

/// A reply whose text ends with the line of the BSSID reports that BSSID.
pub proof fn written_bssid_is_reported(reply: Seq<u8>, m: Seq<u8>)
    requires
        m.len() == 6,
        valid_utf8(reply),
        decode_utf8(reply) == seq!['b', 's', 's', 'i', 'd', '='] + mac_text(m),
    ensures
        reported_bssid(reply) == Ok::<Seq<u8>, HostapdError>(m),
{
    reveal_strlit("bssid");
    let key = "bssid"@;
    let value = mac_text(m);
    assert(key =~= seq!['b', 's', 's', 'i', 'd']);
    assert(key + seq!['='] + value =~= decode_utf8(reply));
    assert(!value.contains('\n')) by {
        assert forall|i: int| 0 <= i < value.len() implies value[i] != '\n' by {
        }
    }
    last_line_counts(Map::empty(), key, value, seq![]);
    mac_reads_its_text(m);
}

/// Addresses are ordered by the first octet in which they differ.
pub proof fn addresses_are_ordered_by_octets(a: [u8; 6], b: [u8; 6], k: int)
    requires
        0 <= k < 6,
        forall|i: int| 0 <= i < k ==> a@[i] == b@[i],
        a@[k] < b@[k],
    ensures
        mac_number(a) < mac_number(b),
{
    assert(k == 0 || k == 1 || k == 2 || k == 3 || k == 4 || k == 5);
    if k > 0 {
        assert(a@[0] == b@[0]);
    }
    if k > 1 {
        assert(a@[1] == b@[1]);
    }
    if k > 2 {
        assert(a@[2] == b@[2]);
    }
    if k > 3 {
        assert(a@[3] == b@[3]);
    }
    if k > 4 {
        assert(a@[4] == b@[4]);
    }
}

} // verus!
