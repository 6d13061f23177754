//! MAC addresses as text.
use vstd::prelude::*;
use vstd::string::*;
use vstd::utf8::*;
use crate::relay::mac_text;
use crate::text::{chars_of, digit, first_is_unique, split, split_text, texts};

verus! {

/// Why a text is not a MAC address.
#[derive(Clone, Copy, Debug, PartialEq, Eq, Structural)]
pub enum MacError {
    /// Not six colon-separated octets.
    Octets,
    /// An octet is not two bytes long.
    OctetLength(usize),
    /// An octet is not two hex digits.
    OctetDigits(usize),
}

/// Value of a hex digit of either case.
pub open spec fn hex_value(c: char) -> Option<u8> {
    if '0' <= c <= '9' {
        Some((c as u8 - '0' as u8) as u8)
    } else if 'a' <= c <= 'f' {
        Some((c as u8 - 'a' as u8 + 10) as u8)
    } else if 'A' <= c <= 'F' {
        Some((c as u8 - 'A' as u8 + 10) as u8)
    } else {
        None
    }
}

/// Value of an octet: two hex digits, most significant first.
pub open spec fn octet_value(p: Seq<char>) -> Option<u8> {
    if p.len() != 2 {
        None
    } else {
        match (hex_value(p[0]), hex_value(p[1])) {
            (Some(a), Some(b)) => Some((a * 16 + b) as u8),
            _ => None,
        }
    }
}

/// The octets that `parts` spell; the first bad one decides the error.
pub open spec fn octets(parts: Seq<Seq<char>>) -> Result<Seq<u8>, MacError>
    decreases parts.len(),
{
    if parts.len() == 0 {
        Ok(seq![])
    } else {
        let i = (parts.len() - 1) as usize;
        match octets(parts.drop_last()) {
            Err(e) => Err(e),
            Ok(done) => if encode_utf8(parts.last()).len() != 2 {
                Err(MacError::OctetLength(i))
            } else {
                match octet_value(parts.last()) {
                    None => Err(MacError::OctetDigits(i)),
                    Some(b) => Ok(done.push(b)),
                }
            },
        }
    }
}

/// The address that a text spells: six octets with colons between them.
pub open spec fn mac_of(s: Seq<char>) -> Result<Seq<u8>, MacError> {
    let parts = split(s, ':');
    if parts.len() != 6 {
        Err(MacError::Octets)
    } else {
        octets(parts)
    }
}

/// Every character takes at least one byte.
proof fn encoding_is_no_shorter(s: Seq<char>)
    ensures
        encode_utf8(s).len() >= s.len(),
    decreases s.len(),
{
    if s.len() > 0 {
        encoding_is_no_shorter(s.drop_first());
    }
}

/// Whether a text is two bytes long.
fn two_bytes(p: &Vec<char>) -> (r: bool)
    ensures
        r == (encode_utf8(p@).len() == 2),
{
    proof {
        encoding_is_no_shorter(p@);
        reveal_with_fuel(encode_utf8, 3);
        if p@.len() == 1 {
            assert(p@.drop_first() =~= seq![]);
        }
        if p@.len() == 2 {
            assert(p@.drop_first().drop_first() =~= seq![]);
            assert(p@.drop_first()[0] == p@[1]);
        }
    }
    if p.len() == 1 {
        0x80 <= p[0] as u32 && p[0] as u32 <= 0x7ff
    } else if p.len() == 2 {
        (p[0] as u32) <= 0x7f && (p[1] as u32) <= 0x7f
    } else {
        false
    }
}

/// Value of a hex digit of either case.
fn hex_digit(c: char) -> (r: Option<u8>)
    ensures
        r == hex_value(c),
        r matches Some(v) ==> v < 16,
{
    if '0' <= c && c <= '9' {
        Some(c as u8 - '0' as u8)
    } else if 'a' <= c && c <= 'f' {
        Some(c as u8 - 'a' as u8 + 10)
    } else if 'A' <= c && c <= 'F' {
        Some(c as u8 - 'A' as u8 + 10)
    } else {
        None
    }
}

/// Value of an octet.
fn octet(p: &Vec<char>) -> (r: Option<u8>)
    ensures
        r == octet_value(p@),
{
    if p.len() != 2 {
        return None;
    }
    match (hex_digit(p[0]), hex_digit(p[1])) {
        (Some(a), Some(b)) => Some(a * 16 + b),
        _ => None,
    }
}

/// An error among the first octets is the error of all.
proof fn octets_error(parts: Seq<Seq<char>>, i: int)
    requires
        0 <= i <= parts.len(),
        octets(parts.take(i)) is Err,
    ensures
        octets(parts) == octets(parts.take(i)),
    decreases parts.len(),
{
    if i == parts.len() {
        assert(parts.take(i) =~= parts);
    } else {
        assert(parts.drop_last().take(i) =~= parts.take(i));
        octets_error(parts.drop_last(), i);
    }
}

/// "xx:xx:xx:xx:xx:xx" (hex, any case) into bytes.
pub fn mac_of_chars(s: &Vec<char>) -> (r: Result<[u8; 6], MacError>)
    ensures
        match r {
            Ok(m) => mac_of(s@) == Ok::<Seq<u8>, MacError>(m@),
            Err(e) => mac_of(s@) == Err::<Seq<u8>, MacError>(e),
        },
{
    let parts: Vec<Vec<char>> = split_text(s, ':');
    let ghost all = split(s@, ':');
    if parts.len() != 6 {
        return Err(MacError::Octets);
    }
    let mut out: [u8; 6] = [0; 6];
    let mut i: usize = 0;
    assert(out@.take(0) =~= seq![]);
    while i < 6
        invariant
            i <= 6,
            parts@.len() == 6,
            texts(parts@) == all,
            all == split(s@, ':'),
            octets(all.take(i as int)) == Ok::<Seq<u8>, MacError>(out@.take(i as int)),
        decreases 6 - i,
    {
        proof {
            assert(all[i as int] == parts@[i as int]@);
            assert(all.take(i + 1).drop_last() =~= all.take(i as int));
        }
        if !two_bytes(&parts[i]) {
            proof {
                octets_error(all, i + 1);
            }
            return Err(MacError::OctetLength(i));
        }
        match octet(&parts[i]) {
            Some(b) => {
                let ghost before = out@;
                out[i] = b;
                assert(out@.take(i + 1) =~= before.take(i as int).push(b));
            },
            None => {
                proof {
                    octets_error(all, i + 1);
                }
                return Err(MacError::OctetDigits(i));
            },
        }
        i += 1;
    }
    assert(all.take(6) =~= all);
    assert(out@.take(6) =~= out@);
    Ok(out)
}

/// "xx:xx:xx:xx:xx:xx" (hex, any case) into bytes.
pub fn mac(s: &str) -> (r: Result<[u8; 6], MacError>)
    ensures
        match r {
            Ok(m) => mac_of(s@) == Ok::<Seq<u8>, MacError>(m@),
            Err(e) => mac_of(s@) == Err::<Seq<u8>, MacError>(e),
        },
{
    mac_of_chars(&chars_of(s))
}

/// The two digits of an octet.
spec fn pair(b: u8) -> Seq<char> {
    seq![digit(b as int / 16), digit(b as int % 16)]
}

/// Two digits of an octet spell it, in two bytes, without a colon.
proof fn pair_spells_octet(b: u8)
    ensures
        octet_value(pair(b)) == Some(b),
        encode_utf8(pair(b)).len() == 2,
        pair(b)[0] != ':',
        pair(b)[1] != ':',
{
    let p = pair(b);
    assert(is_ascii_chars(p));
    is_ascii_chars_encode_utf8(p);
    let a = b as int / 16;
    let c = b as int % 16;
    assert(0 <= a < 16 && 0 <= c < 16 && b == 16 * a + c);
    assert(hex_value(digit(a)) == Some(a as u8));
    assert(hex_value(digit(c)) == Some(c as u8));
}

/// The address text from octet `k` on starts with that octet.
proof fn octet_heads_text(m: Seq<u8>, k: int)
    requires
        m.len() == 6,
        0 <= k < 6,
    ensures
        split(mac_text(m).skip(3 * k), ':') == if k == 5 {
            seq![pair(m[5])]
        } else {
            seq![pair(m[k])] + split(mac_text(m).skip(3 * (k + 1)), ':')
        },
{
    let t = mac_text(m).skip(3 * k);
    pair_spells_octet(m[k]);
    assert(t[0] == mac_text(m)[3 * k]);
    assert(t[1] == mac_text(m)[3 * k + 1]);
    assert(t[0] == pair(m[k])[0] && t[1] == pair(m[k])[1]);
    if k < 5 {
        assert(t[2] == mac_text(m)[3 * k + 2]);
        first_is_unique(t, ':', 2);
        assert(t.take(2) =~= pair(m[k]));
        assert(t.skip(3) =~= mac_text(m).skip(3 * (k + 1)));
    } else {
        assert(t.len() == 2);
        first_is_unique(t, ':', 2);
        assert(t =~= pair(m[5]));
    }
}

/// An address reads back from its text.
pub proof fn mac_reads_its_text(m: Seq<u8>)
    requires
        m.len() == 6,
    ensures
        mac_of(mac_text(m)) == Ok::<Seq<u8>, MacError>(m),
{
    let t = mac_text(m);
    let parts = seq![
        pair(m[0]),
        pair(m[1]),
        pair(m[2]),
        pair(m[3]),
        pair(m[4]),
        pair(m[5]),
    ];
    octet_heads_text(m, 0);
    octet_heads_text(m, 1);
    octet_heads_text(m, 2);
    octet_heads_text(m, 3);
    octet_heads_text(m, 4);
    octet_heads_text(m, 5);
    assert(t.skip(0) =~= t);
    assert(split(t, ':') =~= parts);
    assert forall|i: int| 0 <= i <= 6 implies octets(#[trigger] parts.take(i)) == Ok::<
        Seq<u8>,
        MacError,
    >(m.take(i)) by {
        octets_of_pairs(m, parts, i);
    }
    assert(parts.take(6) =~= parts);
    assert(m.take(6) =~= m);
}

proof fn octets_of_pairs(m: Seq<u8>, parts: Seq<Seq<char>>, i: int)
    requires
        m.len() == 6,
        parts.len() == 6,
        forall|k: int| 0 <= k < 6 ==> #[trigger] parts[k] == pair(m[k]),
        0 <= i <= 6,
    ensures
        octets(parts.take(i)) == Ok::<Seq<u8>, MacError>(m.take(i)),
    decreases i,
{
    if i > 0 {
        octets_of_pairs(m, parts, i - 1);
        assert(parts.take(i).drop_last() =~= parts.take(i - 1));
        pair_spells_octet(m[i - 1]);
        assert(m.take(i) =~= m.take(i - 1).push(m[i - 1]));
    } else {
        assert(m.take(0) =~= seq![]);
    }
}

/// An address that a text spells has six octets.
pub proof fn mac_has_six_octets(s: Seq<char>)
    ensures
        mac_of(s) matches Ok(m) ==> m.len() == 6,
{
    octets_count(split(s, ':'));
}

proof fn octets_count(parts: Seq<Seq<char>>)
    ensures
        octets(parts) matches Ok(m) ==> m.len() == parts.len(),
    decreases parts.len(),
{
    if parts.len() > 0 {
        octets_count(parts.drop_last());
    }
}

} // verus!
