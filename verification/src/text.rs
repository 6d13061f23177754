//! Text building blocks: digits, numbers and character access.
use vstd::prelude::*;
use vstd::string::*;

verus! {

/// The lowercase digit for a value below 16.
pub open spec fn digit(d: int) -> char {
    if d < 10 {
        (48 + d) as char
    } else {
        (87 + d) as char
    }
}

/// `n` in decimal, without leading zeros.
pub open spec fn decimal(n: nat) -> Seq<char>
    decreases n,
{
    if n < 10 {
        seq![digit(n as int)]
    } else {
        decimal(n / 10).push(digit((n % 10) as int))
    }
}

/// Bytes as two lowercase hex digits each.
pub open spec fn hex(b: Seq<u8>) -> Seq<char> {
    Seq::new(
        2 * b.len(),
        |i: int|
            if i % 2 == 0 {
                digit(b[i / 2] as int / 16)
            } else {
                digit(b[i / 2] as int % 16)
            },
    )
}

/// The characters of `s`.
pub fn chars_of(s: &str) -> (v: Vec<char>)
    ensures
        v@ == s@,
{
    let mut v: Vec<char> = Vec::new();
    for c in it: s.chars()
        invariant
            it.seq() == s@,
            v@ == s@.take(it.index() as int),
    {
        v.push(c);
        assert(v@ =~= s@.take(it.index() + 1));
    }
    assert(v@ =~= s@);
    v
}

/// Whether two texts are the same.
pub fn same_chars(a: &Vec<char>, b: &Vec<char>) -> (r: bool)
    ensures
        r == (a@ == b@),
{
    if a.len() != b.len() {
        return false;
    }
    let mut i: usize = 0;
    while i < a.len()
        invariant
            i <= a@.len(),
            a@.len() == b@.len(),
            forall|k: int| 0 <= k < i ==> a@[k] == b@[k],
        decreases a@.len() - i,
    {
        if a[i] != b[i] {
            return false;
        }
        i += 1;
    }
    assert(a@ =~= b@);
    true
}

/// Whether two texts are the same.
pub fn same_text(a: &str, b: &str) -> (r: bool)
    ensures
        r == (a@ == b@),
{
    same_chars(&chars_of(a), &chars_of(b))
}

/// One lowercase digit as text.
pub fn digit_text(d: u8) -> (s: &'static str)
    requires
        d < 16,
    ensures
        s@ == seq![digit(d as int)],
{
    proof {
        reveal_strlit("0");
        reveal_strlit("1");
        reveal_strlit("2");
        reveal_strlit("3");
        reveal_strlit("4");
        reveal_strlit("5");
        reveal_strlit("6");
        reveal_strlit("7");
        reveal_strlit("8");
        reveal_strlit("9");
        reveal_strlit("a");
        reveal_strlit("b");
        reveal_strlit("c");
        reveal_strlit("d");
        reveal_strlit("e");
        reveal_strlit("f");
    }
    let s: &'static str = match d {
        0 => "0",
        1 => "1",
        2 => "2",
        3 => "3",
        4 => "4",
        5 => "5",
        6 => "6",
        7 => "7",
        8 => "8",
        9 => "9",
        10 => "a",
        11 => "b",
        12 => "c",
        13 => "d",
        14 => "e",
        _ => "f",
    };
    assert(s@ =~= seq![digit(d as int)]);
    s
}

/// `n` in decimal.
pub fn decimal_text(n: u64) -> (s: String)
    ensures
        s@ == decimal(n as nat),
    decreases n,
{
    if n < 10 {
        digit_text(n as u8).to_owned()
    } else {
        let mut s: String = decimal_text(n / 10);
        s.append(digit_text((n % 10) as u8));
        assert(s@ =~= decimal(n as nat));
        s
    }
}

/// Append a byte as two lowercase hex digits.
pub fn append_hex(s: &mut String, b: u8)
    ensures
        final(s)@ == old(s)@ + hex(seq![b]),
{
    s.append(digit_text(b / 16));
    s.append(digit_text(b % 16));
    proof {
        let h = hex(seq![b]);
        assert(h =~= seq![digit(b as int / 16), digit(b as int % 16)]);
        assert(s@ =~= old(s)@ + h);
    }
}

/// Bytes as two lowercase hex digits each.
pub fn hex_text(b: &[u8]) -> (s: String)
    ensures
        s@ == hex(b@),
{
    let mut s: String = String::new();
    let mut i: usize = 0;
    assert(s@ =~= hex(b@.take(0)));
    while i < b.len()
        invariant
            i <= b@.len(),
            s@ == hex(b@.take(i as int)),
        decreases b@.len() - i,
    {
        append_hex(&mut s, b[i]);
        proof {
            let one = seq![b@[i as int]];
            let before = b@.take(i as int);
            let after = b@.take(i + 1);
            assert forall|k: int| 0 <= k < 2 * after.len() implies (hex(before) + hex(one))[k]
                == hex(after)[k] by {
                if k < 2 * i {
                    assert(after[k / 2] == before[k / 2]);
                } else {
                    assert(k / 2 == i);
                    assert((k - 2 * i) / 2 == 0);
                    assert(k % 2 == (k - 2 * i) % 2);
                }
            }
            assert(s@ =~= hex(after));
        }
        i += 1;
    }
    assert(b@.take(i as int) =~= b@);
    s
}

/// Position of the first `c`, or the length where there is none.
pub open spec fn first(s: Seq<char>, c: char) -> nat
    decreases s.len(),
{
    if s.len() == 0 || s[0] == c {
        0
    } else {
        1 + first(s.skip(1), c)
    }
}

/// The first `c` stands behind characters that are all different from it.
pub proof fn first_is_first(s: Seq<char>, c: char)
    ensures
        0 <= first(s, c) <= s.len(),
        forall|k: int| 0 <= k < first(s, c) ==> s[k] != c,
        first(s, c) < s.len() ==> s[first(s, c) as int] == c,
    decreases s.len(),
{
    if s.len() > 0 && s[0] != c {
        let rest = s.skip(1);
        first_is_first(rest, c);
        assert forall|k: int| 0 <= k < first(s, c) implies s[k] != c by {
            if k > 0 {
                assert(rest[k - 1] == s[k]);
            }
        }
    }
}

/// Only one position can be the first.
pub proof fn first_is_unique(s: Seq<char>, c: char, i: int)
    requires
        0 <= i <= s.len(),
        forall|k: int| 0 <= k < i ==> s[k] != c,
        i < s.len() ==> s[i] == c,
    ensures
        first(s, c) == i,
{
    first_is_first(s, c);
    if first(s, c) < i {
        assert(s[first(s, c) as int] != c);
    }
}

/// The pieces between the separators; one piece where there is none.
pub open spec fn split(s: Seq<char>, c: char) -> Seq<Seq<char>>
    decreases s.len(),
{
    let i = first(s, c) as int;
    if i >= s.len() {
        seq![s]
    } else {
        seq![s.take(i)] + split(s.skip(i + 1), c)
    }
}

/// The texts of a list.
pub open spec fn texts(v: Seq<Vec<char>>) -> Seq<Seq<char>> {
    Seq::new(v.len(), |i: int| v[i]@)
}

/// A part of a text.
pub fn piece(s: &Vec<char>, from: usize, to: usize) -> (v: Vec<char>)
    requires
        from <= to <= s@.len(),
    ensures
        v@ == s@.subrange(from as int, to as int),
{
    let mut v: Vec<char> = Vec::new();
    let mut i: usize = from;
    while i < to
        invariant
            from <= i <= to <= s@.len(),
            v@ == s@.subrange(from as int, i as int),
        decreases to - i,
    {
        v.push(s[i]);
        assert(v@ =~= s@.subrange(from as int, i + 1));
        i += 1;
    }
    v
}

/// The pieces between the separators.
pub fn split_text(s: &Vec<char>, c: char) -> (v: Vec<Vec<char>>)
    ensures
        texts(v@) == split(s@, c),
{
    let mut v: Vec<Vec<char>> = Vec::new();
    let mut from: usize = 0;
    let mut i: usize = 0;
    proof {
        first_is_first(s@, c);
        assert(s@.skip(0) =~= s@);
        assert(texts(v@) + split(s@.skip(0), c) =~= split(s@, c));
    }
    while i < s.len()
        invariant
            from <= i <= s@.len(),
            forall|k: int| from <= k < i ==> s@[k] != c,
            texts(v@) + split(s@.skip(from as int), c) == split(s@, c),
        decreases s@.len() - i,
    {
        if s[i] == c {
            let ghost rest = s@.skip(from as int);
            let ghost before = v@;
            v.push(piece(s, from, i));
            proof {
                first_is_unique(rest, c, i - from);
                assert(rest.take(i - from) =~= s@.subrange(from as int, i as int));
                assert(rest.skip(i - from + 1) =~= s@.skip(i + 1));
                assert(texts(v@) =~= texts(before).push(s@.subrange(from as int, i as int)));
                assert(split(rest, c) == seq![rest.take(i - from)] + split(
                    rest.skip(i - from + 1),
                    c,
                ));
                assert(texts(v@) + split(s@.skip(i + 1), c) =~= texts(before) + split(rest, c));
            }
            from = i + 1;
        }
        i += 1;
    }
    let ghost rest = s@.skip(from as int);
    let ghost before = v@;
    v.push(piece(s, from, i));
    proof {
        first_is_unique(rest, c, rest.len() as int);
        assert(rest =~= s@.subrange(from as int, i as int));
        assert(texts(v@) =~= texts(before) + split(rest, c));
    }
    v
}

/// Unicode `White_Space`.
pub open spec fn is_blank_char(c: char) -> bool {
    ||| 0x9 <= c as int <= 0xd
    ||| c as int == 0x20
    ||| c as int == 0x85
    ||| c as int == 0xa0
    ||| c as int == 0x1680
    ||| 0x2000 <= c as int <= 0x200a
    ||| c as int == 0x2028
    ||| c as int == 0x2029
    ||| c as int == 0x202f
    ||| c as int == 0x205f
    ||| c as int == 0x3000
}

/// `s` without white space at either end.
pub open spec fn trimmed(s: Seq<char>) -> Seq<char>
    decreases s.len(),
{
    if s.len() == 0 {
        s
    } else if is_blank_char(s[0]) {
        trimmed(s.skip(1))
    } else if is_blank_char(s.last()) {
        trimmed(s.drop_last())
    } else {
        s
    }
}

/// Whether `c` is Unicode `White_Space`.
pub fn blank_char(c: char) -> (r: bool)
    ensures
        r == is_blank_char(c),
{
    let n: u32 = c as u32;
    (0x9 <= n && n <= 0xd) || n == 0x20 || n == 0x85 || n == 0xa0 || n == 0x1680 || (0x2000 <= n
        && n <= 0x200a) || n == 0x2028 || n == 0x2029 || n == 0x202f || n == 0x205f || n == 0x3000
}

/// `s` without white space at either end.
pub fn trim(s: &Vec<char>) -> (v: Vec<char>)
    ensures
        v@ == trimmed(s@),
{
    let mut from: usize = 0;
    let mut to: usize = s.len();
    assert(s@.subrange(0, to as int) =~= s@);
    while from < to && blank_char(s[from])
        invariant
            from <= to <= s@.len(),
            trimmed(s@) == trimmed(s@.subrange(from as int, to as int)),
        ensures
            from <= to,
            trimmed(s@) == trimmed(s@.subrange(from as int, to as int)),
            from < to ==> !is_blank_char(s@[from as int]),
        decreases to - from,
    {
        assert(s@.subrange(from as int, to as int).skip(1) =~= s@.subrange(from + 1, to as int));
        from += 1;
    }
    while from < to && blank_char(s[to - 1])
        invariant
            from <= to <= s@.len(),
            trimmed(s@) == trimmed(s@.subrange(from as int, to as int)),
            from < to ==> !is_blank_char(s@[from as int]),
        decreases to - from,
    {
        assert(s@.subrange(from as int, to as int).drop_last() =~= s@.subrange(
            from as int,
            to - 1,
        ));
        to -= 1;
    }
    piece(s, from, to)
}

/// A decimal digit.
pub open spec fn is_digit(c: char) -> bool {
    '0' <= c <= '9'
}

/// The number that decimal digits spell.
pub open spec fn number(s: Seq<char>) -> nat
    decreases s.len(),
{
    if s.len() == 0 {
        0
    } else {
        number(s.drop_last()) * 10 + (s.last() as nat - '0' as nat) as nat
    }
}

/// `s` without one leading plus sign.
pub open spec fn unsigned(s: Seq<char>) -> Seq<char> {
    if s.len() > 0 && s[0] == '+' {
        s.skip(1)
    } else {
        s
    }
}

/// The machine word that `s` spells in decimal: digits, at least one, with
/// at most one plus sign before them, not above `usize::MAX`.
pub open spec fn parsed_usize(s: Seq<char>) -> Option<usize> {
    let d = unsigned(s);
    if d.len() > 0 && (forall|i: int| 0 <= i < d.len() ==> is_digit(#[trigger] d[i])) && number(d)
        <= usize::MAX {
        Some(number(d) as usize)
    } else {
        None
    }
}

/// More digits spell no smaller number.
proof fn number_grows(s: Seq<char>, i: int)
    requires
        0 <= i <= s.len(),
    ensures
        number(s.take(i)) <= number(s),
    decreases s.len(),
{
    if i == s.len() {
        assert(s.take(i) =~= s);
    } else {
        number_grows(s.drop_last(), i);
        assert(s.drop_last().take(i) =~= s.take(i));
    }
}

/// Parse a machine word in decimal.
pub fn parse_usize(s: &Vec<char>) -> (r: Option<usize>)
    ensures
        r == parsed_usize(s@),
{
    let from: usize = if s.len() > 0 && s[0] == '+' {
        1
    } else {
        0
    };
    let ghost d = unsigned(s@);
    assert(d =~= s@.skip(from as int));
    if s.len() == from {
        return None;
    }
    let mut n: usize = 0;
    let mut i: usize = from;
    while i < s.len()
        invariant
            from <= i <= s@.len(),
            from < s@.len(),
            d == unsigned(s@),
            d == s@.skip(from as int),
            forall|k: int| 0 <= k < i - from ==> is_digit(#[trigger] d[k]),
            n == number(d.take(i - from)),
        decreases s@.len() - i,
    {
        let c: char = s[i];
        assert(c == d[i - from]);
        if !('0' <= c && c <= '9') {
            return None;
        }
        let v: usize = (c as u32 - '0' as u32) as usize;
        proof {
            let next = d.take(i - from + 1);
            assert(next.drop_last() =~= d.take(i - from));
            number_grows(d, i - from + 1);
        }
        match n.checked_mul(10) {
            Some(m) => match m.checked_add(v) {
                Some(k) => {
                    n = k;
                },
                None => {
                    return None;
                },
            },
            None => {
                return None;
            },
        }
        i += 1;
    }
    assert(d.take(i - from) =~= d);
    Some(n)
}

/// Digits are '0' to '9', then 'a' to 'f'.
pub proof fn digits_in_order(d: int)
    requires
        0 <= d < 16,
    ensures
        d < 10 ==> digit(d) as int == '0' as int + d,
        d >= 10 ==> digit(d) as int == 'a' as int + (d - 10),
{
}

/// A digit behind others makes ten times their number and its own value.
pub proof fn numbers_are_positional(s: Seq<char>, c: char)
    requires
        '0' <= c <= '9',
    ensures
        number(seq![]) == 0,
        number(s.push(c)) == 10 * number(s) + (c as int - '0' as int),
{
    assert(s.push(c).drop_last() =~= s);
}

/// A number's text is decimal digits without a leading zero, and spells it.
pub proof fn decimal_spells_its_number(n: nat)
    ensures
        decimal(n).len() > 0,
        forall|i: int| 0 <= i < decimal(n).len() ==> '0' <= #[trigger] decimal(n)[i] <= '9',
        decimal(n).len() > 1 ==> decimal(n)[0] != '0',
        number(decimal(n)) == n,
    decreases n,
{
    reveal_with_fuel(number, 2);
    if n < 10 {
        assert(decimal(n).drop_last() =~= seq![]);
    } else {
        decimal_spells_its_number(n / 10);
        let head = decimal(n / 10);
        assert(decimal(n).drop_last() =~= head);
        assert(decimal(n)[0] == head[0]);
        if head.len() == 1 {
            assert(head.drop_last() =~= seq![]);
        }
        assert forall|i: int| 0 <= i < decimal(n).len() implies '0' <= #[trigger] decimal(n)[i]
            <= '9' by {
            if i < head.len() {
                assert(decimal(n)[i] == head[i]);
            }
        }
    }
}

/// A text of digits is read as the number it spells, with or without a plus
/// sign before it, where a machine word holds that number.
pub proof fn numbers_are_read(s: Seq<char>)
    requires
        s.len() > 0,
        forall|i: int| 0 <= i < s.len() ==> '0' <= #[trigger] s[i] <= '9',
    ensures
        number(s) <= usize::MAX ==> parsed_usize(s) == Some(number(s) as usize),
        number(s) <= usize::MAX ==> parsed_usize(seq!['+'] + s) == Some(number(s) as usize),
        number(s) > usize::MAX ==> parsed_usize(s) is None,
{
    assert(s[0] != '+');
    assert((seq!['+'] + s).skip(1) =~= s);
    assert(forall|i: int| 0 <= i < s.len() ==> is_digit(#[trigger] s[i]));
}

/// Nothing else is read as a number: not the empty text, nor a text with
/// anything but digits behind its first character.
pub proof fn only_digits_are_read(s: Seq<char>, i: int)
    ensures
        parsed_usize(seq![]) is None,
        parsed_usize(seq!['+']) is None,
        0 < i < s.len() && !('0' <= s[i] <= '9') ==> parsed_usize(s) is None,
        s.len() > 0 && s[0] != '+' && !('0' <= s[0] <= '9') ==> parsed_usize(s) is None,
{
    assert(seq!['+'].skip(1) =~= seq![]);
    let d = unsigned(s);
    if 0 < i < s.len() && !('0' <= s[i] <= '9') {
        if s[0] == '+' {
            assert(d[i - 1] == s[i]);
        } else {
            assert(d[i] == s[i]);
        }
    }
    if s.len() > 0 && s[0] != '+' && !('0' <= s[0] <= '9') {
        assert(!is_digit(d[0]));
    }
}

/// A byte is two digits, the more significant first, each '0' to '9' or 'a'
/// to 'f'.
pub proof fn hex_is_two_digits_per_byte(b: Seq<u8>, i: int)
    requires
        0 <= i < b.len(),
    ensures
        hex(b).len() == 2 * b.len(),
        hex(b)[2 * i] as int == if b[i] < 160 {
            '0' as int + b[i] as int / 16
        } else {
            'a' as int + b[i] as int / 16 - 10
        },
        hex(b)[2 * i + 1] as int == if b[i] as int % 16 < 10 {
            '0' as int + b[i] as int % 16
        } else {
            'a' as int + b[i] as int % 16 - 10
        },
{
    assert((2 * i) / 2 == i);
    assert((2 * i + 1) / 2 == i);
    assert((2 * i) % 2 == 0);
    assert((2 * i + 1) % 2 == 1);
}

/// A text without the separator is one piece; before a separator, it is the
/// first piece of what it heads.
pub proof fn pieces_lie_between_separators(a: Seq<char>, c: char, b: Seq<char>)
    requires
        !a.contains(c),
    ensures
        split(a, c) == seq![a],
        split(a + seq![c] + b, c) == seq![a] + split(b, c),
{
    assert forall|k: int| 0 <= k < a.len() implies a[k] != c by {
        assert(a.contains(a[k]));
    }
    first_is_unique(a, c, a.len() as int);
    let s = a + seq![c] + b;
    assert forall|k: int| 0 <= k < a.len() implies s[k] != c by {
        assert(s[k] == a[k]);
    }
    first_is_unique(s, c, a.len() as int);
    assert(s.take(a.len() as int) =~= a);
    assert(s.skip((a.len() + 1) as int) =~= b);
}

/// White space is what Unicode says it is, character by character.
pub proof fn white_space_is_unicodes(c: char)
    ensures
        is_blank_char(c) <==> {
            let n = c as int;
            ||| n == 0x09 || n == 0x0a || n == 0x0b || n == 0x0c || n == 0x0d || n == 0x20
            ||| n == 0x85 || n == 0xa0 || n == 0x1680
            ||| n == 0x2000 || n == 0x2001 || n == 0x2002 || n == 0x2003 || n == 0x2004
            ||| n == 0x2005 || n == 0x2006 || n == 0x2007 || n == 0x2008 || n == 0x2009
            ||| n == 0x200a || n == 0x2028 || n == 0x2029 || n == 0x202f || n == 0x205f
            ||| n == 0x3000
        },
{
}

/// White space before or behind a text does not matter to its trimmed form;
/// a text with none at its ends is left alone.
pub proof fn only_outer_blanks_are_trimmed(s: Seq<char>, w: char)
    ensures
        is_blank_char(w) ==> trimmed(seq![w] + s) == trimmed(s),
        is_blank_char(w) ==> trimmed(s.push(w)) == trimmed(s),
        s.len() == 0 ==> trimmed(s) == s,
        s.len() > 0 && !is_blank_char(s[0]) && !is_blank_char(s.last()) ==> trimmed(s) == s,
    decreases s.len(),
{
    if is_blank_char(w) {
        assert((seq![w] + s).skip(1) =~= s);
        let t = s.push(w);
        if s.len() == 0 {
            assert(t.skip(1) =~= s);
        } else if is_blank_char(s[0]) {
            only_outer_blanks_are_trimmed(s.skip(1), w);
            assert(t.skip(1) =~= s.skip(1).push(w));
        } else {
            assert(t.drop_last() =~= s);
        }
    }
}

/// The texts of a list are those of its members, in order.
pub proof fn texts_are_in_order(v: Seq<Vec<char>>, i: int)
    requires
        0 <= i < v.len(),
    ensures
        texts(v).len() == v.len(),
        texts(v)[i] == v[i]@,
{
}

} // verus!
