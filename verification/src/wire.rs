//! Byte-level vocabulary: multi-byte fields at an offset, byte orders, and
//! comparison of addresses and byte strings.
use vstd::prelude::*;

verus! {

/// Big-endian 16-bit field at `i`.
pub open spec fn be16(s: Seq<u8>, i: int) -> int {
    s[i] * 256 + s[i + 1]
}

/// Little-endian 16-bit field at `i`.
pub open spec fn le16(s: Seq<u8>, i: int) -> int {
    s[i] + s[i + 1] * 256
}

/// Order in which a multi-byte integer lies in memory.
#[derive(Clone, Copy, Debug, PartialEq, Eq, Structural)]
pub enum ByteOrder {
    /// Least significant byte first.
    Little,
    /// Most significant byte first.
    Big,
}

/// `s` in the other order of its elements where `order` is big-endian.
pub open spec fn ordered(order: ByteOrder, s: Seq<u8>) -> Seq<u8> {
    if order == ByteOrder::Little {
        s
    } else {
        s.reverse()
    }
}

/// Bytes of a 16-bit integer, least significant first.
pub open spec fn le_bytes16(n: u16) -> Seq<u8> {
    seq![(n % 256) as u8, (n / 256) as u8]
}

/// Bytes of a 32-bit integer, least significant first.
pub open spec fn le_bytes32(n: u32) -> Seq<u8> {
    seq![
        (n % 256) as u8,
        (n / 256 % 256) as u8,
        (n / 65536 % 256) as u8,
        (n / 16777216) as u8,
    ]
}

/// Bytes of a 64-bit integer, least significant first.
pub open spec fn le_bytes64(n: u64) -> Seq<u8> {
    le_bytes32((n % 0x1_0000_0000) as u32) + le_bytes32((n / 0x1_0000_0000) as u32)
}

/// Bytes of a 16-bit integer as `order` lays them out.
pub open spec fn bytes16(order: ByteOrder, n: u16) -> Seq<u8> {
    ordered(order, le_bytes16(n))
}

/// Bytes of a 32-bit integer as `order` lays them out.
pub open spec fn bytes32(order: ByteOrder, n: u32) -> Seq<u8> {
    ordered(order, le_bytes32(n))
}

/// Bytes of a 64-bit integer as `order` lays them out.
pub open spec fn bytes64(order: ByteOrder, n: u64) -> Seq<u8> {
    ordered(order, le_bytes64(n))
}

/// The 16-bit integer whose bytes, least significant first, are the first two of `s`.
pub open spec fn le_value16(s: Seq<u8>) -> u16 {
    (s[0] + s[1] * 256) as u16
}

/// The 32-bit integer whose bytes, least significant first, are the first four of `s`.
pub open spec fn le_value32(s: Seq<u8>) -> u32 {
    (s[0] + s[1] * 256 + s[2] * 65536 + s[3] * 16777216) as u32
}

/// The 64-bit integer whose bytes, least significant first, are the first eight of `s`.
pub open spec fn le_value64(s: Seq<u8>) -> u64 {
    (le_value32(s) + le_value32(s.skip(4)) * 0x1_0000_0000) as u64
}

/// The 16-bit integer that `order` reads at `i`.
pub open spec fn value16(order: ByteOrder, s: Seq<u8>, i: int) -> u16 {
    le_value16(ordered(order, s.subrange(i, i + 2)))
}

/// The 32-bit integer that `order` reads at `i`.
pub open spec fn value32(order: ByteOrder, s: Seq<u8>, i: int) -> u32 {
    le_value32(ordered(order, s.subrange(i, i + 4)))
}

/// The 64-bit integer that `order` reads at `i`.
pub open spec fn value64(order: ByteOrder, s: Seq<u8>, i: int) -> u64 {
    le_value64(ordered(order, s.subrange(i, i + 8)))
}

/// Reading what was written gives the 16-bit integer back, in either order.
pub proof fn value16_of_bytes16(order: ByteOrder, n: u16)
    ensures
        bytes16(order, n).len() == 2,
        value16(order, bytes16(order, n), 0) == n,
{
    let b = bytes16(order, n);
    assert(b.subrange(0, 2) =~= b);
    assert(ordered(order, b) =~= le_bytes16(n));
}

/// Four bytes laid out least significant first read back as the integer.
proof fn le_value32_of_le_bytes32(n: u32)
    ensures
        le_value32(le_bytes32(n)) == n,
{
}

/// Reading what was written gives the 32-bit integer back, in either order.
pub proof fn value32_of_bytes32(order: ByteOrder, n: u32)
    ensures
        bytes32(order, n).len() == 4,
        value32(order, bytes32(order, n), 0) == n,
{
    let b = bytes32(order, n);
    assert(b.subrange(0, 4) =~= b);
    assert(ordered(order, b) =~= le_bytes32(n));
    le_value32_of_le_bytes32(n);
}

/// Reading what was written gives the 64-bit integer back, in either order.
pub proof fn value64_of_bytes64(order: ByteOrder, n: u64)
    ensures
        bytes64(order, n).len() == 8,
        value64(order, bytes64(order, n), 0) == n,
{
    let b = bytes64(order, n);
    let s = le_bytes64(n);
    assert(s.len() == 8);
    assert(b.subrange(0, 8) =~= b);
    assert(ordered(order, b) =~= s);
    let lo = (n % 0x1_0000_0000) as u32;
    let hi = (n / 0x1_0000_0000) as u32;
    assert(le_value32(s) == lo) by {
        let w = le_bytes32(lo);
        assert(s[0] == w[0] && s[1] == w[1] && s[2] == w[2] && s[3] == w[3]);
        le_value32_of_le_bytes32(lo);
    }
    assert(le_value32(s.skip(4)) == hi) by {
        assert(s.skip(4) =~= le_bytes32(hi));
        le_value32_of_le_bytes32(hi);
    }
    assert(lo + hi * 0x1_0000_0000 == n);
}

/// A 16-bit field reads as the integer whose bytes lie there.
pub proof fn value16_at(order: ByteOrder, s: Seq<u8>, i: int, n: u16)
    requires
        0 <= i,
        i + 2 <= s.len(),
        s.subrange(i, i + 2) == bytes16(order, n),
    ensures
        value16(order, s, i) == n,
{
    value16_of_bytes16(order, n);
    let b = bytes16(order, n);
    assert(b.subrange(0, 2) =~= b);
}

/// A 32-bit field reads as the integer whose bytes lie there.
pub proof fn value32_at(order: ByteOrder, s: Seq<u8>, i: int, n: u32)
    requires
        0 <= i,
        i + 4 <= s.len(),
        s.subrange(i, i + 4) == bytes32(order, n),
    ensures
        value32(order, s, i) == n,
{
    value32_of_bytes32(order, n);
    let b = bytes32(order, n);
    assert(b.subrange(0, 4) =~= b);
}

/// A 64-bit field reads as the integer whose bytes lie there.
pub proof fn value64_at(order: ByteOrder, s: Seq<u8>, i: int, n: u64)
    requires
        0 <= i,
        i + 8 <= s.len(),
        s.subrange(i, i + 8) == bytes64(order, n),
    ensures
        value64(order, s, i) == n,
{
    value64_of_bytes64(order, n);
    let b = bytes64(order, n);
    assert(b.subrange(0, 8) =~= b);
}

impl ByteOrder {
    /// `u16::from_ne_bytes`: the integer that the machine at hand keeps in
    /// memory as these two bytes. Machines differ, so the contract claims
    /// only that it is one of the two readings; which of them it is goes
    /// unsaid.
    #[verifier::external_body]
    fn machine_reading(b: [u8; 2]) -> (n: u16)
        ensures
            n == le_value16(b@) || n == le_value16(b@.reverse()),
    {
        u16::from_ne_bytes(b)
    }

    /// The order of the machine at hand: the one in which it reads the bytes
    /// 1, 0, as [`ByteOrder::of_reading`] tells. Machines differ in that
    /// reading, so nothing more is said of the result.
    pub fn native() -> ByteOrder {
        Self::of_reading(Self::machine_reading([1, 0]))
    }

    /// The order of a machine that reads the bytes 1, 0 as `n`.
    pub fn of_reading(n: u16) -> (order: ByteOrder)
        ensures
            order == (if n == 1 {
                ByteOrder::Little
            } else {
                ByteOrder::Big
            }),
            n == le_value16(seq![1u8, 0u8]) || n == le_value16(seq![1u8, 0u8].reverse()) ==> value16(
                order,
                seq![1u8, 0u8],
                0,
            ) == n,
    {
        proof {
            let b = seq![1u8, 0u8];
            assert(b.subrange(0, 2) =~= b);
            assert(b.reverse() =~= seq![0u8, 1u8]);
        }
        if n == 1 {
            ByteOrder::Little
        } else {
            ByteOrder::Big
        }
    }

    /// The bytes of `n` in this order.
    pub fn put16(self, n: u16) -> (b: [u8; 2])
        ensures
            b@ == bytes16(self, n),
    {
        let lo: u8 = (n % 256) as u8;
        let hi: u8 = (n / 256) as u8;
        let b: [u8; 2] = if self == ByteOrder::Little {
            [lo, hi]
        } else {
            [hi, lo]
        };
        assert(b@ =~= bytes16(self, n));
        b
    }

    /// The bytes of `n` in this order.
    pub fn put32(self, n: u32) -> (b: [u8; 4])
        ensures
            b@ == bytes32(self, n),
    {
        let b0: u8 = (n % 256) as u8;
        let b1: u8 = (n / 256 % 256) as u8;
        let b2: u8 = (n / 65536 % 256) as u8;
        let b3: u8 = (n / 16777216) as u8;
        let b: [u8; 4] = if self == ByteOrder::Little {
            [b0, b1, b2, b3]
        } else {
            [b3, b2, b1, b0]
        };
        assert(b@ =~= bytes32(self, n));
        b
    }

    /// The bytes of `n` in this order.
    pub fn put64(self, n: u64) -> (b: [u8; 8])
        ensures
            b@ == bytes64(self, n),
    {
        let lo: [u8; 4] = ByteOrder::Little.put32((n % 0x1_0000_0000) as u32);
        let hi: [u8; 4] = ByteOrder::Little.put32((n / 0x1_0000_0000) as u32);
        let b: [u8; 8] = if self == ByteOrder::Little {
            [lo[0], lo[1], lo[2], lo[3], hi[0], hi[1], hi[2], hi[3]]
        } else {
            [hi[3], hi[2], hi[1], hi[0], lo[3], lo[2], lo[1], lo[0]]
        };
        assert(b@ =~= bytes64(self, n)) by {
            assert(le_bytes64(n) =~= lo@ + hi@);
        }
        b
    }

    /// The 16-bit integer at `i`.
    pub fn get16(self, s: &[u8], i: usize) -> (n: u16)
        requires
            i + 2 <= s@.len(),
        ensures
            n == value16(self, s@, i as int),
    {
        let a: u8 = s[i];
        let b: u8 = s[i + 1];
        if self == ByteOrder::Little {
            a as u16 + b as u16 * 256
        } else {
            b as u16 + a as u16 * 256
        }
    }

    /// The 32-bit integer at `i`.
    pub fn get32(self, s: &[u8], i: usize) -> (n: u32)
        requires
            i + 4 <= s@.len(),
        ensures
            n == value32(self, s@, i as int),
    {
        let a: u32 = s[i] as u32;
        let b: u32 = s[i + 1] as u32;
        let c: u32 = s[i + 2] as u32;
        let d: u32 = s[i + 3] as u32;
        if self == ByteOrder::Little {
            a + b * 256 + c * 65536 + d * 16777216
        } else {
            d + c * 256 + b * 65536 + a * 16777216
        }
    }

    /// The 64-bit integer at `i`.
    pub fn get64(self, s: &[u8], i: usize) -> (n: u64)
        requires
            i + 8 <= s@.len(),
        ensures
            n == value64(self, s@, i as int),
    {
        assert(s.len() == s@.len());
        let first: u32 = self.get32(s, i);
        let second: u32 = self.get32(s, i + 4);
        proof {
            let w = ordered(self, s@.subrange(i as int, i + 8));
            if self == ByteOrder::Little {
                assert(w.skip(4) =~= s@.subrange(i + 4, i + 8));
            } else {
                assert(w.skip(4) =~= s@.subrange(i as int, i + 4).reverse());
            }
        }
        if self == ByteOrder::Little {
            first as u64 + second as u64 * 0x1_0000_0000
        } else {
            second as u64 + first as u64 * 0x1_0000_0000
        }
    }
}

/// Whether two byte strings hold the same bytes.
pub fn same_bytes(a: &[u8], b: &[u8]) -> (r: bool)
    ensures
        r == (a@ == b@),
{
    if a.len() != b.len() {
        return false;
    }
    let mut i: usize = 0;
    while i < a.len()
        invariant
            i <= a@.len(),
            a@.len() == b@.len(),
            a@.take(i as int) == b@.take(i as int),
        decreases a@.len() - i,
    {
        if a[i] != b[i] {
            assert(a@[i as int] != b@[i as int]);
            return false;
        }
        i += 1;
        assert(a@.take(i as int) =~= a@.take(i - 1).push(a@[i - 1]));
        assert(b@.take(i as int) =~= b@.take(i - 1).push(b@[i - 1]));
    }
    assert(a@ =~= a@.take(i as int));
    assert(b@ =~= b@.take(i as int));
    true
}

/// Whether two MAC addresses are the same.
pub fn same_mac(a: &[u8; 6], b: &[u8; 6]) -> (r: bool)
    ensures
        r == (a@ == b@),
        r == (*a == *b),
{
    let r: bool = same_bytes(a.as_slice(), b.as_slice());
    proof {
        if a@ == b@ {
            assert(forall|i: int| 0 <= i < 6 ==> a[i] == b[i]);
            assert(*a =~= *b);
        }
    }
    r
}

/// A 16-bit field is the sum of its octets, each weighted by its place; the
/// orders differ in which octet counts most.
pub proof fn octets_of_16_bit_field(s: Seq<u8>, i: int)
    requires
        0 <= i,
        i + 2 <= s.len(),
    ensures
        be16(s, i) == 256 * s[i] + s[i + 1],
        le16(s, i) == s[i] + 256 * s[i + 1],
        value16(ByteOrder::Big, s, i) == 256 * s[i] + s[i + 1],
        value16(ByteOrder::Little, s, i) == s[i] + 256 * s[i + 1],
{
    let t = s.subrange(i, i + 2);
    assert(t[0] == s[i] && t[1] == s[i + 1]);
    assert(t.reverse()[0] == t[1] && t.reverse()[1] == t[0]);
}

/// A 32-bit field is the sum of its octets, each weighted by its place.
pub proof fn octets_of_32_bit_field(s: Seq<u8>, i: int)
    requires
        0 <= i,
        i + 4 <= s.len(),
    ensures
        value32(ByteOrder::Big, s, i) == 0x100_0000 * s[i] + 0x1_0000 * s[i + 1] + 0x100 * s[i + 2]
            + s[i + 3],
        value32(ByteOrder::Little, s, i) == s[i] + 0x100 * s[i + 1] + 0x1_0000 * s[i + 2]
            + 0x100_0000 * s[i + 3],
{
    let t = s.subrange(i, i + 4);
    assert(t[0] == s[i] && t[1] == s[i + 1] && t[2] == s[i + 2] && t[3] == s[i + 3]);
    let r = t.reverse();
    assert(r[0] == t[3] && r[1] == t[2] && r[2] == t[1] && r[3] == t[0]);
}

/// A 64-bit field is its two halves, the more significant one weighted; the
/// orders differ in which half comes first.
pub proof fn halves_of_64_bit_field(s: Seq<u8>, i: int)
    requires
        0 <= i,
        i + 8 <= s.len(),
    ensures
        value64(ByteOrder::Big, s, i) == 0x1_0000_0000 * value32(ByteOrder::Big, s, i) + value32(
            ByteOrder::Big,
            s,
            i + 4,
        ),
        value64(ByteOrder::Little, s, i) == value32(ByteOrder::Little, s, i) + 0x1_0000_0000
            * value32(ByteOrder::Little, s, i + 4),
{
    let t = s.subrange(i, i + 8);
    assert(t.skip(4) =~= s.subrange(i + 4, i + 8));
    let r = t.reverse();
    assert(r.skip(4) =~= s.subrange(i, i + 4).reverse());
    octets_of_32_bit_field(s, i);
    octets_of_32_bit_field(s, i + 4);
    octets_of_32_bit_field(t, 0);
    assert(r[0] == s[i + 7] && r[1] == s[i + 6] && r[2] == s[i + 5] && r[3] == s[i + 4]);
    assert(t[0] == s[i] && t[1] == s[i + 1] && t[2] == s[i + 2] && t[3] == s[i + 3]);
    let u = s.subrange(i + 4, i + 8).reverse();
    assert(u[0] == s[i + 7] && u[1] == s[i + 6] && u[2] == s[i + 5] && u[3] == s[i + 4]);
    assert(le_value32(r) == le_value32(u));
    assert(le_value32(t) == le_value32(s.subrange(i, i + 4)));
}

} // verus!
