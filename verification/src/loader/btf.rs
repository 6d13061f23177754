//! Minimal self-contained BTF for `Budget`.
//!
//! The kernel only allows `bpf_spin_lock` inside maps whose value type is
//! described by BTF, with the lock member typed as `struct bpf_spin_lock`.
//! The blob for the one 32-byte struct is built by hand. Format reference:
//! Documentation/bpf/btf.rst.
use vstd::prelude::*;
use vstd::slice::slice_to_vec;
use vstd::string::*;
use crate::wire::{
    bytes16, bytes32, value16, value16_at, value16_of_bytes16, value32, value32_at,
    value32_of_bytes32, ByteOrder,
};

verus! {

/// BTF magic number, stored little-endian on disk (bytes 9f eb).
pub const BTF_MAGIC: u16 = 0xeb9f;

/// BTF format version; 1 is the only version that exists.
pub const BTF_VERSION: u8 = 1;

/// Size of the BTF header in bytes (magic..str_len inclusive).
pub const BTF_HEADER_LEN: u32 = 24;

/// `info` word of a `BTF_KIND_INT` record (kind 1 in bits 24..).
pub const BTF_INFO_INT: u32 = 0x0100_0000;

/// `info` word of a `BTF_KIND_STRUCT` record (kind 4 in bits 24..) without
/// its member count.
pub const BTF_INFO_STRUCT: u32 = 0x0400_0000;

/// The words as consecutive 32-bit integers.
pub open spec fn words_bytes(order: ByteOrder, words: Seq<u32>) -> Seq<u8>
    decreases words.len(),
{
    if words.len() == 0 {
        seq![]
    } else {
        words_bytes(order, words.drop_last()) + bytes32(order, words.last())
    }
}

/// Consecutive words lie in consecutive bytes.
pub proof fn words_bytes_concat(order: ByteOrder, a: Seq<u32>, b: Seq<u32>)
    ensures
        words_bytes(order, a + b) == words_bytes(order, a) + words_bytes(order, b),
    decreases b.len(),
{
    if b.len() == 0 {
        assert(a + b =~= a);
        assert(words_bytes(order, a) + words_bytes(order, b) =~= words_bytes(order, a));
    } else {
        assert((a + b).drop_last() =~= a + b.drop_last());
        words_bytes_concat(order, a, b.drop_last());
        assert(words_bytes(order, a) + words_bytes(order, b.drop_last()) + bytes32(order, b.last())
            =~= words_bytes(order, a) + words_bytes(order, b));
    }
}

/// Four bytes per word.
pub proof fn words_bytes_len(order: ByteOrder, words: Seq<u32>)
    ensures
        words_bytes(order, words).len() == 4 * words.len(),
    decreases words.len(),
{
    if words.len() > 0 {
        words_bytes_len(order, words.drop_last());
    }
}

/// Each word lies at four times its index.
pub proof fn word_lies_at(order: ByteOrder, words: Seq<u32>, k: int)
    requires
        0 <= k < words.len(),
    ensures
        words_bytes(order, words).len() == 4 * words.len(),
        words_bytes(order, words).subrange(4 * k, 4 * k + 4) == bytes32(order, words[k]),
    decreases words.len(),
{
    words_bytes_len(order, words);
    let rest = words.drop_last();
    words_bytes_len(order, rest);
    if k == rest.len() {
        assert(words_bytes(order, words).subrange(4 * k, 4 * k + 4) =~= bytes32(order, words[k]));
    } else {
        word_lies_at(order, rest, k);
        assert(words_bytes(order, words).subrange(4 * k, 4 * k + 4) =~= words_bytes(
            order,
            rest,
        ).subrange(4 * k, 4 * k + 4));
    }
}

/// A NUL-terminated name.
pub open spec fn terminated(name: Seq<u8>) -> Seq<u8> {
    name.push(0)
}

/// The blob: header, then the type section, then the string section.
pub open spec fn blob(order: ByteOrder, types: Seq<u8>, strings: Seq<u8>) -> Seq<u8> {
    bytes16(ByteOrder::Little, BTF_MAGIC) + seq![BTF_VERSION, 0u8] + bytes32(order, BTF_HEADER_LEN)
        + bytes32(order, 0) + bytes32(order, types.len() as u32) + bytes32(
        order,
        types.len() as u32,
    ) + bytes32(order, strings.len() as u32) + types + strings
}

/// The header tells where the sections lie and how long they are, and they
/// lie there: the types right behind the header, the strings right behind
/// the types.
pub proof fn blob_sections(order: ByteOrder, types: Seq<u8>, strings: Seq<u8>)
    requires
        types.len() <= u32::MAX,
        strings.len() <= u32::MAX,
    ensures
        ({
            let b = blob(order, types, strings);
            let type_off = BTF_HEADER_LEN + value32(order, b, 8);
            let str_off = BTF_HEADER_LEN + value32(order, b, 16);
            &&& b.len() == BTF_HEADER_LEN + types.len() + strings.len()
            &&& value16(ByteOrder::Little, b, 0) == BTF_MAGIC
            &&& b[2] == BTF_VERSION
            &&& b[3] == 0
            &&& value32(order, b, 4) == BTF_HEADER_LEN
            &&& b.subrange(type_off, type_off + value32(order, b, 12)) == types
            &&& b.subrange(str_off, str_off + value32(order, b, 20)) == strings
        }),
{
    let b = blob(order, types, strings);
    let n = types.len() as u32;
    let m = strings.len() as u32;
    value16_of_bytes16(ByteOrder::Little, BTF_MAGIC);
    value32_of_bytes32(order, BTF_HEADER_LEN);
    value32_of_bytes32(order, 0);
    value32_of_bytes32(order, n);
    value32_of_bytes32(order, m);
    assert(b.subrange(0, 2) =~= bytes16(ByteOrder::Little, BTF_MAGIC));
    value16_at(ByteOrder::Little, b, 0, BTF_MAGIC);
    assert(b.subrange(4, 8) =~= bytes32(order, BTF_HEADER_LEN));
    value32_at(order, b, 4, BTF_HEADER_LEN);
    assert(b.subrange(8, 12) =~= bytes32(order, 0));
    value32_at(order, b, 8, 0);
    assert(b.subrange(12, 16) =~= bytes32(order, n));
    value32_at(order, b, 12, n);
    assert(b.subrange(16, 20) =~= bytes32(order, n));
    value32_at(order, b, 16, n);
    assert(b.subrange(20, 24) =~= bytes32(order, m));
    value32_at(order, b, 20, m);
    assert(b.subrange(24, 24 + n) =~= types);
    assert(b.subrange(24 + n, 24 + n + m) =~= strings);
}

/// Builder of a BTF blob for a machine of the given byte order.
pub struct BtfBuilder {
    pub order: ByteOrder,
    pub strings: Vec<u8>,
    pub types: Vec<u8>,
}

impl BtfBuilder {
    /// The sections after adding type words.
    pub open spec fn with_words(self, words: Seq<u32>, after: Self) -> bool {
        &&& after.order == self.order
        &&& after.strings == self.strings
        &&& after.types@ == self.types@ + words_bytes(self.order, words)
    }

    /// A builder without types.
    pub fn new(order: ByteOrder) -> (b: Self)
        ensures
            b.order == order,
            b.strings@ == seq![0u8],
            b.types@ == Seq::<u8>::empty(),
    {
        // String section must start with a NUL so offset 0 means "no name".
        let mut strings: Vec<u8> = Vec::new();
        strings.push(0);
        assert(strings@ =~= seq![0u8]);
        BtfBuilder { order: order, strings: strings, types: Vec::new() }
    }

    /// Add a name to the string section; the result is its offset there.
    pub fn name(&mut self, s: &str) -> (off: u32)
        requires
            old(self).strings@.len() + s.spec_bytes().len() + 1 <= u32::MAX,
        ensures
            off == old(self).strings@.len(),
            final(self).order == old(self).order,
            final(self).types == old(self).types,
            final(self).strings@ == old(self).strings@ + terminated(s.spec_bytes()),
    {
        let off: u32 = self.strings.len() as u32;
        let mut text: Vec<u8> = slice_to_vec(s.as_bytes());
        self.strings.append(&mut text);
        self.strings.push(0);
        assert(self.strings@ =~= old(self).strings@ + terminated(s.spec_bytes()));
        off
    }

    /// Append words to the type section.
    pub fn push(&mut self, words: &[u32])
        ensures
            old(self).with_words(words@, *final(self)),
    {
        let mut i: usize = 0;
        assert(self.types@ + words_bytes(self.order, words@.take(0)) =~= self.types@);
        while i < words.len()
            invariant
                i <= words@.len(),
                old(self).with_words(words@.take(i as int), *self),
            decreases words@.len() - i,
        {
            let b: [u8; 4] = self.order.put32(words[i]);
            let ghost before = self.types@;
            self.types.push(b[0]);
            self.types.push(b[1]);
            self.types.push(b[2]);
            self.types.push(b[3]);
            proof {
                let next = words@.take(i + 1);
                assert(next.drop_last() =~= words@.take(i as int));
                assert(self.types@ =~= before + b@);
                assert(self.types@ =~= old(self).types@ + words_bytes(self.order, next));
            }
            i += 1;
        }
        assert(words@.take(i as int) =~= words@);
    }

    /// `BTF_KIND_INT` type record: name, size in bytes, bit width. The
    /// trailing word packs (encoding << 24 | offset << 16 | bits); plain
    /// unsigned integers leave encoding and offset 0.
    pub fn int_type(&mut self, name: u32, size: u32, bits: u32)
        ensures
            old(self).with_words(seq![name, BTF_INFO_INT, size, bits], *final(self)),
    {
        let words: [u32; 4] = [name, BTF_INFO_INT, size, bits];
        self.push(words.as_slice());
        assert(words@ =~= seq![name, BTF_INFO_INT, size, bits]);
    }

    /// Start a `BTF_KIND_STRUCT` record; member records follow.
    pub fn struct_head(&mut self, name: u32, members: u32, size: u32)
        requires
            members < 0x1_0000,
        ensures
            old(self).with_words(
                seq![name, (BTF_INFO_STRUCT + members) as u32, size],
                *final(self),
            ),
    {
        let words: [u32; 3] = [name, BTF_INFO_STRUCT + members, size];
        self.push(words.as_slice());
        assert(words@ =~= seq![name, (BTF_INFO_STRUCT + members) as u32, size]);
    }

    /// One struct member: name, type id, offset in bits (BTF members are
    /// bit-addressed).
    pub fn member(&mut self, name: u32, type_id: u32, bit_offset: u32)
        ensures
            old(self).with_words(seq![name, type_id, bit_offset], *final(self)),
    {
        let words: [u32; 3] = [name, type_id, bit_offset];
        self.push(words.as_slice());
        assert(words@ =~= seq![name, type_id, bit_offset]);
    }

    /// Serialize: header, then type section, then string section.
    pub fn finish(self) -> (bytes: Vec<u8>)
        requires
            self.types@.len() <= u32::MAX,
            self.strings@.len() <= u32::MAX,
        ensures
            bytes@ == blob(self.order, self.types@, self.strings@),
    {
        let magic: [u8; 2] = ByteOrder::Little.put16(BTF_MAGIC);
        let type_len: u32 = self.types.len() as u32;
        let str_len: u32 = self.strings.len() as u32;
        let mut head = BtfBuilder { order: self.order, strings: Vec::new(), types: Vec::new() };
        // header length, type_off (types start right after the header),
        // type_len, str_off (strings follow types), str_len
        let words: [u32; 5] = [BTF_HEADER_LEN, 0, type_len, type_len, str_len];
        head.push(words.as_slice());
        let ghost w = words@;
        proof {
            let o = self.order;
            assert(w.take(5) =~= w);
            assert(w.drop_last() =~= w.take(4));
            assert(w.take(4).drop_last() =~= w.take(3));
            assert(w.take(3).drop_last() =~= w.take(2));
            assert(w.take(2).drop_last() =~= w.take(1));
            assert(w.take(1).drop_last() =~= w.take(0));
            reveal_with_fuel(words_bytes, 6);
            assert(head.types@ =~= bytes32(o, w[0]) + bytes32(o, w[1]) + bytes32(o, w[2]) + bytes32(
                o,
                w[3],
            ) + bytes32(o, w[4]));
        }
        let mut bytes: Vec<u8> = Vec::new();
        bytes.push(magic[0]);
        bytes.push(magic[1]);
        bytes.push(BTF_VERSION);
        bytes.push(0);  // flags: none
        let mut types: Vec<u8> = self.types;
        let mut strings: Vec<u8> = self.strings;
        bytes.append(&mut head.types);
        bytes.append(&mut types);
        bytes.append(&mut strings);
        assert(bytes@ =~= blob(self.order, self.types@, self.strings@));
        bytes
    }
}

} // verus!
