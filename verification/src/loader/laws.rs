//! What holds of the requests, of their replies, and of loading as a whole.
use vstd::prelude::*;
use vstd::string::*;
use vstd::utf8::*;
use crate::text::{
    decimal, decimal_spells_its_number, numbers_are_read, only_outer_blanks_are_trimmed,
    parsed_usize, pieces_lie_between_separators, split,
};
use crate::wire::{
    bytes32, bytes64, octets_of_16_bit_field, value16_of_bytes16, value32, value32_at,
    value32_of_bytes32, value64, value64_at, value64_of_bytes64, ByteOrder,
};
use super::load::{
    contract_of, map_create_bytes, map_verdict, prog_load_bytes, prog_trace_bytes, LoadError,
    LoadStep, MapDef, ObjectDef,
};
use super::sys::{
    btf_load_bytes, element_bytes, first_nul, get_bytes, has_shape, info_bytes, memlock_wanted,
    pin_bytes, put_at, range_cpus, ranges_cpus, slots_size, slots_sum, zeroed, SysError,
};
use super::btf::{blob, blob_sections, BTF_HEADER_LEN, BTF_MAGIC};
use super::{
    budget_name_offsets, budget_names, budget_words, name_lies_at_offset, strings_of, MAP_CONTRACT,
};

verus! {

/// Bytes that are put somewhere lie there, and nothing moves.
pub proof fn field_is_put(s: Seq<u8>, off: int, b: Seq<u8>)
    requires
        0 <= off,
        off + b.len() <= s.len(),
    ensures
        put_at(s, off, b).len() == s.len(),
        put_at(s, off, b).subrange(off, off + b.len()) == b,
{
    assert(put_at(s, off, b).subrange(off, off + b.len()) =~= b);
}

/// Bytes beside those that are put somewhere stay as they were.
pub proof fn field_is_kept(s: Seq<u8>, off: int, b: Seq<u8>, at: int, n: int)
    requires
        0 <= off,
        off + b.len() <= s.len(),
        0 <= at,
        0 <= n,
        at + n <= s.len(),
        at + n <= off || off + b.len() <= at,
    ensures
        put_at(s, off, b).len() == s.len(),
        put_at(s, off, b).subrange(at, at + n) == s.subrange(at, at + n),
{
    assert(put_at(s, off, b).subrange(at, at + n) =~= s.subrange(at, at + n));
}

proof fn octet_is_kept(s: Seq<u8>, off: int, b: Seq<u8>, i: int)
    requires
        0 <= off,
        off + b.len() <= s.len(),
        0 <= i < s.len(),
        i < off || off + b.len() <= i,
    ensures
        put_at(s, off, b).len() == s.len(),
        put_at(s, off, b)[i] == s[i],
{
}

/// A request for a description says whose, how much room there is, and where.
pub proof fn info_request_reads_back(order: ByteOrder, fd: i32, out: u64)
    ensures
        ({
            let a = info_bytes(order, fd, out);
            &&& a.len() == 144
            &&& value32(order, a, 0) == fd as u32
            &&& value32(order, a, 4) == 256
            &&& value64(order, a, 8) == out
            &&& forall|i: int| 16 <= i < 144 ==> #[trigger] a[i] == 0
        }),
{
    let s0 = zeroed();
    value32_of_bytes32(order, fd as u32);
    let b1 = bytes32(order, fd as u32);
    let s1 = put_at(s0, 0, b1);
    field_is_put(s0, 0, b1);
    value32_of_bytes32(order, 256);
    let b2 = bytes32(order, 256);
    let s2 = put_at(s1, 4, b2);
    field_is_put(s1, 4, b2);
    field_is_kept(s1, 4, b2, 0, 4);
    value64_of_bytes64(order, out);
    let b3 = bytes64(order, out);
    let s3 = put_at(s2, 8, b3);
    field_is_put(s2, 8, b3);
    field_is_kept(s2, 8, b3, 0, 4);
    field_is_kept(s2, 8, b3, 4, 4);
    value32_at(order, s3, 0, fd as u32);
    value32_at(order, s3, 4, 256);
    value64_at(order, s3, 8, out);
    assert forall|i: int| 16 <= i < 144 implies #[trigger] s3[i] == 0 by {
        octet_is_kept(s0, 0, b1, i);
        octet_is_kept(s1, 4, b2, i);
        octet_is_kept(s2, 8, b3, i);
    }
}

/// A request to pin says where and what.
pub proof fn pin_request_reads_back(order: ByteOrder, fd: i32, path: u64)
    ensures
        ({
            let a = pin_bytes(order, fd, path);
            &&& a.len() == 144
            &&& value64(order, a, 0) == path
            &&& value32(order, a, 8) == fd as u32
            &&& forall|i: int| 12 <= i < 144 ==> #[trigger] a[i] == 0
        }),
{
    let s0 = zeroed();
    value64_of_bytes64(order, path);
    let b1 = bytes64(order, path);
    let s1 = put_at(s0, 0, b1);
    field_is_put(s0, 0, b1);
    value32_of_bytes32(order, fd as u32);
    let b2 = bytes32(order, fd as u32);
    let s2 = put_at(s1, 8, b2);
    field_is_put(s1, 8, b2);
    field_is_kept(s1, 8, b2, 0, 8);
    value64_at(order, s2, 0, path);
    value32_at(order, s2, 8, fd as u32);
    assert forall|i: int| 12 <= i < 144 implies #[trigger] s2[i] == 0 by {
        octet_is_kept(s0, 0, b1, i);
        octet_is_kept(s1, 8, b2, i);
    }
}

/// A request to open says what.
pub proof fn get_request_reads_back(order: ByteOrder, path: u64)
    ensures
        ({
            let a = get_bytes(order, path);
            &&& a.len() == 144
            &&& value64(order, a, 0) == path
            &&& forall|i: int| 8 <= i < 144 ==> #[trigger] a[i] == 0
        }),
{
    let s0 = zeroed();
    value64_of_bytes64(order, path);
    let b1 = bytes64(order, path);
    let s1 = put_at(s0, 0, b1);
    field_is_put(s0, 0, b1);
    value64_at(order, s1, 0, path);
    assert forall|i: int| 8 <= i < 144 implies #[trigger] s1[i] == 0 by {
        octet_is_kept(s0, 0, b1, i);
    }
}

/// A lookup or an update says in which map, which entry, where its value is, and how.
pub proof fn element_request_reads_back(order: ByteOrder, fd: i32, key: u64, value: u64, flags: u64)
    ensures
        ({
            let a = element_bytes(order, fd, key, value, flags);
            &&& a.len() == 144
            &&& value32(order, a, 0) == fd as u32
            &&& value64(order, a, 8) == key
            &&& value64(order, a, 16) == value
            &&& value64(order, a, 24) == flags
            &&& forall|i: int| 4 <= i < 8 || 32 <= i < 144 ==> #[trigger] a[i] == 0
        }),
{
    let s0 = zeroed();
    value32_of_bytes32(order, fd as u32);
    let b1 = bytes32(order, fd as u32);
    let s1 = put_at(s0, 0, b1);
    field_is_put(s0, 0, b1);
    value64_of_bytes64(order, key);
    let b2 = bytes64(order, key);
    let s2 = put_at(s1, 8, b2);
    field_is_put(s1, 8, b2);
    field_is_kept(s1, 8, b2, 0, 4);
    value64_of_bytes64(order, value);
    let b3 = bytes64(order, value);
    let s3 = put_at(s2, 16, b3);
    field_is_put(s2, 16, b3);
    field_is_kept(s2, 16, b3, 0, 4);
    field_is_kept(s2, 16, b3, 8, 8);
    value64_of_bytes64(order, flags);
    let b4 = bytes64(order, flags);
    let s4 = put_at(s3, 24, b4);
    field_is_put(s3, 24, b4);
    field_is_kept(s3, 24, b4, 0, 4);
    field_is_kept(s3, 24, b4, 8, 8);
    field_is_kept(s3, 24, b4, 16, 8);
    value32_at(order, s4, 0, fd as u32);
    value64_at(order, s4, 8, key);
    value64_at(order, s4, 16, value);
    value64_at(order, s4, 24, flags);
    assert forall|i: int| 4 <= i < 8 || 32 <= i < 144 implies #[trigger] s4[i] == 0 by {
        octet_is_kept(s0, 0, b1, i);
        octet_is_kept(s1, 8, b2, i);
        octet_is_kept(s2, 16, b3, i);
        octet_is_kept(s3, 24, b4, i);
    }
}

/// A request to load a blob says where it is and how long, and asks for diagnostics.
pub proof fn btf_request_reads_back(order: ByteOrder, blob: u64, log: u64, size: u32)
    ensures
        ({
            let a = btf_load_bytes(order, blob, log, size);
            &&& a.len() == 144
            &&& value64(order, a, 0) == blob
            &&& value64(order, a, 8) == log
            &&& value32(order, a, 16) == size
            &&& value32(order, a, 20) == 65536
            &&& value32(order, a, 24) == 1
            &&& forall|i: int| 28 <= i < 144 ==> #[trigger] a[i] == 0
        }),
{
    let s0 = zeroed();
    value64_of_bytes64(order, blob);
    let b1 = bytes64(order, blob);
    let s1 = put_at(s0, 0, b1);
    field_is_put(s0, 0, b1);
    value64_of_bytes64(order, log);
    let b2 = bytes64(order, log);
    let s2 = put_at(s1, 8, b2);
    field_is_put(s1, 8, b2);
    field_is_kept(s1, 8, b2, 0, 8);
    value32_of_bytes32(order, size);
    let b3 = bytes32(order, size);
    let s3 = put_at(s2, 16, b3);
    field_is_put(s2, 16, b3);
    field_is_kept(s2, 16, b3, 0, 8);
    field_is_kept(s2, 16, b3, 8, 8);
    value32_of_bytes32(order, 65536);
    let b4 = bytes32(order, 65536);
    let s4 = put_at(s3, 20, b4);
    field_is_put(s3, 20, b4);
    field_is_kept(s3, 20, b4, 0, 8);
    field_is_kept(s3, 20, b4, 8, 8);
    field_is_kept(s3, 20, b4, 16, 4);
    value32_of_bytes32(order, 1);
    let b5 = bytes32(order, 1);
    let s5 = put_at(s4, 24, b5);
    field_is_put(s4, 24, b5);
    field_is_kept(s4, 24, b5, 0, 8);
    field_is_kept(s4, 24, b5, 8, 8);
    field_is_kept(s4, 24, b5, 16, 4);
    field_is_kept(s4, 24, b5, 20, 4);
    value64_at(order, s5, 0, blob);
    value64_at(order, s5, 8, log);
    value32_at(order, s5, 16, size);
    value32_at(order, s5, 20, 65536);
    value32_at(order, s5, 24, 1);
    assert forall|i: int| 28 <= i < 144 implies #[trigger] s5[i] == 0 by {
        octet_is_kept(s0, 0, b1, i);
        octet_is_kept(s1, 8, b2, i);
        octet_is_kept(s2, 16, b3, i);
        octet_is_kept(s3, 20, b4, i);
        octet_is_kept(s4, 24, b5, i);
    }
}

/// The names of the contract as bytes, and how many.
proof fn name_bytes(name: Seq<char>)
    requires
        contract_of(name) is Some,
    ensures
        name == "CONFIG"@ || name == "COUNTERS"@ || name == "BUDGET"@,
        0 < encode_utf8(name).len() < 16,
        encode_utf8(name).len() == name.len(),
        forall|i: int|
            0 <= i < name.len() ==> #[trigger] encode_utf8(name)[i] as int == name[i] as int,
{
    reveal_strlit("CONFIG");
    reveal_strlit("COUNTERS");
    reveal_strlit("BUDGET");
    assert(name == "CONFIG"@ || name == "COUNTERS"@ || name == "BUDGET"@);
    is_ascii_chars_encode_utf8(name);
}

proof fn plain_create_request(order: ByteOrder, m: MapDef, btf: i32)
    requires
        contract_of(m.name@) is Some,
        m.name@ != "BUDGET"@,
    ensures
        ({
            let a = map_create_bytes(order, m, btf);
            let n = encode_utf8(m.name@).len() as int;
            &&& a.len() == 144
            &&& value32(order, a, 0) == m.map_type
            &&& value32(order, a, 4) == m.key_size
            &&& value32(order, a, 8) == m.value_size
            &&& value32(order, a, 12) == m.max_entries
            &&& value32(order, a, 16) == m.map_flags
            &&& a.subrange(28, 28 + n) == encode_utf8(m.name@)
            &&& forall|i: int| 20 <= i < 28 || 28 + n <= i < 144 ==> #[trigger] a[i] == 0
        }),
{
    name_bytes(m.name@);
    let s0 = zeroed();
    value32_of_bytes32(order, m.map_type);
    let b1 = bytes32(order, m.map_type);
    let s1 = put_at(s0, 0, b1);
    field_is_put(s0, 0, b1);
    value32_of_bytes32(order, m.key_size);
    let b2 = bytes32(order, m.key_size);
    let s2 = put_at(s1, 4, b2);
    field_is_put(s1, 4, b2);
    field_is_kept(s1, 4, b2, 0, 4);
    value32_of_bytes32(order, m.value_size);
    let b3 = bytes32(order, m.value_size);
    let s3 = put_at(s2, 8, b3);
    field_is_put(s2, 8, b3);
    field_is_kept(s2, 8, b3, 0, 4);
    field_is_kept(s2, 8, b3, 4, 4);
    value32_of_bytes32(order, m.max_entries);
    let b4 = bytes32(order, m.max_entries);
    let s4 = put_at(s3, 12, b4);
    field_is_put(s3, 12, b4);
    field_is_kept(s3, 12, b4, 0, 4);
    field_is_kept(s3, 12, b4, 4, 4);
    field_is_kept(s3, 12, b4, 8, 4);
    value32_of_bytes32(order, m.map_flags);
    let b5 = bytes32(order, m.map_flags);
    let s5 = put_at(s4, 16, b5);
    field_is_put(s4, 16, b5);
    field_is_kept(s4, 16, b5, 0, 4);
    field_is_kept(s4, 16, b5, 4, 4);
    field_is_kept(s4, 16, b5, 8, 4);
    field_is_kept(s4, 16, b5, 12, 4);
    let b6 = encode_utf8(m.name@);
    let s6 = put_at(s5, 28, b6);
    field_is_put(s5, 28, b6);
    field_is_kept(s5, 28, b6, 0, 4);
    field_is_kept(s5, 28, b6, 4, 4);
    field_is_kept(s5, 28, b6, 8, 4);
    field_is_kept(s5, 28, b6, 12, 4);
    field_is_kept(s5, 28, b6, 16, 4);
    value32_at(order, s6, 0, m.map_type);
    value32_at(order, s6, 4, m.key_size);
    value32_at(order, s6, 8, m.value_size);
    value32_at(order, s6, 12, m.max_entries);
    value32_at(order, s6, 16, m.map_flags);
    let n = encode_utf8(m.name@).len();
    assert forall|i: int| 20 <= i < 28 || 28 + n <= i < 144 implies #[trigger] s6[i] == 0 by {
        octet_is_kept(s0, 0, b1, i);
        octet_is_kept(s1, 4, b2, i);
        octet_is_kept(s2, 8, b3, i);
        octet_is_kept(s3, 12, b4, i);
        octet_is_kept(s4, 16, b5, i);
        octet_is_kept(s5, 28, b6, i);
    }
}

#[verifier::rlimit(40)]
proof fn locked_create_request(order: ByteOrder, m: MapDef, btf: i32)
    requires
        m.name@ == "BUDGET"@,
    ensures
        ({
            let a = map_create_bytes(order, m, btf);
            let n = encode_utf8(m.name@).len() as int;
            &&& a.len() == 144
            &&& value32(order, a, 0) == m.map_type
            &&& value32(order, a, 4) == m.key_size
            &&& value32(order, a, 8) == m.value_size
            &&& value32(order, a, 12) == m.max_entries
            &&& value32(order, a, 16) == m.map_flags
            &&& a.subrange(28, 28 + n) == encode_utf8(m.name@)
            &&& value32(order, a, 48) == btf as u32
            &&& value32(order, a, 52) == 1
            &&& value32(order, a, 56) == 4
            &&& forall|i: int|
                20 <= i < 28 || 28 + n <= i < 48 || 60 <= i < 144 ==> #[trigger] a[i] == 0
        }),
{
    assert(contract_of(m.name@) is Some);
    name_bytes(m.name@);
    let s0 = zeroed();
    value32_of_bytes32(order, m.map_type);
    let b1 = bytes32(order, m.map_type);
    let s1 = put_at(s0, 0, b1);
    field_is_put(s0, 0, b1);
    value32_of_bytes32(order, m.key_size);
    let b2 = bytes32(order, m.key_size);
    let s2 = put_at(s1, 4, b2);
    field_is_put(s1, 4, b2);
    field_is_kept(s1, 4, b2, 0, 4);
    value32_of_bytes32(order, m.value_size);
    let b3 = bytes32(order, m.value_size);
    let s3 = put_at(s2, 8, b3);
    field_is_put(s2, 8, b3);
    field_is_kept(s2, 8, b3, 0, 4);
    field_is_kept(s2, 8, b3, 4, 4);
    value32_of_bytes32(order, m.max_entries);
    let b4 = bytes32(order, m.max_entries);
    let s4 = put_at(s3, 12, b4);
    field_is_put(s3, 12, b4);
    field_is_kept(s3, 12, b4, 0, 4);
    field_is_kept(s3, 12, b4, 4, 4);
    field_is_kept(s3, 12, b4, 8, 4);
    value32_of_bytes32(order, m.map_flags);
    let b5 = bytes32(order, m.map_flags);
    let s5 = put_at(s4, 16, b5);
    field_is_put(s4, 16, b5);
    field_is_kept(s4, 16, b5, 0, 4);
    field_is_kept(s4, 16, b5, 4, 4);
    field_is_kept(s4, 16, b5, 8, 4);
    field_is_kept(s4, 16, b5, 12, 4);
    let b6 = encode_utf8(m.name@);
    let s6 = put_at(s5, 28, b6);
    field_is_put(s5, 28, b6);
    field_is_kept(s5, 28, b6, 0, 4);
    field_is_kept(s5, 28, b6, 4, 4);
    field_is_kept(s5, 28, b6, 8, 4);
    field_is_kept(s5, 28, b6, 12, 4);
    field_is_kept(s5, 28, b6, 16, 4);
    value32_of_bytes32(order, btf as u32);
    let b7 = bytes32(order, btf as u32);
    let s7 = put_at(s6, 48, b7);
    field_is_put(s6, 48, b7);
    field_is_kept(s6, 48, b7, 0, 4);
    field_is_kept(s6, 48, b7, 4, 4);
    field_is_kept(s6, 48, b7, 8, 4);
    field_is_kept(s6, 48, b7, 12, 4);
    field_is_kept(s6, 48, b7, 16, 4);
    field_is_kept(s6, 48, b7, 28, encode_utf8(m.name@).len() as int);
    value32_of_bytes32(order, 1);
    let b8 = bytes32(order, 1);
    let s8 = put_at(s7, 52, b8);
    field_is_put(s7, 52, b8);
    field_is_kept(s7, 52, b8, 0, 4);
    field_is_kept(s7, 52, b8, 4, 4);
    field_is_kept(s7, 52, b8, 8, 4);
    field_is_kept(s7, 52, b8, 12, 4);
    field_is_kept(s7, 52, b8, 16, 4);
    field_is_kept(s7, 52, b8, 28, encode_utf8(m.name@).len() as int);
    field_is_kept(s7, 52, b8, 48, 4);
    value32_of_bytes32(order, 4);
    let b9 = bytes32(order, 4);
    let s9 = put_at(s8, 56, b9);
    field_is_put(s8, 56, b9);
    field_is_kept(s8, 56, b9, 0, 4);
    field_is_kept(s8, 56, b9, 4, 4);
    field_is_kept(s8, 56, b9, 8, 4);
    field_is_kept(s8, 56, b9, 12, 4);
    field_is_kept(s8, 56, b9, 16, 4);
    field_is_kept(s8, 56, b9, 28, encode_utf8(m.name@).len() as int);
    field_is_kept(s8, 56, b9, 48, 4);
    field_is_kept(s8, 56, b9, 52, 4);
    value32_at(order, s9, 0, m.map_type);
    value32_at(order, s9, 4, m.key_size);
    value32_at(order, s9, 8, m.value_size);
    value32_at(order, s9, 12, m.max_entries);
    value32_at(order, s9, 16, m.map_flags);
    value32_at(order, s9, 48, btf as u32);
    value32_at(order, s9, 52, 1);
    value32_at(order, s9, 56, 4);
    let n = encode_utf8(m.name@).len();
    assert forall|i: int|
        20 <= i < 28 || 28 + n <= i < 48 || 60 <= i < 144 implies #[trigger] s9[i] == 0 by {
        octet_is_kept(s0, 0, b1, i);
        octet_is_kept(s1, 4, b2, i);
        octet_is_kept(s2, 8, b3, i);
        octet_is_kept(s3, 12, b4, i);
        octet_is_kept(s4, 16, b5, i);
        octet_is_kept(s5, 28, b6, i);
        octet_is_kept(s6, 48, b7, i);
        octet_is_kept(s7, 52, b8, i);
        octet_is_kept(s8, 56, b9, i);
    }
}

/// The request that creates a map says, field by field, what the map is
/// declared as: its type, the sizes of its keys and values, how many entries it
/// has, its flags and its name. For the map with the lock it says too which
/// blob describes it and under which types; for the others it says nothing
/// more.
pub proof fn create_request_reads_back(order: ByteOrder, m: MapDef, index: usize, btf: i32)
    requires
        map_verdict(m, index) is Ok,
    ensures
        ({
            let a = map_create_bytes(order, m, btf);
            &&& a.len() == 144
            &&& value32(order, a, 0) == m.map_type
            &&& value32(order, a, 4) == m.key_size
            &&& value32(order, a, 8) == m.value_size
            &&& value32(order, a, 12) == m.max_entries
            &&& value32(order, a, 16) == m.map_flags
            &&& forall|i: int|
                0 <= i < m.name@.len() ==> #[trigger] a[28 + i] as int == m.name@[i] as int
            &&& forall|i: int|
                20 <= i < 28 || 28 + m.name@.len() <= i < 48 || 60 <= i < 144
                    ==> #[trigger] a[i] == 0
            &&& m.name@ == "BUDGET"@ ==> {
                &&& value32(order, a, 48) == btf as u32
                &&& value32(order, a, 52) == 1
                &&& value32(order, a, 56) == 4
            }
            &&& m.name@ != "BUDGET"@ ==> forall|i: int| 48 <= i < 60 ==> #[trigger] a[i] == 0
        }),
{
    name_bytes(m.name@);
    if m.name@ == "BUDGET"@ {
        locked_create_request(order, m, btf);
    } else {
        plain_create_request(order, m, btf);
    }
    let a = map_create_bytes(order, m, btf);
    let n = encode_utf8(m.name@);
    assert forall|i: int| 0 <= i < m.name@.len() implies #[trigger] a[28 + i] as int
        == m.name@[i] as int by {
        assert(a.subrange(28, (28 + n.len()) as int)[i] == a[28 + i]);
        assert(n[i] as int == m.name@[i] as int);
    }
}

/// What the requests for the maps of the contract say: an array of one
/// configuration, a per-CPU array with a slot for each of the counters, and an
/// array of one budget.
pub proof fn contract_requests(order: ByteOrder, m: MapDef, index: usize, btf: i32)
    requires
        map_verdict(m, index) is Ok,
    ensures
        ({
            let a = map_create_bytes(order, m, btf);
            &&& value32(order, a, 4) == 4
            &&& m.name@ == "CONFIG"@ ==> {
                &&& value32(order, a, 0) == 2
                &&& value32(order, a, 8) == 232
                &&& value32(order, a, 12) == 1
            }
            &&& m.name@ == "COUNTERS"@ ==> {
                &&& value32(order, a, 0) == 6
                &&& value32(order, a, 8) == 8
                &&& value32(order, a, 12) == 23
            }
            &&& m.name@ == "BUDGET"@ ==> {
                &&& value32(order, a, 0) == 2
                &&& value32(order, a, 8) == 32
                &&& value32(order, a, 12) == 1
            }
        }),
{
    create_request_reads_back(order, m, index, btf);
    contract_is_fixed(m, index);
}

/// The contract accepts a map under one of three names, each with a layout of
/// its own, and with keys of four bytes and no contents. A map under another
/// name is unexpected, and so is another layout.
pub proof fn contract_is_fixed(m: MapDef, index: usize)
    ensures
        ({
            let v = map_verdict(m, index);
            let plain = m.key_size == 4 && m.data_len == 0;
            &&& m.name@ == "CONFIG"@ ==> v == if plain && m.map_type == 2 && m.value_size == 232
                && m.max_entries == 1 {
                Ok::<(), LoadError>(())
            } else {
                Err(LoadError::UnexpectedLayout(index))
            }
            &&& m.name@ == "COUNTERS"@ ==> v == if plain && m.map_type == 6 && m.value_size == 8
                && m.max_entries == 23 {
                Ok::<(), LoadError>(())
            } else {
                Err(LoadError::UnexpectedLayout(index))
            }
            &&& m.name@ == "BUDGET"@ ==> v == if plain && m.map_type == 2 && m.value_size == 32
                && m.max_entries == 1 {
                Ok::<(), LoadError>(())
            } else {
                Err(LoadError::UnexpectedLayout(index))
            }
            &&& m.name@ != "CONFIG"@ && m.name@ != "COUNTERS"@ && m.name@ != "BUDGET"@ ==> v
                == Err::<(), LoadError>(LoadError::UnexpectedMap(index))
        }),
{
    reveal_strlit("CONFIG");
    reveal_strlit("COUNTERS");
    reveal_strlit("BUDGET");
    assert("CONFIG"@[1] == 'O' && "BUDGET"@[1] == 'U');
    assert("CONFIG"@.len() == 6 && "COUNTERS"@.len() == 8 && "BUDGET"@.len() == 6);
}

/// The request that loads the program says what kind it is, how long and where
/// its instructions and its license are, and its name, and asks for no
/// diagnostics.
#[verifier::rlimit(40)]
pub proof fn program_request_reads_back(
    order: ByteOrder,
    count: u32,
    instructions: u64,
    license: u64,
)
    ensures
        ({
            let a = prog_load_bytes(order, count, instructions, license);
            &&& a.len() == 144
            &&& value32(order, a, 0) == 4
            &&& value32(order, a, 4) == count
            &&& value64(order, a, 8) == instructions
            &&& value64(order, a, 16) == license
            &&& a.subrange(48, 60) == encode_utf8("rrb_redirect"@)
            &&& forall|i: int| 24 <= i < 48 || 60 <= i < 144 ==> #[trigger] a[i] == 0
        }),
{
    reveal_strlit("rrb_redirect");
    is_ascii_chars_encode_utf8("rrb_redirect"@);
    assert("rrb_redirect"@.len() == 12);
    let s0 = zeroed();
    value32_of_bytes32(order, 4);
    let b1 = bytes32(order, 4);
    let s1 = put_at(s0, 0, b1);
    field_is_put(s0, 0, b1);
    value32_of_bytes32(order, count);
    let b2 = bytes32(order, count);
    let s2 = put_at(s1, 4, b2);
    field_is_put(s1, 4, b2);
    field_is_kept(s1, 4, b2, 0, 4);
    value64_of_bytes64(order, instructions);
    let b3 = bytes64(order, instructions);
    let s3 = put_at(s2, 8, b3);
    field_is_put(s2, 8, b3);
    field_is_kept(s2, 8, b3, 0, 4);
    field_is_kept(s2, 8, b3, 4, 4);
    value64_of_bytes64(order, license);
    let b4 = bytes64(order, license);
    let s4 = put_at(s3, 16, b4);
    field_is_put(s3, 16, b4);
    field_is_kept(s3, 16, b4, 0, 4);
    field_is_kept(s3, 16, b4, 4, 4);
    field_is_kept(s3, 16, b4, 8, 8);
    let b5 = encode_utf8("rrb_redirect"@);
    let s5 = put_at(s4, 48, b5);
    field_is_put(s4, 48, b5);
    field_is_kept(s4, 48, b5, 0, 4);
    field_is_kept(s4, 48, b5, 4, 4);
    field_is_kept(s4, 48, b5, 8, 8);
    field_is_kept(s4, 48, b5, 16, 8);
    value32_at(order, s5, 0, 4);
    value32_at(order, s5, 4, count);
    value64_at(order, s5, 8, instructions);
    value64_at(order, s5, 16, license);
    assert forall|i: int| 24 <= i < 48 || 60 <= i < 144 implies #[trigger] s5[i] == 0 by {
        octet_is_kept(s0, 0, b1, i);
        octet_is_kept(s1, 4, b2, i);
        octet_is_kept(s2, 8, b3, i);
        octet_is_kept(s3, 16, b4, i);
        octet_is_kept(s4, 48, b5, i);
    }
}

/// The request with diagnostics says the same, and where they go and how much
/// room they have.
pub proof fn traced_request_reads_back(
    order: ByteOrder,
    count: u32,
    instructions: u64,
    license: u64,
    log: u64,
)
    ensures
        ({
            let a = prog_trace_bytes(order, count, instructions, license, log);
            &&& a.len() == 144
            &&& value32(order, a, 0) == 4
            &&& value32(order, a, 4) == count
            &&& value64(order, a, 8) == instructions
            &&& value64(order, a, 16) == license
            &&& value32(order, a, 24) == 1
            &&& value32(order, a, 28) == 16777216
            &&& value64(order, a, 32) == log
            &&& a.subrange(48, 60) == encode_utf8("rrb_redirect"@)
            &&& forall|i: int| 40 <= i < 48 || 60 <= i < 144 ==> #[trigger] a[i] == 0
        }),
{
    program_request_reads_back(order, count, instructions, license);
    let s0 = prog_load_bytes(order, count, instructions, license);
    value32_of_bytes32(order, 1);
    let b1 = bytes32(order, 1);
    let s1 = put_at(s0, 24, b1);
    field_is_put(s0, 24, b1);
    value32_of_bytes32(order, 16777216);
    let b2 = bytes32(order, 16777216);
    let s2 = put_at(s1, 28, b2);
    field_is_put(s1, 28, b2);
    field_is_kept(s1, 28, b2, 24, 4);
    value64_of_bytes64(order, log);
    let b3 = bytes64(order, log);
    let s3 = put_at(s2, 32, b3);
    field_is_put(s2, 32, b3);
    field_is_kept(s2, 32, b3, 24, 4);
    field_is_kept(s2, 32, b3, 28, 4);
    value32_at(order, s3, 24, 1);
    value32_at(order, s3, 28, 16777216);
    value64_at(order, s3, 32, log);
    field_is_kept(s0, 24, b1, 0, 4);
    field_is_kept(s1, 28, b2, 0, 4);
    field_is_kept(s2, 32, b3, 0, 4);
    field_is_kept(s0, 24, b1, 4, 4);
    field_is_kept(s1, 28, b2, 4, 4);
    field_is_kept(s2, 32, b3, 4, 4);
    field_is_kept(s0, 24, b1, 8, 8);
    field_is_kept(s1, 28, b2, 8, 8);
    field_is_kept(s2, 32, b3, 8, 8);
    field_is_kept(s0, 24, b1, 16, 8);
    field_is_kept(s1, 28, b2, 16, 8);
    field_is_kept(s2, 32, b3, 16, 8);
    field_is_kept(s0, 24, b1, 48, 12);
    field_is_kept(s1, 28, b2, 48, 12);
    field_is_kept(s2, 32, b3, 48, 12);
    assert forall|i: int| 40 <= i < 48 || 60 <= i < 144 implies #[trigger] s3[i] == 0 by {
        octet_is_kept(s0, 24, b1, i);
        octet_is_kept(s1, 28, b2, i);
        octet_is_kept(s2, 32, b3, i);
    }
}

/// A map has a shape where its description says so, field by field, with keys
/// of four bytes.
pub proof fn shapes_are_compared(
    order: ByteOrder,
    info: Seq<u8>,
    kind: u32,
    value: u32,
    entries: u32,
)
    ensures
        has_shape(order, info, kind, value, entries) <==> value32(order, info, 0) == kind
            && value32(order, info, 8) == 4 && value32(order, info, 12) == value && value32(
            order,
            info,
            16,
        ) == entries,
{
}

/// Sixteen mebibytes of locked memory are asked for where there is less, and
/// the maximum is never lowered.
pub proof fn memlock_is_only_raised(current: u64, maximum: u64)
    ensures
        memlock_wanted(current, maximum) is None <==> current >= 16 * 1024 * 1024,
        memlock_wanted(current, maximum) matches Some(w) ==> w.0 == 16 * 1024 * 1024 && w.1 >= w.0
            && w.1 >= maximum && (w.1 == w.0 || w.1 == maximum),
{
}

/// A text ends before its first NUL, or where the buffer ends.
pub proof fn text_ends_at_the_first_nul(s: Seq<u8>)
    ensures
        first_nul(s) <= s.len(),
        first_nul(s) < s.len() ==> s[first_nul(s) as int] == 0,
        forall|i: int| 0 <= i < first_nul(s) ==> #[trigger] s[i] != 0,
    decreases s.len(),
{
    if s.len() > 0 && s[0] != 0 {
        let rest = s.skip(1);
        text_ends_at_the_first_nul(rest);
        if first_nul(rest) < rest.len() {
            assert(rest[first_nul(rest) as int] == s[first_nul(rest) as int + 1]);
        }
        assert forall|i: int| 0 <= i < first_nul(s) implies #[trigger] s[i] != 0 by {
            if i > 0 {
                assert(rest[i - 1] == s[i]);
            }
        }
    }
}

/// Slots do not depend on what stands behind them.
proof fn slots_sum_of_prefix(order: ByteOrder, s: Seq<u8>, more: Seq<u8>, n: nat)
    requires
        8 * n <= s.len(),
    ensures
        slots_sum(order, s + more, n) == slots_sum(order, s, n),
    decreases n,
{
    if n > 0 {
        slots_sum_of_prefix(order, s, more, (n - 1) as nat);
        let at = 8 * (n - 1);
        assert((s + more).subrange(at, at + 8) =~= s.subrange(at, at + 8));
    }
}

/// One more slot adds what it holds to the sum; no slots add up to nothing.
pub proof fn every_slot_counts(order: ByteOrder, s: Seq<u8>, v: u64)
    requires
        s.len() % 8 == 0,
    ensures
        slots_sum(order, s, 0) == 0,
        slots_sum(order, s + bytes64(order, v), s.len() / 8 + 1) == slots_sum(
            order,
            s,
            s.len() / 8,
        ) + v,
{
    let n = s.len() / 8;
    let more = bytes64(order, v);
    value64_of_bytes64(order, v);
    slots_sum_of_prefix(order, s, more, n);
    assert((s + more).subrange(8 * n as int, 8 * n as int + 8) =~= more);
    value64_at(order, s + more, 8 * n as int, v);
}

/// No digit is a separator.
proof fn digits_hold_no(n: nat, c: char)
    requires
        c == '-' || c == ',',
    ensures
        !decimal(n).contains(c),
{
    decimal_spells_its_number(n);
    let s = decimal(n);
    assert forall|i: int| 0 <= i < s.len() implies s[i] != c by {
        assert('0' <= s[i] <= '9');
    }
}

/// One CPU is one; a range holds its first, its last, and all between. A
/// range that ends before it starts, or beyond what is supported, is none.
pub proof fn ranges_hold_their_ends(a: usize, b: usize)
    ensures
        a < 65536 ==> range_cpus(decimal(a as nat)) == Ok::<nat, SysError>(1),
        a >= 65536 ==> range_cpus(decimal(a as nat)) == Err::<nat, SysError>(SysError::CpuRange),
        a <= b < 65536 ==> range_cpus(decimal(a as nat) + seq!['-'] + decimal(b as nat)) == Ok::<
            nat,
            SysError,
        >((b - a + 1) as nat),
        a > b || b >= 65536 ==> range_cpus(decimal(a as nat) + seq!['-'] + decimal(b as nat))
            == Err::<nat, SysError>(SysError::CpuRange),
{
    let x = decimal(a as nat);
    let y = decimal(b as nat);
    digits_hold_no(a as nat, '-');
    digits_hold_no(b as nat, '-');
    decimal_spells_its_number(a as nat);
    decimal_spells_its_number(b as nat);
    numbers_are_read(x);
    numbers_are_read(y);
    pieces_lie_between_separators(x, '-', y);
    pieces_lie_between_separators(y, '-', y);
    assert(split(x + seq!['-'] + y, '-') =~= seq![x, y]);
}

/// Where a range starts or ends with no number there is no range.
pub proof fn ranges_need_numbers(a: Seq<char>, b: Seq<char>)
    requires
        !a.contains('-'),
        !b.contains('-'),
    ensures
        parsed_usize(a) is None ==> range_cpus(a) == Err::<nat, SysError>(SysError::CpuNumber)
            && range_cpus(a + seq!['-'] + b) == Err::<nat, SysError>(SysError::CpuNumber),
        parsed_usize(b) is None ==> range_cpus(a + seq!['-'] + b) == Err::<nat, SysError>(
            SysError::CpuNumber,
        ),
{
    pieces_lie_between_separators(a, '-', b);
    pieces_lie_between_separators(b, '-', b);
    assert(split(a + seq!['-'] + b, '-') =~= seq![a, b]);
}

/// Ranges add up, and the first that is none decides.
pub proof fn ranges_add_up(ranges: Seq<Seq<char>>, r: Seq<char>)
    ensures
        ranges_cpus(seq![]) == Ok::<nat, SysError>(0),
        ranges_cpus(ranges) is Err ==> ranges_cpus(ranges.push(r)) == ranges_cpus(ranges),
        ranges_cpus(ranges) is Ok && range_cpus(r) is Err ==> ranges_cpus(ranges.push(r))
            is Err && ranges_cpus(ranges.push(r))->Err_0 == range_cpus(r)->Err_0,
        ranges_cpus(ranges) is Ok && range_cpus(r) is Ok ==> ranges_cpus(ranges.push(r)) == Ok::<
            nat,
            SysError,
        >(ranges_cpus(ranges)->Ok_0 + range_cpus(r)->Ok_0),
{
    assert(ranges.push(r).drop_last() =~= ranges);
}

/// A counter's value has eight bytes for each CPU of a machine whose CPUs are
/// one range, with the line's end behind it.
pub proof fn slots_for_one_range(a: usize, b: usize)
    requires
        a <= b < 65536,
    ensures
        slots_size(decimal(a as nat) + seq!['-'] + decimal(b as nat) + seq!['\n']) == Ok::<
            usize,
            SysError,
        >((8 * (b - a + 1)) as usize),
{
    let x = decimal(a as nat);
    let y = decimal(b as nat);
    let r = x + seq!['-'] + y;
    let t = r + seq!['\n'];
    decimal_spells_its_number(a as nat);
    decimal_spells_its_number(b as nat);
    assert(r[0] == x[0]);
    assert(r.last() == y[y.len() - 1]);
    assert(t =~= r.push('\n'));
    only_outer_blanks_are_trimmed(r, '\n');
    digits_hold_no(a as nat, ',');
    digits_hold_no(b as nat, ',');
    assert(!r.contains(',')) by {
        assert forall|i: int| 0 <= i < r.len() implies r[i] != ',' by {
            if i < x.len() {
                assert(r[i] == x[i] && x.contains(x[i]));
            } else if i > x.len() {
                assert(r[i] == y[i - x.len() - 1] && y.contains(y[i - x.len() - 1]));
            }
        }
    }
    pieces_lie_between_separators(r, ',', r);
    ranges_hold_their_ends(a, b);
    ranges_add_up(seq![], r);
    assert(Seq::<Seq<char>>::empty().push(r) =~= seq![r]);
}

/// Two comma-separated ranges hold as many CPUs as both together.
pub proof fn ranges_are_separated_by_commas(a: Seq<char>, b: Seq<char>)
    requires
        !a.contains(','),
        !b.contains(','),
        range_cpus(a) is Ok,
        range_cpus(b) is Ok,
    ensures
        ranges_cpus(split(a + seq![','] + b, ',')) == Ok::<nat, SysError>(
            range_cpus(a)->Ok_0 + range_cpus(b)->Ok_0,
        ),
{
    pieces_lie_between_separators(a, ',', b);
    pieces_lie_between_separators(b, ',', b);
    assert(split(a + seq![','] + b, ',') =~= seq![a].push(b));
    ranges_add_up(seq![], a);
    assert(Seq::<Seq<char>>::empty().push(a) =~= seq![a]);
    ranges_add_up(seq![a], b);
}

/// The records of the blob, word by word: two integers of 32 and 64 bits; a
/// lock with one integer in it; and a budget of 32 bytes with five members,
/// the lock first, each with its name, its type and its place in bits.
pub proof fn budget_is_described_word_by_word()
    ensures
        budget_words() == seq![
            1u32, 0x0100_0000u32, 4u32, 32u32,
            5u32, 0x0100_0000u32, 8u32, 64u32,
            9u32, 0x0400_0001u32, 4u32,
            23u32, 1u32, 0u32,
            27u32, 0x0400_0005u32, 32u32,
            34u32, 3u32, 0u32,
            39u32, 1u32, 32u32,
            48u32, 2u32, 64u32,
            55u32, 2u32, 128u32,
            60u32, 2u32, 192u32,
        ],
{
    budget_name_offsets();
    let w = budget_words();
    assert(w.len() == 32);
    assert(w =~= seq![
        1u32, 0x0100_0000u32, 4u32, 32u32,
        5u32, 0x0100_0000u32, 8u32, 64u32,
        9u32, 0x0400_0001u32, 4u32,
        23u32, 1u32, 0u32,
        27u32, 0x0400_0005u32, 32u32,
        34u32, 3u32, 0u32,
        39u32, 1u32, 32u32,
        48u32, 2u32, 64u32,
        55u32, 2u32, 128u32,
        60u32, 2u32, 192u32,
    ]);
}

/// Maps are taken in order. One that the contract does not know, that is laid
/// out otherwise, or whose name came before is refused under its index; behind
/// the last, three must have come.
pub proof fn maps_are_taken_in_order(o: ObjectDef, i: usize)
    requires
        i <= o.maps@.len() < usize::MAX,
    ensures
        ({
            let due = if i == 0 {
                o.following(LoadStep::LoadBtf, true)
            } else {
                o.following(LoadStep::CreateMap((i - 1) as usize), true)
            };
            let seen = exists|k: int|
                0 <= k < i && (#[trigger] o.maps@[k]).name@ == o.maps@[i as int].name@;
            &&& i == o.maps@.len() && i == 3 ==> due == LoadStep::Relocate
            &&& i == o.maps@.len() && i != 3 ==> due == LoadStep::Refused(LoadError::MissingMaps)
            &&& i < o.maps@.len() ==> match map_verdict(o.maps@[i as int], i) {
                Err(e) => due == LoadStep::Refused(e),
                Ok(_) => if seen {
                    due == LoadStep::Refused(LoadError::RepeatedMap(i))
                } else {
                    due == LoadStep::CreateMap(i)
                },
            }
        }),
{
    assert(MAP_CONTRACT@.len() == 3);
}

/// Behind the relocation the programs are taken in order. One under another
/// name is refused under its index; behind the last, one must have come.
pub proof fn programs_are_taken_in_order(o: ObjectDef, i: usize)
    requires
        i <= o.programs@.len() < usize::MAX,
    ensures
        ({
            let due = if i == 0 {
                o.following(LoadStep::Relocate, true)
            } else {
                o.following(LoadStep::IdentifyProgram((i - 1) as usize), true)
            };
            &&& i == o.programs@.len() && i == 1 ==> due == LoadStep::Loaded
            &&& i == o.programs@.len() && i != 1 ==> due == LoadStep::Refused(
                LoadError::MissingProgram,
            )
            &&& i < o.programs@.len() && o.programs@[i as int]@ == "rrb_redirect"@ ==> due
                == LoadStep::LoadProgram(i)
            &&& i < o.programs@.len() && o.programs@[i as int]@ != "rrb_redirect"@ ==> due
                == LoadStep::Refused(LoadError::UnexpectedProgram(i))
        }),
{
}

/// What the kernel refuses ends the loading under its own error; only a
/// refused program is tried once more, with diagnostics. A program that loads
/// at either try is looked at, and what has ended does not go on.
pub proof fn failures_end_the_loading(o: ObjectDef, i: usize, e: LoadError, ok: bool)
    ensures
        o.following(LoadStep::LoadBtf, false) == LoadStep::Refused(LoadError::Btf),
        o.following(LoadStep::CreateMap(i), false) == LoadStep::Refused(LoadError::MapRefused(i)),
        o.following(LoadStep::Relocate, false) == LoadStep::Refused(LoadError::Relocation),
        o.following(LoadStep::LoadProgram(i), false) == LoadStep::TraceProgram(i),
        o.following(LoadStep::LoadProgram(i), true) == LoadStep::IdentifyProgram(i),
        o.following(LoadStep::TraceProgram(i), true) == LoadStep::IdentifyProgram(i),
        o.following(LoadStep::TraceProgram(i), false) == LoadStep::Refused(
            LoadError::ProgramRefused(i),
        ),
        o.following(LoadStep::IdentifyProgram(i), false) == LoadStep::Refused(
            LoadError::ProgramKind(i),
        ),
        o.following(LoadStep::Loaded, ok) == LoadStep::Loaded,
        o.following(LoadStep::Refused(e), ok) == LoadStep::Refused(e),
        o.after(seq![]) == LoadStep::LoadBtf,
{
}

/// An object fits the contract where it declares the three maps, each once
/// and laid out as agreed, and the one program; and only there.
pub proof fn contract_is_three_maps_and_a_program(o: ObjectDef)
    ensures
        o.fits_contract() <==> {
            &&& o.maps@.len() == 3
            &&& forall|i: int| 0 <= i < 3 ==> map_verdict(#[trigger] o.maps@[i], 0) is Ok
            &&& o.maps@[0].name@ != o.maps@[1].name@
            &&& o.maps@[0].name@ != o.maps@[2].name@
            &&& o.maps@[1].name@ != o.maps@[2].name@
            &&& o.programs@.len() == 1
            &&& o.programs@[0]@ == "rrb_redirect"@
        },
{
    assert(MAP_CONTRACT@.len() == 3);
}

/// The blob starts with its magic number, its version and the length of its
/// header, whatever it describes.
pub proof fn blob_header_is_fixed(order: ByteOrder, types: Seq<u8>, strings: Seq<u8>)
    requires
        types.len() <= u32::MAX,
        strings.len() <= u32::MAX,
    ensures
        ({
            let b = blob(order, types, strings);
            &&& b[0] == 0x9f
            &&& b[1] == 0xeb
            &&& b[2] == 1
            &&& b[3] == 0
            &&& value32(order, b, 4) == 24
            &&& value32(order, b, 8) == 0
            &&& value32(order, b, 12) == types.len()
            &&& value32(order, b, 16) == types.len()
            &&& value32(order, b, 20) == strings.len()
            &&& b.len() == 24 + types.len() + strings.len()
            &&& b.skip(24).take(types.len() as int) == types
            &&& b.skip((24 + types.len()) as int) == strings
        }),
{
    let b = blob(order, types, strings);
    let n = types.len() as u32;
    let m = strings.len() as u32;
    blob_sections(order, types, strings);
    value16_of_bytes16(ByteOrder::Little, BTF_MAGIC);
    value32_of_bytes32(order, BTF_HEADER_LEN);
    value32_of_bytes32(order, 0);
    value32_of_bytes32(order, n);
    value32_of_bytes32(order, m);
    octets_of_16_bit_field(b, 0);
    assert(b[0] + 256 * b[1] == 0xeb9f);
    assert(b.subrange(8, 12) =~= bytes32(order, 0));
    value32_at(order, b, 8, 0);
    assert(b.subrange(12, 16) =~= bytes32(order, n));
    value32_at(order, b, 12, n);
    assert(b.subrange(16, 20) =~= bytes32(order, n));
    value32_at(order, b, 16, n);
    assert(b.subrange(20, 24) =~= bytes32(order, m));
    value32_at(order, b, 20, m);
    assert(b.skip(24).take(n as int) =~= types);
    assert(b.skip((24 + types.len()) as int) =~= strings);
}

/// Each name that the records point at lies there, with a NUL behind it.
pub proof fn names_lie_where_the_records_point()
    ensures
        ({
            let s = strings_of(budget_names());
            &&& s.len() == 66
            &&& s[0] == 0
            &&& s.subrange(1, 5) == encode_utf8("u32"@).push(0)
            &&& s.subrange(5, 9) == encode_utf8("u64"@).push(0)
            &&& s.subrange(9, 23) == encode_utf8("bpf_spin_lock"@).push(0)
            &&& s.subrange(23, 27) == encode_utf8("val"@).push(0)
            &&& s.subrange(27, 34) == encode_utf8("Budget"@).push(0)
            &&& s.subrange(34, 39) == encode_utf8("lock"@).push(0)
            &&& s.subrange(39, 48) == encode_utf8("reserved"@).push(0)
            &&& s.subrange(48, 55) == encode_utf8("window"@).push(0)
            &&& s.subrange(55, 60) == encode_utf8("used"@).push(0)
            &&& s.subrange(60, 66) == encode_utf8("total"@).push(0)
        }),
{
    budget_name_offsets();
    let names = budget_names();
    let s = strings_of(names);
    reveal_strlit("u32");
    is_ascii_chars_encode_utf8("u32"@);
    name_lies_at_offset(names, 0);
    reveal_strlit("u64");
    is_ascii_chars_encode_utf8("u64"@);
    name_lies_at_offset(names, 1);
    reveal_strlit("bpf_spin_lock");
    is_ascii_chars_encode_utf8("bpf_spin_lock"@);
    name_lies_at_offset(names, 2);
    reveal_strlit("val");
    is_ascii_chars_encode_utf8("val"@);
    name_lies_at_offset(names, 3);
    reveal_strlit("Budget");
    is_ascii_chars_encode_utf8("Budget"@);
    name_lies_at_offset(names, 4);
    reveal_strlit("lock");
    is_ascii_chars_encode_utf8("lock"@);
    name_lies_at_offset(names, 5);
    reveal_strlit("reserved");
    is_ascii_chars_encode_utf8("reserved"@);
    name_lies_at_offset(names, 6);
    reveal_strlit("window");
    is_ascii_chars_encode_utf8("window"@);
    name_lies_at_offset(names, 7);
    reveal_strlit("used");
    is_ascii_chars_encode_utf8("used"@);
    name_lies_at_offset(names, 8);
    reveal_strlit("total");
    is_ascii_chars_encode_utf8("total"@);
    name_lies_at_offset(names, 9);
    assert(s[0] == 0) by {
        strings_start_with_nul(names);
    }
}

proof fn strings_start_with_nul(names: Seq<Seq<u8>>)
    ensures
        strings_of(names).len() > 0,
        strings_of(names)[0] == 0,
    decreases names.len(),
{
    if names.len() > 0 {
        strings_start_with_nul(names.drop_last());
    }
}

} // verus!
