//! Userspace side of the kernel action: the map contract, the BTF blob that
//! teaches the kernel about the spinlock map, the `bpf()` requests and the
//! order in which they are made.
//!
//! The action must load as `BPF_PROG_TYPE_SCHED_ACT`: the target kernel is
//! built with `CONFIG_NET_ACT_BPF` and without `CONFIG_NET_CLS_BPF`.
pub mod abi;
pub mod btf;
pub mod laws;
pub mod load;
pub mod sys;

use vstd::prelude::*;
use vstd::string::*;
use vstd::utf8::*;
use btf::{blob, terminated, words_bytes, words_bytes_concat, words_bytes_len, BtfBuilder};
use crate::common::{Budget, Config, COUNTER_COUNT};
use crate::wire::{value32, value64, ByteOrder};
use abi::{budget_bytes, budget_layout, config_bytes, config_round_trip};

verus! {

/// Size in bytes of the `CONFIG` map's value.
pub const CONFIG_SIZE: u32 = 232;

/// Size in bytes of the `BUDGET` map's value.
pub const BUDGET_SIZE: u32 = 32;

/// Map ABI contract the loader enforces against the object: name, map type,
/// value size, entries. `BPF_MAP_TYPE_ARRAY` is 2 and
/// `BPF_MAP_TYPE_PERCPU_ARRAY` is 6 in the kernel's `enum bpf_map_type`; key
/// size is always 4 (a u32 index) for both.
pub const MAP_CONTRACT: [(&'static str, u32, u32, u32); 3] = [
    ("CONFIG", 2, 232, 1),
    ("COUNTERS", 6, 8, 23),
    ("BUDGET", 2, 32, 1),
];

/// Name of the single program inside the object.
pub const PROGRAM_NAME: &'static str = "rrb_redirect";

/// `BPF_PROG_TYPE_SCHED_ACT` in the kernel's `enum bpf_prog_type`: a tc
/// action program, attachable via `tc ... action bpf`.
pub const PROG_TYPE_SCHED_ACT: u32 = 4;

/// Type id of `u32` in the blob; ids are assigned by order, from 1.
pub const TYPE_U32: u32 = 1;

/// Type id of `u64` in the blob.
pub const TYPE_U64: u32 = 2;

/// Type id of `bpf_spin_lock` in the blob.
pub const TYPE_SPIN_LOCK: u32 = 3;

/// Type id of `Budget` in the blob.
pub const TYPE_BUDGET: u32 = 4;

/// Names in the string section, in order.
pub open spec fn budget_names() -> Seq<Seq<u8>> {
    seq![
        "u32".spec_bytes(),
        "u64".spec_bytes(),
        "bpf_spin_lock".spec_bytes(),
        "val".spec_bytes(),
        "Budget".spec_bytes(),
        "lock".spec_bytes(),
        "reserved".spec_bytes(),
        "window".spec_bytes(),
        "used".spec_bytes(),
        "total".spec_bytes(),
    ]
}

/// The string section that holds `names`, after the leading NUL.
pub open spec fn strings_of(names: Seq<Seq<u8>>) -> Seq<u8>
    decreases names.len(),
{
    if names.len() == 0 {
        seq![0u8]
    } else {
        strings_of(names.drop_last()) + terminated(names.last())
    }
}

/// Offset of name `i` in the string section.
pub open spec fn name_offset(names: Seq<Seq<u8>>, i: int) -> u32 {
    strings_of(names.take(i)).len() as u32
}

/// The four type records: `u32`, `u64`, `struct bpf_spin_lock { u32 val; }`
/// and `struct Budget`, its members at the bit offsets of the map value.
pub open spec fn budget_words() -> Seq<u32> {
    let at = |i: int| name_offset(budget_names(), i);
    seq![at(0), btf::BTF_INFO_INT, 4u32, 32u32]
    + seq![at(1), btf::BTF_INFO_INT, 8u32, 64u32]
    + seq![at(2), (btf::BTF_INFO_STRUCT + 1) as u32, 4u32]
    + seq![at(3), TYPE_U32, 0u32]
    + seq![at(4), (btf::BTF_INFO_STRUCT + 5) as u32, BUDGET_SIZE]
    + seq![at(5), TYPE_SPIN_LOCK, 0u32]
    + seq![at(6), TYPE_U32, 32u32]
    + seq![at(7), TYPE_U64, 64u32]
    + seq![at(8), TYPE_U64, 128u32]
    + seq![at(9), TYPE_U64, 192u32]
}

/// The BTF blob describing `Budget` for a machine of the given byte order.
pub open spec fn budget_blob(order: ByteOrder) -> Seq<u8> {
    blob(order, words_bytes(order, budget_words()), strings_of(budget_names()))
}

/// One more name lies behind those before it.
proof fn strings_step(names: Seq<Seq<u8>>, i: int)
    requires
        0 <= i < names.len(),
    ensures
        strings_of(names.take(i + 1)) == strings_of(names.take(i)) + terminated(names[i]),
{
    assert(names.take(i + 1).drop_last() =~= names.take(i));
}

/// An ASCII name has one byte per character.
proof fn ascii_len(s: &str)
    requires
        is_ascii_chars(s@),
    ensures
        s.spec_bytes().len() == s@.len(),
{
    is_ascii_chars_encode_utf8(s@);
}

/// Lengths of the ten names.
proof fn name_lengths()
    ensures
        budget_names().len() == 10,
        budget_names()[0].len() == 3,
        budget_names()[1].len() == 3,
        budget_names()[2].len() == 13,
        budget_names()[3].len() == 3,
        budget_names()[4].len() == 6,
        budget_names()[5].len() == 4,
        budget_names()[6].len() == 8,
        budget_names()[7].len() == 6,
        budget_names()[8].len() == 4,
        budget_names()[9].len() == 5,
{
    reveal_strlit("u32");
    reveal_strlit("u64");
    reveal_strlit("bpf_spin_lock");
    reveal_strlit("val");
    reveal_strlit("Budget");
    reveal_strlit("lock");
    reveal_strlit("reserved");
    reveal_strlit("window");
    reveal_strlit("used");
    reveal_strlit("total");
    ascii_len("u32");
    ascii_len("u64");
    ascii_len("bpf_spin_lock");
    ascii_len("val");
    ascii_len("Budget");
    ascii_len("lock");
    ascii_len("reserved");
    ascii_len("window");
    ascii_len("used");
    ascii_len("total");
}

/// Where the ten names start, and where the last one ends.
pub proof fn budget_name_offsets()
    ensures
        name_offset(budget_names(), 0) == 1,
        name_offset(budget_names(), 1) == 5,
        name_offset(budget_names(), 2) == 9,
        name_offset(budget_names(), 3) == 23,
        name_offset(budget_names(), 4) == 27,
        name_offset(budget_names(), 5) == 34,
        name_offset(budget_names(), 6) == 39,
        name_offset(budget_names(), 7) == 48,
        name_offset(budget_names(), 8) == 55,
        name_offset(budget_names(), 9) == 60,
        strings_of(budget_names()).len() == 66,
{
    let names = budget_names();
    name_lengths();
    assert(names.take(0) =~= Seq::empty());
    assert(names.take(10) =~= names);
    strings_step(names, 0);
    strings_step(names, 1);
    strings_step(names, 2);
    strings_step(names, 3);
    strings_step(names, 4);
    strings_step(names, 5);
    strings_step(names, 6);
    strings_step(names, 7);
    strings_step(names, 8);
    strings_step(names, 9);
}

/// The names before the `i`-th make up the start of the string section.
proof fn strings_prefix(names: Seq<Seq<u8>>, i: int)
    requires
        0 <= i <= names.len(),
    ensures
        strings_of(names.take(i)).len() <= strings_of(names).len(),
        strings_of(names).take(strings_of(names.take(i)).len() as int) == strings_of(
            names.take(i),
        ),
    decreases names.len() - i,
{
    let head = strings_of(names.take(i));
    let all = strings_of(names);
    if i < names.len() {
        strings_prefix(names, i + 1);
        strings_step(names, i);
        let next = strings_of(names.take(i + 1));
        assert(all.take(next.len() as int).take(head.len() as int) =~= all.take(
            head.len() as int,
        ));
        assert(next.take(head.len() as int) =~= head);
    } else {
        assert(names.take(i) =~= names);
        assert(all.take(head.len() as int) =~= head);
    }
}

/// Each name lies NUL-terminated at its offset in the string section.
pub proof fn name_lies_at_offset(names: Seq<Seq<u8>>, i: int)
    requires
        0 <= i < names.len(),
        strings_of(names).len() <= u32::MAX,
    ensures
        ({
            let at = name_offset(names, i);
            &&& at + names[i].len() < strings_of(names).len()
            &&& strings_of(names).subrange(at as int, at + names[i].len() + 1) == terminated(
                names[i],
            )
        }),
{
    strings_prefix(names, i);
    strings_prefix(names, i + 1);
    strings_step(names, i);
    let head = strings_of(names.take(i));
    let next = strings_of(names.take(i + 1));
    let all = strings_of(names);
    assert(all.subrange(head.len() as int, next.len() as int) =~= all.take(
        next.len() as int,
    ).skip(head.len() as int));
    assert(next.skip(head.len() as int) =~= terminated(names[i]));
}

/// Add the ten names to a fresh builder.
fn add_names(b: &mut BtfBuilder) -> (offsets: [u32; 10])
    requires
        old(b).strings@ == seq![0u8],
    ensures
        final(b).order == old(b).order,
        final(b).types == old(b).types,
        final(b).strings@ == strings_of(budget_names()),
        forall|i: int| 0 <= i < 10 ==> offsets@[i] == name_offset(budget_names(), i),
{
    let ghost names = budget_names();
    proof {
        name_lengths();
        budget_name_offsets();
        assert(names.take(0) =~= Seq::empty());
        assert(names.take(10) =~= names);
        strings_step(names, 0);
        strings_step(names, 1);
        strings_step(names, 2);
        strings_step(names, 3);
        strings_step(names, 4);
        strings_step(names, 5);
        strings_step(names, 6);
        strings_step(names, 7);
        strings_step(names, 8);
        strings_step(names, 9);
    }
    let t_u32: u32 = b.name("u32");
    let t_u64: u32 = b.name("u64");
    let t_spin: u32 = b.name("bpf_spin_lock");
    let t_val: u32 = b.name("val");
    let t_budget: u32 = b.name("Budget");
    let f_lock: u32 = b.name("lock");
    let f_reserved: u32 = b.name("reserved");
    let f_window: u32 = b.name("window");
    let f_used: u32 = b.name("used");
    let f_total: u32 = b.name("total");
    [t_u32, t_u64, t_spin, t_val, t_budget, f_lock, f_reserved, f_window, f_used, f_total]
}

/// Build the BTF blob describing `Budget` for a machine of the given byte
/// order. Type ids are assigned by order: 1 = u32, 2 = u64,
/// 3 = bpf_spin_lock, 4 = Budget.
pub fn budget_btf_for(order: ByteOrder) -> (bytes: Vec<u8>)
    ensures
        bytes@ == budget_blob(order),
{
    let mut b: BtfBuilder = BtfBuilder::new(order);
    let names: [u32; 10] = add_names(&mut b);
    b.int_type(names[0], 4, 32);
    b.int_type(names[1], 8, 64);
    b.struct_head(names[2], 1, 4);
    b.member(names[3], TYPE_U32, 0);
    b.struct_head(names[4], 5, BUDGET_SIZE);
    b.member(names[5], TYPE_SPIN_LOCK, 0);
    b.member(names[6], TYPE_U32, 32);
    b.member(names[7], TYPE_U64, 64);
    b.member(names[8], TYPE_U64, 128);
    b.member(names[9], TYPE_U64, 192);
    proof {
        let at = |i: int| name_offset(budget_names(), i);
        let w0 = seq![at(0), btf::BTF_INFO_INT, 4u32, 32u32];
        let w1 = seq![at(1), btf::BTF_INFO_INT, 8u32, 64u32];
        let w2 = seq![at(2), (btf::BTF_INFO_STRUCT + 1) as u32, 4u32];
        let w3 = seq![at(3), TYPE_U32, 0u32];
        let w4 = seq![at(4), (btf::BTF_INFO_STRUCT + 5) as u32, BUDGET_SIZE];
        let w5 = seq![at(5), TYPE_SPIN_LOCK, 0u32];
        let w6 = seq![at(6), TYPE_U32, 32u32];
        let w7 = seq![at(7), TYPE_U64, 64u32];
        let w8 = seq![at(8), TYPE_U64, 128u32];
        let w9 = seq![at(9), TYPE_U64, 192u32];
        words_bytes_concat(order, w0, w1);
        words_bytes_concat(order, w0 + w1, w2);
        words_bytes_concat(order, w0 + w1 + w2, w3);
        words_bytes_concat(order, w0 + w1 + w2 + w3, w4);
        words_bytes_concat(order, w0 + w1 + w2 + w3 + w4, w5);
        words_bytes_concat(order, w0 + w1 + w2 + w3 + w4 + w5, w6);
        words_bytes_concat(order, w0 + w1 + w2 + w3 + w4 + w5 + w6, w7);
        words_bytes_concat(order, w0 + w1 + w2 + w3 + w4 + w5 + w6 + w7, w8);
        words_bytes_concat(order, w0 + w1 + w2 + w3 + w4 + w5 + w6 + w7 + w8, w9);
        assert(Seq::<u8>::empty() + words_bytes(order, w0) =~= words_bytes(order, w0));
        assert(b.types@ == words_bytes(order, budget_words()));
        words_bytes_len(order, budget_words());
        budget_name_offsets();
    }
    b.finish()
}

/// Build the BTF blob describing `Budget` for the machine at hand.
pub fn budget_btf() -> (bytes: Vec<u8>)
    ensures
        bytes@ == budget_blob(ByteOrder::Little) || bytes@ == budget_blob(ByteOrder::Big),
{
    budget_btf_for(ByteOrder::native())
}

/// The map contract gives the sizes of the values that the library writes
/// and reads, and one slot per counter.
pub proof fn contract_matches_abi(order: ByteOrder, c: Config, b: Budget)
    ensures
        MAP_CONTRACT@[0].2 == config_bytes(order, c).len(),
        MAP_CONTRACT@[1].3 == COUNTER_COUNT,
        MAP_CONTRACT@[2].2 == budget_bytes(order, b).len(),
{
    config_round_trip(order, c, c);
    budget_layout(order, b);
}

/// Size of `Budget` and bit offsets of its members in the type records.
proof fn budget_member_words()
    ensures
        budget_words().len() == 32,
        budget_words()[16] == BUDGET_SIZE,
        budget_words()[19] == 0,
        budget_words()[22] == 32,
        budget_words()[25] == 64,
        budget_words()[28] == 128,
        budget_words()[31] == 192,
{
}

/// The blob's description of `Budget` is true of the map's value: its size,
/// and each member at its bit offset.
pub proof fn btf_and_abi_agree(order: ByteOrder, b: Budget)
    ensures
        ({
            let w = budget_words();
            let v = budget_bytes(order, b);
            &&& w.len() == 32
            &&& w[16] == v.len()
            &&& value32(order, v, w[19] as int / 8) == b.lock
            &&& value32(order, v, w[22] as int / 8) == b.reserved
            &&& value64(order, v, w[25] as int / 8) == b.window
            &&& value64(order, v, w[28] as int / 8) == b.used
            &&& value64(order, v, w[31] as int / 8) == b.total
        }),
{
    budget_member_words();
    let w = budget_words();
    assert(w[19] as int / 8 == 0);
    assert(w[22] as int / 8 == 4);
    assert(w[25] as int / 8 == 8);
    assert(w[28] as int / 8 == 16);
    assert(w[31] as int / 8 == 24);
    budget_layout(order, b);
}

} // verus!
