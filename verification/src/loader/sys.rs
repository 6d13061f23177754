//! Requests to the `bpf()` system call and the reading of its replies.
//!
//! `union bpf_attr` offsets follow the UAPI of the Linux 5.4 headers; newer
//! kernels grew the union but still accept the shorter sizes. A request is a
//! fixed 144-byte buffer, the 5.4-era `sizeof(union bpf_attr)`, and the
//! command-specific prefix length.
use vstd::prelude::*;
use vstd::slice::slice_subrange;
use vstd::string::*;
use vstd::utf8::*;
use crate::common::{Config, ABI, COUNTER_COUNT};
use crate::text::{
    chars_of, parse_usize, parsed_usize, split, split_text, texts, trim, trimmed,
};
use crate::wire::{bytes32, bytes64, value32, value64, ByteOrder};
use super::abi::{config_at, decode_config};
use super::{BUDGET_SIZE, CONFIG_SIZE, PROG_TYPE_SCHED_ACT};

verus! {

/// `enum bpf_cmd`: create a map.
pub const BPF_MAP_CREATE: u32 = 0;

/// `enum bpf_cmd`: copy a map entry out.
pub const BPF_MAP_LOOKUP_ELEM: u32 = 1;

/// `enum bpf_cmd`: write a map entry.
pub const BPF_MAP_UPDATE_ELEM: u32 = 2;

/// `enum bpf_cmd`: verify and load a program.
pub const BPF_PROG_LOAD: u32 = 5;

/// `enum bpf_cmd`: pin an object into bpffs.
pub const BPF_OBJ_PIN: u32 = 6;

/// `enum bpf_cmd`: open a pinned object.
pub const BPF_OBJ_GET: u32 = 7;

/// `enum bpf_cmd`: describe a program or a map.
pub const BPF_OBJ_GET_INFO_BY_FD: u32 = 15;

/// `enum bpf_cmd`: load a BTF blob.
pub const BPF_BTF_LOAD: u32 = 18;

/// map_update_elem flag: create or overwrite the entry.
pub const BPF_ANY: u64 = 0;

/// map_lookup_elem flag: perform the lookup under the map's spinlock, so a
/// struct containing bpf_spin_lock is copied out consistently.
pub const BPF_F_LOCK: u64 = 4;

/// sizeof(union bpf_attr) as of Linux 5.4; zeroed padding keeps every
/// reserved field 0, which older kernels require.
pub const ATTR_LEN: usize = 144;

/// Length of the buffer for `struct bpf_prog_info` and `struct bpf_map_info`,
/// with headroom for fields added after 5.4.
pub const INFO_LEN: usize = 256;

/// Length of the log buffer of a BTF load.
pub const BTF_LOG_LEN: usize = 65536;

/// Length of the log buffer of a repeated program load.
pub const PROGRAM_LOG_LEN: usize = 16777216;

/// Locked memory the loader asks for.
pub const MEMLOCK_NEEDED: u64 = 16777216;

/// What can be wrong with a name, a reply or a limit.
#[derive(Clone, Copy, Debug, PartialEq, Eq, Structural)]
pub enum SysError {
    /// An object name does not fit its 16-byte field.
    NameTooLong,
    /// The program is not a tc action.
    NotSchedAct,
    /// A pinned map's shape is not the one of the contract.
    MapAbiMismatch,
    /// The `CONFIG` value carries another ABI version.
    ConfigAbiMismatch,
    /// A CPU number does not parse.
    CpuNumber,
    /// A CPU range ends before it starts, or beyond 65535.
    CpuRange,
    /// There are more CPUs than per-CPU slots can be addressed.
    CpuCount,
    /// The per-CPU slots add up to more than 64 bits hold.
    CounterOverflow,
}

/// `s` with `b` at `off`.
pub open spec fn put_at(s: Seq<u8>, off: int, b: Seq<u8>) -> Seq<u8> {
    s.take(off) + b + s.skip(off + b.len())
}

/// A zeroed attribute buffer.
pub open spec fn zeroed() -> Seq<u8> {
    Seq::new(ATTR_LEN as nat, |i: int| 0u8)
}

/// Scratch buffer for `bpf()`: raw bytes that fields are put into by offset.
pub struct Attr {
    pub bytes: [u8; ATTR_LEN],
}

impl Attr {
    /// A zeroed buffer.
    pub fn new() -> (a: Self)
        ensures
            a.bytes@ == zeroed(),
    {
        let a = Attr { bytes: [0; ATTR_LEN] };
        assert(a.bytes@ =~= zeroed());
        a
    }

    /// Put a 32-bit field.
    pub fn put_u32(&mut self, order: ByteOrder, off: usize, n: u32)
        requires
            off + 4 <= ATTR_LEN,
        ensures
            final(self).bytes@ == put_at(old(self).bytes@, off as int, bytes32(order, n)),
    {
        let b: [u8; 4] = order.put32(n);
        self.put_bytes(off, b.as_slice());
    }

    /// Put a 64-bit field.
    pub fn put_u64(&mut self, order: ByteOrder, off: usize, n: u64)
        requires
            off + 8 <= ATTR_LEN,
        ensures
            final(self).bytes@ == put_at(old(self).bytes@, off as int, bytes64(order, n)),
    {
        let b: [u8; 8] = order.put64(n);
        self.put_bytes(off, b.as_slice());
    }

    /// Put an object name into a 16-byte BPF name field (BPF_OBJ_NAME_LEN),
    /// where it fits with a NUL behind it.
    pub fn name(&mut self, off: usize, n: &str) -> (r: Result<(), SysError>)
        requires
            n.spec_bytes().len() < 16 ==> off + n.spec_bytes().len() <= ATTR_LEN,
        ensures
            r is Ok <==> n.spec_bytes().len() < 16,
            r is Ok ==> final(self).bytes@ == put_at(
                old(self).bytes@,
                off as int,
                n.spec_bytes(),
            ),
            r is Err ==> r == Err::<(), SysError>(SysError::NameTooLong) && *final(self) == *old(
                self,
            ),
    {
        let b: &[u8] = n.as_bytes();
        if b.len() >= 16 {
            return Err(SysError::NameTooLong);
        }
        self.put_bytes(off, b);
        Ok(())
    }

    /// Put bytes.
    fn put_bytes(&mut self, off: usize, b: &[u8])
        requires
            off + b@.len() <= ATTR_LEN,
        ensures
            final(self).bytes@ == put_at(old(self).bytes@, off as int, b@),
    {
        let mut i: usize = 0;
        let n: usize = b.len();
        while i < n
            invariant
                n == b@.len(),
                i <= n,
                off + n <= ATTR_LEN,
                forall|k: int| 0 <= k < i ==> self.bytes@[off + k] == b@[k],
                forall|k: int|
                    0 <= k < ATTR_LEN && !(off <= k < off + i) ==> self.bytes@[k] == old(
                        self,
                    ).bytes@[k],
            decreases n - i,
        {
            self.bytes[off + i] = b[i];
            i += 1;
        }
        assert forall|k: int| 0 <= k < ATTR_LEN implies self.bytes@[k] == put_at(
            old(self).bytes@,
            off as int,
            b@,
        )[k] by {
            if off <= k < off + n {
                assert(self.bytes@[off + (k - off)] == b@[k - off]);
            }
        }
        assert(self.bytes@ =~= put_at(old(self).bytes@, off as int, b@));
    }
}

/// One call of `bpf()`: the command, how much of the buffer the kernel
/// copies, and the buffer.
pub struct Request {
    pub command: u32,
    pub len: usize,
    pub attr: Attr,
}

impl Request {
    /// The request says exactly this.
    pub open spec fn says(self, command: u32, len: usize, bytes: Seq<u8>) -> bool {
        &&& self.command == command
        &&& self.len == len
        &&& self.attr.bytes@ == bytes
    }
}

/// info layout: bpf_fd@0, info_len@4, info@8 (ptr).
pub open spec fn info_bytes(order: ByteOrder, fd: i32, out: u64) -> Seq<u8> {
    put_at(
        put_at(put_at(zeroed(), 0, bytes32(order, fd as u32)), 4, bytes32(order, 256)),
        8,
        bytes64(order, out),
    )
}

/// Fetch `struct bpf_*_info` for a program or map fd.
pub fn info(order: ByteOrder, fd: i32, out: u64) -> (r: Request)
    ensures
        r.says(BPF_OBJ_GET_INFO_BY_FD, 16, info_bytes(order, fd, out)),
{
    let mut attr: Attr = Attr::new();
    attr.put_u32(order, 0, fd as u32);
    attr.put_u32(order, 4, INFO_LEN as u32);
    attr.put_u64(order, 8, out);
    Request { command: BPF_OBJ_GET_INFO_BY_FD, len: 16, attr: attr }
}

/// pin layout: pathname@0 (ptr), bpf_fd@8.
pub open spec fn pin_bytes(order: ByteOrder, fd: i32, path: u64) -> Seq<u8> {
    put_at(put_at(zeroed(), 0, bytes64(order, path)), 8, bytes32(order, fd as u32))
}

/// Pin an object into bpffs.
pub fn pin(order: ByteOrder, fd: i32, path: u64) -> (r: Request)
    ensures
        r.says(BPF_OBJ_PIN, 16, pin_bytes(order, fd, path)),
{
    let mut attr: Attr = Attr::new();
    attr.put_u64(order, 0, path);
    attr.put_u32(order, 8, fd as u32);
    Request { command: BPF_OBJ_PIN, len: 16, attr: attr }
}

/// get layout: pathname@0 (ptr).
pub open spec fn get_bytes(order: ByteOrder, path: u64) -> Seq<u8> {
    put_at(zeroed(), 0, bytes64(order, path))
}

/// Open a pinned object.
pub fn get(order: ByteOrder, path: u64) -> (r: Request)
    ensures
        r.says(BPF_OBJ_GET, 16, get_bytes(order, path)),
{
    let mut attr: Attr = Attr::new();
    attr.put_u64(order, 0, path);
    Request { command: BPF_OBJ_GET, len: 16, attr: attr }
}

/// Shared layout for lookup and update: map_fd@0, key@8 (ptr), value@16
/// (ptr), flags@24.
pub open spec fn element_bytes(order: ByteOrder, fd: i32, key: u64, value: u64, flags: u64) -> Seq<
    u8,
> {
    put_at(
        put_at(
            put_at(put_at(zeroed(), 0, bytes32(order, fd as u32)), 8, bytes64(order, key)),
            16,
            bytes64(order, value),
        ),
        24,
        bytes64(order, flags),
    )
}

/// The attribute buffer of a lookup or an update.
fn element(order: ByteOrder, fd: i32, key: u64, value: u64, flags: u64) -> (attr: Attr)
    ensures
        attr.bytes@ == element_bytes(order, fd, key, value, flags),
{
    let mut attr: Attr = Attr::new();
    attr.put_u32(order, 0, fd as u32);
    attr.put_u64(order, 8, key);
    attr.put_u64(order, 16, value);
    attr.put_u64(order, 24, flags);
    attr
}

/// Copy a map entry out.
pub fn lookup(order: ByteOrder, fd: i32, key: u64, out: u64, flags: u64) -> (r: Request)
    ensures
        r.says(BPF_MAP_LOOKUP_ELEM, 32, element_bytes(order, fd, key, out, flags)),
{
    Request {
        command: BPF_MAP_LOOKUP_ELEM,
        len: 32,
        attr: element(order, fd, key, out, flags),
    }
}

/// Write a map entry, creating or overwriting it.
pub fn update(order: ByteOrder, fd: i32, key: u64, value: u64) -> (r: Request)
    ensures
        r.says(BPF_MAP_UPDATE_ELEM, 32, element_bytes(order, fd, key, value, BPF_ANY)),
{
    Request {
        command: BPF_MAP_UPDATE_ELEM,
        len: 32,
        attr: element(order, fd, key, value, BPF_ANY),
    }
}

/// btf_load layout: btf@0 (ptr), btf_log_buf@8 (ptr), btf_size@16,
/// btf_log_size@20, btf_log_level@24.
pub open spec fn btf_load_bytes(order: ByteOrder, blob: u64, log: u64, size: u32) -> Seq<u8> {
    put_at(
        put_at(
            put_at(
                put_at(put_at(zeroed(), 0, bytes64(order, blob)), 8, bytes64(order, log)),
                16,
                bytes32(order, size),
            ),
            20,
            bytes32(order, 65536),
        ),
        24,
        bytes32(order, 1),
    )
}

/// Load a BTF blob, asking for diagnostics.
pub fn load_btf(order: ByteOrder, blob: u64, log: u64, size: u32) -> (r: Request)
    ensures
        r.says(BPF_BTF_LOAD, 28, btf_load_bytes(order, blob, log, size)),
{
    let mut attr: Attr = Attr::new();
    attr.put_u64(order, 0, blob);
    attr.put_u64(order, 8, log);
    attr.put_u32(order, 16, size);
    attr.put_u32(order, 20, BTF_LOG_LEN as u32);
    attr.put_u32(order, 24, 1);
    Request { command: BPF_BTF_LOAD, len: 28, attr: attr }
}

/// Check that a program's info describes a tc action, and take its
/// kernel-assigned id. bpf_prog_info layout: type@0, id@4.
pub fn program_id(order: ByteOrder, info: &[u8]) -> (r: Result<u32, SysError>)
    requires
        info@.len() >= 8,
    ensures
        r == (if value32(order, info@, 0) == PROG_TYPE_SCHED_ACT {
            Ok(value32(order, info@, 4))
        } else {
            Err::<u32, SysError>(SysError::NotSchedAct)
        }),
        r is Ok <==> value32(order, info@, 0) == 4,
{
    if order.get32(info, 0) != PROG_TYPE_SCHED_ACT {
        return Err(SysError::NotSchedAct);
    }
    Ok(order.get32(info, 4))
}

/// A map's info describes this shape. bpf_map_info layout: type@0, id@4,
/// key_size@8, value_size@12, max_entries@16.
pub open spec fn has_shape(
    order: ByteOrder,
    info: Seq<u8>,
    kind: u32,
    value: u32,
    entries: u32,
) -> bool {
    &&& value32(order, info, 0) == kind
    &&& value32(order, info, 8) == 4
    &&& value32(order, info, 12) == value
    &&& value32(order, info, 16) == entries
}

/// Reject a pinned map whose shape does not match the ABI.
pub fn map_shape(order: ByteOrder, info: &[u8], kind: u32, value: u32, entries: u32) -> (r: Result<
    (),
    SysError,
>)
    requires
        info@.len() >= 20,
    ensures
        r == (if has_shape(order, info@, kind, value, entries) {
            Ok::<(), SysError>(())
        } else {
            Err(SysError::MapAbiMismatch)
        }),
{
    if order.get32(info, 0) == kind && order.get32(info, 8) == 4 && order.get32(info, 12) == value
        && order.get32(info, 16) == entries {
        Ok(())
    } else {
        Err(SysError::MapAbiMismatch)
    }
}

/// The request that writes a `CONFIG` value, where the pinned map has the
/// shape of the contract.
pub fn write_config(order: ByteOrder, info: &[u8], fd: i32, key: u64, value: u64) -> (r: Result<
    Request,
    SysError,
>)
    requires
        info@.len() >= 20,
    ensures
        r is Ok <==> has_shape(order, info@, 2, CONFIG_SIZE, 1),
        r is Ok <==> value32(order, info@, 0) == 2 && value32(order, info@, 8) == 4 && value32(
            order,
            info@,
            12,
        ) == 232 && value32(order, info@, 16) == 1,
        r is Ok ==> r->Ok_0.says(
            BPF_MAP_UPDATE_ELEM,
            32,
            element_bytes(order, fd, key, value, BPF_ANY),
        ),
        r is Err ==> r->Err_0 == SysError::MapAbiMismatch,
{
    match map_shape(order, info, 2, CONFIG_SIZE, 1) {
        Ok(_) => Ok(update(order, fd, key, value)),
        Err(e) => Err(e),
    }
}

/// The request that copies the `CONFIG` value out, where the pinned map has
/// the shape of the contract.
pub fn read_config(order: ByteOrder, info: &[u8], fd: i32, key: u64, out: u64) -> (r: Result<
    Request,
    SysError,
>)
    requires
        info@.len() >= 20,
    ensures
        r is Ok <==> has_shape(order, info@, 2, CONFIG_SIZE, 1),
        r is Ok <==> value32(order, info@, 0) == 2 && value32(order, info@, 8) == 4 && value32(
            order,
            info@,
            12,
        ) == 232 && value32(order, info@, 16) == 1,
        r is Ok ==> r->Ok_0.says(BPF_MAP_LOOKUP_ELEM, 32, element_bytes(order, fd, key, out, 0)),
        r is Err ==> r->Err_0 == SysError::MapAbiMismatch,
{
    match map_shape(order, info, 2, CONFIG_SIZE, 1) {
        Ok(_) => Ok(lookup(order, fd, key, out, 0)),
        Err(e) => Err(e),
    }
}

/// The configuration in a `CONFIG` value, refused where it carries another
/// ABI version.
pub fn config_of(order: ByteOrder, value: &[u8]) -> (r: Result<Config, SysError>)
    requires
        value@.len() == CONFIG_SIZE,
    ensures
        r is Ok <==> value32(order, value@, 16) == ABI,
        r is Ok ==> config_at(order, value@, r->Ok_0),
        r matches Ok(c) ==> c.abi == 3,
        r is Err ==> r->Err_0 == SysError::ConfigAbiMismatch,
{
    let c: Config = decode_config(order, value);
    if c.abi != ABI {
        return Err(SysError::ConfigAbiMismatch);
    }
    Ok(c)
}

/// Check the shape of the pinned `COUNTERS` map.
pub fn counters(order: ByteOrder, info: &[u8]) -> (r: Result<(), SysError>)
    requires
        info@.len() >= 20,
    ensures
        r == (if has_shape(order, info@, 6, 8, COUNTER_COUNT as u32) {
            Ok::<(), SysError>(())
        } else {
            Err(SysError::MapAbiMismatch)
        }),
        r is Ok <==> value32(order, info@, 0) == 6 && value32(order, info@, 8) == 4 && value32(
            order,
            info@,
            12,
        ) == 8 && value32(order, info@, 16) == 23,
{
    map_shape(order, info, 6, 8, COUNTER_COUNT as u32)
}

/// The request that copies the `BUDGET` value out under its spinlock, where
/// the pinned map has the shape of the contract.
pub fn budget(order: ByteOrder, info: &[u8], fd: i32, key: u64, out: u64) -> (r: Result<
    Request,
    SysError,
>)
    requires
        info@.len() >= 20,
    ensures
        r is Ok <==> has_shape(order, info@, 2, BUDGET_SIZE, 1),
        r is Ok <==> value32(order, info@, 0) == 2 && value32(order, info@, 8) == 4 && value32(
            order,
            info@,
            12,
        ) == 32 && value32(order, info@, 16) == 1,
        r is Ok ==> r->Ok_0.says(
            BPF_MAP_LOOKUP_ELEM,
            32,
            element_bytes(order, fd, key, out, BPF_F_LOCK),
        ),
        r is Err ==> r->Err_0 == SysError::MapAbiMismatch,
{
    match map_shape(order, info, 2, BUDGET_SIZE, 1) {
        Ok(_) => Ok(lookup(order, fd, key, out, BPF_F_LOCK)),
        Err(e) => Err(e),
    }
}

/// The limit of locked memory to set in place of this one, if any.
pub open spec fn memlock_wanted(current: u64, maximum: u64) -> Option<(u64, u64)> {
    if current < MEMLOCK_NEEDED {
        Some(
            (
                MEMLOCK_NEEDED,
                if maximum < MEMLOCK_NEEDED {
                    MEMLOCK_NEEDED
                } else {
                    maximum
                },
            ),
        )
    } else {
        None
    }
}

/// The limit of locked memory to set, as current and maximum, where the
/// present one does not suffice. Before Linux 5.11 all BPF allocations are
/// charged against it.
pub fn raise_memlock(current: u64, maximum: u64) -> (r: Option<(u64, u64)>)
    ensures
        r == memlock_wanted(current, maximum),
        r == (if current < MEMLOCK_NEEDED {
            Some(
                (
                    MEMLOCK_NEEDED,
                    if maximum < MEMLOCK_NEEDED {
                        MEMLOCK_NEEDED
                    } else {
                        maximum
                    },
                ),
            )
        } else {
            None::<(u64, u64)>
        }),
{
    if current < MEMLOCK_NEEDED {
        let max: u64 = if maximum < MEMLOCK_NEEDED {
            MEMLOCK_NEEDED
        } else {
            maximum
        };
        Some((MEMLOCK_NEEDED, max))
    } else {
        None
    }
}

/// How many CPUs one range holds: "start" or "start-end".
pub open spec fn range_cpus(range: Seq<char>) -> Result<nat, SysError> {
    let parts = split(range, '-');
    match parsed_usize(parts[0]) {
        None => Err(SysError::CpuNumber),
        Some(start) => {
            let end = if parts.len() > 1 {
                parsed_usize(parts[1])
            } else {
                Some(start)
            };
            match end {
                None => Err(SysError::CpuNumber),
                Some(end) => if start <= end < 65536 {
                    Ok((end - start + 1) as nat)
                } else {
                    Err(SysError::CpuRange)
                },
            }
        },
    }
}

/// How many CPUs the ranges hold together; the first bad range decides the
/// error.
pub open spec fn ranges_cpus(ranges: Seq<Seq<char>>) -> Result<nat, SysError>
    decreases ranges.len(),
{
    if ranges.len() == 0 {
        Ok(0)
    } else {
        match ranges_cpus(ranges.drop_last()) {
            Err(e) => Err(e),
            Ok(n) => match range_cpus(ranges.last()) {
                Err(e) => Err(e),
                Ok(m) => Ok(n + m),
            },
        }
    }
}

/// An error among the first ranges is the error of all.
proof fn ranges_error(ranges: Seq<Seq<char>>, i: int)
    requires
        0 <= i <= ranges.len(),
        ranges_cpus(ranges.take(i)) is Err,
    ensures
        ranges_cpus(ranges) == ranges_cpus(ranges.take(i)),
    decreases ranges.len(),
{
    if i == ranges.len() {
        assert(ranges.take(i) =~= ranges);
    } else {
        assert(ranges.drop_last().take(i) =~= ranges.take(i));
        ranges_error(ranges.drop_last(), i);
    }
}

/// A split text has at least one piece.
proof fn split_is_not_empty(s: Seq<char>, c: char)
    ensures
        split(s, c).len() >= 1,
{
}

/// How many CPUs one range holds.
fn count_range(range: &Vec<char>) -> (r: Result<u32, SysError>)
    ensures
        match r {
            Ok(n) => range_cpus(range@) == Ok::<nat, SysError>(n as nat) && n <= 65536,
            Err(e) => range_cpus(range@) == Err::<nat, SysError>(e),
        },
{
    let parts: Vec<Vec<char>> = split_text(range, '-');
    proof {
        split_is_not_empty(range@, '-');
        assert(texts(parts@)[0] == parts@[0]@);
        assert(parts@.len() > 1 ==> texts(parts@)[1] == parts@[1]@);
    }
    let start: usize = match parse_usize(&parts[0]) {
        Some(n) => n,
        None => {
            return Err(SysError::CpuNumber);
        },
    };
    let end: usize = if parts.len() > 1 {
        match parse_usize(&parts[1]) {
            Some(n) => n,
            None => {
                return Err(SysError::CpuNumber);
            },
        }
    } else {
        start
    };
    if start <= end && end < 65536 {
        Ok((end - start + 1) as u32)
    } else {
        Err(SysError::CpuRange)
    }
}

/// Length of a per-CPU counter's value for the possible CPUs of this text.
pub open spec fn slots_size(possible: Seq<char>) -> Result<usize, SysError> {
    match ranges_cpus(split(trimmed(possible), ',')) {
        Err(e) => Err(e),
        Ok(n) => if 8 * n <= usize::MAX {
            Ok((8 * n) as usize)
        } else {
            Err(SysError::CpuCount)
        },
    }
}

/// Length of a per-CPU counter's value, eight bytes per possible CPU, from
/// the text of `/sys/devices/system/cpu/possible`: comma-separated "start"
/// or "start-end" ranges, such as "0-3".
pub fn slots_len(possible: &str) -> (r: Result<usize, SysError>)
    ensures
        r == slots_size(possible@),
        match ranges_cpus(split(trimmed(possible@), ',')) {
            Err(e) => r == Err::<usize, SysError>(e),
            Ok(n) => if 8 * n <= usize::MAX {
                r == Ok::<usize, SysError>((8 * n) as usize)
            } else {
                r == Err::<usize, SysError>(SysError::CpuCount)
            },
        },
{
    let ranges: Vec<Vec<char>> = split_text(&trim(&chars_of(possible)), ',');
    let ghost all = split(trimmed(possible@), ',');
    let count: usize = ranges.len();
    let mut cpus: u128 = 0;
    let mut i: usize = 0;
    while i < count
        invariant
            count == ranges@.len(),
            i <= count,
            texts(ranges@) == all,
            all == split(trimmed(possible@), ','),
            ranges_cpus(all.take(i as int)) == Ok::<nat, SysError>(cpus as nat),
            cpus <= 65536 * i,
        decreases count - i,
    {
        proof {
            assert(all.take(i + 1).drop_last() =~= all.take(i as int));
            assert(all[i as int] == ranges@[i as int]@);
        }
        match count_range(&ranges[i]) {
            Ok(n) => {
                cpus = cpus + n as u128;
            },
            Err(e) => {
                proof {
                    ranges_error(all, i + 1);
                }
                return Err(e);
            },
        }
        i += 1;
    }
    assert(all.take(i as int) =~= all);
    if cpus * 8 <= usize::MAX as u128 {
        Ok((cpus * 8) as usize)
    } else {
        Err(SysError::CpuCount)
    }
}

/// The sum of the first `n` per-CPU slots.
pub open spec fn slots_sum(order: ByteOrder, slots: Seq<u8>, n: nat) -> nat
    decreases n,
{
    if n == 0 {
        0
    } else {
        slots_sum(order, slots, (n - 1) as nat) + value64(order, slots, 8 * (n - 1)) as nat
    }
}

/// Sum the per-CPU slots of one counter.
pub fn sum_slots(order: ByteOrder, slots: &[u8]) -> (r: Result<u64, SysError>)
    ensures
        ({
            let sum = slots_sum(order, slots@, slots@.len() / 8);
            r == (if sum <= u64::MAX {
                Ok(sum as u64)
            } else {
                Err::<u64, SysError>(SysError::CounterOverflow)
            })
        }),
{
    let count: usize = slots.len() / 8;
    let mut sum: u128 = 0;
    let mut i: usize = 0;
    while i < count
        invariant
            count == slots@.len() / 8,
            i <= count,
            slots@.len() <= usize::MAX,
            sum == slots_sum(order, slots@, i as nat),
            sum <= 0xffff_ffff_ffff_ffff * i,
        decreases count - i,
    {
        sum = sum + order.get64(slots, 8 * i) as u128;
        i += 1;
    }
    if sum <= u64::MAX as u128 {
        Ok(sum as u64)
    } else {
        Err(SysError::CounterOverflow)
    }
}

/// Position of the first NUL, or the length where there is none.
pub open spec fn first_nul(s: Seq<u8>) -> nat
    decreases s.len(),
{
    if s.len() == 0 || s[0] == 0 {
        0
    } else {
        1 + first_nul(s.skip(1))
    }
}

/// The text that `String::from_utf8_lossy` makes of bytes.
pub uninterp spec fn utf8_lossy(b: Seq<u8>) -> Seq<char>;

/// `String::from_utf8_lossy`: the bytes as text. Valid UTF-8 comes out as
/// the text it encodes. What stands for invalid sequences goes unsaid, but
/// it depends on the bytes alone.
#[verifier::external_body]
fn lossy(b: &[u8]) -> (s: String)
    ensures
        s@ == utf8_lossy(b@),
        valid_utf8(b@) ==> s@ == decode_utf8(b@),
{
    String::from_utf8_lossy(b).into_owned()
}

/// The text that the kernel left in a log buffer: what stands before the
/// first NUL.
pub fn log_text(log: &[u8]) -> (s: String)
    ensures
        s@ == utf8_lossy(log@.take(first_nul(log@) as int)),
        valid_utf8(log@.take(first_nul(log@) as int)) ==> s@ == decode_utf8(
            log@.take(first_nul(log@) as int),
        ),
{
    let n: usize = log.len();
    let mut i: usize = 0;
    assert(log@.skip(0) =~= log@);
    while i < n && log[i] != 0
        invariant
            n == log@.len(),
            i <= n,
            first_nul(log@) == i + first_nul(log@.skip(i as int)),
        decreases n - i,
    {
        assert(log@.skip(i as int).skip(1) =~= log@.skip(i + 1));
        i += 1;
    }
    assert(first_nul(log@.skip(i as int)) == 0);
    let text: &[u8] = slice_subrange(log, 0, i);
    assert(text@ =~= log@.take(i as int));
    lossy(text)
}

/// Commands and flags are numbered as the kernel numbers them.
pub proof fn commands_are_the_kernels()
    ensures
        BPF_MAP_CREATE == 0,
        BPF_MAP_LOOKUP_ELEM == 1,
        BPF_MAP_UPDATE_ELEM == 2,
        BPF_PROG_LOAD == 5,
        BPF_OBJ_PIN == 6,
        BPF_OBJ_GET == 7,
        BPF_OBJ_GET_INFO_BY_FD == 15,
        BPF_BTF_LOAD == 18,
        BPF_ANY == 0,
        BPF_F_LOCK == 4,
        PROG_TYPE_SCHED_ACT == 4,
{
}

} // verus!
