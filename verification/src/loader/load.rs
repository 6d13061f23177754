//! Loading the object: which maps and programs are accepted, the requests
//! that create them, and the order of the steps.
use vstd::prelude::*;
use vstd::string::*;
use vstd::utf8::*;
use crate::text::same_text;
use crate::wire::{bytes32, bytes64, value32, ByteOrder};
use super::laws::create_request_reads_back;
use super::sys::{
    put_at, zeroed, Attr, Request, BPF_MAP_CREATE, BPF_PROG_LOAD, PROGRAM_LOG_LEN,
};
use super::{MAP_CONTRACT, PROGRAM_NAME, PROG_TYPE_SCHED_ACT, TYPE_BUDGET, TYPE_U32};

verus! {

/// A map as the object declares it.
pub struct MapDef {
    pub name: String,
    pub map_type: u32,
    pub key_size: u32,
    pub value_size: u32,
    pub max_entries: u32,
    pub map_flags: u32,
    /// Length of the initial contents; the contract knows no map with any.
    pub data_len: usize,
}

/// What the loader needs to know of an object: its maps and the names of
/// its programs.
pub struct ObjectDef {
    pub maps: Vec<MapDef>,
    pub programs: Vec<String>,
}

/// Why an object is not loaded.
#[derive(Clone, Copy, Debug, PartialEq, Eq, Structural)]
pub enum LoadError {
    /// The contract knows no such map.
    UnexpectedMap(usize),
    /// A map's layout is not the one of the contract.
    UnexpectedLayout(usize),
    /// A map's name occurs before.
    RepeatedMap(usize),
    /// The object declares fewer or more maps than the contract.
    MissingMaps,
    /// The object holds another program.
    UnexpectedProgram(usize),
    /// The object does not hold exactly one program.
    MissingProgram,
    /// The kernel refused the BTF blob.
    Btf,
    /// The kernel refused to create a map.
    MapRefused(usize),
    /// The object could not be relocated.
    Relocation,
    /// The kernel refused the program, with diagnostics too.
    ProgramRefused(usize),
    /// The loaded program is not a tc action.
    ProgramKind(usize),
}

/// Map type, value size and entries that the contract gives a name.
pub open spec fn contract_of(name: Seq<char>) -> Option<(u32, u32, u32)> {
    if name == MAP_CONTRACT@[0].0@ {
        Some((MAP_CONTRACT@[0].1, MAP_CONTRACT@[0].2, MAP_CONTRACT@[0].3))
    } else if name == MAP_CONTRACT@[1].0@ {
        Some((MAP_CONTRACT@[1].1, MAP_CONTRACT@[1].2, MAP_CONTRACT@[1].3))
    } else if name == MAP_CONTRACT@[2].0@ {
        Some((MAP_CONTRACT@[2].1, MAP_CONTRACT@[2].2, MAP_CONTRACT@[2].3))
    } else {
        None
    }
}

/// The contract accepts a map under this name with this layout.
pub open spec fn map_verdict(m: MapDef, index: usize) -> Result<(), LoadError> {
    match contract_of(m.name@) {
        None => Err(LoadError::UnexpectedMap(index)),
        Some(expected) => if (m.map_type, m.value_size, m.max_entries) == expected && m.key_size
            == 4 && m.data_len == 0 {
            Ok(())
        } else {
            Err(LoadError::UnexpectedLayout(index))
        },
    }
}

/// Check a map against the contract.
pub fn check_map(m: &MapDef, index: usize) -> (r: Result<(), LoadError>)
    ensures
        r == map_verdict(*m, index),
{
    let mut i: usize = 0;
    while i < 3
        invariant
            i <= 3,
            forall|k: int| 0 <= k < i ==> m.name@ != MAP_CONTRACT@[k].0@,
        decreases 3 - i,
    {
        let e: (&'static str, u32, u32, u32) = MAP_CONTRACT[i];
        if same_text(m.name.as_str(), e.0) {
            proof {
                assert(m.name@ == MAP_CONTRACT@[i as int].0@);
                if i == 1 {
                    assert(m.name@ != MAP_CONTRACT@[0].0@);
                }
                if i == 2 {
                    assert(m.name@ != MAP_CONTRACT@[0].0@ && m.name@ != MAP_CONTRACT@[1].0@);
                }
                assert(i == 0 || i == 1 || i == 2);
                assert(contract_of(m.name@) == Some((e.1, e.2, e.3)));
            }
            if m.map_type == e.1 && m.value_size == e.2 && m.max_entries == e.3 && m.key_size == 4
                && m.data_len == 0 {
                return Ok(());
            }
            return Err(LoadError::UnexpectedLayout(index));
        }
        i += 1;
    }
    assert(m.name@ != MAP_CONTRACT@[0].0@ && m.name@ != MAP_CONTRACT@[1].0@ && m.name@
        != MAP_CONTRACT@[2].0@);
    Err(LoadError::UnexpectedMap(index))
}

/// map_create layout: map_type@0, key_size@4, value_size@8, max_entries@12,
/// map_flags@16, map_name@28 (16 bytes); for the spinlock map also
/// btf_fd@48, btf_key_type_id@52 and btf_value_type_id@56.
pub open spec fn map_create_bytes(order: ByteOrder, m: MapDef, btf: i32) -> Seq<u8> {
    let plain = put_at(
        put_at(
            put_at(
                put_at(
                    put_at(
                        put_at(zeroed(), 0, bytes32(order, m.map_type)),
                        4,
                        bytes32(order, m.key_size),
                    ),
                    8,
                    bytes32(order, m.value_size),
                ),
                12,
                bytes32(order, m.max_entries),
            ),
            16,
            bytes32(order, m.map_flags),
        ),
        28,
        encode_utf8(m.name@),
    );
    if m.name@ == "BUDGET"@ {
        put_at(
            put_at(
                put_at(plain, 48, bytes32(order, btf as u32)),
                52,
                bytes32(order, TYPE_U32),
            ),
            56,
            bytes32(order, TYPE_BUDGET),
        )
    } else {
        plain
    }
}

/// The contract's names fit a 16-byte name field.
proof fn contract_names_fit(name: Seq<char>)
    requires
        contract_of(name) is Some,
    ensures
        encode_utf8(name).len() < 16,
{
    reveal_strlit("CONFIG");
    reveal_strlit("COUNTERS");
    reveal_strlit("BUDGET");
    assert(name == "CONFIG"@ || name == "COUNTERS"@ || name == "BUDGET"@);
    is_ascii_chars_encode_utf8(name);
}

/// The request that creates a map of the contract. `btf` is the file
/// descriptor of the loaded BTF blob.
pub fn create_map(order: ByteOrder, m: &MapDef, index: usize, btf: i32) -> (r: Result<
    Request,
    LoadError,
>)
    ensures
        match map_verdict(*m, index) {
            Ok(_) => r is Ok && r->Ok_0.says(BPF_MAP_CREATE, 64, map_create_bytes(order, *m, btf)),
            Err(e) => r is Err && r->Err_0 == e,
        },
        r matches Ok(q) ==> {
            let a = q.attr.bytes@;
            &&& value32(order, a, 0) == m.map_type
            &&& value32(order, a, 4) == m.key_size
            &&& value32(order, a, 8) == m.value_size
            &&& value32(order, a, 12) == m.max_entries
            &&& value32(order, a, 16) == m.map_flags
        },
{
    match check_map(m, index) {
        Ok(_) => {},
        Err(e) => {
            return Err(e);
        },
    }
    proof {
        contract_names_fit(m.name@);
        create_request_reads_back(order, *m, index, btf);
    }
    let mut a: Attr = Attr::new();
    a.put_u32(order, 0, m.map_type);
    a.put_u32(order, 4, m.key_size);
    a.put_u32(order, 8, m.value_size);
    a.put_u32(order, 12, m.max_entries);
    a.put_u32(order, 16, m.map_flags);
    match a.name(28, m.name.as_str()) {
        Ok(_) => {},
        Err(_) => {
            return Err(LoadError::UnexpectedMap(index));
        },
    }
    if same_text(m.name.as_str(), "BUDGET") {
        a.put_u32(order, 48, btf as u32);
        a.put_u32(order, 52, TYPE_U32);
        a.put_u32(order, 56, TYPE_BUDGET);
    }
    Ok(Request { command: BPF_MAP_CREATE, len: 64, attr: a })
}

/// prog_load layout: prog_type@0, insn_cnt@4, insns@8 (ptr), license@16
/// (ptr), prog_name@48 (16 bytes).
pub open spec fn prog_load_bytes(
    order: ByteOrder,
    count: u32,
    instructions: u64,
    license: u64,
) -> Seq<u8> {
    put_at(
        put_at(
            put_at(
                put_at(
                    put_at(zeroed(), 0, bytes32(order, PROG_TYPE_SCHED_ACT)),
                    4,
                    bytes32(order, count),
                ),
                8,
                bytes64(order, instructions),
            ),
            16,
            bytes64(order, license),
        ),
        48,
        encode_utf8("rrb_redirect"@),
    )
}

/// The request that loads the program as a tc action, without asking for a
/// trace: Linux 5.4 can abort verification when a verbose trace fills its
/// buffer.
pub fn load_program(order: ByteOrder, count: u32, instructions: u64, license: u64) -> (r: Request)
    ensures
        r.says(BPF_PROG_LOAD, 72, prog_load_bytes(order, count, instructions, license)),
{
    let mut a: Attr = Attr::new();
    a.put_u32(order, 0, PROG_TYPE_SCHED_ACT);
    a.put_u32(order, 4, count);
    a.put_u64(order, 8, instructions);
    a.put_u64(order, 16, license);
    proof {
        reveal_strlit("rrb_redirect");
        is_ascii_chars_encode_utf8("rrb_redirect"@);
    }
    let named: Result<(), super::sys::SysError> = a.name(48, PROGRAM_NAME);
    assert(named is Ok);
    Request { command: BPF_PROG_LOAD, len: 72, attr: a }
}

/// The same layout with diagnostics: log_level@24, log_size@28, log_buf@32.
pub open spec fn prog_trace_bytes(
    order: ByteOrder,
    count: u32,
    instructions: u64,
    license: u64,
    log: u64,
) -> Seq<u8> {
    put_at(
        put_at(
            put_at(prog_load_bytes(order, count, instructions, license), 24, bytes32(order, 1)),
            28,
            bytes32(order, 16777216),
        ),
        32,
        bytes64(order, log),
    )
}

/// The same request with diagnostics.
pub fn load_program_traced(
    order: ByteOrder,
    count: u32,
    instructions: u64,
    license: u64,
    log: u64,
) -> (r: Request)
    ensures
        r.says(BPF_PROG_LOAD, 72, prog_trace_bytes(order, count, instructions, license, log)),
{
    let mut r: Request = load_program(order, count, instructions, license);
    r.attr.put_u32(order, 24, 1);
    r.attr.put_u32(order, 28, PROGRAM_LOG_LEN as u32);
    r.attr.put_u64(order, 32, log);
    r
}

/// The work to do next while an object is loaded.
#[derive(Clone, Copy, Debug, PartialEq, Eq, Structural)]
pub enum LoadStep {
    /// Load the BTF blob.
    LoadBtf,
    /// Create the map at this index.
    CreateMap(usize),
    /// Relocate the object against the created maps.
    Relocate,
    /// Load the program at this index.
    LoadProgram(usize),
    /// Load it again, with diagnostics.
    TraceProgram(usize),
    /// Check that the loaded program is a tc action.
    IdentifyProgram(usize),
    /// Everything is loaded.
    Loaded,
    /// The object is refused.
    Refused(LoadError),
}

impl ObjectDef {
    /// The name of map `i` occurs among the maps before it.
    pub open spec fn is_repeated(self, i: int) -> bool {
        exists|k: int| 0 <= k < i && (#[trigger] self.maps@[k]).name@ == self.maps@[i].name@
    }

    /// The step at which map `i` is due.
    pub open spec fn map_step(self, i: int) -> LoadStep {
        if i < self.maps@.len() {
            match map_verdict(self.maps@[i], i as usize) {
                Ok(_) => if self.is_repeated(i) {
                    LoadStep::Refused(LoadError::RepeatedMap(i as usize))
                } else {
                    LoadStep::CreateMap(i as usize)
                },
                Err(e) => LoadStep::Refused(e),
            }
        } else if i == MAP_CONTRACT@.len() {
            LoadStep::Relocate
        } else {
            LoadStep::Refused(LoadError::MissingMaps)
        }
    }

    /// The step at which program `i` is due.
    pub open spec fn program_step(self, i: int) -> LoadStep {
        if i < self.programs@.len() {
            if self.programs@[i]@ == "rrb_redirect"@ {
                LoadStep::LoadProgram(i as usize)
            } else {
                LoadStep::Refused(LoadError::UnexpectedProgram(i as usize))
            }
        } else if i == 1 {
            LoadStep::Loaded
        } else {
            LoadStep::Refused(LoadError::MissingProgram)
        }
    }

    /// The step after `step` went well or not.
    pub open spec fn following(self, step: LoadStep, ok: bool) -> LoadStep {
        match step {
            LoadStep::LoadBtf => if ok {
                self.map_step(0)
            } else {
                LoadStep::Refused(LoadError::Btf)
            },
            LoadStep::CreateMap(i) => if ok {
                self.map_step(i + 1)
            } else {
                LoadStep::Refused(LoadError::MapRefused(i))
            },
            LoadStep::Relocate => if ok {
                self.program_step(0)
            } else {
                LoadStep::Refused(LoadError::Relocation)
            },
            LoadStep::LoadProgram(i) => if ok {
                LoadStep::IdentifyProgram(i)
            } else {
                LoadStep::TraceProgram(i)
            },
            LoadStep::TraceProgram(i) => if ok {
                LoadStep::IdentifyProgram(i)
            } else {
                LoadStep::Refused(LoadError::ProgramRefused(i))
            },
            LoadStep::IdentifyProgram(i) => if ok {
                self.program_step(i + 1)
            } else {
                LoadStep::Refused(LoadError::ProgramKind(i))
            },
            LoadStep::Loaded => LoadStep::Loaded,
            LoadStep::Refused(e) => LoadStep::Refused(e),
        }
    }

    /// The step after the last of `outcomes`, from the first step on.
    pub open spec fn after(self, outcomes: Seq<bool>) -> LoadStep
        decreases outcomes.len(),
    {
        if outcomes.len() == 0 {
            LoadStep::LoadBtf
        } else {
            self.following(self.after(outcomes.drop_last()), outcomes.last())
        }
    }

    /// A step's index is one of this object's.
    pub open spec fn has_step(self, step: LoadStep) -> bool {
        match step {
            LoadStep::CreateMap(i) => i < self.maps@.len(),
            LoadStep::LoadProgram(i) => i < self.programs@.len(),
            LoadStep::TraceProgram(i) => i < self.programs@.len(),
            LoadStep::IdentifyProgram(i) => i < self.programs@.len(),
            _ => true,
        }
    }

    /// No two of the first `n` maps share a name.
    pub open spec fn distinct_maps(self, n: int) -> bool {
        forall|i: int, j: int|
            0 <= i < j < n ==> (#[trigger] self.maps@[i]).name@ != (#[trigger] self.maps@[j]).name@
    }

    /// The maps, each of its own name, and the one program are those of the
    /// contract.
    pub open spec fn fits_contract(self) -> bool {
        &&& self.maps@.len() == MAP_CONTRACT@.len()
        &&& forall|i: int| 0 <= i < self.maps@.len() ==> map_verdict(#[trigger] self.maps@[i], 0) is Ok
        &&& self.distinct_maps(self.maps@.len() as int)
        &&& self.programs@.len() == 1
        &&& self.programs@[0]@ == "rrb_redirect"@
    }

    /// Whether the name of map `i` occurs among the maps before it.
    fn repeats(&self, i: usize) -> (r: bool)
        requires
            i < self.maps@.len(),
        ensures
            r == self.is_repeated(i as int),
    {
        let mut k: usize = 0;
        while k < i
            invariant
                k <= i < self.maps@.len(),
                forall|j: int|
                    0 <= j < k ==> (#[trigger] self.maps@[j]).name@ != self.maps@[i as int].name@,
            decreases i - k,
        {
            if same_text(self.maps[k].name.as_str(), self.maps[i].name.as_str()) {
                assert(self.maps@[k as int].name@ == self.maps@[i as int].name@);
                return true;
            }
            k += 1;
        }
        false
    }

    fn at_map(&self, i: usize) -> (r: LoadStep)
        requires
            i <= self.maps@.len(),
        ensures
            r == self.map_step(i as int),
    {
        if i < self.maps.len() {
            match check_map(&self.maps[i], i) {
                Ok(_) => if self.repeats(i) {
                    LoadStep::Refused(LoadError::RepeatedMap(i))
                } else {
                    LoadStep::CreateMap(i)
                },
                Err(e) => LoadStep::Refused(e),
            }
        } else if i == MAP_CONTRACT.len() {
            LoadStep::Relocate
        } else {
            LoadStep::Refused(LoadError::MissingMaps)
        }
    }

    fn at_program(&self, i: usize) -> (r: LoadStep)
        requires
            i <= self.programs@.len(),
        ensures
            r == self.program_step(i as int),
    {
        if i < self.programs.len() {
            if same_text(self.programs[i].as_str(), PROGRAM_NAME) {
                LoadStep::LoadProgram(i)
            } else {
                LoadStep::Refused(LoadError::UnexpectedProgram(i))
            }
        } else if i == 1 {
            LoadStep::Loaded
        } else {
            LoadStep::Refused(LoadError::MissingProgram)
        }
    }

    /// What to do after `step` went well or not. Loading starts with
    /// `LoadStep::LoadBtf`.
    pub fn load(&self, step: LoadStep, ok: bool) -> (next: LoadStep)
        requires
            self.has_step(step),
        ensures
            next == self.following(step, ok),
            self.has_step(next),
    {
        match step {
            LoadStep::LoadBtf => if ok {
                self.at_map(0)
            } else {
                LoadStep::Refused(LoadError::Btf)
            },
            LoadStep::CreateMap(i) => if ok {
                assert(i < self.maps.len());
                self.at_map(i + 1)
            } else {
                LoadStep::Refused(LoadError::MapRefused(i))
            },
            LoadStep::Relocate => if ok {
                self.at_program(0)
            } else {
                LoadStep::Refused(LoadError::Relocation)
            },
            LoadStep::LoadProgram(i) => if ok {
                LoadStep::IdentifyProgram(i)
            } else {
                LoadStep::TraceProgram(i)
            },
            LoadStep::TraceProgram(i) => if ok {
                LoadStep::IdentifyProgram(i)
            } else {
                LoadStep::Refused(LoadError::ProgramRefused(i))
            },
            LoadStep::IdentifyProgram(i) => if ok {
                assert(i < self.programs.len());
                self.at_program(i + 1)
            } else {
                LoadStep::Refused(LoadError::ProgramKind(i))
            },
            LoadStep::Loaded => LoadStep::Loaded,
            LoadStep::Refused(e) => LoadStep::Refused(e),
        }
    }
}

/// What is known of the object when a step is due.
spec fn known(o: ObjectDef, step: LoadStep) -> bool {
    let maps_ok = |n: int|
        o.distinct_maps(n) && forall|k: int|
            0 <= k < n ==> map_verdict(#[trigger] o.maps@[k], 0) is Ok;
    let all_maps = o.maps@.len() == MAP_CONTRACT@.len() && maps_ok(o.maps@.len() as int);
    let programs_ok = |n: int|
        forall|k: int| 0 <= k < n ==> (#[trigger] o.programs@[k])@ == "rrb_redirect"@;
    &&& o.has_step(step)
    &&& match step {
        LoadStep::LoadBtf => true,
        LoadStep::CreateMap(i) => maps_ok(i + 1),
        LoadStep::Relocate => all_maps,
        LoadStep::LoadProgram(i) => all_maps && programs_ok(i + 1),
        LoadStep::TraceProgram(i) => all_maps && programs_ok(i + 1),
        LoadStep::IdentifyProgram(i) => all_maps && programs_ok(i + 1),
        LoadStep::Loaded => o.fits_contract(),
        LoadStep::Refused(_) => true,
    }
}

/// Whether a map is accepted does not depend on its index.
proof fn verdict_ignores_index(m: MapDef, i: usize)
    ensures
        map_verdict(m, i) is Ok <==> map_verdict(m, 0) is Ok,
{
}

proof fn known_stays(o: ObjectDef, step: LoadStep, ok: bool)
    requires
        known(o, step),
        o.maps@.len() <= usize::MAX,
        o.programs@.len() <= usize::MAX,
    ensures
        known(o, o.following(step, ok)),
{
    match step {
        LoadStep::LoadBtf => {
            if 0 < o.maps@.len() {
                verdict_ignores_index(o.maps@[0], 0);
            }
        },
        LoadStep::CreateMap(i) => {
            if i + 1 < o.maps@.len() {
                verdict_ignores_index(o.maps@[i + 1], (i + 1) as usize);
            }
        },
        _ => {},
    }
}

/// However the steps turn out, loading ends well only for an object whose
/// maps, each of its own name, and program are those of the contract.
pub proof fn only_the_contract_loads(o: ObjectDef, outcomes: Seq<bool>)
    requires
        o.maps@.len() <= usize::MAX,
        o.programs@.len() <= usize::MAX,
    ensures
        o.has_step(o.after(outcomes)),
        o.after(outcomes) == LoadStep::Loaded ==> o.fits_contract(),
{
    assert(known(o, o.after(outcomes))) by {
        known_after(o, outcomes);
    }
}

proof fn known_after(o: ObjectDef, outcomes: Seq<bool>)
    requires
        o.maps@.len() <= usize::MAX,
        o.programs@.len() <= usize::MAX,
    ensures
        known(o, o.after(outcomes)),
    decreases outcomes.len(),
{
    if outcomes.len() > 0 {
        known_after(o, outcomes.drop_last());
        known_stays(o, o.after(outcomes.drop_last()), outcomes.last());
    }
}

/// An object of the contract loads in seven steps that all go well: the
/// BTF blob, the three maps, the relocation, the program, and its check.
pub proof fn the_contract_loads(o: ObjectDef)
    requires
        o.fits_contract(),
    ensures
        o.after(Seq::new(7, |i: int| true)) == LoadStep::Loaded,
{
    let all = Seq::new(7, |i: int| true);
    assert forall|i: int| 0 < i <= 7 implies o.after(#[trigger] all.take(i)) == o.following(
        o.after(all.take(i - 1)),
        true,
    ) by {
        assert(all.take(i).drop_last() =~= all.take(i - 1));
    }
    verdict_ignores_index(o.maps@[0], 0);
    verdict_ignores_index(o.maps@[1], 1);
    verdict_ignores_index(o.maps@[2], 2);
    assert(all.take(7) =~= all);
    assert(o.after(all.take(0)) == LoadStep::LoadBtf);
    assert(o.after(all.take(1)) == LoadStep::CreateMap(0));
    assert(o.after(all.take(2)) == LoadStep::CreateMap(1));
    assert(o.after(all.take(3)) == LoadStep::CreateMap(2));
    assert(o.after(all.take(4)) == LoadStep::Relocate);
    assert(o.after(all.take(5)) == LoadStep::LoadProgram(0));
    assert(o.after(all.take(6)) == LoadStep::IdentifyProgram(0));
}

/// An accepted object declares every map of the contract.
pub proof fn no_map_is_missing(o: ObjectDef, e: int)
    requires
        o.fits_contract(),
        0 <= e < MAP_CONTRACT@.len(),
    ensures
        exists|i: int|
            0 <= i < o.maps@.len() && (#[trigger] o.maps@[i]).name@ == MAP_CONTRACT@[e].0@,
{
    let a = o.maps@[0].name@;
    let b = o.maps@[1].name@;
    let c = o.maps@[2].name@;
    assert(contract_of(a) is Some);
    assert(contract_of(b) is Some);
    assert(contract_of(c) is Some);
    assert(a != b && b != c && a != c);
    let n = MAP_CONTRACT@[e].0@;
    assert(e == 0 || e == 1 || e == 2);
    assert(a == n || b == n || c == n);
}

} // verus!
