//! The map contract, the BTF blob, map values and `bpf()` requests.
use rerrb::common::{Budget, Config, Peer, ABI, COUNTER_NAMES, MODE_FORWARD};
use rerrb::loader::abi::{budget_usage, decode_config, encode_config};
use rerrb::loader::load::{
    check_map, create_map, load_program, load_program_traced, LoadError, LoadStep, MapDef,
    ObjectDef,
};
use rerrb::loader::sys::{
    self, log_text, map_shape, program_id, raise_memlock, slots_len, sum_slots, Attr, SysError,
};
use rerrb::loader::{budget_btf, budget_btf_for, MAP_CONTRACT, PROGRAM_NAME, PROG_TYPE_SCHED_ACT};
use rerrb::wire::ByteOrder;

/// Bytes of a `BUDGET` value as the kernel keeps it.
fn budget_value(order: ByteOrder, b: &Budget) -> Vec<u8> {
    let mut v = order.put32(b.lock).to_vec();
    v.extend(order.put32(b.reserved));
    v.extend(order.put64(b.window));
    v.extend(order.put64(b.used));
    v.extend(order.put64(b.total));
    v
}

/// Byte offset that the BTF blob gives for a member of `Budget`.
fn member_offset(blob: &[u8], name: &str) -> usize {
    let order = ByteOrder::native();
    let word = |i: usize| order.get32(blob, 24 + 4 * i) as usize;
    let strings = &blob[24 + order.get32(blob, 16) as usize..];
    // `Budget` is the last type: five members of three words each.
    for member in [17, 20, 23, 26, 29] {
        let text = &strings[word(member)..];
        if text.starts_with(name.as_bytes()) && text[name.len()] == 0 {
            assert_eq!(word(member + 2) % 8, 0);
            return word(member + 2) / 8;
        }
    }
    panic!("no member {name}")
}

#[test]
fn spinlock_btf_and_rust_abi_agree() {
    let bytes = budget_btf();
    assert_eq!(member_offset(&bytes, "lock"), 0);
    assert_eq!(member_offset(&bytes, "reserved"), 4);
    assert_eq!(member_offset(&bytes, "window"), 8);
    assert_eq!(member_offset(&bytes, "used"), 16);
    assert_eq!(member_offset(&bytes, "total"), 24);
    // What is read of a map value lies where the blob says.
    let order = ByteOrder::native();
    let mut value = [0u8; 32];
    value[member_offset(&bytes, "used")..][..8].copy_from_slice(&order.put64(7));
    value[member_offset(&bytes, "total")..][..8].copy_from_slice(&order.put64(9));
    assert_eq!(budget_usage(order, &value), (7, 9));
    // Must be a well-formed BTF blob an independent parser accepts.
    aya_obj::btf::Btf::parse(&bytes, object::Endianness::Little).unwrap();
}

#[test]
fn btf_blob_is_exact() {
    let blob = budget_btf_for(ByteOrder::Little);
    assert_eq!(&blob[..8], &[0x9f, 0xeb, 1, 0, 24, 0, 0, 0]);
    // type_off 0, type_len 128, str_off 128, str_len 66
    assert_eq!(&blob[8..24], &[0, 0, 0, 0, 128, 0, 0, 0, 128, 0, 0, 0, 66, 0, 0, 0]);
    assert_eq!(blob.len(), 24 + 128 + 66);
    // u32: name 1, kind INT, 4 bytes, 32 bits
    assert_eq!(&blob[24..40], &[1, 0, 0, 0, 0, 0, 0, 1, 4, 0, 0, 0, 32, 0, 0, 0]);
    // struct bpf_spin_lock: name 9, STRUCT with one member, 4 bytes
    assert_eq!(&blob[56..68], &[9, 0, 0, 0, 1, 0, 0, 4, 4, 0, 0, 0]);
    // member total: name 60, type u64, bit 192
    assert_eq!(&blob[140..152], &[60, 0, 0, 0, 2, 0, 0, 0, 192, 0, 0, 0]);
    assert_eq!(
        &blob[152..],
        b"\0u32\0u64\0bpf_spin_lock\0val\0Budget\0lock\0reserved\0window\0used\0total\0"
    );
    let big = budget_btf_for(ByteOrder::Big);
    assert_eq!(&big[..8], &[0x9f, 0xeb, 1, 0, 0, 0, 0, 24]);
    assert_eq!(&big[24..40], &[0, 0, 0, 1, 1, 0, 0, 0, 0, 0, 0, 4, 0, 0, 0, 32]);
}

#[test]
fn native_order_is_the_machines() {
    assert_eq!(ByteOrder::of_reading(1), ByteOrder::Little);
    assert_eq!(ByteOrder::of_reading(256), ByteOrder::Big);
    let order = ByteOrder::native();
    assert_eq!(order, ByteOrder::of_reading(u16::from_ne_bytes([1, 0])));
    assert_eq!(order.put32(0x0102_0304), 0x0102_0304u32.to_ne_bytes());
    assert_eq!(order.put16(0x0102), 0x0102u16.to_ne_bytes());
    assert_eq!(order.put64(0x0102_0304_0506_0708), 0x0102_0304_0506_0708u64.to_ne_bytes());
    assert_eq!(budget_btf(), budget_btf_for(order));
}

#[test]
fn map_contract_is_exact() {
    assert_eq!(
        MAP_CONTRACT,
        [("CONFIG", 2, 232, 1), ("COUNTERS", 6, 8, 23), ("BUDGET", 2, 32, 1)]
    );
    assert_eq!(COUNTER_NAMES.len(), 23);
    assert_eq!(PROGRAM_NAME, "rrb_redirect");
    assert_eq!(PROG_TYPE_SCHED_ACT, 4);
}

fn sample() -> Config {
    let mut c = Config {
        deadline_ns: 0x1122_3344_5566_7788,
        max_packets: 9,
        mode: MODE_FORWARD,
        target_ifindex: 0x0a0b_0c0d,
        packets_per_second: 20,
        management_vlan: 0x0102,
        peer_count: 2,
        r0kh_len: 3,
        source_count: 1,
        target_mac: [1, 2, 3, 4, 5, 6],
        local_bssid: [7, 8, 9, 10, 11, 12],
        ..Config::default()
    };
    c.source_ifindexes[7] = 77;
    c.r0kh[47] = 47;
    c.peers[7] = Peer {
        mac: [21, 22, 23, 24, 25, 26],
        bssid: [31, 32, 33, 34, 35, 36],
    };
    c
}

#[test]
fn config_value_layout_and_round_trip() {
    for order in [ByteOrder::Little, ByteOrder::Big] {
        let c = sample();
        let v = encode_config(order, &c);
        assert_eq!(v.len(), 232);
        assert_eq!(order.get32(&v, 16), ABI);
        assert_eq!(order.get32(&v, 20), MODE_FORWARD);
        assert_eq!(order.get32(&v, 52), 77);
        assert_eq!(order.get32(&v, 56), 0x0a0b_0c0d);
        assert_eq!(order.get16(&v, 64), 0x0102);
        assert_eq!(&v[66..75], &[2, 3, 1, 1, 2, 3, 4, 5, 6]);
        assert_eq!(v[128], 47);
        assert_eq!(&v[213..225], &[21, 22, 23, 24, 25, 26, 31, 32, 33, 34, 35, 36]);
        assert_eq!(&v[225..], &[0; 7]);
        let d = decode_config(order, &v);
        assert_eq!(encode_config(order, &d), v);
        assert_eq!(d.deadline_ns, c.deadline_ns);
        assert_eq!(d.peers[7].bssid, c.peers[7].bssid);
    }
    assert_eq!(&encode_config(ByteOrder::Little, &sample())[..2], &[0x88, 0x77]);
    assert_eq!(&encode_config(ByteOrder::Big, &sample())[..2], &[0x11, 0x22]);
}

#[test]
fn config_of_another_abi_is_refused() {
    let order = ByteOrder::Little;
    let mut v = encode_config(order, &sample());
    assert_eq!(sys::config_of(order, &v).unwrap().max_packets, 9);
    v[16] += 1;
    assert_eq!(sys::config_of(order, &v).unwrap_err(), SysError::ConfigAbiMismatch);
}

#[test]
fn budget_usage_reads_used_and_total() {
    for order in [ByteOrder::Little, ByteOrder::Big] {
        let b = Budget { lock: 1, reserved: 2, window: 3, used: 4, total: 5 };
        assert_eq!(budget_usage(order, &budget_value(order, &b)), (4, 5));
    }
}

#[test]
fn attribute_fields_and_names() {
    let mut a = Attr::new();
    assert_eq!(a.bytes, [0; 144]);
    a.put_u32(ByteOrder::Little, 4, 0x0403_0201);
    a.put_u64(ByteOrder::Big, 8, 0x0102_0304_0506_0708);
    assert_eq!(&a.bytes[..18], &[0, 0, 0, 0, 1, 2, 3, 4, 1, 2, 3, 4, 5, 6, 7, 8, 0, 0]);
    assert_eq!(a.name(129, "123456789012345"), Ok(()));
    assert_eq!(&a.bytes[129..], b"123456789012345");
    let before = a.bytes;
    assert_eq!(a.name(28, "1234567890123456"), Err(SysError::NameTooLong));
    assert_eq!(a.bytes, before);
}

#[test]
fn object_requests() {
    let order = ByteOrder::Little;
    let r = sys::info(order, 7, 0x1000);
    assert_eq!((r.command, r.len), (15, 16));
    assert_eq!(&r.attr.bytes[..18], &[7, 0, 0, 0, 0, 1, 0, 0, 0, 0x10, 0, 0, 0, 0, 0, 0, 0, 0]);
    let r = sys::pin(order, 7, 0x1000);
    assert_eq!((r.command, r.len), (6, 16));
    assert_eq!(&r.attr.bytes[..12], &[0, 0x10, 0, 0, 0, 0, 0, 0, 7, 0, 0, 0]);
    let r = sys::get(order, 0x1000);
    assert_eq!((r.command, r.len), (7, 16));
    assert_eq!(&r.attr.bytes[..9], &[0, 0x10, 0, 0, 0, 0, 0, 0, 0]);
    let r = sys::lookup(order, -1, 2, 3, 4);
    assert_eq!((r.command, r.len), (1, 32));
    assert_eq!(&r.attr.bytes[..4], &[255; 4]);
    assert_eq!((r.attr.bytes[8], r.attr.bytes[16], r.attr.bytes[24]), (2, 3, 4));
    let r = sys::update(order, 5, 2, 3);
    assert_eq!((r.command, r.len), (2, 32));
    assert_eq!((r.attr.bytes[0], r.attr.bytes[16], r.attr.bytes[24]), (5, 3, 0));
    let r = sys::load_btf(order, 1, 2, 218);
    assert_eq!((r.command, r.len), (18, 28));
    assert_eq!(&r.attr.bytes[16..28], &[218, 0, 0, 0, 0, 0, 1, 0, 1, 0, 0, 0]);
}

/// A map's info with this shape.
fn map_info(kind: u32, key: u32, value: u32, entries: u32) -> Vec<u8> {
    let mut v = vec![0u8; 256];
    for (at, n) in [(0, kind), (8, key), (12, value), (16, entries)] {
        v[at..at + 4].copy_from_slice(&n.to_le_bytes());
    }
    v
}

#[test]
fn pinned_objects_are_checked() {
    let order = ByteOrder::Little;
    let mut info = vec![0u8; 256];
    info[0] = 4;
    info[4] = 42;
    assert_eq!(program_id(order, &info), Ok(42));
    info[0] = 3;
    assert_eq!(program_id(order, &info), Err(SysError::NotSchedAct));
    let good = map_info(2, 4, 232, 1);
    assert_eq!(map_shape(order, &good, 2, 232, 1), Ok(()));
    for bad in [
        map_info(6, 4, 232, 1),
        map_info(2, 8, 232, 1),
        map_info(2, 4, 228, 1),
        map_info(2, 4, 232, 2),
    ] {
        assert_eq!(map_shape(order, &bad, 2, 232, 1), Err(SysError::MapAbiMismatch));
        assert!(sys::write_config(order, &bad, 3, 4, 5).is_err());
        assert!(sys::read_config(order, &bad, 3, 4, 5).is_err());
    }
    let r = sys::write_config(order, &good, 3, 4, 5).unwrap_or_else(|_| panic!("refused"));
    assert_eq!((r.command, r.len, r.attr.bytes[0]), (2, 32, 3));
    let r = sys::read_config(order, &good, 3, 4, 5).unwrap_or_else(|_| panic!("refused"));
    assert_eq!((r.command, r.attr.bytes[24]), (1, 0));
    let r = sys::budget(order, &map_info(2, 4, 32, 1), 3, 4, 5).unwrap_or_else(|_| panic!("refused"));
    assert_eq!((r.command, r.attr.bytes[24]), (1, 4));
    assert_eq!(sys::counters(order, &map_info(6, 4, 8, 23)), Ok(()));
    assert_eq!(sys::counters(order, &map_info(6, 4, 8, 22)), Err(SysError::MapAbiMismatch));
}

#[test]
fn possible_cpu_ranges() {
    assert_eq!(slots_len("0-3\n"), Ok(32));
    assert_eq!(slots_len("0"), Ok(8));
    assert_eq!(slots_len(" 0-3,8,10-11 \n"), Ok(56));
    assert_eq!(slots_len("+0-+3"), Ok(32));
    assert_eq!(slots_len("0-3-9"), Ok(32));
    assert_eq!(slots_len("0-65535"), Ok(524288));
    assert_eq!(slots_len("0-65536"), Err(SysError::CpuRange));
    assert_eq!(slots_len("3-0"), Err(SysError::CpuRange));
    for bad in ["", "x", "0-", "-1", "0,,1", "0- 3", "99999999999999999999999"] {
        assert_eq!(slots_len(bad), Err(SysError::CpuNumber), "{bad:?}");
    }
}

#[test]
fn counter_slots_add_up() {
    let order = ByteOrder::Little;
    assert_eq!(sum_slots(order, &[]), Ok(0));
    let mut slots = vec![];
    for n in [1u64, 2, 0x1_0000_0000] {
        slots.extend(n.to_le_bytes());
    }
    assert_eq!(sum_slots(order, &slots), Ok(0x1_0000_0003));
    // An incomplete slot is left out.
    slots.push(9);
    assert_eq!(sum_slots(order, &slots), Ok(0x1_0000_0003));
    let full = [255u8; 16];
    assert_eq!(sum_slots(order, &full[..8]), Ok(u64::MAX));
    assert_eq!(sum_slots(order, &full), Err(SysError::CounterOverflow));
}

#[test]
fn log_text_ends_at_the_first_nul() {
    assert_eq!(log_text(b"verifier says no\0\0garbage"), "verifier says no");
    assert_eq!(log_text(b"no end"), "no end");
    assert_eq!(log_text(b"\0x"), "");
    assert_eq!(log_text(b"bad \xff byte\0"), "bad \u{fffd} byte");
    assert_eq!(log_text("gr\u{fc}n\0".as_bytes()), "gr\u{fc}n");
}

#[test]
fn memlock_is_raised_only_when_needed() {
    assert_eq!(raise_memlock(65536, 65536), Some((16777216, 16777216)));
    assert_eq!(raise_memlock(65536, u64::MAX), Some((16777216, u64::MAX)));
    assert_eq!(raise_memlock(16777216, 16777216), None);
}

fn map(name: &str, map_type: u32, value_size: u32, max_entries: u32) -> MapDef {
    MapDef {
        name: name.to_string(),
        map_type,
        key_size: 4,
        value_size,
        max_entries,
        map_flags: 0,
        data_len: 0,
    }
}

fn object() -> ObjectDef {
    ObjectDef {
        maps: vec![map("BUDGET", 2, 32, 1), map("CONFIG", 2, 232, 1), map("COUNTERS", 6, 8, 23)],
        programs: vec!["rrb_redirect".to_string()],
    }
}

#[test]
fn maps_are_held_to_the_contract() {
    assert_eq!(check_map(&map("CONFIG", 2, 232, 1), 0), Ok(()));
    assert_eq!(check_map(&map(".rodata", 2, 232, 1), 3), Err(LoadError::UnexpectedMap(3)));
    assert_eq!(check_map(&map("CONFIG", 2, 231, 1), 1), Err(LoadError::UnexpectedLayout(1)));
    assert_eq!(check_map(&map("CONFIG", 6, 232, 1), 1), Err(LoadError::UnexpectedLayout(1)));
    assert_eq!(check_map(&map("CONFIG", 2, 232, 2), 1), Err(LoadError::UnexpectedLayout(1)));
    let mut m = map("COUNTERS", 6, 8, 23);
    m.key_size = 8;
    assert_eq!(check_map(&m, 0), Err(LoadError::UnexpectedLayout(0)));
    m.key_size = 4;
    m.data_len = 1;
    assert_eq!(check_map(&m, 0), Err(LoadError::UnexpectedLayout(0)));
}

#[test]
fn map_requests() {
    let order = ByteOrder::Little;
    let r = create_map(order, &map("CONFIG", 2, 232, 1), 0, 9).unwrap_or_else(|_| panic!("refused"));
    assert_eq!((r.command, r.len), (0, 64));
    let b = r.attr.bytes;
    assert_eq!((b[0], b[4], b[8], b[12], b[16]), (2, 4, 232, 1, 0));
    assert_eq!(&b[28..35], b"CONFIG\0");
    assert_eq!(&b[44..64], &[0; 20]);
    // The spinlock map is wired to its BTF: key type 1, value type 4.
    let r = create_map(order, &map("BUDGET", 2, 32, 1), 0, 9).unwrap_or_else(|_| panic!("refused"));
    assert_eq!(&r.attr.bytes[48..60], &[9, 0, 0, 0, 1, 0, 0, 0, 4, 0, 0, 0]);
    match create_map(order, &map("OTHER", 2, 32, 1), 5, 9) {
        Err(e) => assert_eq!(e, LoadError::UnexpectedMap(5)),
        Ok(_) => panic!("accepted"),
    }
}

#[test]
fn program_requests() {
    let order = ByteOrder::Little;
    let r = load_program(order, 300, 0x10, 0x20);
    assert_eq!((r.command, r.len), (5, 72));
    let b = r.attr.bytes;
    assert_eq!(&b[..8], &[4, 0, 0, 0, 44, 1, 0, 0]);
    assert_eq!((b[8], b[16], b[24], b[28], b[32]), (0x10, 0x20, 0, 0, 0));
    assert_eq!(&b[48..61], b"rrb_redirect\0");
    let t = load_program_traced(order, 300, 0x10, 0x20, 0x30).attr.bytes;
    assert_eq!(&t[..24], &b[..24]);
    assert_eq!(&t[24..40], &[1, 0, 0, 0, 0, 0, 0, 1, 0x30, 0, 0, 0, 0, 0, 0, 0]);
    assert_eq!(&t[48..], &b[48..]);
}

/// The step after these outcomes.
fn after(o: &ObjectDef, outcomes: &[bool]) -> LoadStep {
    let mut step = LoadStep::LoadBtf;
    for ok in outcomes {
        step = o.load(step, *ok);
    }
    step
}

#[test]
fn the_contract_loads_in_seven_steps() {
    let o = object();
    assert_eq!(after(&o, &[true]), LoadStep::CreateMap(0));
    assert_eq!(after(&o, &[true; 3]), LoadStep::CreateMap(2));
    assert_eq!(after(&o, &[true; 4]), LoadStep::Relocate);
    assert_eq!(after(&o, &[true; 5]), LoadStep::LoadProgram(0));
    assert_eq!(after(&o, &[true; 6]), LoadStep::IdentifyProgram(0));
    assert_eq!(after(&o, &[true; 7]), LoadStep::Loaded);
    assert_eq!(after(&o, &[true; 9]), LoadStep::Loaded);
    // A refused program is tried once more, with a trace.
    let t = [true, true, true, true, true, false];
    assert_eq!(after(&o, &t), LoadStep::TraceProgram(0));
    assert_eq!(o.load(LoadStep::TraceProgram(0), true), LoadStep::IdentifyProgram(0));
}

#[test]
fn every_failure_refuses_the_object() {
    let o = object();
    let refused = |step, e| assert_eq!(o.load(step, false), LoadStep::Refused(e));
    refused(LoadStep::LoadBtf, LoadError::Btf);
    refused(LoadStep::CreateMap(1), LoadError::MapRefused(1));
    refused(LoadStep::Relocate, LoadError::Relocation);
    refused(LoadStep::TraceProgram(0), LoadError::ProgramRefused(0));
    refused(LoadStep::IdentifyProgram(0), LoadError::ProgramKind(0));
    let mut o = object();
    o.maps.pop();
    assert_eq!(after(&o, &[true; 3]), LoadStep::Refused(LoadError::MissingMaps));
    let mut o = object();
    o.maps[1].name = ".bss".to_string();
    assert_eq!(after(&o, &[true; 2]), LoadStep::Refused(LoadError::UnexpectedMap(1)));
    // Three maps that are not all of the contract's.
    let mut o = object();
    o.maps = vec![map("CONFIG", 2, 232, 1), map("BUDGET", 2, 32, 1), map("CONFIG", 2, 232, 1)];
    assert_eq!(after(&o, &[true; 2]), LoadStep::CreateMap(1));
    assert_eq!(after(&o, &[true; 3]), LoadStep::Refused(LoadError::RepeatedMap(2)));
    let mut o = object();
    o.programs.clear();
    assert_eq!(after(&o, &[true; 5]), LoadStep::Refused(LoadError::MissingProgram));
    let mut o = object();
    o.programs.push("rrb_redirect".to_string());
    assert_eq!(after(&o, &[true; 9]), LoadStep::Refused(LoadError::MissingProgram));
    let mut o = object();
    o.programs[0] = "other".to_string();
    assert_eq!(after(&o, &[true; 5]), LoadStep::Refused(LoadError::UnexpectedProgram(0)));
}
