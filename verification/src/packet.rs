//! Passive capture on the switch-facing ports: the socket filter, and the
//! reading of what comes with a frame.
//!
//! A packet socket only observes the wire. A classic BPF socket filter keeps
//! every other frame from ever waking userspace.
use vstd::prelude::*;
use crate::proto::parse::{verdict, Vlan, ETH_P_RRB, TPID_8021Q};
use crate::proto::Filter;
use crate::wire::{
    be16, bytes16, bytes32, octets_of_16_bit_field, value16, value16_at, value16_of_bytes16,
    value32, value32_at, value32_of_bytes32, ByteOrder,
};

verus! {

/// BPF_LD|BPF_H|BPF_ABS: load the big-endian u16 at an absolute frame offset.
pub const BPF_LD_H_ABS: u16 = 0x28;

/// BPF_JMP|BPF_JEQ|BPF_K: skip jt/jf instructions on equal/not-equal.
pub const BPF_JEQ_K: u16 = 0x15;

/// BPF_RET|BPF_K: terminate, returning the constant (nonzero = keep bytes).
pub const BPF_RET_K: u16 = 0x06;

/// Accept only RRB candidates: EtherType 0x88B7, either bare at offset 12 or
/// behind one 802.1Q tag (TPID 0x8100 at 12, EtherType at 16). Everything
/// else is dropped in the kernel. An instruction is (code, jt, jf, k).
pub const SOCKET_FILTER: [(u16, u8, u8, u32); 7] = [
    (0x28, 0, 0, 12),  // 0: A = u16[12] (EtherType, or TPID when tagged)
    (0x15, 0, 2, 0x8100),  // 1: A == 0x8100? -> 2 (tagged path) : 4 (bare path)
    (0x28, 0, 0, 16),  // 2: A = u16[16] (inner EtherType behind the tag)
    (0x15, 1, 2, 0x88b7),  // 3: A == 0x88B7? -> 5 (accept) : 6 (drop)
    (0x15, 0, 1, 0x88b7),  // 4: A == 0x88B7? -> 5 (accept) : 6 (drop)
    (0x06, 0, 0, 0xffff),  // 5: accept up to 65535 bytes
    (0x06, 0, 0, 0),  // 6: drop
];

/// What a classic BPF program of these three instructions returns for a
/// frame, from instruction `pc` on with accumulator `a`: how many bytes to
/// keep. A load beyond the frame drops it.
pub open spec fn kept(prog: Seq<(u16, u8, u8, u32)>, frame: Seq<u8>, pc: int, a: int) -> u32
    decreases (if pc < prog.len() { prog.len() - pc } else { 0 }),
{
    if pc < 0 || pc >= prog.len() {
        0
    } else {
        let code = prog[pc].0;
        let k = prog[pc].3;
        if code == BPF_LD_H_ABS {
            if k + 2 <= frame.len() {
                kept(prog, frame, pc + 1, be16(frame, k as int))
            } else {
                0
            }
        } else if code == BPF_JEQ_K {
            if a == k {
                kept(prog, frame, pc + 1 + prog[pc].1, a)
            } else {
                kept(prog, frame, pc + 1 + prog[pc].2, a)
            }
        } else if code == BPF_RET_K {
            k
        } else {
            0
        }
    }
}

/// A frame with the RRB EtherType, bare or behind one 802.1Q tag.
pub open spec fn is_candidate(frame: Seq<u8>) -> bool {
    ||| frame.len() >= 14 && be16(frame, 12) == ETH_P_RRB
    ||| frame.len() >= 18 && be16(frame, 12) == TPID_8021Q && be16(frame, 16) == ETH_P_RRB
}

/// The socket filter keeps exactly the candidates.
pub proof fn filter_keeps_candidates(frame: Seq<u8>)
    ensures
        kept(SOCKET_FILTER@, frame, 0, 0) == if is_candidate(frame) {
            0xffffu32
        } else {
            0u32
        },
{
    reveal_with_fuel(kept, 6);
    assert(SOCKET_FILTER@.len() == 7);
    assert(SOCKET_FILTER@[0] == (0x28u16, 0u8, 0u8, 12u32));
    assert(SOCKET_FILTER@[1] == (0x15u16, 0u8, 2u8, 0x8100u32));
    assert(SOCKET_FILTER@[2] == (0x28u16, 0u8, 0u8, 16u32));
    assert(SOCKET_FILTER@[3] == (0x15u16, 1u8, 2u8, 0x88b7u32));
    assert(SOCKET_FILTER@[4] == (0x15u16, 0u8, 1u8, 0x88b7u32));
    assert(SOCKET_FILTER@[5] == (0x06u16, 0u8, 0u8, 0xffffu32));
    assert(SOCKET_FILTER@[6] == (0x06u16, 0u8, 0u8, 0u32));
}

/// The socket filter loses no frame that the parser accepts.
pub proof fn filter_loses_nothing(frame: Seq<u8>, vlan: Vlan, f: Filter)
    requires
        verdict(frame, vlan, f) is Ok,
    ensures
        kept(SOCKET_FILTER@, frame, 0, 0) != 0,
{
    filter_keeps_candidates(frame);
}

/// tp_status bit: a VLAN tag was stripped by hardware/driver offload into
/// the auxdata.
pub const TP_STATUS_VLAN_VALID: u32 = 0x10;

/// tp_status bit: the auxdata carries the real TPID. Only set since Linux
/// 5.14; without it the tag is taken for 802.1Q.
pub const TP_STATUS_VLAN_TPID_VALID: u32 = 0x40;

/// Length of `struct tpacket_auxdata`.
pub const AUXDATA_LEN: usize = 20;

/// Packet direction marker: frames the host itself transmitted. Packet
/// sockets see egress too, and this host's own hostapd emits RRB; those must
/// not loop back through the relay.
pub const PACKET_OUTGOING: u8 = 4;

/// What the relay reads of `struct tpacket_auxdata`, the control message
/// that comes with each frame.
#[derive(Clone, Copy, Debug, PartialEq, Eq, Structural)]
pub struct Auxdata {
    pub status: u32,
    pub vlan_tci: u16,
    pub vlan_tpid: u16,
}

impl Auxdata {
    /// Read the control message: status@0, vlan_tci@16, vlan_tpid@18.
    pub fn read(order: ByteOrder, data: &[u8]) -> (a: Self)
        requires
            data@.len() >= AUXDATA_LEN,
        ensures
            a.status == value32(order, data@, 0),
            a.vlan_tci == value16(order, data@, 16),
            a.vlan_tpid == value16(order, data@, 18),
    {
        Auxdata {
            status: order.get32(data, 0),
            vlan_tci: order.get16(data, 16),
            vlan_tpid: order.get16(data, 18),
        }
    }
}

/// How the control messages say the tag reached us: the last one that
/// carries a stripped tag decides; without any, no tag was stripped.
pub open spec fn stripped_tag(messages: Seq<Auxdata>) -> Vlan
    decreases messages.len(),
{
    if messages.len() == 0 {
        Vlan { present: false, proto: 0, tci: 0 }
    } else {
        let a = messages.last();
        if a.status & TP_STATUS_VLAN_VALID != 0 {
            Vlan {
                present: true,
                tci: a.vlan_tci,
                proto: if a.status & TP_STATUS_VLAN_TPID_VALID != 0 {
                    a.vlan_tpid
                } else {
                    TPID_8021Q
                },
            }
        } else {
            stripped_tag(messages.drop_last())
        }
    }
}

/// What a received frame of `n` bytes amounts to: nothing for one that this
/// host transmitted, else its length and its VLAN view.
pub fn received(packet_type: u8, n: usize, messages: &Vec<Auxdata>) -> (r: Option<(usize, Vlan)>)
    ensures
        r == (if packet_type == PACKET_OUTGOING {
            None::<(usize, Vlan)>
        } else {
            Some((n, stripped_tag(messages@)))
        }),
        r is None <==> packet_type == 4,
{
    if packet_type == PACKET_OUTGOING {
        return None;
    }
    let mut vlan: Vlan = Vlan::default();
    let mut i: usize = 0;
    while i < messages.len()
        invariant
            i <= messages@.len(),
            vlan == stripped_tag(messages@.take(i as int)),
        decreases messages@.len() - i,
    {
        let a: Auxdata = messages[i];
        assert(messages@.take(i + 1).drop_last() =~= messages@.take(i as int));
        if a.status & TP_STATUS_VLAN_VALID != 0 {
            vlan.present = true;
            vlan.tci = a.vlan_tci;
            vlan.proto =
            if a.status & TP_STATUS_VLAN_TPID_VALID != 0 {
                a.vlan_tpid
            } else {
                TPID_8021Q
            };
        }
        i += 1;
    }
    assert(messages@.take(i as int) =~= messages@);
    Some((n, vlan))
}

/// Address family of packet sockets.
pub const AF_PACKET: u16 = 17;

/// Protocol number that stands for every EtherType.
pub const ETH_P_ALL: u16 = 3;

/// Length of `struct sockaddr_ll`.
pub const ADDRESS_LEN: usize = 20;

/// The address that binds a packet socket to every frame on one interface:
/// family@0, protocol@2 in network byte order, ifindex@4, all else 0.
pub open spec fn address_bytes(order: ByteOrder, ifindex: u32) -> Seq<u8> {
    bytes16(order, AF_PACKET) + bytes16(ByteOrder::Big, ETH_P_ALL) + bytes32(order, ifindex)
        + Seq::new(12, |i: int| 0u8)
}

/// The address that binds a packet socket to every frame on one interface.
pub fn bind_address(order: ByteOrder, ifindex: u32) -> (a: [u8; ADDRESS_LEN])
    ensures
        a@ == address_bytes(order, ifindex),
{
    let f: [u8; 2] = order.put16(AF_PACKET);
    let p: [u8; 2] = ByteOrder::Big.put16(ETH_P_ALL);
    let n: [u8; 4] = order.put32(ifindex);
    let a: [u8; ADDRESS_LEN] = [
        f[0],
        f[1],
        p[0],
        p[1],
        n[0],
        n[1],
        n[2],
        n[3],
        0,
        0,
        0,
        0,
        0,
        0,
        0,
        0,
        0,
        0,
        0,
        0,
    ];
    assert(a@ =~= address_bytes(order, ifindex));
    a
}

/// Why a capture socket cannot be opened.
#[derive(Clone, Copy, Debug, PartialEq, Eq, Structural)]
pub enum OpenError {
    /// There is no such interface.
    Interface,
    /// The socket cannot be created.
    Socket,
    /// The socket filter cannot be attached.
    Filter,
    /// VLAN-offload metadata cannot be had.
    Auxdata,
    /// Outgoing traffic cannot be skipped.
    Direction,
    /// The socket cannot be bound.
    Bind,
}

/// The work to do next while a capture socket is opened.
#[derive(Clone, Copy, Debug, PartialEq, Eq, Structural)]
pub enum OpenStep {
    /// Find the interface's index.
    ResolveInterface,
    /// Create the socket with protocol 0, which keeps capture inactive until
    /// the filter and the metadata options are installed.
    CreateSocket,
    /// Attach the socket filter.
    AttachFilter,
    /// Have VLAN-offload metadata delivered with each frame.
    EnableAuxdata,
    /// Skip outgoing traffic before the kernel clones or filters it.
    IgnoreOutgoing,
    /// Bind to the interface, which activates capture.
    Bind,
    /// The socket captures.
    Capturing,
    /// The socket cannot be opened.
    Failed(OpenError),
}

/// The step after `step` went well or not.
pub open spec fn open_step(step: OpenStep, ok: bool) -> OpenStep {
    match step {
        OpenStep::ResolveInterface => if ok {
            OpenStep::CreateSocket
        } else {
            OpenStep::Failed(OpenError::Interface)
        },
        OpenStep::CreateSocket => if ok {
            OpenStep::AttachFilter
        } else {
            OpenStep::Failed(OpenError::Socket)
        },
        OpenStep::AttachFilter => if ok {
            OpenStep::EnableAuxdata
        } else {
            OpenStep::Failed(OpenError::Filter)
        },
        OpenStep::EnableAuxdata => if ok {
            OpenStep::IgnoreOutgoing
        } else {
            OpenStep::Failed(OpenError::Auxdata)
        },
        OpenStep::IgnoreOutgoing => if ok {
            OpenStep::Bind
        } else {
            OpenStep::Failed(OpenError::Direction)
        },
        OpenStep::Bind => if ok {
            OpenStep::Capturing
        } else {
            OpenStep::Failed(OpenError::Bind)
        },
        OpenStep::Capturing => OpenStep::Capturing,
        OpenStep::Failed(e) => OpenStep::Failed(e),
    }
}

/// The step after the last of `outcomes`, from the first step on.
pub open spec fn open_after(outcomes: Seq<bool>) -> OpenStep
    decreases outcomes.len(),
{
    if outcomes.len() == 0 {
        OpenStep::ResolveInterface
    } else {
        open_step(open_after(outcomes.drop_last()), outcomes.last())
    }
}

/// What to do after `step` went well or not. Opening starts with
/// `OpenStep::ResolveInterface`.
pub fn open(step: OpenStep, ok: bool) -> (next: OpenStep)
    ensures
        next == open_step(step, ok),
{
    match (step, ok) {
        (OpenStep::Capturing, _) => OpenStep::Capturing,
        (OpenStep::Failed(e), _) => OpenStep::Failed(e),
        (OpenStep::ResolveInterface, true) => OpenStep::CreateSocket,
        (OpenStep::CreateSocket, true) => OpenStep::AttachFilter,
        (OpenStep::AttachFilter, true) => OpenStep::EnableAuxdata,
        (OpenStep::EnableAuxdata, true) => OpenStep::IgnoreOutgoing,
        (OpenStep::IgnoreOutgoing, true) => OpenStep::Bind,
        (OpenStep::Bind, true) => OpenStep::Capturing,
        (OpenStep::ResolveInterface, false) => OpenStep::Failed(OpenError::Interface),
        (OpenStep::CreateSocket, false) => OpenStep::Failed(OpenError::Socket),
        (OpenStep::AttachFilter, false) => OpenStep::Failed(OpenError::Filter),
        (OpenStep::EnableAuxdata, false) => OpenStep::Failed(OpenError::Auxdata),
        (OpenStep::IgnoreOutgoing, false) => OpenStep::Failed(OpenError::Direction),
        (OpenStep::Bind, false) => OpenStep::Failed(OpenError::Bind),
    }
}

/// A socket captures only once all six steps went well: the filter, the
/// metadata and the direction options are all installed before it is bound.
pub proof fn capture_needs_every_step(outcomes: Seq<bool>)
    ensures
        open_after(outcomes) == OpenStep::Bind ==> outcomes.len() == 5 && (forall|i: int|
            0 <= i < 5 ==> outcomes[i]),
        open_after(outcomes) == OpenStep::Capturing ==> outcomes.len() >= 6 && (forall|i: int|
            0 <= i < 6 ==> outcomes[i]),
{
    opened_so_far(outcomes);
}

/// How many steps come before a step.
spec fn steps_before(step: OpenStep) -> int {
    match step {
        OpenStep::ResolveInterface => 0,
        OpenStep::CreateSocket => 1,
        OpenStep::AttachFilter => 2,
        OpenStep::EnableAuxdata => 3,
        OpenStep::IgnoreOutgoing => 4,
        OpenStep::Bind => 5,
        OpenStep::Capturing => 6,
        OpenStep::Failed(_) => -1,
    }
}

proof fn opened_so_far(outcomes: Seq<bool>)
    ensures
        ({
            let n = steps_before(open_after(outcomes));
            &&& 0 <= n < 6 ==> outcomes.len() == n
            &&& n == 6 ==> outcomes.len() >= 6
            &&& n >= 0 ==> forall|i: int| 0 <= i < n ==> outcomes[i]
        }),
    decreases outcomes.len(),
{
    if outcomes.len() > 0 {
        let before = outcomes.drop_last();
        opened_so_far(before);
        let n = steps_before(open_after(outcomes));
        assert forall|i: int| 0 <= i < n implies outcomes[i] by {
            if i < before.len() {
                assert(before[i] == outcomes[i]);
            }
        }
    }
}

/// The filter keeps a frame with the RRB EtherType right behind the addresses,
/// or behind one tag, whole, and nothing else at all.
pub proof fn filter_looks_at_the_type(frame: Seq<u8>)
    ensures
        ({
            let k = kept(SOCKET_FILTER@, frame, 0, 0);
            let bare = frame.len() >= 14 && frame[12] == 0x88 && frame[13] == 0xb7;
            let tagged = frame.len() >= 18 && frame[12] == 0x81 && frame[13] == 0x00 && frame[16]
                == 0x88 && frame[17] == 0xb7;
            &&& bare || tagged ==> k == 0xffff
            &&& !bare && !tagged ==> k == 0
        }),
{
    filter_keeps_candidates(frame);
}

/// The last control message with a stripped tag tells of the tag, wherever
/// among the messages it stands: its control information, and its protocol
/// where the message carries one, else that of 802.1Q.
pub proof fn last_stripped_tag_counts(messages: Seq<Auxdata>, i: int)
    requires
        0 <= i < messages.len(),
        messages[i].status & 0x10 != 0,
        forall|k: int| i < k < messages.len() ==> (#[trigger] messages[k]).status & 0x10 == 0,
    ensures
        ({
            let v = stripped_tag(messages);
            &&& v.present
            &&& v.tci == messages[i].vlan_tci
            &&& messages[i].status & 0x40 != 0 ==> v.proto == messages[i].vlan_tpid
            &&& messages[i].status & 0x40 == 0 ==> v.proto == 0x8100
        }),
    decreases messages.len(),
{
    if i < messages.len() - 1 {
        let rest = messages.drop_last();
        assert(messages[messages.len() - 1].status & 0x10 == 0);
        assert(rest[i] == messages[i]);
        assert forall|k: int| i < k < rest.len() implies (#[trigger] rest[k]).status & 0x10
            == 0 by {
            assert(rest[k] == messages[k]);
        }
        last_stripped_tag_counts(rest, i);
    }
}

/// Without a message that tells of a tag none was stripped.
pub proof fn no_stripped_tag(messages: Seq<Auxdata>)
    requires
        forall|k: int| 0 <= k < messages.len() ==> (#[trigger] messages[k]).status & 0x10 == 0,
    ensures
        !stripped_tag(messages).present,
    decreases messages.len(),
{
    if messages.len() > 0 {
        let rest = messages.drop_last();
        assert(messages[messages.len() - 1].status & 0x10 == 0);
        assert forall|k: int| 0 <= k < rest.len() implies (#[trigger] rest[k]).status & 0x10
            == 0 by {
            assert(rest[k] == messages[k]);
        }
        no_stripped_tag(rest);
    }
}

/// The address says the family, every EtherType in network order, and the
/// interface, and nothing else.
pub proof fn address_reads_back(order: ByteOrder, ifindex: u32)
    ensures
        ({
            let a = address_bytes(order, ifindex);
            &&& a.len() == 20
            &&& value16(order, a, 0) == 17
            &&& a[2] == 0
            &&& a[3] == 3
            &&& value32(order, a, 4) == ifindex
            &&& forall|i: int| 8 <= i < 20 ==> #[trigger] a[i] == 0
        }),
{
    let a = address_bytes(order, ifindex);
    value16_of_bytes16(order, AF_PACKET);
    value16_of_bytes16(ByteOrder::Big, ETH_P_ALL);
    value32_of_bytes32(order, ifindex);
    let p = bytes16(ByteOrder::Big, ETH_P_ALL);
    octets_of_16_bit_field(p, 0);
    assert(a.subrange(0, 2) =~= bytes16(order, AF_PACKET));
    assert(a[2] == p[0] && a[3] == p[1]);
    assert(a.subrange(4, 8) =~= bytes32(order, ifindex));
    value16_at(order, a, 0, AF_PACKET);
    value32_at(order, a, 4, ifindex);
}

/// The steps of opening come one behind the other, and the first that fails
/// ends it under its own error; what has ended does not go on.
pub proof fn opening_goes_step_by_step(e: OpenError, ok: bool)
    ensures
        open_after(seq![]) == OpenStep::ResolveInterface,
        open_step(OpenStep::ResolveInterface, true) == OpenStep::CreateSocket,
        open_step(OpenStep::CreateSocket, true) == OpenStep::AttachFilter,
        open_step(OpenStep::AttachFilter, true) == OpenStep::EnableAuxdata,
        open_step(OpenStep::EnableAuxdata, true) == OpenStep::IgnoreOutgoing,
        open_step(OpenStep::IgnoreOutgoing, true) == OpenStep::Bind,
        open_step(OpenStep::Bind, true) == OpenStep::Capturing,
        open_step(OpenStep::ResolveInterface, false) == OpenStep::Failed(OpenError::Interface),
        open_step(OpenStep::CreateSocket, false) == OpenStep::Failed(OpenError::Socket),
        open_step(OpenStep::AttachFilter, false) == OpenStep::Failed(OpenError::Filter),
        open_step(OpenStep::EnableAuxdata, false) == OpenStep::Failed(OpenError::Auxdata),
        open_step(OpenStep::IgnoreOutgoing, false) == OpenStep::Failed(OpenError::Direction),
        open_step(OpenStep::Bind, false) == OpenStep::Failed(OpenError::Bind),
        open_step(OpenStep::Capturing, ok) == OpenStep::Capturing,
        open_step(OpenStep::Failed(e), ok) == OpenStep::Failed(e),
{
}

/// Once all six steps went well the socket captures, whatever comes later.
pub proof fn six_steps_open_the_socket(outcomes: Seq<bool>)
    requires
        outcomes.len() >= 6,
        forall|i: int| 0 <= i < 6 ==> #[trigger] outcomes[i],
    ensures
        open_after(outcomes) == OpenStep::Capturing,
    decreases outcomes.len(),
{
    let before = outcomes.drop_last();
    if outcomes.len() > 6 {
        assert forall|i: int| 0 <= i < 6 implies #[trigger] before[i] by {
            assert(before[i] == outcomes[i]);
        }
        six_steps_open_the_socket(before);
    } else {
        reveal_with_fuel(open_after, 7);
        assert(outcomes[0] && outcomes[1] && outcomes[2] && outcomes[3] && outcomes[4]
            && outcomes[5]);
    }
}

/// How a filter program runs, whatever the program: a load takes the two
/// octets at its offset, the more significant first, and goes on, or drops a
/// frame that has none there; a comparison skips as many instructions as it
/// says for either outcome; a return keeps as many bytes as it says.
pub proof fn filter_programs_run(
    prog: Seq<(u16, u8, u8, u32)>,
    frame: Seq<u8>,
    pc: int,
    a: int,
)
    requires
        0 <= pc < prog.len(),
    ensures
        ({
            let i = prog[pc];
            &&& i.0 == 0x28 && i.3 + 2 <= frame.len() ==> kept(prog, frame, pc, a) == kept(
                prog,
                frame,
                pc + 1,
                256 * frame[i.3 as int] + frame[i.3 + 1],
            )
            &&& i.0 == 0x28 && i.3 + 2 > frame.len() ==> kept(prog, frame, pc, a) == 0
            &&& i.0 == 0x15 && a == i.3 ==> kept(prog, frame, pc, a) == kept(
                prog,
                frame,
                pc + 1 + i.1,
                a,
            )
            &&& i.0 == 0x15 && a != i.3 ==> kept(prog, frame, pc, a) == kept(
                prog,
                frame,
                pc + 1 + i.2,
                a,
            )
            &&& i.0 == 0x06 ==> kept(prog, frame, pc, a) == i.3
        }),
{
    reveal_with_fuel(kept, 2);
}

/// Packet types and lengths are the kernel's.
pub proof fn packet_types_are_the_kernels()
    ensures
        PACKET_OUTGOING == 4,
        AUXDATA_LEN == 20,
        ADDRESS_LEN == 20,
{
}

} // verus!
