//! The relay TAP: the commands that install, remove and show the TC mirred
//! rule that does the actual forward, and the interface requests.
//!
//! The TAP has exactly one writer and is not persistent: when the process
//! exits the kernel destroys the interface and every TC rule on it.
use vstd::prelude::*;
use vstd::string::*;
use vstd::utf8::*;
use crate::text::{decimal, decimal_spells_its_number, decimal_text, number};
use crate::wire::{value16, value16_at, bytes16, ByteOrder};

verus! {

/// Conventional handle of the ingress qdisc.
pub const INGRESS_HANDLE: &'static str = "ffff:";

/// Length of `struct ifreq`.
pub const IFREQ_LEN: usize = 40;

/// Interface flag: up.
pub const IFF_UP: u16 = 1;

/// Ioctl that reads an interface's flags.
pub const SIOCGIFFLAGS: u32 = 0x8913;

/// Ioctl that sets an interface's flags.
pub const SIOCSIFFLAGS: u32 = 0x8914;

/// The texts of a list.
pub open spec fn words(v: Seq<String>) -> Seq<Seq<char>> {
    Seq::new(v.len(), |i: int| v[i]@)
}

/// Arguments that add the ingress qdisc to the TAP.
pub open spec fn add_qdisc_words(tap: Seq<char>) -> Seq<Seq<char>> {
    seq!["qdisc"@, "add"@, "dev"@, tap, "handle"@, "ffff:"@, "ingress"@]
}

/// Arguments that add the forwarding rule: frames of protocol 0x88b7 on the
/// TAP appear on the target's receive path.
pub open spec fn add_filter_words(tap: Seq<char>, target: Seq<char>, pref: u16) -> Seq<Seq<char>> {
    seq![
        "filter"@,
        "add"@,
        "dev"@,
        tap,
        "parent"@,
        "ffff:"@,
        "protocol"@,
        "0x88b7"@,
        "pref"@,
        decimal(pref as nat),
        "u32"@,
        "match"@,
        "u32"@,
        "0"@,
        "0"@,
        "action"@,
        "mirred"@,
        "ingress"@,
        "redirect"@,
        "dev"@,
        target,
    ]
}

/// Arguments that remove the forwarding rule.
pub open spec fn del_filter_words(tap: Seq<char>, pref: u16) -> Seq<Seq<char>> {
    seq![
        "filter"@,
        "del"@,
        "dev"@,
        tap,
        "parent"@,
        "ffff:"@,
        "pref"@,
        decimal(pref as nat),
    ]
}

/// Arguments that remove the ingress qdisc.
pub open spec fn del_qdisc_words(tap: Seq<char>) -> Seq<Seq<char>> {
    seq!["qdisc"@, "del"@, "dev"@, tap, "ingress"@]
}

/// Arguments that remove the device.
pub open spec fn del_link_words(tap: Seq<char>) -> Seq<Seq<char>> {
    seq!["link"@, "del"@, "dev"@, tap]
}

/// Arguments that show the forwarding rule with its counters.
pub open spec fn show_words(tap: Seq<char>) -> Seq<Seq<char>> {
    seq!["-s"@, "filter"@, "show"@, "dev"@, tap, "parent"@, "ffff:"@]
}

/// Add one argument.
fn arg(v: &mut Vec<String>, s: &str)
    ensures
        words(final(v)@) == words(old(v)@).push(s@),
{
    v.push(s.to_owned());
    assert(words(v@) =~= words(old(v)@).push(s@));
}

/// The `tc` commands that attach the forwarding rule, in order.
pub fn tc_attach(tap: &str, target: &str, pref: u16) -> (r: (Vec<String>, Vec<String>))
    ensures
        words(r.0@) == add_qdisc_words(tap@),
        words(r.1@) == add_filter_words(tap@, target@, pref),
        words(r.1@)[3] == tap@,
        words(r.1@).last() == target@,
{
    let mut q: Vec<String> = Vec::new();
    arg(&mut q, "qdisc");
    arg(&mut q, "add");
    arg(&mut q, "dev");
    arg(&mut q, tap);
    arg(&mut q, "handle");
    arg(&mut q, INGRESS_HANDLE);
    arg(&mut q, "ingress");
    assert(words(q@) =~= add_qdisc_words(tap@));
    let mut f: Vec<String> = Vec::new();
    arg(&mut f, "filter");
    arg(&mut f, "add");
    arg(&mut f, "dev");
    arg(&mut f, tap);
    arg(&mut f, "parent");
    arg(&mut f, INGRESS_HANDLE);
    arg(&mut f, "protocol");
    arg(&mut f, "0x88b7");
    arg(&mut f, "pref");
    arg(&mut f, decimal_text(pref as u64).as_str());
    arg(&mut f, "u32");
    arg(&mut f, "match");
    arg(&mut f, "u32");
    arg(&mut f, "0");
    arg(&mut f, "0");
    arg(&mut f, "action");
    arg(&mut f, "mirred");
    arg(&mut f, "ingress");
    arg(&mut f, "redirect");
    arg(&mut f, "dev");
    arg(&mut f, target);
    assert(words(f@) =~= add_filter_words(tap@, target@, pref));
    (q, f)
}

/// The commands that remove the leftovers of a previous run: two for `tc`,
/// then one for `ip`, which is due where the device still exists.
pub fn destroy(tap: &str, pref: u16) -> (r: (Vec<String>, Vec<String>, Vec<String>))
    ensures
        words(r.0@) == del_filter_words(tap@, pref),
        words(r.1@) == del_qdisc_words(tap@),
        words(r.2@) == del_link_words(tap@),
{
    let mut f: Vec<String> = Vec::new();
    arg(&mut f, "filter");
    arg(&mut f, "del");
    arg(&mut f, "dev");
    arg(&mut f, tap);
    arg(&mut f, "parent");
    arg(&mut f, INGRESS_HANDLE);
    arg(&mut f, "pref");
    arg(&mut f, decimal_text(pref as u64).as_str());
    assert(words(f@) =~= del_filter_words(tap@, pref));
    let mut q: Vec<String> = Vec::new();
    arg(&mut q, "qdisc");
    arg(&mut q, "del");
    arg(&mut q, "dev");
    arg(&mut q, tap);
    arg(&mut q, "ingress");
    assert(words(q@) =~= del_qdisc_words(tap@));
    let mut l: Vec<String> = Vec::new();
    arg(&mut l, "link");
    arg(&mut l, "del");
    arg(&mut l, "dev");
    arg(&mut l, tap);
    assert(words(l@) =~= del_link_words(tap@));
    (f, q, l)
}

/// The `tc` command that shows the kernel-side counters of the rule.
pub fn action_stats(tap: &str) -> (v: Vec<String>)
    ensures
        words(v@) == show_words(tap@),
{
    let mut v: Vec<String> = Vec::new();
    arg(&mut v, "-s");
    arg(&mut v, "filter");
    arg(&mut v, "show");
    arg(&mut v, "dev");
    arg(&mut v, tap);
    arg(&mut v, "parent");
    arg(&mut v, INGRESS_HANDLE);
    assert(words(v@) =~= show_words(tap@));
    v
}

/// The interface request for a name: the name in its 16-byte field, all
/// else 0. A name without room for a NUL there gets none.
pub fn flags_request(name: &str) -> (r: Option<[u8; IFREQ_LEN]>)
    ensures
        r is Some <==> encode_utf8(name@).len() < 16,
        r matches Some(req) ==> req@ == encode_utf8(name@) + Seq::new(
            (IFREQ_LEN - encode_utf8(name@).len()) as nat,
            |i: int| 0u8,
        ),
{
    let b: &[u8] = name.as_bytes();
    let n: usize = b.len();
    if n >= 16 {
        return None;
    }
    let mut req: [u8; IFREQ_LEN] = [0; IFREQ_LEN];
    let mut i: usize = 0;
    while i < n
        invariant
            n == b@.len(),
            i <= n < 16,
            forall|k: int| 0 <= k < i ==> req@[k] == b@[k],
            forall|k: int| i <= k < IFREQ_LEN ==> req@[k] == 0,
        decreases n - i,
    {
        req[i] = b[i];
        i += 1;
    }
    assert(req@ =~= encode_utf8(name@) + Seq::new(
        (IFREQ_LEN - encode_utf8(name@).len()) as nat,
        |i: int| 0u8,
    ));
    Some(req)
}

/// The same request with the interface's flags, a 16-bit field at 16, and
/// the up flag among them.
pub fn set_up(order: ByteOrder, req: &[u8; IFREQ_LEN]) -> (r: [u8; IFREQ_LEN])
    ensures
        value16(order, r@, 16) == value16(order, req@, 16) | IFF_UP,
        forall|i: int| 0 <= i < IFREQ_LEN && i != 16 && i != 17 ==> r@[i] == req@[i],
{
    let flags: u16 = order.get16(req.as_slice(), 16) | IFF_UP;
    let b: [u8; 2] = order.put16(flags);
    let mut r: [u8; IFREQ_LEN] = *req;
    r[16] = b[0];
    r[17] = b[1];
    proof {
        assert(r@.subrange(16, 18) =~= bytes16(order, flags));
        value16_at(order, r@, 16, flags);
    }
    r
}

/// The forwarding rule is added to the given TAP under the given priority,
/// and redirects to the given target.
pub proof fn rule_leads_from_tap_to_target(tap: Seq<char>, target: Seq<char>, pref: u16)
    ensures
        ({
            let w = add_filter_words(tap, target, pref);
            let n = w.len() as int;
            &&& n == 21
            &&& w.last() == target
            &&& w[n - 1] == target
            &&& w[n - 2] == "dev"@
            &&& w[n - 3] == "redirect"@
            &&& w[n - 4] == "ingress"@
            &&& w[n - 5] == "mirred"@
            &&& w[n - 6] == "action"@
            &&& w[0] == "filter"@
            &&& w[1] == "add"@
            &&& w[2] == "dev"@
            &&& w[3] == tap
            &&& w[4] == "parent"@
            &&& w[5] == add_qdisc_words(tap)[5]
            &&& w[6] == "protocol"@
            &&& w[7] == "0x88b7"@
            &&& w[8] == "pref"@
            &&& number(w[9]) == pref
            &&& w[9].len() > 1 ==> w[9][0] != '0'
            &&& w[10] == "u32"@
            &&& w[11] == "match"@
            &&& w[12] == "u32"@
            &&& w[13] == "0"@
            &&& w[14] == "0"@
        }),
{
    decimal_spells_its_number(pref as nat);
}

/// Different TAPs, targets or priorities make different rules.
pub proof fn rules_are_told_apart(
    tap: Seq<char>,
    target: Seq<char>,
    pref: u16,
    tap2: Seq<char>,
    target2: Seq<char>,
    pref2: u16,
)
    requires
        add_filter_words(tap, target, pref) == add_filter_words(tap2, target2, pref2),
    ensures
        tap == tap2,
        target == target2,
        pref == pref2,
{
    rule_leads_from_tap_to_target(tap, target, pref);
    rule_leads_from_tap_to_target(tap2, target2, pref2);
}

/// The qdisc that the rule hangs on is the ingress one of the TAP; removing
/// undoes just what was added: the rule by its TAP, parent and priority,
/// then the TAP's ingress qdisc, then the TAP.
pub proof fn removal_undoes_the_attachment(tap: Seq<char>, target: Seq<char>, pref: u16)
    ensures
        ({
            let q = add_qdisc_words(tap);
            let f = add_filter_words(tap, target, pref);
            let df = del_filter_words(tap, pref);
            let dq = del_qdisc_words(tap);
            let dl = del_link_words(tap);
            &&& q.len() == 7
            &&& q[0] == "qdisc"@ && q[1] == "add"@ && q[2] == "dev"@ && q[3] == tap
            &&& q[4] == "handle"@ && q[5] == "ffff:"@ && q[6] == "ingress"@
            &&& df.len() == 8
            &&& df[0] == f[0] && df[1] == "del"@ && df.subrange(2, 6) == f.subrange(2, 6)
            &&& df.subrange(6, 8) == f.subrange(8, 10)
            &&& dq.len() == 5
            &&& dq[0] == q[0] && dq[1] == "del"@ && dq[2] == q[2] && dq[3] == q[3] && dq[4] == q[6]
            &&& dl == seq!["link"@, "del"@, "dev"@, tap]
        }),
{
    let f = add_filter_words(tap, target, pref);
    let df = del_filter_words(tap, pref);
    assert(df.subrange(2, 6) =~= f.subrange(2, 6));
    assert(df.subrange(6, 8) =~= f.subrange(8, 10));
    assert(del_link_words(tap) =~= seq!["link"@, "del"@, "dev"@, tap]);
}

/// The counters shown are those of the rules on the TAP's ingress.
pub proof fn shown_rules_are_the_taps(tap: Seq<char>, target: Seq<char>, pref: u16)
    ensures
        ({
            let w = show_words(tap);
            let f = add_filter_words(tap, target, pref);
            &&& w.len() == 7
            &&& w[0] == "-s"@ && w[1] == f[0] && w[2] == "show"@
            &&& w.subrange(3, 7) == f.subrange(2, 6)
        }),
{
    assert(show_words(tap).subrange(3, 7) =~= add_filter_words(tap, target, pref).subrange(2, 6));
}

/// The words of a command are its arguments, in order.
pub proof fn words_are_in_order(v: Seq<String>, i: int)
    requires
        0 <= i < v.len(),
    ensures
        words(v).len() == v.len(),
        words(v)[i] == v[i]@,
{
}

/// Requests and flags are numbered as the kernel numbers them.
pub proof fn requests_are_the_kernels()
    ensures
        IFREQ_LEN == 40,
        IFF_UP == 1,
        SIOCGIFFLAGS == 0x8913,
        SIOCSIFFLAGS == 0x8914,
{
}

} // verus!
