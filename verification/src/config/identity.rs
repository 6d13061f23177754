//! The filter identity that a configuration and the host's addresses make.
use vstd::prelude::*;
use vstd::string::*;
use vstd::utf8::*;
use crate::proto::{
    zeros, Filter, Local, Peer, MAX_LOCALS, MAX_PEERS, MAX_PEER_BSSIDS, MAX_R0KH,
};
use crate::common::parse::{body_of, in_use};
use crate::proto::parse::{may_claim, peer_with, verdict, Vlan, BROADCAST};
use crate::text::{chars_of, hex, hex_text, trim, trimmed};
use crate::wire::same_mac;
use super::address::{mac, mac_has_six_octets, mac_of, mac_of_chars, MacError};
use super::{ApEntry, PeerEntry, Settings};

verus! {

/// Why no filter identity can be assembled. Numbers are places in the
/// configured lists.
#[derive(Clone, Copy, Debug, PartialEq, Eq, Structural)]
pub enum FilterError {
    /// The target's address could not be read.
    TargetUnreadable,
    /// The target's address is none.
    TargetMac(MacError),
    /// A local AP's address could not be read.
    ApUnreadable(usize),
    /// A local AP's address is none.
    ApMac(usize, MacError),
    /// An R0KH-ID is not 1..=48 ASCII bytes.
    R0khId(usize),
    /// A local BSSID is the broadcast address.
    ApBroadcast(usize),
    /// A local BSSID occurs before.
    ApDuplicate(usize),
    /// A peer's address is none.
    PeerMac(usize, MacError),
    /// A peer's address is the broadcast address.
    PeerBroadcast(usize),
    /// A peer's address occurs before.
    PeerDuplicate(usize),
    /// A peer lists no BSSIDs, and hostapd's have not been asked for.
    HostapdNeeded,
    /// A peer's BSSID is no address.
    BssidMac(usize, usize, MacError),
    /// A peer lists no BSSIDs, and hostapd reported none.
    NoBssids(usize),
    /// A peer has more than eight BSSIDs.
    TooManyBssids(usize),
    /// A peer's BSSID is the broadcast address.
    BssidBroadcast(usize, usize),
    /// A peer's BSSID occurs before on the same peer.
    BssidDuplicate(usize, usize),
}

/// What the host said of its interfaces' addresses: the texts of
/// `/sys/class/net/<name>/address`, absent where they could not be read.
pub struct Readings {
    pub target: Option<String>,
    pub aps: Vec<Option<String>>,
}

/// A local BSS: its BSSID and its R0KH-ID.
pub struct LocalId {
    pub bssid: Seq<u8>,
    pub r0kh: Seq<u8>,
}

/// A peer: its address and the BSSIDs it may claim.
pub struct PeerId {
    pub mac: Seq<u8>,
    pub bssids: Seq<Seq<u8>>,
}

/// Addresses as byte strings.
pub open spec fn macs(v: Seq<[u8; 6]>) -> Seq<Seq<u8>> {
    Seq::new(v.len(), |i: int| v[i]@)
}

/// R0KH-ID of an AP: the configured one, else the BSSID in lowercase hex.
pub open spec fn r0kh_of(ap: ApEntry, bssid: Seq<u8>) -> Seq<char> {
    match ap.r0kh_id {
        Some(id) => id@,
        None => hex(bssid),
    }
}

/// An R0KH-ID is 1..=48 ASCII bytes.
pub open spec fn valid_r0kh(id: Seq<char>) -> bool {
    &&& 0 < id.len() <= MAX_R0KH
    &&& is_ascii_chars(id)
}

/// The local BSS at place `i`, behind those in `done`.
pub open spec fn local_of(ap: ApEntry, text: Option<String>, i: usize, done: Seq<LocalId>) -> Result<
    LocalId,
    FilterError,
> {
    match text {
        None => Err(FilterError::ApUnreadable(i)),
        Some(t) => match mac_of(trimmed(t@)) {
            Err(e) => Err(FilterError::ApMac(i, e)),
            Ok(bssid) => if !valid_r0kh(r0kh_of(ap, bssid)) {
                Err(FilterError::R0khId(i))
            } else if bssid == BROADCAST@ {
                Err(FilterError::ApBroadcast(i))
            } else if exists|k: int| 0 <= k < done.len() && (#[trigger] done[k]).bssid == bssid {
                Err(FilterError::ApDuplicate(i))
            } else {
                Ok(LocalId { bssid: bssid, r0kh: encode_utf8(r0kh_of(ap, bssid)) })
            },
        },
    }
}

/// The first `n` local BSSes; the first that is refused decides the error.
pub open spec fn locals_of(aps: Seq<ApEntry>, readings: Seq<Option<String>>, n: nat) -> Result<
    Seq<LocalId>,
    FilterError,
>
    decreases n,
{
    if n == 0 {
        Ok(seq![])
    } else {
        let i = n - 1;
        match locals_of(aps, readings, i as nat) {
            Err(e) => Err(e),
            Ok(done) => match local_of(aps[i], readings[i], i as usize, done) {
                Err(e) => Err(e),
                Ok(l) => Ok(done.push(l)),
            },
        }
    }
}

/// The first `n` addresses that peer `i` lists.
pub open spec fn listed_of(list: Seq<String>, i: usize, n: nat) -> Result<
    Seq<Seq<u8>>,
    FilterError,
>
    decreases n,
{
    if n == 0 {
        Ok(seq![])
    } else {
        match listed_of(list, i, (n - 1) as nat) {
            Err(e) => Err(e),
            Ok(done) => match mac_of(list[n - 1]@) {
                Err(e) => Err(FilterError::BssidMac(i, (n - 1) as usize, e)),
                Ok(m) => Ok(done.push(m)),
            },
        }
    }
}

/// The BSSIDs of peer `i` before they are checked: those it lists, else
/// those that hostapd manages.
pub open spec fn claimed_by(p: PeerEntry, managed: Option<Seq<Seq<u8>>>, i: usize) -> Result<
    Seq<Seq<u8>>,
    FilterError,
> {
    if p.bssids@.len() == 0 {
        match managed {
            None => Err(FilterError::HostapdNeeded),
            Some(all) => Ok(all),
        }
    } else {
        listed_of(p.bssids@, i, p.bssids@.len())
    }
}

/// The first `n` BSSIDs of peer `i` are neither broadcast nor duplicate.
pub open spec fn claims_verdict(bssids: Seq<Seq<u8>>, i: usize, n: nat) -> Result<(), FilterError>
    decreases n,
{
    if n == 0 {
        Ok(())
    } else {
        let j = n - 1;
        match claims_verdict(bssids, i, j as nat) {
            Err(e) => Err(e),
            Ok(_) => if bssids[j] == BROADCAST@ {
                Err(FilterError::BssidBroadcast(i, j as usize))
            } else if bssids.take(j).contains(bssids[j]) {
                Err(FilterError::BssidDuplicate(i, j as usize))
            } else {
                Ok(())
            },
        }
    }
}

/// The peer at place `i`, behind those in `done`.
pub open spec fn peer_of(
    p: PeerEntry,
    managed: Option<Seq<Seq<u8>>>,
    i: usize,
    done: Seq<PeerId>,
) -> Result<PeerId, FilterError> {
    match mac_of(p.mac@) {
        Err(e) => Err(FilterError::PeerMac(i, e)),
        Ok(m) => if m == BROADCAST@ {
            Err(FilterError::PeerBroadcast(i))
        } else if exists|k: int| 0 <= k < done.len() && (#[trigger] done[k]).mac == m {
            Err(FilterError::PeerDuplicate(i))
        } else {
            match claimed_by(p, managed, i) {
                Err(e) => Err(e),
                Ok(bssids) => if bssids.len() == 0 {
                    Err(FilterError::NoBssids(i))
                } else if bssids.len() > MAX_PEER_BSSIDS {
                    Err(FilterError::TooManyBssids(i))
                } else {
                    match claims_verdict(bssids, i, bssids.len()) {
                        Err(e) => Err(e),
                        Ok(_) => Ok(PeerId { mac: m, bssids: bssids }),
                    }
                },
            }
        },
    }
}

/// The first `n` peers; the first that is refused decides the error.
pub open spec fn peers_of(peers: Seq<PeerEntry>, managed: Option<Seq<Seq<u8>>>, n: nat) -> Result<
    Seq<PeerId>,
    FilterError,
>
    decreases n,
{
    if n == 0 {
        Ok(seq![])
    } else {
        let i = n - 1;
        match peers_of(peers, managed, i as nat) {
            Err(e) => Err(e),
            Ok(done) => match peer_of(peers[i], managed, i as usize, done) {
                Err(e) => Err(e),
                Ok(p) => Ok(done.push(p)),
            },
        }
    }
}

/// The filter identity in mathematical terms.
pub struct FilterId {
    pub target: Seq<u8>,
    pub management_vlan: u16,
    pub locals: Seq<LocalId>,
    pub peers: Seq<PeerId>,
}

impl Settings {
    /// The filter identity of this configuration on a host with these
    /// addresses; `managed` are hostapd's BSSIDs, once asked for.
    pub open spec fn identity(self, readings: Readings, managed: Option<Seq<Seq<u8>>>) -> Result<
        FilterId,
        FilterError,
    > {
        match readings.target {
            None => Err(FilterError::TargetUnreadable),
            Some(t) => match mac_of(trimmed(t@)) {
                Err(e) => Err(FilterError::TargetMac(e)),
                Ok(target) => match locals_of(self.aps@, readings.aps@, self.aps@.len()) {
                    Err(e) => Err(e),
                    Ok(locals) => match peers_of(self.peers@, managed, self.peers@.len()) {
                        Err(e) => Err(e),
                        Ok(peers) => Ok(
                            FilterId {
                                target: target,
                                management_vlan: self.management_vlan,
                                locals: locals,
                                peers: peers,
                            },
                        ),
                    },
                },
            },
        }
    }
}

impl Settings {
    /// The tables hold what is configured: no ninth local BSS or peer would
    /// have to be entered. Validated settings always fit.
    pub open spec fn fits_tables(self, readings: Readings, managed: Option<Seq<Seq<u8>>>) -> bool {
        let target_ok = readings.target matches Some(t) && mac_of(trimmed(t@)) is Ok;
        let locals_ok = locals_of(self.aps@, readings.aps@, self.aps@.len()) is Ok;
        &&& target_ok && self.aps@.len() > MAX_LOCALS ==> locals_of(
            self.aps@,
            readings.aps@,
            (MAX_LOCALS + 1) as nat,
        ) is Err
        &&& target_ok && locals_ok && self.peers@.len() > MAX_PEERS ==> peers_of(
            self.peers@,
            managed,
            (MAX_PEERS + 1) as nat,
        ) is Err
    }
}

/// The table entry stands for the local BSS; unused bytes are 0.
pub open spec fn local_entry(l: Local, id: LocalId) -> bool {
    &&& l.bssid@ == id.bssid
    &&& l.r0kh_len == id.r0kh.len()
    &&& l.r0kh@ == id.r0kh + zeros((MAX_R0KH - id.r0kh.len()) as nat)
}

/// The table entry stands for the peer; unused BSSIDs are 0.
pub open spec fn peer_entry(p: Peer, id: PeerId) -> bool {
    &&& p.mac@ == id.mac
    &&& p.bssid_count == id.bssids.len()
    &&& forall|j: int|
        0 <= j < MAX_PEER_BSSIDS ==> (#[trigger] p.bssids@[j])@ == if j < id.bssids.len() {
            id.bssids[j]
        } else {
            zeros(6)
        }
}

impl Filter {
    /// The filter stands for the identity; unused entries are blank.
    pub open spec fn stands_for(self, id: FilterId) -> bool {
        &&& self.target_mac@ == id.target
        &&& self.management_vlan == id.management_vlan
        &&& self.local_count == id.locals.len()
        &&& self.peer_count == id.peers.len()
        &&& forall|i: int|
            0 <= i < id.locals.len() ==> local_entry(#[trigger] self.locals@[i], id.locals[i])
        &&& forall|i: int|
            id.locals.len() <= i < MAX_LOCALS ==> (#[trigger] self.locals@[i]).is_blank()
        &&& forall|i: int|
            0 <= i < id.peers.len() ==> peer_entry(#[trigger] self.peers@[i], id.peers[i])
        &&& forall|i: int|
            id.peers.len() <= i < MAX_PEERS ==> (#[trigger] self.peers@[i]).is_blank()
    }
}

/// An error among the first local BSSes is the error of all.
proof fn locals_error(aps: Seq<ApEntry>, readings: Seq<Option<String>>, n: nat, m: nat)
    requires
        n <= m,
        locals_of(aps, readings, n) is Err,
    ensures
        locals_of(aps, readings, m) == locals_of(aps, readings, n),
    decreases m,
{
    if n < m {
        locals_error(aps, readings, n, (m - 1) as nat);
    }
}

/// An error among the first peers is the error of all.
proof fn peers_error(peers: Seq<PeerEntry>, managed: Option<Seq<Seq<u8>>>, n: nat, m: nat)
    requires
        n <= m,
        peers_of(peers, managed, n) is Err,
    ensures
        peers_of(peers, managed, m) == peers_of(peers, managed, n),
    decreases m,
{
    if n < m {
        peers_error(peers, managed, n, (m - 1) as nat);
    }
}

/// An error among the first listed addresses is the error of all.
proof fn listed_error(list: Seq<String>, i: usize, n: nat, m: nat)
    requires
        n <= m,
        listed_of(list, i, n) is Err,
    ensures
        listed_of(list, i, m) == listed_of(list, i, n),
    decreases m,
{
    if n < m {
        listed_error(list, i, n, (m - 1) as nat);
    }
}

/// An error among the first BSSIDs is the error of all.
proof fn claims_error(bssids: Seq<Seq<u8>>, i: usize, n: nat, m: nat)
    requires
        n <= m,
        claims_verdict(bssids, i, n) is Err,
    ensures
        claims_verdict(bssids, i, m) == claims_verdict(bssids, i, n),
    decreases m,
{
    if n < m {
        claims_error(bssids, i, n, (m - 1) as nat);
    }
}

/// Whether an address is the broadcast address.
fn is_broadcast(m: &[u8; 6]) -> (r: bool)
    ensures
        r == (m@ == BROADCAST@),
{
    same_mac(m, &BROADCAST)
}

/// An R0KH-ID as a table entry holds it.
fn padded(id: &str) -> (r: [u8; MAX_R0KH])
    requires
        valid_r0kh(id@),
    ensures
        encode_utf8(id@).len() == id@.len(),
        r@ == encode_utf8(id@) + zeros((MAX_R0KH - id@.len()) as nat),
{
    let b: &[u8] = id.as_bytes();
    proof {
        is_ascii_chars_encode_utf8(id@);
    }
    let n: usize = b.len();
    let mut r: [u8; MAX_R0KH] = [0; MAX_R0KH];
    let mut i: usize = 0;
    while i < n
        invariant
            n == b@.len(),
            n <= MAX_R0KH,
            i <= n,
            forall|k: int| 0 <= k < i ==> r@[k] == b@[k],
            forall|k: int| i <= k < MAX_R0KH ==> r@[k] == 0,
        decreases n - i,
    {
        r[i] = b[i];
        i += 1;
    }
    assert(r@ =~= encode_utf8(id@) + zeros((MAX_R0KH - id@.len()) as nat));
    r
}

/// The table entry of the local BSS at place `i`.
fn local_at(ap: &ApEntry, text: &Option<String>, i: usize, f: &Filter, Ghost(done): Ghost<
    Seq<LocalId>,
>) -> (r: Result<Local, FilterError>)
    requires
        i <= MAX_LOCALS,
        done.len() == i,
        forall|k: int| 0 <= k < i ==> local_entry(#[trigger] f.locals@[k], done[k]),
    ensures
        match r {
            Ok(l) => local_of(*ap, *text, i, done) is Ok && local_entry(
                l,
                local_of(*ap, *text, i, done)->Ok_0,
            ),
            Err(e) => local_of(*ap, *text, i, done) == Err::<LocalId, FilterError>(e),
        },
{
    let t: &String = match text {
        Some(t) => t,
        None => {
            return Err(FilterError::ApUnreadable(i));
        },
    };
    let bssid: [u8; 6] = match mac_of_chars(&trim(&chars_of(t.as_str()))) {
        Ok(m) => m,
        Err(e) => {
            return Err(FilterError::ApMac(i, e));
        },
    };
    let id: String = match &ap.r0kh_id {
        Some(id) => id.clone(),
        None => hex_text(bssid.as_slice()),
    };
    let count: usize = id.as_str().unicode_len();
    if count == 0 || count > MAX_R0KH || !id.as_str().is_ascii() {
        return Err(FilterError::R0khId(i));
    }
    if is_broadcast(&bssid) {
        return Err(FilterError::ApBroadcast(i));
    }
    let mut k: usize = 0;
    while k < i
        invariant
            k <= i <= MAX_LOCALS,
            done.len() == i,
            forall|j: int| 0 <= j < i ==> local_entry(#[trigger] f.locals@[j], done[j]),
            forall|j: int| 0 <= j < k ==> (#[trigger] done[j]).bssid != bssid@,
            local_of(*ap, *text, i, seq![]) is Ok,
            local_of(*ap, *text, i, seq![])->Ok_0.bssid == bssid@,
            mac_of(trimmed(text->0@)) == Ok::<Seq<u8>, MacError>(bssid@),
        decreases i - k,
    {
        assert(local_entry(f.locals@[k as int], done[k as int]));
        if same_mac(&f.locals[k].bssid, &bssid) {
            assert(done[k as int].bssid == bssid@);
            return Err(FilterError::ApDuplicate(i));
        }
        k += 1;
    }
    let r0kh: [u8; MAX_R0KH] = padded(id.as_str());
    Ok(Local { bssid: bssid, r0kh_len: count as u8, r0kh: r0kh })
}

/// The addresses that peer `i` lists.
fn listed_macs(list: &Vec<String>, i: usize) -> (r: Result<Vec<[u8; 6]>, FilterError>)
    ensures
        match r {
            Ok(v) => listed_of(list@, i, list@.len()) == Ok::<Seq<Seq<u8>>, FilterError>(macs(v@)),
            Err(e) => listed_of(list@, i, list@.len()) == Err::<Seq<Seq<u8>>, FilterError>(e),
        },
{
    let mut v: Vec<[u8; 6]> = Vec::new();
    let mut n: usize = 0;
    assert(macs(v@) =~= seq![]);
    while n < list.len()
        invariant
            n <= list@.len(),
            listed_of(list@, i, n as nat) == Ok::<Seq<Seq<u8>>, FilterError>(macs(v@)),
        decreases list@.len() - n,
    {
        match mac(list[n].as_str()) {
            Ok(m) => {
                let ghost before = v@;
                v.push(m);
                assert(macs(v@) =~= macs(before).push(m@));
            },
            Err(e) => {
                proof {
                    listed_error(list@, i, (n + 1) as nat, list@.len());
                }
                return Err(FilterError::BssidMac(i, n, e));
            },
        }
        n += 1;
    }
    Ok(v)
}

/// Check the BSSIDs of peer `i` and put them into its entry.
fn claims_at(bssids: &Vec<[u8; 6]>, i: usize, mac: [u8; 6]) -> (r: Result<Peer, FilterError>)
    requires
        bssids@.len() <= MAX_PEER_BSSIDS,
    ensures
        match r {
            Ok(p) => claims_verdict(macs(bssids@), i, bssids@.len()) is Ok && peer_entry(
                p,
                (PeerId { mac: mac@, bssids: macs(bssids@) }),
            ),
            Err(e) => claims_verdict(macs(bssids@), i, bssids@.len()) == Err::<(), FilterError>(e),
        },
{
    let ghost all = macs(bssids@);
    let mut peer: Peer = Peer::default();
    peer.mac = mac;
    peer.bssid_count = bssids.len() as u8;
    let mut j: usize = 0;
    while j < bssids.len()
        invariant
            j <= bssids@.len() <= MAX_PEER_BSSIDS,
            all == macs(bssids@),
            peer.mac == mac,
            peer.bssid_count == bssids@.len(),
            claims_verdict(all, i, j as nat) is Ok,
            forall|k: int|
                0 <= k < MAX_PEER_BSSIDS ==> (#[trigger] peer.bssids@[k])@ == if k < j {
                    all[k]
                } else {
                    zeros(6)
                },
        decreases bssids@.len() - j,
    {
        assert(all[j as int] == bssids@[j as int]@);
        if is_broadcast(&bssids[j]) {
            proof {
                claims_error(all, i, (j + 1) as nat, all.len());
            }
            return Err(FilterError::BssidBroadcast(i, j));
        }
        let mut k: usize = 0;
        while k < j
            invariant
                k <= j < bssids@.len(),
                all == macs(bssids@),
                all[j as int] == bssids@[j as int]@,
                all[j as int] != BROADCAST@,
                claims_verdict(all, i, j as nat) is Ok,
                forall|n: int| 0 <= n < k ==> all.take(j as int)[n] != all[j as int],
            decreases j - k,
        {
            if same_mac(&bssids[k], &bssids[j]) {
                proof {
                    assert(all.take(j as int)[k as int] == all[j as int]);
                    assert(all.take(j as int).contains(all[j as int]));
                    claims_error(all, i, (j + 1) as nat, all.len());
                }
                return Err(FilterError::BssidDuplicate(i, j));
            }
            assert(all.take(j as int)[k as int] == bssids@[k as int]@);
            k += 1;
        }
        assert(!all.take(j as int).contains(all[j as int]));
        peer.bssids[j] = bssids[j];
        j += 1;
    }
    Ok(peer)
}

/// hostapd's BSSIDs as byte strings, once asked for.
pub open spec fn managed_macs(managed: Option<&Vec<[u8; 6]>>) -> Option<Seq<Seq<u8>>> {
    match managed {
        Some(v) => Some(macs(v@)),
        None => None,
    }
}

/// The table entry of the peer at place `i`.
fn peer_at(
    p: &PeerEntry,
    managed: Option<&Vec<[u8; 6]>>,
    i: usize,
    f: &Filter,
    Ghost(done): Ghost<Seq<PeerId>>,
) -> (r: Result<Peer, FilterError>)
    requires
        i <= MAX_PEERS,
        done.len() == i,
        forall|k: int| 0 <= k < i ==> peer_entry(#[trigger] f.peers@[k], done[k]),
    ensures
        match r {
            Ok(e) => peer_of(*p, managed_macs(managed), i, done) is Ok && peer_entry(
                e,
                peer_of(*p, managed_macs(managed), i, done)->Ok_0,
            ),
            Err(e) => peer_of(*p, managed_macs(managed), i, done) == Err::<PeerId, FilterError>(e),
        },
{
    let m: [u8; 6] = match mac(p.mac.as_str()) {
        Ok(m) => m,
        Err(e) => {
            return Err(FilterError::PeerMac(i, e));
        },
    };
    if is_broadcast(&m) {
        return Err(FilterError::PeerBroadcast(i));
    }
    let mut k: usize = 0;
    while k < i
        invariant
            k <= i <= MAX_PEERS,
            done.len() == i,
            forall|j: int| 0 <= j < i ==> peer_entry(#[trigger] f.peers@[j], done[j]),
            forall|j: int| 0 <= j < k ==> (#[trigger] done[j]).mac != m@,
            mac_of(p.mac@) == Ok::<Seq<u8>, MacError>(m@),
            m@ != BROADCAST@,
        decreases i - k,
    {
        assert(peer_entry(f.peers@[k as int], done[k as int]));
        if same_mac(&f.peers[k].mac, &m) {
            assert(done[k as int].mac == m@);
            return Err(FilterError::PeerDuplicate(i));
        }
        k += 1;
    }
    let own: Vec<[u8; 6]>;
    let bssids: &Vec<[u8; 6]> = if p.bssids.len() == 0 {
        match managed {
            Some(v) => v,
            None => {
                return Err(FilterError::HostapdNeeded);
            },
        }
    } else {
        own =
        match listed_macs(&p.bssids, i) {
            Ok(v) => v,
            Err(e) => {
                return Err(e);
            },
        };
        &own
    };
    assert(claimed_by(*p, managed_macs(managed), i) == Ok::<Seq<Seq<u8>>, FilterError>(
        macs(bssids@),
    ));
    if bssids.len() == 0 {
        return Err(FilterError::NoBssids(i));
    }
    if bssids.len() > MAX_PEER_BSSIDS {
        return Err(FilterError::TooManyBssids(i));
    }
    claims_at(bssids, i, m)
}

impl Settings {
    /// Assemble the userspace filter identity, fail-closed on bad input.
    /// hostapd's BSSIDs are needed only when a peer leaves `bssids` empty;
    /// `FilterError::HostapdNeeded` says so while `managed` is absent.
    pub fn filter(&self, readings: &Readings, managed: Option<&Vec<[u8; 6]>>) -> (r: Result<
        Filter,
        FilterError,
    >)
        requires
            readings.aps@.len() == self.aps@.len(),
            self.fits_tables(*readings, managed_macs(managed)),
        ensures
            match self.identity(*readings, managed_macs(managed)) {
                Ok(id) => r is Ok && r->Ok_0.stands_for(id),
                Err(e) => r == Err::<Filter, FilterError>(e),
            },
    {
        let mut f: Filter = Filter::default();
        f.target_mac =
        match &readings.target {
            None => {
                return Err(FilterError::TargetUnreadable);
            },
            Some(t) => match mac_of_chars(&trim(&chars_of(t.as_str()))) {
                Ok(m) => m,
                Err(e) => {
                    return Err(FilterError::TargetMac(e));
                },
            },
        };
        f.management_vlan = self.management_vlan;
        f.peer_count = self.peers.len() as u8;
        f.local_count = self.aps.len() as u8;
        let ghost target = f.target_mac@;
        let ghost all = managed_macs(managed);
        let ghost mut locals: Seq<LocalId> = seq![];
        let mut i: usize = 0;
        while i < self.aps.len()
            invariant
                i <= self.aps@.len(),
                i <= MAX_LOCALS,
                all == managed_macs(managed),
                self.fits_tables(*readings, all),
                readings.aps@.len() == self.aps@.len(),
                readings.target is Some,
                mac_of(trimmed(readings.target->0@)) == Ok::<Seq<u8>, MacError>(target),
                f.target_mac@ == target,
                f.management_vlan == self.management_vlan,
                f.peer_count == self.peers@.len() as u8,
                f.local_count == self.aps@.len() as u8,
                locals.len() == i,
                locals_of(self.aps@, readings.aps@, i as nat) == Ok::<Seq<LocalId>, FilterError>(
                    locals,
                ),
                forall|k: int| 0 <= k < i ==> local_entry(#[trigger] f.locals@[k], locals[k]),
                forall|k: int| i <= k < MAX_LOCALS ==> (#[trigger] f.locals@[k]).is_blank(),
                forall|k: int| 0 <= k < MAX_PEERS ==> (#[trigger] f.peers@[k]).is_blank(),
            decreases self.aps@.len() - i,
        {
            match local_at(&self.aps[i], &readings.aps[i], i, &f, Ghost(locals)) {
                Ok(l) => {
                    let ghost id = local_of(
                        self.aps@[i as int],
                        readings.aps@[i as int],
                        i,
                        locals,
                    )->Ok_0;
                    proof {
                        if i == MAX_LOCALS {
                            assert(locals_of(self.aps@, readings.aps@, (i + 1) as nat) is Ok);
                        }
                    }
                    f.locals[i] = l;
                    proof {
                        locals = locals.push(id);
                    }
                },
                Err(e) => {
                    proof {
                        locals_error(self.aps@, readings.aps@, (i + 1) as nat, self.aps@.len());
                    }
                    return Err(e);
                },
            }
            i += 1;
        }
        let ghost mut peers: Seq<PeerId> = seq![];
        let mut j: usize = 0;
        while j < self.peers.len()
            invariant
                j <= self.peers@.len(),
                j <= MAX_PEERS,
                all == managed_macs(managed),
                self.fits_tables(*readings, all),
                readings.target is Some,
                mac_of(trimmed(readings.target->0@)) == Ok::<Seq<u8>, MacError>(target),
                f.target_mac@ == target,
                f.management_vlan == self.management_vlan,
                f.peer_count == self.peers@.len() as u8,
                f.local_count == self.aps@.len() as u8,
                locals.len() == self.aps@.len() <= MAX_LOCALS,
                locals_of(self.aps@, readings.aps@, self.aps@.len()) == Ok::<
                    Seq<LocalId>,
                    FilterError,
                >(locals),
                forall|k: int|
                    0 <= k < self.aps@.len() ==> local_entry(#[trigger] f.locals@[k], locals[k]),
                forall|k: int|
                    self.aps@.len() <= k < MAX_LOCALS ==> (#[trigger] f.locals@[k]).is_blank(),
                peers.len() == j,
                peers_of(self.peers@, all, j as nat) == Ok::<Seq<PeerId>, FilterError>(peers),
                forall|k: int| 0 <= k < j ==> peer_entry(#[trigger] f.peers@[k], peers[k]),
                forall|k: int| j <= k < MAX_PEERS ==> (#[trigger] f.peers@[k]).is_blank(),
            decreases self.peers@.len() - j,
        {
            match peer_at(&self.peers[j], managed, j, &f, Ghost(peers)) {
                Ok(p) => {
                    let ghost id = peer_of(self.peers@[j as int], all, j, peers)->Ok_0;
                    proof {
                        if j == MAX_PEERS {
                            assert(peers_of(self.peers@, all, (j + 1) as nat) is Ok);
                        }
                    }
                    f.peers[j] = p;
                    proof {
                        peers = peers.push(id);
                    }
                },
                Err(e) => {
                    proof {
                        peers_error(self.peers@, all, (j + 1) as nat, self.peers@.len());
                    }
                    return Err(e);
                },
            }
            j += 1;
        }
        Ok(f)
    }
}

/// A local BSS is fit to be served: an address other than broadcast, and an
/// R0KH-ID of 1..=48 bytes.
pub open spec fn sound_local(l: LocalId) -> bool {
    &&& l.bssid.len() == 6
    &&& l.bssid != BROADCAST@
    &&& 1 <= l.r0kh.len() <= MAX_R0KH
}

/// A peer is fit to be heard: an address other than broadcast, and 1..=8
/// pairwise different BSSIDs, none of them broadcast.
pub open spec fn sound_peer(p: PeerId) -> bool {
    &&& p.mac.len() == 6
    &&& p.mac != BROADCAST@
    &&& 1 <= p.bssids.len() <= MAX_PEER_BSSIDS
    &&& p.bssids.no_duplicates()
    &&& !p.bssids.contains(BROADCAST@)
}

/// BSSIDs that pass are pairwise different and not broadcast.
proof fn claims_are_sound(bssids: Seq<Seq<u8>>, i: usize, n: nat)
    requires
        n <= bssids.len(),
        claims_verdict(bssids, i, n) is Ok,
    ensures
        bssids.take(n as int).no_duplicates(),
        !bssids.take(n as int).contains(BROADCAST@),
    decreases n,
{
    if n > 0 {
        let j = n - 1;
        claims_are_sound(bssids, i, j as nat);
        let s = bssids.take(n as int);
        let rest = bssids.take(j);
        assert forall|a: int, b: int| 0 <= a < s.len() && 0 <= b < s.len() && a != b implies s[a]
            != s[b] by {
            if a < j && b < j {
                assert(rest[a] != rest[b]);
            } else if a < j {
                assert(rest[a] == s[a]);
                assert(rest.contains(s[a]));
            } else {
                assert(rest[b] == s[b]);
                assert(rest.contains(s[b]));
            }
        }
        if s.contains(BROADCAST@) {
            let k = choose|k: int| 0 <= k < s.len() && s[k] == BROADCAST@;
            if k < j {
                assert(rest[k] == BROADCAST@);
                assert(rest.contains(BROADCAST@));
            }
        }
    }
}

proof fn locals_are_sound(aps: Seq<ApEntry>, readings: Seq<Option<String>>, n: nat)
    ensures
        locals_of(aps, readings, n) matches Ok(l) ==> {
            &&& l.len() == n
            &&& forall|k: int| 0 <= k < n ==> sound_local(#[trigger] l[k])
            &&& forall|a: int, b: int|
                0 <= a < b < n ==> (#[trigger] l[a]).bssid != (#[trigger] l[b]).bssid
        },
    decreases n,
{
    if n > 0 && locals_of(aps, readings, n) is Ok {
        locals_are_sound(aps, readings, (n - 1) as nat);
        let done = locals_of(aps, readings, (n - 1) as nat)->Ok_0;
        let bssid = mac_of(trimmed(readings[n - 1]->0@))->Ok_0;
        mac_has_six_octets(trimmed(readings[n - 1]->0@));
        is_ascii_chars_encode_utf8(r0kh_of(aps[n - 1], bssid));
    }
}

proof fn peers_are_sound(peers: Seq<PeerEntry>, managed: Option<Seq<Seq<u8>>>, n: nat)
    ensures
        peers_of(peers, managed, n) matches Ok(l) ==> {
            &&& l.len() == n
            &&& forall|k: int| 0 <= k < n ==> sound_peer(#[trigger] l[k])
            &&& forall|a: int, b: int|
                0 <= a < b < n ==> (#[trigger] l[a]).mac != (#[trigger] l[b]).mac
        },
    decreases n,
{
    if n > 0 && peers_of(peers, managed, n) is Ok {
        let i = n - 1;
        peers_are_sound(peers, managed, i as nat);
        mac_has_six_octets(peers[i].mac@);
        let bssids = claimed_by(peers[i], managed, i as usize)->Ok_0;
        claims_are_sound(bssids, i as usize, bssids.len());
        assert(bssids.take(bssids.len() as int) =~= bssids);
    }
}

/// An identity is assembled only from sound parts: as many local BSSes and
/// peers as are configured, each fit for its part, no two with the same
/// address.
pub proof fn identity_is_sound(
    s: Settings,
    readings: Readings,
    managed: Option<Seq<Seq<u8>>>,
)
    ensures
        s.identity(readings, managed) matches Ok(id) ==> {
            &&& id.target.len() == 6
            &&& id.management_vlan == s.management_vlan
            &&& id.locals.len() == s.aps@.len()
            &&& id.peers.len() == s.peers@.len()
            &&& forall|k: int| 0 <= k < id.locals.len() ==> sound_local(#[trigger] id.locals[k])
            &&& forall|k: int| 0 <= k < id.peers.len() ==> sound_peer(#[trigger] id.peers[k])
            &&& forall|a: int, b: int|
                0 <= a < b < id.locals.len() ==> (#[trigger] id.locals[a]).bssid != (
                #[trigger] id.locals[b]).bssid
            &&& forall|a: int, b: int|
                0 <= a < b < id.peers.len() ==> (#[trigger] id.peers[a]).mac != (
                #[trigger] id.peers[b]).mac
        },
{
    if readings.target is Some {
        mac_has_six_octets(trimmed(readings.target->0@));
    }
    locals_are_sound(s.aps@, readings.aps@, s.aps@.len());
    peers_are_sound(s.peers@, managed, s.peers@.len());
}

proof fn peers_without_hostapd(
    peers: Seq<PeerEntry>,
    a: Option<Seq<Seq<u8>>>,
    b: Option<Seq<Seq<u8>>>,
    n: nat,
)
    requires
        n <= peers.len(),
        forall|k: int| 0 <= k < peers.len() ==> (#[trigger] peers[k]).bssids@.len() > 0,
    ensures
        peers_of(peers, a, n) == peers_of(peers, b, n),
        peers_of(peers, a, n) != Err::<Seq<PeerId>, FilterError>(FilterError::HostapdNeeded),
    decreases n,
{
    if n > 0 {
        peers_without_hostapd(peers, a, b, (n - 1) as nat);
        let p = peers[n - 1];
        listed_errors(p.bssids@, (n - 1) as usize, p.bssids@.len());
        if claimed_by(p, a, (n - 1) as usize) is Ok {
            let l = claimed_by(p, a, (n - 1) as usize)->Ok_0;
            claims_errors(l, (n - 1) as usize, l.len());
        }
    }
}

proof fn listed_errors(list: Seq<String>, i: usize, n: nat)
    ensures
        listed_of(list, i, n) != Err::<Seq<Seq<u8>>, FilterError>(FilterError::HostapdNeeded),
    decreases n,
{
    if n > 0 {
        listed_errors(list, i, (n - 1) as nat);
    }
}

proof fn claims_errors(bssids: Seq<Seq<u8>>, i: usize, n: nat)
    ensures
        claims_verdict(bssids, i, n) != Err::<(), FilterError>(FilterError::HostapdNeeded),
    decreases n,
{
    if n > 0 {
        claims_errors(bssids, i, (n - 1) as nat);
    }
}

proof fn locals_errors(aps: Seq<ApEntry>, readings: Seq<Option<String>>, n: nat)
    ensures
        locals_of(aps, readings, n) != Err::<Seq<LocalId>, FilterError>(FilterError::HostapdNeeded),
    decreases n,
{
    if n > 0 {
        locals_errors(aps, readings, (n - 1) as nat);
    }
}

/// hostapd plays no part where every peer lists its BSSIDs.
pub proof fn listed_bssids_need_no_hostapd(
    s: Settings,
    readings: Readings,
    managed: Option<Seq<Seq<u8>>>,
)
    requires
        forall|k: int| 0 <= k < s.peers@.len() ==> (#[trigger] s.peers@[k]).bssids@.len() > 0,
    ensures
        s.identity(readings, managed) == s.identity(readings, None),
        s.identity(readings, None) != Err::<FilterId, FilterError>(FilterError::HostapdNeeded),
{
    locals_errors(s.aps@, readings.aps@, s.aps@.len());
    peers_without_hostapd(s.peers@, managed, None, s.peers@.len());
    peers_without_hostapd(s.peers@, None, None, s.peers@.len());
}

/// Settings that pass the structural validation fit the filter's tables,
/// whatever the host reports.
pub proof fn validated_settings_fit(
    s: Settings,
    readings: Readings,
    managed: Option<Seq<Seq<u8>>>,
)
    requires
        s.verdict() is Ok,
    ensures
        s.fits_tables(readings, managed),
{
}

/// A sender that is found is one of the table's.
proof fn sender_is_listed(peers: Seq<Peer>, n: nat, mac: Seq<u8>)
    requires
        peer_with(peers, n, mac) is Some,
    ensures
        exists|i: int|
            0 <= i < n && #[trigger] peers[i] == peer_with(peers, n, mac)->0 && peers[i].mac@
                == mac,
    decreases n,
{
    if peers[n - 1].mac@ != mac {
        sender_is_listed(peers, (n - 1) as nat, mac);
        let i = choose|i: int|
            0 <= i < n - 1 && #[trigger] peers[i] == peer_with(peers, (n - 1) as nat, mac)->0
                && peers[i].mac@ == mac;
        assert(peers[i] == peer_with(peers, n, mac)->0);
    } else {
        assert(peers[n - 1] == peer_with(peers, n, mac)->0);
    }
}

/// With the filter of a configuration, a frame is accepted only on the
/// management VLAN, for a configured local BSS or for all, and, where peers
/// are configured, from one of them under one of its BSSIDs.
pub proof fn filter_admits_the_configured(
    s: Settings,
    readings: Readings,
    managed: Option<Seq<Seq<u8>>>,
    f: Filter,
    frame: Seq<u8>,
    vlan: Vlan,
)
    requires
        s.identity(readings, managed) is Ok,
        f.stands_for(s.identity(readings, managed)->Ok_0),
        verdict(frame, vlan, f) is Ok,
    ensures
        ({
            let id = s.identity(readings, managed)->Ok_0;
            let body = body_of(frame, vlan, s.management_vlan)->0;
            let bss = frame.subrange(body + 12, body + 18);
            &&& body_of(frame, vlan, s.management_vlan) is Some
            &&& bss == BROADCAST@ || exists|i: int|
                0 <= i < id.locals.len() && (#[trigger] id.locals[i]).bssid == bss
            &&& id.peers.len() > 0 ==> exists|i: int|
                0 <= i < id.peers.len() && (#[trigger] id.peers[i]).mac == frame.subrange(6, 12)
                    && id.peers[i].bssids.contains(frame.subrange(body + 6, body + 12))
        }),
{
    let id = s.identity(readings, managed)->Ok_0;
    identity_is_sound(s, readings, managed);
    let body = body_of(frame, vlan, s.management_vlan)->0;
    let bss = frame.subrange(body + 12, body + 18);
    if bss != BROADCAST@ {
        let i = choose|i: int|
            0 <= i < in_use(f.local_count, MAX_LOCALS) && (#[trigger] f.locals@[i]).bssid@ == bss;
        assert(local_entry(f.locals@[i], id.locals[i]));
        assert(id.locals[i].bssid == bss);
    }
    if id.peers.len() > 0 {
        let n = in_use(f.peer_count, MAX_PEERS);
        let src = frame.subrange(6, 12);
        let claim = frame.subrange(body + 6, body + 12);
        sender_is_listed(f.peers@, n, src);
        let i = choose|i: int|
            0 <= i < n && #[trigger] f.peers@[i] == peer_with(f.peers@, n, src)->0
                && f.peers@[i].mac@ == src;
        let p = f.peers@[i];
        assert(peer_entry(p, id.peers[i]));
        assert(sound_peer(id.peers[i]));
        assert(may_claim(p, claim));
        let j = choose|j: int|
            0 <= j < in_use(p.bssid_count, MAX_PEER_BSSIDS) && (#[trigger] p.bssids@[j])@ == claim;
        assert(id.peers[i].bssids[j] == claim);
        assert(id.peers[i].bssids.contains(claim));
    }
}

} // verus!
