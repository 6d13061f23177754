//! Configuration of the relay daemon, and the filter identity that it makes.
//!
//! Example:
//!
//! ```yaml
//! sources: [eth1, eth2]        # ports RRB frames arrive on (from the switch)
//! aps:                         # local AP interfaces this relay serves
//!   - interface: wifi1ap4
//!     # r0kh_id defaults to the interface's BSSID in hex without colons,
//!     # which is what UniFi's hostapd configures.
//! peers:                       # peer APs allowed to send us RRB
//!   - mac: "1c:0b:8b:ea:60:c9"
//!     bssids: ["1c:0b:8b:ea:60:c9"]
//! target: br0                  # bridge hostapd listens on
//! ```
pub mod address;
pub mod identity;
pub mod laws;

pub use address::{mac, MacError};

use vstd::prelude::*;
use vstd::string::*;
use crate::proto::{MAX_LOCALS, MAX_PEERS};
use crate::text::{chars_of, same_chars, texts};

verus! {

/// Default TC filter priority on the relay TAP: 0xC000, high in the kernel's
/// range, far from anything another tool would auto-assign.
pub const DEFAULT_PREF: u16 = 49152;

/// Largest 802.1Q VLAN ID; 0 and 4095 are reserved.
pub const MAX_VID: u16 = 4094;

/// Bridge that hostapd listens on, unless configured otherwise.
pub fn default_target() -> (s: String)
    ensures
        s@ == "br0"@,
{
    "br0".to_owned()
}

/// Management VLAN, unless configured otherwise.
pub fn default_vlan() -> (v: u16)
    ensures
        v == 1,
{
    1
}

/// The relay forwards, unless configured otherwise.
pub fn default_mode() -> (m: Mode)
    ensures
        m == Mode::Forward,
{
    Mode::Forward
}

/// A roam generates a handful of RRB frames; 20 per second is generous.
pub fn default_pps() -> (n: u32)
    ensures
        n == 20,
{
    20
}

/// Name of the relay TAP, unless configured otherwise.
pub fn default_tap() -> (s: String)
    ensures
        s@ == "rrb0"@,
{
    "rrb0".to_owned()
}

/// TC filter priority, unless configured otherwise.
pub fn default_pref() -> (p: u16)
    ensures
        p == DEFAULT_PREF,
{
    DEFAULT_PREF
}

/// What the daemon does with matched frames.
#[derive(Clone, Copy, Debug, PartialEq, Eq, Structural)]
pub enum Mode {
    /// Validate and count only; no TAP, no forwarding.
    Observe,
    /// Relay matched frames into the target bridge.
    Forward,
}

/// One local AP interface the relay serves.
#[derive(Debug)]
pub struct ApEntry {
    /// AP interface name (e.g. wifi1ap4); its MAC is the local BSSID.
    pub interface: String,
    /// R0KH-ID hostapd uses for this BSS (1..=48 ASCII bytes). Default: the
    /// interface's BSSID in lowercase hex without colons.
    pub r0kh_id: Option<String>,
}

/// One peer AP allowed to source RRB traffic toward us.
#[derive(Debug)]
pub struct PeerEntry {
    /// MAC address the peer puts in the Ethernet source field.
    pub mac: String,
    /// BSSIDs the peer may claim inside the RRB header (0..=8). Empty =
    /// filled with every BSSID this host's hostapd manages.
    pub bssids: Vec<String>,
}

/// Rate limit on relayed frames.
#[derive(Debug)]
pub struct Limits {
    /// Relays allowed per 1-second window.
    pub packets_per_second: u32,
}

impl Default for Limits {
    fn default() -> (l: Self)
        ensures
            l.packets_per_second == 20,
    {
        Limits { packets_per_second: default_pps() }
    }
}

/// Root of the configuration.
#[derive(Debug)]
pub struct Settings {
    /// Switch-facing ports RRB frames arrive on, e.g. [eth1, eth2].
    pub sources: Vec<String>,
    /// Local AP interfaces this relay serves (1..=8).
    pub aps: Vec<ApEntry>,
    /// Peer APs allowed to send us RRB frames (0..=8). Empty = wildcard: any
    /// sender is accepted as a peer.
    pub peers: Vec<PeerEntry>,
    /// Bridge that hostapd listens on; the mirred redirect target.
    pub target: String,
    /// 802.1Q VID RRB frames must be tagged with on the wire (1..=4094).
    pub management_vlan: u16,
    pub mode: Mode,
    pub limits: Limits,
    /// Name of the relay TAP to create (forward mode only).
    pub tap: String,
    /// TC filter priority on the TAP.
    pub pref: u16,
}

/// What is structurally wrong with a configuration.
#[derive(Clone, Copy, Debug, PartialEq, Eq, Structural)]
pub enum ConfigError {
    /// No source is configured.
    NoSources,
    /// Not 1..=8 AP interfaces are configured.
    ApCount,
    /// More than eight peers are configured.
    PeerCount,
    /// The name at this place among sources, APs, target and TAP is none.
    InvalidName(usize),
    /// The name at this place occurs before it.
    ListedTwice(usize),
    /// The management VLAN is no VLAN ID: it is not in 1..=4094.
    ManagementVlan,
    /// The rate limit is 0.
    PacketsPerSecond,
}

/// A character of an interface name.
pub open spec fn name_char(c: char) -> bool {
    ||| 'a' <= c <= 'z'
    ||| 'A' <= c <= 'Z'
    ||| '0' <= c <= '9'
    ||| c == '.'
    ||| c == '-'
    ||| c == '_'
}

/// An interface name: not empty, with room for a NUL in IFNAMSIZ bytes, of
/// ASCII letters, digits, dots, dashes and underscores.
pub open spec fn valid_name(n: Seq<char>) -> bool {
    &&& 0 < n.len() < 16
    &&& forall|i: int| 0 <= i < n.len() ==> name_char(#[trigger] n[i])
}

/// The names are valid and pairwise different; the first that is not decides
/// the error.
pub open spec fn names_verdict(names: Seq<Seq<char>>) -> Result<(), ConfigError>
    decreases names.len(),
{
    if names.len() == 0 {
        Ok(())
    } else {
        let i = (names.len() - 1) as usize;
        match names_verdict(names.drop_last()) {
            Err(e) => Err(e),
            Ok(_) => if !valid_name(names.last()) {
                Err(ConfigError::InvalidName(i))
            } else if names.drop_last().contains(names.last()) {
                Err(ConfigError::ListedTwice(i))
            } else {
                Ok(())
            },
        }
    }
}

/// An error among the first names is the error of all.
proof fn names_error(names: Seq<Seq<char>>, i: int)
    requires
        0 <= i <= names.len(),
        names_verdict(names.take(i)) is Err,
    ensures
        names_verdict(names) == names_verdict(names.take(i)),
    decreases names.len(),
{
    if i == names.len() {
        assert(names.take(i) =~= names);
    } else {
        assert(names.drop_last().take(i) =~= names.take(i));
        names_error(names.drop_last(), i);
    }
}

/// Whether a text is an interface name.
fn is_name(n: &Vec<char>) -> (r: bool)
    ensures
        r == valid_name(n@),
{
    if n.len() == 0 || n.len() >= 16 {
        return false;
    }
    let mut i: usize = 0;
    while i < n.len()
        invariant
            i <= n@.len(),
            forall|k: int| 0 <= k < i ==> name_char(#[trigger] n@[k]),
        decreases n@.len() - i,
    {
        let c: char = n[i];
        let ok: bool = ('a' <= c && c <= 'z') || ('A' <= c && c <= 'Z') || ('0' <= c && c <= '9')
            || c == '.' || c == '-' || c == '_';
        if !ok {
            assert(!name_char(n@[i as int]));
            return false;
        }
        i += 1;
    }
    true
}

/// Whether one of the first `n` names is `name`.
fn listed(names: &Vec<Vec<char>>, n: usize, name: &Vec<char>) -> (r: bool)
    requires
        n <= names@.len(),
    ensures
        r == texts(names@).take(n as int).contains(name@),
{
    let ghost all = texts(names@).take(n as int);
    let mut i: usize = 0;
    while i < n
        invariant
            i <= n <= names@.len(),
            all == texts(names@).take(n as int),
            forall|k: int| 0 <= k < i ==> all[k] != name@,
        decreases n - i,
    {
        assert(all[i as int] == names@[i as int]@);
        if same_chars(&names[i], name) {
            return true;
        }
        i += 1;
    }
    false
}

/// Check names.
fn check_names(names: &Vec<Vec<char>>) -> (r: Result<(), ConfigError>)
    ensures
        r == names_verdict(texts(names@)),
{
    let ghost all = texts(names@);
    let mut i: usize = 0;
    while i < names.len()
        invariant
            i <= names@.len(),
            all == texts(names@),
            names_verdict(all.take(i as int)) is Ok,
        decreases names@.len() - i,
    {
        proof {
            assert(all[i as int] == names@[i as int]@);
            assert(all.take(i + 1).drop_last() =~= all.take(i as int));
        }
        if !is_name(&names[i]) {
            proof {
                names_error(all, i + 1);
            }
            return Err(ConfigError::InvalidName(i));
        }
        if listed(names, i, &names[i]) {
            proof {
                names_error(all, i + 1);
            }
            return Err(ConfigError::ListedTwice(i));
        }
        i += 1;
    }
    assert(all.take(i as int) =~= all);
    Ok(())
}

impl Settings {
    /// All interface names: sources, APs, target, TAP.
    pub open spec fn names(self) -> Seq<Seq<char>> {
        Seq::new(self.sources@.len(), |i: int| self.sources@[i]@) + Seq::new(
            self.aps@.len(),
            |i: int| self.aps@[i].interface@,
        ) + seq![self.target@, self.tap@]
    }

    /// What the structural validation says.
    pub open spec fn verdict(self) -> Result<(), ConfigError> {
        if self.sources@.len() == 0 {
            Err(ConfigError::NoSources)
        } else if !(1 <= self.aps@.len() <= MAX_LOCALS) {
            Err(ConfigError::ApCount)
        } else if self.peers@.len() > MAX_PEERS {
            Err(ConfigError::PeerCount)
        } else if names_verdict(self.names()) is Err {
            names_verdict(self.names())
        } else if !(1 <= self.management_vlan <= MAX_VID) {
            Err(ConfigError::ManagementVlan)
        } else if self.limits.packets_per_second == 0 {
            Err(ConfigError::PacketsPerSecond)
        } else {
            Ok(())
        }
    }

    /// The names in the order of the checks.
    fn collect_names(&self) -> (v: Vec<Vec<char>>)
        ensures
            texts(v@) == self.names(),
    {
        let mut v: Vec<Vec<char>> = Vec::new();
        let ghost all = self.names();
        let mut i: usize = 0;
        while i < self.sources.len()
            invariant
                i <= self.sources@.len(),
                all == self.names(),
                v@.len() == i,
                forall|k: int| 0 <= k < i ==> (#[trigger] v@[k])@ == all[k],
            decreases self.sources@.len() - i,
        {
            v.push(chars_of(self.sources[i].as_str()));
            i += 1;
        }
        let mut j: usize = 0;
        while j < self.aps.len()
            invariant
                j <= self.aps@.len(),
                all == self.names(),
                v@.len() == self.sources@.len() + j,
                forall|k: int| 0 <= k < v@.len() ==> (#[trigger] v@[k])@ == all[k],
            decreases self.aps@.len() - j,
        {
            v.push(chars_of(self.aps[j].interface.as_str()));
            j += 1;
        }
        v.push(chars_of(self.target.as_str()));
        v.push(chars_of(self.tap.as_str()));
        assert(texts(v@) =~= all);
        v
    }

    /// Structural validation that does not need the OS.
    pub fn validate(&self) -> (r: Result<(), ConfigError>)
        ensures
            r == self.verdict(),
    {
        if self.sources.len() == 0 {
            return Err(ConfigError::NoSources);
        }
        if self.aps.len() < 1 || self.aps.len() > MAX_LOCALS {
            return Err(ConfigError::ApCount);
        }
        if self.peers.len() > MAX_PEERS {
            return Err(ConfigError::PeerCount);
        }
        match check_names(&self.collect_names()) {
            Ok(_) => {},
            Err(e) => {
                return Err(e);
            },
        }
        if self.management_vlan < 1 || self.management_vlan > MAX_VID {
            return Err(ConfigError::ManagementVlan);
        }
        if self.limits.packets_per_second == 0 {
            return Err(ConfigError::PacketsPerSecond);
        }
        Ok(())
    }
}

/// Names that pass are all valid and pairwise different.
pub proof fn accepted_names(names: Seq<Seq<char>>)
    ensures
        names_verdict(names) is Ok <==> (forall|i: int|
            0 <= i < names.len() ==> valid_name(#[trigger] names[i])) && names.no_duplicates(),
    decreases names.len(),
{
    if names.len() > 0 {
        let rest = names.drop_last();
        accepted_names(rest);
        if names_verdict(names) is Ok {
            assert forall|i: int| 0 <= i < names.len() implies valid_name(#[trigger] names[i]) by {
                if i < rest.len() {
                    assert(rest[i] == names[i]);
                }
            }
            assert forall|i: int, j: int|
                0 <= i < names.len() && 0 <= j < names.len() && i != j implies names[i]
                != names[j] by {
                if i < rest.len() && j < rest.len() {
                    assert(rest[i] != rest[j]);
                } else if i < rest.len() {
                    assert(rest[i] == names[i]);
                    assert(rest.contains(names[i]));
                } else {
                    assert(rest[j] == names[j]);
                    assert(rest.contains(names[j]));
                }
            }
        }
        if (forall|i: int| 0 <= i < names.len() ==> valid_name(#[trigger] names[i]))
            && names.no_duplicates() {
            assert forall|i: int| 0 <= i < rest.len() implies valid_name(#[trigger] rest[i]) by {
                assert(rest[i] == names[i]);
            }
            assert(rest.no_duplicates());
            if rest.contains(names.last()) {
                let k = choose|k: int| 0 <= k < rest.len() && rest[k] == names.last();
                assert(names[k] == names.last());
            }
        }
    }
}

} // verus!
