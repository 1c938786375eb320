use vstd::prelude::*;
use vstd::string::*;

use crate::text::{
    chars_of, find, find_in, has_prefix, lemma_find_at, lemma_find_from, starts_with, str_eq,
    substring,
};
use crate::types::{HostInfo, IpAddress, Platform};

verus! {

/// The UDP port of discovery, of the handshake and of the transfer.
pub const PORT: u16 = 58422;

/// The address announces go to when no interface could be used:
/// 255.255.255.255.
pub const FALLBACK_BROADCAST: u32 = 0xFFFF_FFFF;

/// The marker after which an announce carries the host name.
pub open spec fn from_marker() -> Seq<char> {
    seq!['f', 'r', 'o', 'm', ' ']
}

/// `s` without the `'!'` characters at its end.
pub open spec fn strip_trailing_bangs(s: Seq<char>) -> Seq<char>
    decreases s.len(),
{
    if s.len() > 0 && s.last() == '!' {
        strip_trailing_bangs(s.drop_last())
    } else {
        s
    }
}

/// The host name an announce carries: the text between the first `"from "`
/// and the first `'!'`, when that text is not empty; otherwise the whole
/// message without its trailing `'!'`s.
pub open spec fn hostname_of(m: Seq<char>) -> Seq<char> {
    let a = find(m, from_marker());
    let b = find(m, seq!['!']);
    if a is Some && b is Some && a->0 + 5 < b->0 {
        m.subrange(a->0 + 5, b->0)
    } else {
        strip_trailing_bangs(m)
    }
}

/// The announce a host broadcasts.
pub open spec fn announce_text(host: Seq<char>) -> Seq<char> {
    "Hello from "@ + host + "!"@
}

/// Whether a Unix interface name looks like a VPN or tunnel device: it
/// starts with one of the usual prefixes.
pub open spec fn is_unix_vpn_name(name: Seq<char>) -> bool {
    has_prefix(name, seq!['t', 'u', 'n']) || has_prefix(name, seq!['t', 'a', 'p'])
        || has_prefix(name, seq!['p', 'p', 'p']) || has_prefix(name, seq!['z', 't'])
        || has_prefix(name, seq!['t', 'a', 'i', 'l', 's', 'c', 'a', 'l', 'e'])
        || has_prefix(name, seq!['u', 't', 'u', 'n']) || has_prefix(name, seq!['v', 'p', 'n'])
}

/// Whether an address is a loopback address (127.0.0.0/8 or ::1).
pub open spec fn is_loopback_addr(ip: IpAddress) -> bool {
    match ip {
        IpAddress::V4(a) => a / 0x1000000 == 127,
        IpAddress::V6(a) => a == 1,
    }
}

/// The message every host broadcasts to make itself known.
pub fn announce_message(host: &str) -> (r: String)
    ensures
        r@ == announce_text(host@),
{
    let r = String::from_str("Hello from ").concat(host);
    r.concat("!")
}

/// The host name carried by an announce datagram.
pub fn extract_hostname(message: &str) -> (r: String)
    ensures
        r@ == hostname_of(message@),
{
    let m = chars_of(message);
    let from = vec!['f', 'r', 'o', 'm', ' '];
    let bang = vec!['!'];
    assert(from@ =~= from_marker());
    assert(bang@ =~= seq!['!']);
    let a = find_in(&m, &from);
    let b = find_in(&m, &bang);
    proof {
        lemma_find_from(m@, from@, 0);
        lemma_find_from(m@, bang@, 0);
    }
    match (a, b) {
        (Some(start), Some(end)) => {
            if start < end && end - start > 5 {
                return substring(message, start + 5, end);
            }
        },
        _ => {},
    }
    let mut j: usize = m.len();
    assert(m@.subrange(0, j as int) =~= m@);
    while j > 0 && m[j - 1] == '!'
        invariant
            j <= m@.len(),
            m@ == message@,
            strip_trailing_bangs(message@) == strip_trailing_bangs(m@.subrange(0, j as int)),
        decreases j,
    {
        assert(m@.subrange(0, j as int).drop_last() =~= m@.subrange(0, j - 1));
        j = j - 1;
    }
    assert(m@.subrange(0, j as int) =~= message@.subrange(0, j as int));
    substring(message, 0, j)
}

/// Whether a Unix interface name looks like a VPN or tunnel device, by its
/// prefix.
pub fn is_vpn_unix(name: &str) -> (r: bool)
    ensures
        r == is_unix_vpn_name(name@),
{
    let c = chars_of(name);
    let tun = vec!['t', 'u', 'n'];
    let tap = vec!['t', 'a', 'p'];
    let ppp = vec!['p', 'p', 'p'];
    let zt = vec!['z', 't'];
    let tailscale = vec!['t', 'a', 'i', 'l', 's', 'c', 'a', 'l', 'e'];
    let utun = vec!['u', 't', 'u', 'n'];
    let vpn = vec!['v', 'p', 'n'];
    assert(tun@ =~= seq!['t', 'u', 'n']);
    assert(tap@ =~= seq!['t', 'a', 'p']);
    assert(ppp@ =~= seq!['p', 'p', 'p']);
    assert(zt@ =~= seq!['z', 't']);
    assert(tailscale@ =~= seq!['t', 'a', 'i', 'l', 's', 'c', 'a', 'l', 'e']);
    assert(utun@ =~= seq!['u', 't', 'u', 'n']);
    assert(vpn@ =~= seq!['v', 'p', 'n']);
    let r = starts_with(&c, &tun) || starts_with(&c, &tap) || starts_with(&c, &ppp) || starts_with(
        &c,
        &zt,
    ) || starts_with(&c, &tailscale) || starts_with(&c, &utun) || starts_with(&c, &vpn);
    r
}

/// What `str::to_uppercase` makes of a text (full Unicode case mapping).
pub uninterp spec fn upper_of(s: Seq<char>) -> Seq<char>;

/// Relies on `str::to_uppercase`: the result depends on the characters
/// alone.
#[verifier::external_body]
fn uppercase(s: &str) -> (r: String)
    ensures
        r@ == upper_of(s@),
{
    s.to_uppercase()
}

/// Whether `pat` occurs in `s`.
pub open spec fn contains(s: Seq<char>, pat: Seq<char>) -> bool {
    find(s, pat) is Some
}

/// Whether an interface name, already in capitals, names a Windows VPN
/// adapter: it contains TAP, OPENVPN, WIREGUARD, ZEROTIER or TAILSCALE.
pub open spec fn is_windows_vpn_upper(u: Seq<char>) -> bool {
    contains(u, "TAP"@) || contains(u, "OPENVPN"@) || contains(u, "WIREGUARD"@) || contains(
        u,
        "ZEROTIER"@,
    ) || contains(u, "TAILSCALE"@)
}

/// Whether `s` contains `pat`.
fn contains_text(s: &Vec<char>, pat: &str) -> (r: bool)
    ensures
        r == contains(s@, pat@),
{
    let p = chars_of(pat);
    find_in(s, &p).is_some()
}

/// Whether an interface name, already in capitals, names a Windows VPN
/// adapter.
pub fn is_vpn_upper(upper: &str) -> (r: bool)
    ensures
        r == is_windows_vpn_upper(upper@),
{
    let u = chars_of(upper);
    contains_text(&u, "TAP") || contains_text(&u, "OPENVPN") || contains_text(&u, "WIREGUARD")
        || contains_text(&u, "ZEROTIER") || contains_text(&u, "TAILSCALE")
}

/// Whether a Windows interface name names a VPN adapter, in any case.
pub fn is_vpn_windows(name: &str) -> (r: bool)
    ensures
        r == is_windows_vpn_upper(upper_of(name@)),
{
    let u = uppercase(name);
    is_vpn_upper(u.as_str())
}

/// Whether an interface name looks like a VPN or tunnel device on the given
/// platform.
pub open spec fn is_vpn_name(name: Seq<char>, platform: Platform) -> bool {
    match platform {
        Platform::Unix => is_unix_vpn_name(name),
        Platform::Windows => is_windows_vpn_upper(upper_of(name)),
        Platform::Other => false,
    }
}

/// Whether an interface name looks like a VPN or tunnel device on the given
/// platform: prefixes on Unix, names in any case on Windows, none elsewhere.
pub fn is_vpn(name: &str, platform: Platform) -> (r: bool)
    ensures
        r == is_vpn_name(name@, platform),
{
    match platform {
        Platform::Unix => is_vpn_unix(name),
        Platform::Windows => is_vpn_windows(name),
        Platform::Other => false,
    }
}

/// Whether an address is a loopback address.
pub fn is_loopback(ip: IpAddress) -> (r: bool)
    ensures
        r == is_loopback_addr(ip),
{
    match ip {
        IpAddress::V4(a) => a / 0x1000000 == 127,
        IpAddress::V6(a) => a == 1,
    }
}

} // verus!

verus! {

/// A registry as its entries: (name, address), in order of insertion.
pub type HostTable = Seq<(Seq<char>, IpAddress)>;

/// Whether some entry of `v` carries `name`.
pub open spec fn has_name(v: HostTable, name: Seq<char>) -> bool {
    exists|i: int| 0 <= i < v.len() && v[i].0 == name
}

/// No two entries share a name.
pub open spec fn names_unique(v: HostTable) -> bool {
    forall|i: int, j: int| 0 <= i < j < v.len() ==> v[i].0 != v[j].0
}

/// The table after a host is seen: a new name is appended, a known name
/// keeps its first address.
pub open spec fn with_host(v: HostTable, name: Seq<char>, ip: IpAddress) -> HostTable {
    if has_name(v, name) {
        v
    } else {
        v.push((name, ip))
    }
}

/// The address recorded for `name`, if any.
pub open spec fn address_of(v: HostTable, name: Seq<char>) -> Option<IpAddress> {
    if has_name(v, name) {
        Some(v[choose|i: int| 0 <= i < v.len() && v[i].0 == name].1)
    } else {
        None
    }
}

/// The peers found so far, unique by name.
pub struct HostRegistry {
    hosts: Vec<HostInfo>,
}

impl View for HostRegistry {
    type V = HostTable;

    closed spec fn view(&self) -> HostTable {
        self.hosts@.map_values(|h: HostInfo| (h.name@, h.ip))
    }
}

impl HostRegistry {
    /// Host names are unique.
    pub open spec fn wf(&self) -> bool {
        names_unique(self@)
    }

    /// An empty registry.
    pub fn new() -> (r: HostRegistry)
        ensures
            r@ == Seq::<(Seq<char>, IpAddress)>::empty(),
            r.wf(),
    {
        HostRegistry { hosts: Vec::new() }
    }

    /// The number of hosts.
    pub fn len(&self) -> (r: usize)
        ensures
            r == self@.len(),
    {
        self.hosts.len()
    }

    /// The position of the host called `name`, if it is known.
    fn position(&self, name: &str) -> (r: Option<usize>)
        ensures
            match r {
                Some(i) => i < self@.len() && self@[i as int].0 == name@,
                None => !has_name(self@, name@),
            },
    {
        let mut i: usize = 0;
        while i < self.hosts.len()
            invariant
                i <= self@.len(),
                self@.len() == self.hosts@.len(),
                forall|k: int| 0 <= k < i ==> self@[k].0 != name@,
            decreases self@.len() - i,
        {
            if str_eq(self.hosts[i].name.as_str(), name) {
                return Some(i);
            }
            i = i + 1;
        }
        None
    }

    /// Whether a host called `name` is known.
    pub fn contains(&self, name: &str) -> (r: bool)
        ensures
            r == has_name(self@, name@),
    {
        self.position(name).is_some()
    }

    /// The address of the host called `name`, if it is known.
    pub fn lookup(&self, name: &str) -> (r: Option<IpAddress>)
        requires
            self.wf(),
        ensures
            r == address_of(self@, name@),
    {
        match self.position(name) {
            Some(i) => {
                let ghost j = choose|j: int| 0 <= j < self@.len() && self@[j].0 == name@;
                assert(j == i as int);
                Some(self.hosts[i].ip)
            },
            None => None,
        }
    }

    /// Records a host unless its name is already known (the first address
    /// seen for a name stays). Returns whether it was added.
    pub fn insert(&mut self, name: String, ip: IpAddress) -> (added: bool)
        requires
            old(self).wf(),
        ensures
            final(self).wf(),
            final(self)@ == with_host(old(self)@, name@, ip),
            added == !has_name(old(self)@, name@),
    {
        if self.contains(name.as_str()) {
            false
        } else {
            let ghost before = self@;
            self.hosts.push(HostInfo { name, ip });
            assert(self@ =~= before.push((name@, ip)));
            true
        }
    }

    /// Takes one announce datagram from `source`: records the host name it
    /// carries unless that name is known. Returns whether it was added.
    pub fn handle_announce(&mut self, message: &str, source: IpAddress) -> (added: bool)
        requires
            old(self).wf(),
        ensures
            final(self).wf(),
            final(self)@ == with_host(old(self)@, hostname_of(message@), source),
            added == !has_name(old(self)@, hostname_of(message@)),
    {
        let name = extract_hostname(message);
        self.insert(name, source)
    }

    /// The names of the known hosts, in order of discovery.
    pub fn names(&self) -> (r: Vec<String>)
        ensures
            r@.len() == self@.len(),
            forall|i: int| 0 <= i < r@.len() ==> r@[i]@ == self@[i].0,
    {
        let mut r: Vec<String> = Vec::new();
        let mut i: usize = 0;
        while i < self.hosts.len()
            invariant
                i <= self@.len(),
                self@.len() == self.hosts@.len(),
                r@.len() == i,
                forall|k: int| 0 <= k < i ==> r@[k]@ == self@[k].0,
            decreases self@.len() - i,
        {
            r.push(self.hosts[i].name.clone());
            i = i + 1;
        }
        r
    }
}

/// Two announces that carry the same host name, from any two addresses,
/// leave exactly one entry for that name, with the address of the first.
pub proof fn lemma_first_announce_wins(
    v: HostTable,
    m1: Seq<char>,
    ip1: IpAddress,
    m2: Seq<char>,
    ip2: IpAddress,
)
    requires
        names_unique(v),
        hostname_of(m1) == hostname_of(m2),
        !has_name(v, hostname_of(m1)),
    ensures
        with_host(with_host(v, hostname_of(m1), ip1), hostname_of(m2), ip2) == v.push(
            (hostname_of(m1), ip1),
        ),
        names_unique(with_host(with_host(v, hostname_of(m1), ip1), hostname_of(m2), ip2)),
        address_of(with_host(with_host(v, hostname_of(m1), ip1), hostname_of(m2), ip2), hostname_of(m1))
            == Some(ip1),
{
    let name = hostname_of(m1);
    let w = v.push((name, ip1));
    assert(w[v.len() as int].0 == name);
    assert(has_name(w, name));
    assert(names_unique(w));
    let j = choose|j: int| 0 <= j < w.len() && w[j].0 == name;
    assert(j == v.len());
}

} // verus!

verus! {

/// A network interface as discovery sees it: its name, its address, and
/// its IPv4 broadcast address, if it has one.
#[derive(Debug, Clone)]
pub struct NetInterface {
    pub name: String,
    pub ip: IpAddress,
    pub broadcast: Option<u32>,
}

/// Where an interface's announce goes: its broadcast address, for an IPv4
/// interface that is neither loopback nor a VPN on `platform`.
pub open spec fn broadcast_target(i: NetInterface, platform: Platform) -> Option<u32> {
    if is_loopback_addr(i.ip) || is_vpn_name(i.name@, platform) {
        None
    } else {
        match i.ip {
            IpAddress::V4(_) => i.broadcast,
            IpAddress::V6(_) => None,
        }
    }
}

/// The broadcast addresses announces go to, interface by interface.
pub open spec fn broadcast_targets_of(ifs: Seq<NetInterface>, platform: Platform) -> Seq<u32>
    decreases ifs.len(),
{
    if ifs.len() == 0 {
        Seq::empty()
    } else {
        let t = broadcast_targets_of(ifs.drop_last(), platform);
        match broadcast_target(ifs.last(), platform) {
            Some(b) => t.push(b),
            None => t,
        }
    }
}

/// The broadcast addresses to announce on, in interface order. When none
/// of them can be used, announces go to `FALLBACK_BROADCAST`.
pub fn broadcast_targets(ifs: &Vec<NetInterface>, platform: Platform) -> (r: Vec<u32>)
    ensures
        r@ == broadcast_targets_of(ifs@, platform),
{
    let mut r: Vec<u32> = Vec::new();
    let mut i: usize = 0;
    assert(ifs@.subrange(0, 0) =~= Seq::<NetInterface>::empty());
    while i < ifs.len()
        invariant
            i <= ifs@.len(),
            r@ == broadcast_targets_of(ifs@.subrange(0, i as int), platform),
        decreases ifs@.len() - i,
    {
        let it = &ifs[i];
        assert(ifs@.subrange(0, i + 1).drop_last() =~= ifs@.subrange(0, i as int));
        assert(ifs@.subrange(0, i + 1).last() == *it);
        if !is_loopback(it.ip) && !is_vpn(it.name.as_str(), platform) {
            match it.ip {
                IpAddress::V4(_) => {
                    match it.broadcast {
                        Some(b) => r.push(b),
                        None => {},
                    }
                },
                IpAddress::V6(_) => {},
            }
        }
        i = i + 1;
    }
    assert(ifs@.subrange(0, i as int) =~= ifs@);
    r
}

/// Relies on `gethostname::gethostname`: the machine's host name, kept when
/// it is valid UTF-8. It depends on the machine, so nothing is promised of it.
#[verifier::external_body]
fn system_hostname() -> (r: Option<String>) {
    gethostname::gethostname().into_string().ok()
}

/// The name a host goes by: the system's host name, or `nohostnameerror`
/// when it could not be read as text.
pub fn hostname_or_default(raw: Option<String>) -> (r: String)
    ensures
        r@ == match raw {
            Some(s) => s@,
            None => "nohostnameerror"@,
        },
{
    match raw {
        Some(s) => s,
        None => String::from_str("nohostnameerror"),
    }
}

/// This machine's name, as announces and offers carry it.
pub fn gen_cname() -> String {
    hostname_or_default(system_hostname())
}

} // verus!

verus! {

/// A host name that is not empty and holds no `'!'` comes back out of its
/// own announce.
pub proof fn lemma_announce_round_trip(host: Seq<char>)
    requires
        host.len() > 0,
        forall|i: int| 0 <= i < host.len() ==> host[i] != '!',
    ensures
        hostname_of(announce_text(host)) == host,
{
    reveal_strlit("Hello from ");
    reveal_strlit("!");
    let m = announce_text(host);
    let n = host.len() as int;
    assert(m.len() == 12 + n);
    assert forall|k: int| 0 <= k < 11 implies m[k] == "Hello from "@[k] by {}
    assert forall|k: int| 11 <= k < 11 + n implies m[k] == host[k - 11] by {}
    assert(m[11 + n] == '!');
    assert(m.subrange(6, 11) =~= from_marker());
    assert forall|k: int| 0 <= k < 6 implies #[trigger] m.subrange(k, k + 5) != from_marker() by {
        assert(m.subrange(k, k + 5)[0] == m[k]);
        assert(m[k] != 'f');
    }
    lemma_find_at(m, from_marker(), 6);
    assert(m.subrange(11 + n, 12 + n) =~= seq!['!']);
    assert forall|k: int| 0 <= k < 11 + n implies #[trigger] m.subrange(k, k + 1) != seq!['!'] by {
        assert(m.subrange(k, k + 1)[0] == m[k]);
        if k >= 11 {
            assert(host[k - 11] != '!');
        }
    }
    lemma_find_at(m, seq!['!'], 11 + n);
    assert(m.subrange(11, 11 + n) =~= host);
}

} // verus!
