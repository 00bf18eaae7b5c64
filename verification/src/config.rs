//! Configuration: what it holds, and what makes it acceptable.
use vstd::prelude::*;
use vstd::utf8::encode_utf8;

use crate::addr::{IpAddr, Ipv4Addr, Ipv6Addr, SocketAddr};
use crate::net::law_covers_means_shared_bits;
use crate::net::lemma_first_bounds;
use crate::net::IpNet;
use crate::text::{addr_text, append_addr, append_decimal, decimal, holds, quote, quoted};

pub mod laws;

verus! {

/// A complete configuration.
#[derive(Clone)]
pub struct Config {
    pub asn: u32,
    pub router_id: Ipv4Addr,
    pub ipv6: bool,
    pub listen_port: u16,
    pub kernel: Kernel,
    pub management: Management,
    /// Export policies, each under a name of its own.
    pub acls: Vec<NamedAcl>,
    pub peers: Vec<Peer>,
}

/// The management console.
#[derive(Clone, Debug)]
pub struct Management {
    pub enabled: bool,
    pub listen: SocketAddr,
}

impl Default for Management {
    /// Enabled, on `127.0.0.1:65090`.
    fn default() -> (r: Self)
        ensures
            r.enabled,
            r.listen.ip == IpAddr::V4(Ipv4Addr { bits: 0x7f00_0001 }),
            r.listen.port == 65090,
            r.listen.scope_id == 0,
    {
        Management {
            enabled: true,
            listen: SocketAddr {
                ip: IpAddr::V4(Ipv4Addr { bits: 0x7f00_0001 }),
                port: 65090,
                scope_id: 0,
            },
        }
    }
}

/// How kernel routes are read.
#[derive(Clone, Debug)]
pub struct Kernel {
    pub tables: Vec<u32>,
    pub receive_buffer_bytes: usize,
    pub refresh_interval_ms: u64,
    pub reconcile_interval_secs: u64,
    pub stale_timeout_secs: u64,
    pub dump_timeout_secs: u64,
    pub max_prefixes: usize,
}

impl Default for Kernel {
    /// The main table, with room for two million prefixes.
    fn default() -> (r: Self)
        ensures
            r.tables@ == seq![254u32],
            r.receive_buffer_bytes == 64 * 1024 * 1024,
            r.refresh_interval_ms == 250,
            r.reconcile_interval_secs == 300,
            r.stale_timeout_secs == 30,
            r.dump_timeout_secs == 10,
            r.max_prefixes == 2_000_000,
    {
        let mut tables: Vec<u32> = Vec::new();
        tables.push(254);
        Kernel {
            tables,
            receive_buffer_bytes: 64 * 1024 * 1024,
            refresh_interval_ms: 250,
            reconcile_interval_secs: 300,
            stale_timeout_secs: 30,
            dump_timeout_secs: 10,
            max_prefixes: 2_000_000,
        }
    }
}

/// A neighbour.
#[derive(Clone)]
pub struct Peer {
    pub address: IpAddr,
    pub local_address: IpAddr,
    pub interface: String,
    pub remote_asn: u32,
    pub export_acl: String,
    pub md5_password: Option<Md5Key>,
    pub port: u16,
    pub hold_time_secs: u16,
    pub connect_timeout_secs: u64,
    pub write_timeout_secs: u64,
    pub ipv6: bool,
    pub ipv4: bool,
    pub next_hop_v4: Option<Ipv4Addr>,
    pub next_hop_v6: Option<Ipv6Addr>,
    pub next_hop_v6_link_local: Option<Ipv6Addr>,
}

/// A shared TCP-MD5 key. It has no `Debug`, so that no log can hold it.
#[derive(Clone)]
pub struct Md5Key {
    pub text: String,
}

/// An export policy and its name.
#[derive(Clone, Debug)]
pub struct NamedAcl {
    pub name: String,
    pub acl: Acl,
}

/// An ordered list of rules. The first that matches decides; without one, no.
#[derive(Clone, Debug)]
pub struct Acl {
    pub rules: Vec<Rule>,
}

/// One rule of an export policy.
#[derive(Clone, Copy, Debug)]
pub struct Rule {
    pub action: Action,
    pub prefix: IpNet,
    pub min_length: Option<u8>,
    pub max_length: Option<u8>,
}

/// What a matching rule does.
#[derive(Clone, Copy, Debug, PartialEq, Eq, Structural)]
pub enum Action {
    Permit,
    Deny,
}

/// Neither unspecified, multicast nor limited broadcast.
pub open spec fn spec_valid_v4(a: Ipv4Addr) -> bool {
    !a.is_unspecified() && !a.is_multicast() && !a.is_broadcast()
}

/// Reject unspecified, multicast, and limited-broadcast IPv4 addresses.
#[verifier::when_used_as_spec(spec_valid_v4)]
pub fn valid_v4(a: Ipv4Addr) -> (r: bool)
    ensures
        r == valid_v4(a),
{
    !a.is_unspecified() && !a.is_multicast() && !a.is_broadcast()
}

/// A BGP identifier is a nonzero number.
pub open spec fn spec_valid_router_id(id: Ipv4Addr) -> bool {
    id.bits != 0
}

/// A BGP identifier is a nonzero integer, not necessarily an IPv4 host address.
#[verifier::when_used_as_spec(spec_valid_router_id)]
pub fn valid_router_id(id: Ipv4Addr) -> (r: bool)
    ensures
        r == valid_router_id(id),
{
    !id.is_unspecified()
}

/// Neither unspecified nor multicast.
pub open spec fn spec_valid_v6(a: Ipv6Addr) -> bool {
    !a.is_unspecified() && !a.is_multicast()
}

/// Reject unspecified and multicast IPv6 addresses; link-local addresses are allowed.
#[verifier::when_used_as_spec(spec_valid_v6)]
pub fn valid_v6(a: Ipv6Addr) -> (r: bool)
    ensures
        r == valid_v6(a),
{
    !a.is_unspecified() && !a.is_multicast()
}

impl Peer {
    /// The next hop of IPv4 routes.
    pub open spec fn spec_nh4(&self) -> Option<Ipv4Addr> {
        match (self.next_hop_v4, self.local_address) {
            (Some(a), _) => Some(a),
            (None, IpAddr::V4(a)) => Some(a),
            (None, IpAddr::V6(_)) => None,
        }
    }

    /// Use the explicit IPv4 next hop, falling back to an IPv4 local transport address.
    #[verifier::when_used_as_spec(spec_nh4)]
    pub fn nh4(&self) -> (r: Option<Ipv4Addr>)
        ensures
            r == self.nh4(),
    {
        match (self.next_hop_v4, self.local_address) {
            (Some(a), _) => Some(a),
            (None, IpAddr::V4(a)) => Some(a),
            (None, IpAddr::V6(_)) => None,
        }
    }

    /// The next hop of IPv6 routes.
    pub open spec fn spec_nh6(&self) -> Option<Ipv6Addr> {
        match (self.next_hop_v6, self.local_address) {
            (Some(a), _) => Some(a),
            (None, IpAddr::V6(a)) => Some(a),
            (None, IpAddr::V4(_)) => None,
        }
    }

    /// Use the explicit IPv6 next hop, falling back to an IPv6 local transport address.
    #[verifier::when_used_as_spec(spec_nh6)]
    pub fn nh6(&self) -> (r: Option<Ipv6Addr>)
        ensures
            r == self.nh6(),
    {
        match (self.next_hop_v6, self.local_address) {
            (Some(a), _) => Some(a),
            (None, IpAddr::V6(a)) => Some(a),
            (None, IpAddr::V4(_)) => None,
        }
    }
}

impl Rule {
    /// The shortest prefix length that the rule matches.
    pub open spec fn low(self) -> u8 {
        match self.min_length {
            Some(n) => n,
            None => self.prefix.prefix_len,
        }
    }

    /// The longest prefix length that the rule matches.
    pub open spec fn high(self) -> u8 {
        match self.max_length {
            Some(n) => n,
            None => self.prefix.prefix_len,
        }
    }

    /// The rule's prefix covers `p` and the length of `p` is in range.
    pub open spec fn matches(self, p: IpNet) -> bool {
        &&& self.prefix.covers(p)
        &&& self.low() <= p.prefix_len <= self.high()
    }
}

impl Acl {
    /// Every rule holds a prefix.
    pub open spec fn wf(self) -> bool {
        forall|i: int| 0 <= i < self.rules@.len() ==> (#[trigger] self.rules@[i]).prefix.wf()
    }

    /// Some rule permits `p`, and none before it matches.
    pub open spec fn allows(self, p: IpNet) -> bool {
        exists|i: int|
            #![trigger self.rules@[i]]
            0 <= i < self.rules@.len() && self.rules@[i].matches(p) && self.rules@[i].action
                == Action::Permit && forall|j: int| 0 <= j < i ==> !(#[trigger] self.rules@[j]).matches(p)
    }

    /// Apply the first matching prefix/length rule, denying when no rule matches.
    /// Omitted length bounds require the rule's exact prefix length.
    pub fn permits(&self, prefix: &IpNet) -> (r: bool)
        requires
            self.wf(),
            prefix.wf(),
        ensures
            r == self.allows(*prefix),
    {
        let mut i: usize = 0;
        while i < self.rules.len()
            invariant
                i <= self.rules@.len(),
                self.wf(),
                prefix.wf(),
                forall|j: int| 0 <= j < i ==> !(#[trigger] self.rules@[j]).matches(*prefix),
            decreases self.rules@.len() - i,
        {
            let rule = &self.rules[i];
            let low: u8 = match rule.min_length {
                Some(n) => n,
                None => rule.prefix.prefix_len,
            };
            let high: u8 = match rule.max_length {
                Some(n) => n,
                None => rule.prefix.prefix_len,
            };
            if rule.prefix.contains(prefix) && low <= prefix.prefix_len && prefix.prefix_len
                <= high {
                assert(self.rules@[i as int].matches(*prefix));
                return rule.action == Action::Permit;
            }
            i += 1;
        }
        false
    }
}

/// Upper bound for configurable wall-clock timeouts, excluding the BGP hold timer.
pub const MAX_TIMEOUT_SECS: u64 = 86400;

/// The longest TCP-MD5 key that the kernel takes, in bytes.
pub const MAX_MD5_KEY: usize = 80;

/// The room that the kernel has for an interface name and its terminator.
pub const INTERFACE_NAME_SIZE: usize = 16;

/// The TCP port of BGP.
pub fn port() -> (r: u16)
    ensures
        r == 179,
{
    179
}

/// The hold time, in seconds, of a peer that sets none.
pub fn hold() -> (r: u16)
    ensures
        r == 90,
{
    90
}

/// The connect timeout, in seconds, of a peer that sets none.
pub fn connect_timeout() -> (r: u64)
    ensures
        r == 10,
{
    10
}

/// The write timeout, in seconds, of a peer that sets none.
pub fn write_timeout() -> (r: u64)
    ensures
        r == 10,
{
    10
}

/// IPv4 is on for a peer that does not say.
pub fn yes() -> (r: bool)
    ensures
        r,
{
    true
}

impl Md5Key {
    /// The bytes of the key.
    pub fn as_bytes(&self) -> (r: &[u8])
        ensures
            r@ == encode_utf8(self.text@),
    {
        self.text.as_str().as_bytes()
    }

    /// Whether the kernel takes a key of this length.
    pub open spec fn spec_fits(&self) -> bool {
        1 <= encode_utf8(self.text@).len() <= MAX_MD5_KEY
    }

    #[verifier::when_used_as_spec(spec_fits)]
    pub fn fits(&self) -> (r: bool)
        ensures
            r == self.fits(),
    {
        let n: usize = self.as_bytes().len();
        1 <= n && n <= MAX_MD5_KEY
    }

    /// What stands for the key wherever a configuration is shown.
    pub fn shown(&self) -> (r: &'static str)
        ensures
            r@ == "<redacted>"@,
    {
        "<redacted>"
    }
}

/// What is wrong with a configuration. ACLs and peers are named by their place.
#[derive(Clone, Copy, Debug, PartialEq, Eq, Structural)]
pub enum ConfigError {
    ManagementAddress,
    ManagementPort,
    LocalAsn,
    RouterId,
    ListenPort,
    NoPeers,
    Tables,
    ReceiveBuffer,
    RefreshInterval,
    ReconcileInterval,
    StaleTimeout,
    DumpTimeout,
    DumpNotShorter,
    MaxPrefixes,
    AclName,
    AclHostBits(usize),
    AclRange(usize),
    Md5Length(usize),
    MissingAcl(usize),
    PeerAsnOrPort,
    AddressPair,
    PeerAddress,
    LocalAddress,
    Interface,
    DuplicateEndpoint,
    HoldTime,
    ConnectTimeout(usize),
    WriteTimeout(usize),
    NoFamily,
    Ipv6Disabled,
    NextHopV4,
    NextHopV6,
    LinkLocal,
}

/// A timeout within bounds.
pub open spec fn timeout_ok(seconds: u64) -> bool {
    1 <= seconds <= MAX_TIMEOUT_SECS
}

/// An ASN that a speaker can have.
pub open spec fn asn_ok(asn: u32) -> bool {
    asn != 0 && asn != 23456
}

/// The first thing wrong outside the ACLs and the peers.
pub open spec fn settings_problem(c: Config) -> Option<ConfigError> {
    if !c.management.listen.ip.is_loopback() {
        Some(ConfigError::ManagementAddress)
    } else if c.management.listen.port == 0 {
        Some(ConfigError::ManagementPort)
    } else if !asn_ok(c.asn) {
        Some(ConfigError::LocalAsn)
    } else if !valid_router_id(c.router_id) {
        Some(ConfigError::RouterId)
    } else if c.listen_port == 0 {
        Some(ConfigError::ListenPort)
    } else if c.peers@.len() == 0 {
        Some(ConfigError::NoPeers)
    } else if c.kernel.tables@.len() == 0 || c.kernel.tables@.contains(0) {
        Some(ConfigError::Tables)
    } else if !(65536 <= c.kernel.receive_buffer_bytes <= 1024 * 1024 * 1024) {
        Some(ConfigError::ReceiveBuffer)
    } else if !(10 <= c.kernel.refresh_interval_ms <= 60000) {
        Some(ConfigError::RefreshInterval)
    } else if !timeout_ok(c.kernel.reconcile_interval_secs) {
        Some(ConfigError::ReconcileInterval)
    } else if !timeout_ok(c.kernel.stale_timeout_secs) {
        Some(ConfigError::StaleTimeout)
    } else if !timeout_ok(c.kernel.dump_timeout_secs) {
        Some(ConfigError::DumpTimeout)
    } else if c.kernel.dump_timeout_secs >= c.kernel.stale_timeout_secs {
        Some(ConfigError::DumpNotShorter)
    } else if c.kernel.max_prefixes == 0 {
        Some(ConfigError::MaxPrefixes)
    } else {
        None
    }
}

/// What is wrong with a rule of the ACL at a place.
pub open spec fn rule_problem(r: Rule, acl: usize) -> Option<ConfigError> {
    if !r.prefix.canonical() {
        Some(ConfigError::AclHostBits(acl))
    } else if !(r.prefix.prefix_len <= r.low() <= r.high() <= r.prefix.addr.width()) {
        Some(ConfigError::AclRange(acl))
    } else {
        None
    }
}

/// The first thing wrong with the first `k` rules of the ACL at a place.
pub open spec fn rules_problem(rules: Seq<Rule>, k: nat, acl: usize) -> Option<ConfigError>
    decreases k,
{
    if k == 0 {
        None
    } else {
        match rules_problem(rules, (k - 1) as nat, acl) {
            Some(e) => Some(e),
            None => rule_problem(rules[k - 1], acl),
        }
    }
}

/// What is wrong with the ACL at a place.
pub open spec fn acl_problem(a: NamedAcl, acl: usize) -> Option<ConfigError> {
    if a.name@.len() == 0 {
        Some(ConfigError::AclName)
    } else {
        rules_problem(a.acl.rules@, a.acl.rules@.len(), acl)
    }
}

/// The first thing wrong with the first `k` ACLs.
pub open spec fn acls_problem(acls: Seq<NamedAcl>, k: nat) -> Option<ConfigError>
    decreases k,
{
    if k == 0 {
        None
    } else {
        match acls_problem(acls, (k - 1) as nat) {
            Some(e) => Some(e),
            None => acl_problem(acls[k - 1], (k - 1) as usize),
        }
    }
}

/// An address that a speaker can have.
pub open spec fn address_ok(a: IpAddr) -> bool {
    match a {
        IpAddr::V4(a) => valid_v4(a),
        IpAddr::V6(a) => valid_v6(a),
    }
}

/// A name that an interface can have.
pub open spec fn interface_ok(name: Seq<char>) -> bool {
    name.len() > 0 && encode_utf8(name).len() < INTERFACE_NAME_SIZE && !name.contains('\0')
}

/// Two peers that share addresses and interface.
pub open spec fn same_endpoint(a: Peer, b: Peer) -> bool {
    a.address == b.address && a.local_address == b.local_address && a.interface@ == b.interface@
}

/// An ACL of this name exists.
pub open spec fn has_acl(acls: Seq<NamedAcl>, name: Seq<char>) -> bool {
    exists|j: int| 0 <= j < acls.len() && (#[trigger] acls[j]).name@ == name
}

/// What is wrong with the peer at a place.
pub open spec fn peer_problem(c: Config, i: usize) -> Option<ConfigError> {
    let p = c.peers@[i as int];
    if p.md5_password matches Some(key) && !key.fits() {
        Some(ConfigError::Md5Length(i))
    } else if !has_acl(c.acls@, p.export_acl@) {
        Some(ConfigError::MissingAcl(i))
    } else if !asn_ok(p.remote_asn) || p.port == 0 {
        Some(ConfigError::PeerAsnOrPort)
    } else if p.address == p.local_address || p.address.is_ipv4() != p.local_address.is_ipv4() {
        Some(ConfigError::AddressPair)
    } else if !address_ok(p.address) {
        Some(ConfigError::PeerAddress)
    } else if !address_ok(p.local_address) {
        Some(ConfigError::LocalAddress)
    } else if !interface_ok(p.interface@) {
        Some(ConfigError::Interface)
    } else if exists|j: int| 0 <= j < i && same_endpoint(#[trigger] c.peers@[j], p) {
        Some(ConfigError::DuplicateEndpoint)
    } else if p.hold_time_secs == 1 || p.hold_time_secs == 2 {
        Some(ConfigError::HoldTime)
    } else if !timeout_ok(p.connect_timeout_secs) {
        Some(ConfigError::ConnectTimeout(i))
    } else if !timeout_ok(p.write_timeout_secs) {
        Some(ConfigError::WriteTimeout(i))
    } else if !p.ipv4 && !p.ipv6 {
        Some(ConfigError::NoFamily)
    } else if !c.ipv6 && (p.ipv6 || p.address.is_ipv6() || p.next_hop_v6 is Some
        || p.next_hop_v6_link_local is Some) {
        Some(ConfigError::Ipv6Disabled)
    } else if p.ipv4 && !(p.nh4() matches Some(a) && valid_v4(a)) {
        Some(ConfigError::NextHopV4)
    } else if p.ipv6 && !(p.nh6() matches Some(a) && valid_v6(a) && !a.is_unicast_link_local()) {
        Some(ConfigError::NextHopV6)
    } else if p.next_hop_v6_link_local matches Some(a) && !a.is_unicast_link_local() {
        Some(ConfigError::LinkLocal)
    } else {
        None
    }
}

/// The first thing wrong with the first `k` peers.
pub open spec fn peers_problem(c: Config, k: nat) -> Option<ConfigError>
    decreases k,
{
    if k == 0 {
        None
    } else {
        match peers_problem(c, (k - 1) as nat) {
            Some(e) => Some(e),
            None => peer_problem(c, (k - 1) as usize),
        }
    }
}

/// The first thing wrong with a configuration: settings, then ACLs, then peers,
/// the latter two in the order in which they are listed.
pub open spec fn first_problem(c: Config) -> Option<ConfigError> {
    match settings_problem(c) {
        Some(e) => Some(e),
        None => match acls_problem(c.acls@, c.acls@.len()) {
            Some(e) => Some(e),
            None => peers_problem(c, c.peers@.len()),
        },
    }
}

proof fn lemma_rules_problem_stays(rules: Seq<Rule>, i: nat, k: nat, acl: usize)
    requires
        i <= k,
    ensures
        rules_problem(rules, i, acl) is Some ==> rules_problem(rules, k, acl) == rules_problem(
            rules,
            i,
            acl,
        ),
    decreases k,
{
    if i < k {
        lemma_rules_problem_stays(rules, i, (k - 1) as nat, acl);
    }
}

pub proof fn lemma_acls_problem_stays(acls: Seq<NamedAcl>, i: nat, k: nat)
    requires
        i <= k,
    ensures
        acls_problem(acls, i) is Some ==> acls_problem(acls, k) == acls_problem(acls, i),
    decreases k,
{
    if i < k {
        lemma_acls_problem_stays(acls, i, (k - 1) as nat);
    }
}

pub proof fn lemma_peers_problem_stays(c: Config, i: nat, k: nat)
    requires
        i <= k,
    ensures
        peers_problem(c, i) is Some ==> peers_problem(c, k) == peers_problem(c, i),
    decreases k,
{
    if i < k {
        lemma_peers_problem_stays(c, i, (k - 1) as nat);
    }
}

fn check_address(a: IpAddr) -> (r: bool)
    ensures
        r == address_ok(a),
{
    match a {
        IpAddr::V4(a) => valid_v4(a),
        IpAddr::V6(a) => valid_v6(a),
    }
}

fn check_timeout(seconds: u64) -> (r: bool)
    ensures
        r == timeout_ok(seconds),
{
    1 <= seconds && seconds <= MAX_TIMEOUT_SECS
}

fn check_rule(rule: &Rule, acl: usize) -> (r: Option<ConfigError>)
    requires
        rule.prefix.wf(),
    ensures
        r == rule_problem(*rule, acl),
{
    let base: u8 = rule.prefix.prefix_len;
    let low: u8 = match rule.min_length {
        Some(n) => n,
        None => base,
    };
    let high: u8 = match rule.max_length {
        Some(n) => n,
        None => base,
    };
    let width: u8 = if rule.prefix.addr.is_ipv4() {
        32
    } else {
        128
    };
    let whole = rule.prefix.trunc();
    proof {
        lemma_first_bounds(rule.prefix);
    }
    if whole != rule.prefix {
        return Some(ConfigError::AclHostBits(acl));
    }
    if !(base <= low && low <= high && high <= width) {
        return Some(ConfigError::AclRange(acl));
    }
    None
}

fn check_acl(a: &NamedAcl, acl: usize) -> (r: Option<ConfigError>)
    requires
        a.acl.wf(),
    ensures
        r == acl_problem(*a, acl),
{
    if a.name.as_str().is_empty() {
        return Some(ConfigError::AclName);
    }
    let mut i: usize = 0;
    while i < a.acl.rules.len()
        invariant
            i <= a.acl.rules@.len(),
            a.acl.wf(),
            a.name@.len() > 0,
            rules_problem(a.acl.rules@, i as nat, acl) is None,
        decreases a.acl.rules@.len() - i,
    {
        let problem = check_rule(&a.acl.rules[i], acl);
        i += 1;
        if problem.is_some() {
            proof {
                lemma_rules_problem_stays(a.acl.rules@, i as nat, a.acl.rules@.len(), acl);
            }
            return problem;
        }
    }
    None
}

impl Config {
    /// ACL names are distinct, and every rule holds a prefix.
    pub open spec fn wf(self) -> bool {
        &&& forall|i: int| 0 <= i < self.acls@.len() ==> (#[trigger] self.acls@[i]).acl.wf()
        &&& forall|i: int, j: int|
            0 <= i < j < self.acls@.len() ==> (#[trigger] self.acls@[i]).name@ != (
            #[trigger] self.acls@[j]).name@
    }

    /// The place of the ACL of this name.
    pub fn find_acl(&self, name: &str) -> (r: Option<usize>)
        ensures
            match r {
                Some(i) => i < self.acls@.len() && self.acls@[i as int].name@ == name@ && forall|
                    j: int,
                |
                    0 <= j < i ==> (#[trigger] self.acls@[j]).name@ != name@,
                None => !has_acl(self.acls@, name@),
            },
    {
        let wanted: String = name.to_string();
        let mut i: usize = 0;
        while i < self.acls.len()
            invariant
                i <= self.acls@.len(),
                wanted@ == name@,
                forall|j: int| 0 <= j < i ==> (#[trigger] self.acls@[j]).name@ != name@,
            decreases self.acls@.len() - i,
        {
            if self.acls[i].name == wanted {
                return Some(i);
            }
            i += 1;
        }
        None
    }

    fn check_settings(&self) -> (r: Option<ConfigError>)
        ensures
            r == settings_problem(*self),
    {
        let k = &self.kernel;
        if !self.management.listen.ip.is_loopback() {
            return Some(ConfigError::ManagementAddress);
        }
        if self.management.listen.port == 0 {
            return Some(ConfigError::ManagementPort);
        }
        if self.asn == 0 || self.asn == 23456 {
            return Some(ConfigError::LocalAsn);
        }
        if !valid_router_id(self.router_id) {
            return Some(ConfigError::RouterId);
        }
        if self.listen_port == 0 {
            return Some(ConfigError::ListenPort);
        }
        if self.peers.len() == 0 {
            return Some(ConfigError::NoPeers);
        }
        if k.tables.len() == 0 {
            return Some(ConfigError::Tables);
        }
        let mut i: usize = 0;
        while i < k.tables.len()
            invariant
                i <= k.tables@.len(),
                *k == self.kernel,
                self.management.listen.ip.is_loopback(),
                self.management.listen.port != 0,
                asn_ok(self.asn),
                valid_router_id(self.router_id),
                self.listen_port != 0,
                self.peers@.len() != 0,
                forall|j: int| 0 <= j < i ==> k.tables@[j] != 0,
            decreases k.tables@.len() - i,
        {
            if k.tables[i] == 0 {
                assert(k.tables@.contains(0));
                return Some(ConfigError::Tables);
            }
            i += 1;
        }
        assert(!k.tables@.contains(0));
        if k.receive_buffer_bytes < 65536 || k.receive_buffer_bytes > 1024 * 1024 * 1024 {
            return Some(ConfigError::ReceiveBuffer);
        }
        if k.refresh_interval_ms < 10 || k.refresh_interval_ms > 60000 {
            return Some(ConfigError::RefreshInterval);
        }
        if !check_timeout(k.reconcile_interval_secs) {
            return Some(ConfigError::ReconcileInterval);
        }
        if !check_timeout(k.stale_timeout_secs) {
            return Some(ConfigError::StaleTimeout);
        }
        if !check_timeout(k.dump_timeout_secs) {
            return Some(ConfigError::DumpTimeout);
        }
        if k.dump_timeout_secs >= k.stale_timeout_secs {
            return Some(ConfigError::DumpNotShorter);
        }
        if k.max_prefixes == 0 {
            return Some(ConfigError::MaxPrefixes);
        }
        None
    }

    fn check_acls(&self) -> (r: Option<ConfigError>)
        requires
            self.wf(),
        ensures
            r == acls_problem(self.acls@, self.acls@.len()),
    {
        let mut i: usize = 0;
        while i < self.acls.len()
            invariant
                i <= self.acls@.len(),
                self.wf(),
                acls_problem(self.acls@, i as nat) is None,
            decreases self.acls@.len() - i,
        {
            let problem = check_acl(&self.acls[i], i);
            i += 1;
            if problem.is_some() {
                proof {
                    lemma_acls_problem_stays(self.acls@, i as nat, self.acls@.len());
                }
                return problem;
            }
        }
        None
    }

    /// Whether a peer before this one shares its endpoint.
    fn is_duplicate(&self, i: usize) -> (r: bool)
        requires
            i < self.peers@.len(),
        ensures
            r == exists|j: int|
                0 <= j < i && same_endpoint(#[trigger] self.peers@[j], self.peers@[i as int]),
    {
        let p = &self.peers[i];
        let mut j: usize = 0;
        while j < i
            invariant
                j <= i < self.peers@.len(),
                *p == self.peers@[i as int],
                forall|k: int| 0 <= k < j ==> !same_endpoint(#[trigger] self.peers@[k], *p),
            decreases i - j,
        {
            let q = &self.peers[j];
            if q.address == p.address && q.local_address == p.local_address && q.interface
                == p.interface {
                assert(same_endpoint(self.peers@[j as int], *p));
                return true;
            }
            j += 1;
        }
        false
    }

    fn check_peer(&self, i: usize) -> (r: Option<ConfigError>)
        requires
            i < self.peers@.len(),
        ensures
            r == peer_problem(*self, i),
    {
        let p = &self.peers[i];
        if let Some(key) = &p.md5_password {
            if !key.fits() {
                return Some(ConfigError::Md5Length(i));
            }
        }
        if self.find_acl(p.export_acl.as_str()).is_none() {
            return Some(ConfigError::MissingAcl(i));
        }
        if p.remote_asn == 0 || p.remote_asn == 23456 || p.port == 0 {
            return Some(ConfigError::PeerAsnOrPort);
        }
        if p.address == p.local_address || p.address.is_ipv4() != p.local_address.is_ipv4() {
            return Some(ConfigError::AddressPair);
        }
        if !check_address(p.address) {
            return Some(ConfigError::PeerAddress);
        }
        if !check_address(p.local_address) {
            return Some(ConfigError::LocalAddress);
        }
        let name = p.interface.as_str();
        if name.is_empty() || name.as_bytes().len() >= INTERFACE_NAME_SIZE || holds(name, '\0') {
            return Some(ConfigError::Interface);
        }
        if self.is_duplicate(i) {
            return Some(ConfigError::DuplicateEndpoint);
        }
        if p.hold_time_secs == 1 || p.hold_time_secs == 2 {
            return Some(ConfigError::HoldTime);
        }
        if !check_timeout(p.connect_timeout_secs) {
            return Some(ConfigError::ConnectTimeout(i));
        }
        if !check_timeout(p.write_timeout_secs) {
            return Some(ConfigError::WriteTimeout(i));
        }
        if !p.ipv4 && !p.ipv6 {
            return Some(ConfigError::NoFamily);
        }
        if !self.ipv6 && (p.ipv6 || p.address.is_ipv6() || p.next_hop_v6.is_some()
            || p.next_hop_v6_link_local.is_some()) {
            return Some(ConfigError::Ipv6Disabled);
        }
        if p.ipv4 {
            let ok: bool = match p.nh4() {
                Some(a) => valid_v4(a),
                None => false,
            };
            if !ok {
                return Some(ConfigError::NextHopV4);
            }
        }
        if p.ipv6 {
            let ok: bool = match p.nh6() {
                Some(a) => valid_v6(a) && !a.is_unicast_link_local(),
                None => false,
            };
            if !ok {
                return Some(ConfigError::NextHopV6);
            }
        }
        if let Some(a) = p.next_hop_v6_link_local {
            if !a.is_unicast_link_local() {
                return Some(ConfigError::LinkLocal);
            }
        }
        None
    }

    /// Check configuration bounds, ACL references, peer uniqueness, and address families.
    /// Interface existence and local address ownership are checked when connecting.
    pub fn validate(&self) -> (r: Result<(), ConfigError>)
        requires
            self.wf(),
        ensures
            match r {
                Ok(_) => first_problem(*self) is None,
                Err(e) => first_problem(*self) == Some(e) && e.names(*self),
            },
    {
        proof {
            lemma_problem_names(*self);
        }
        if let Some(e) = self.check_settings() {
            return Err(e);
        }
        if let Some(e) = self.check_acls() {
            return Err(e);
        }
        let mut i: usize = 0;
        while i < self.peers.len()
            invariant
                i <= self.peers@.len(),
                settings_problem(*self) is None,
                acls_problem(self.acls@, self.acls@.len()) is None,
                peers_problem(*self, i as nat) is None,
            decreases self.peers@.len() - i,
        {
            let problem = self.check_peer(i);
            i += 1;
            if let Some(e) = problem {
                proof {
                    lemma_peers_problem_stays(*self, i as nat, self.peers@.len());
                }
                return Err(e);
            }
        }
        Ok(())
    }
}

/// A rule whose prefix has no host bits and whose length range is possible.
pub open spec fn rule_ok(r: Rule) -> bool {
    r.prefix.canonical() && r.prefix.prefix_len <= r.low() <= r.high() <= r.prefix.addr.width()
}

/// A peer that can be talked to, apart from the other peers.
pub open spec fn peer_ok(c: Config, p: Peer) -> bool {
    &&& p.md5_password matches Some(key) ==> key.fits()
    &&& has_acl(c.acls@, p.export_acl@)
    &&& asn_ok(p.remote_asn) && p.port != 0
    &&& p.address != p.local_address
    &&& p.address.is_ipv4() == p.local_address.is_ipv4()
    &&& address_ok(p.address) && address_ok(p.local_address)
    &&& interface_ok(p.interface@)
    &&& p.hold_time_secs == 0 || p.hold_time_secs >= 3
    &&& timeout_ok(p.connect_timeout_secs) && timeout_ok(p.write_timeout_secs)
    &&& p.ipv4 || p.ipv6
    &&& !c.ipv6 ==> !p.ipv6 && p.address.is_ipv4() && p.next_hop_v6 is None
        && p.next_hop_v6_link_local is None
    &&& p.ipv4 ==> (p.nh4() matches Some(a) && valid_v4(a))
    &&& p.ipv6 ==> (p.nh6() matches Some(a) && valid_v6(a) && !a.is_unicast_link_local())
    &&& p.next_hop_v6_link_local matches Some(a) ==> a.is_unicast_link_local()
}

/// A configuration that a speaker can run with.
pub open spec fn config_ok(c: Config) -> bool {
    &&& c.management.listen.ip.is_loopback() && c.management.listen.port != 0
    &&& asn_ok(c.asn) && valid_router_id(c.router_id) && c.listen_port != 0
    &&& c.kernel.tables@.len() > 0 && !c.kernel.tables@.contains(0)
    &&& 65536 <= c.kernel.receive_buffer_bytes <= 1024 * 1024 * 1024
    &&& 10 <= c.kernel.refresh_interval_ms <= 60000
    &&& timeout_ok(c.kernel.reconcile_interval_secs)
    &&& timeout_ok(c.kernel.stale_timeout_secs)
    &&& timeout_ok(c.kernel.dump_timeout_secs)
    &&& c.kernel.dump_timeout_secs < c.kernel.stale_timeout_secs
    &&& c.kernel.max_prefixes > 0
    &&& forall|i: int| 0 <= i < c.acls@.len() ==> (#[trigger] c.acls@[i]).name@.len() > 0
    &&& forall|i: int, j: int|
        0 <= i < c.acls@.len() && 0 <= j < c.acls@[i].acl.rules@.len() ==> rule_ok(
            #[trigger] c.acls@[i].acl.rules@[j],
        )
    &&& c.peers@.len() > 0
    &&& forall|i: int| 0 <= i < c.peers@.len() ==> peer_ok(c, #[trigger] c.peers@[i])
    &&& forall|i: int, j: int|
        0 <= i < j < c.peers@.len() ==> !same_endpoint(
            #[trigger] c.peers@[i],
            #[trigger] c.peers@[j],
        )
}

proof fn lemma_no_rules_problem(rules: Seq<Rule>, k: nat, acl: usize)
    requires
        k <= rules.len(),
    ensures
        rules_problem(rules, k, acl) is None <==> forall|j: int|
            0 <= j < k ==> rule_ok(#[trigger] rules[j]),
    decreases k,
{
    if k > 0 {
        lemma_no_rules_problem(rules, (k - 1) as nat, acl);
    }
}

proof fn lemma_no_acls_problem(acls: Seq<NamedAcl>, k: nat)
    requires
        k <= acls.len(),
    ensures
        acls_problem(acls, k) is None <==> {
            &&& forall|i: int| 0 <= i < k ==> (#[trigger] acls[i]).name@.len() > 0
            &&& forall|i: int, j: int|
                0 <= i < k && 0 <= j < acls[i].acl.rules@.len() ==> rule_ok(
                    #[trigger] acls[i].acl.rules@[j],
                )
        },
    decreases k,
{
    if k > 0 {
        let last = acls[k - 1];
        lemma_no_acls_problem(acls, (k - 1) as nat);
        lemma_no_rules_problem(last.acl.rules@, last.acl.rules@.len(), (k - 1) as usize);
        if acls_problem(acls, (k - 1) as nat) is None && last.name@.len() > 0 && !(forall|j: int|
            0 <= j < last.acl.rules@.len() ==> rule_ok(#[trigger] last.acl.rules@[j])) {
            let j = choose|j: int|
                0 <= j < last.acl.rules@.len() && !rule_ok(#[trigger] last.acl.rules@[j]);
            assert(!rule_ok(acls[k - 1].acl.rules@[j]));
        }
    }
}

proof fn lemma_no_peers_problem(c: Config, k: nat)
    requires
        k <= c.peers@.len(),
    ensures
        peers_problem(c, k) is None <==> {
            &&& forall|i: int| 0 <= i < k ==> peer_ok(c, #[trigger] c.peers@[i])
            &&& forall|i: int, j: int|
                0 <= i < j < k ==> !same_endpoint(#[trigger] c.peers@[i], #[trigger] c.peers@[j])
        },
    decreases k,
{
    if k > 0 {
        assert(c.peers.len() == c.peers@.len());
        let i = (k - 1) as usize;
        lemma_no_peers_problem(c, (k - 1) as nat);
        assert(peer_problem(c, i) is None <==> peer_ok(c, c.peers@[i as int]) && !(exists|j: int|
            0 <= j < i && same_endpoint(#[trigger] c.peers@[j], c.peers@[i as int])));
    }
}

/// A configuration passes validation exactly where everything in it is in order:
/// every bound kept, every peer with an ACL that exists, a family, usable next
/// hops, and an endpoint of its own.
pub proof fn law_valid_means_in_order(c: Config)
    ensures
        first_problem(c) is None <==> config_ok(c),
{
    lemma_no_acls_problem(c.acls@, c.acls@.len());
    lemma_no_peers_problem(c, c.peers@.len());
}

/// What a valid configuration is good for: every peer's ACL can be applied, every
/// time fits in milliseconds, and every address family has a next hop.
pub proof fn law_valid_configuration_can_run(c: Config, i: int)
    requires
        first_problem(c) is None,
        0 <= i < c.peers@.len(),
    ensures
        has_acl(c.acls@, c.peers@[i].export_acl@),
        (c.peers@[i].connect_timeout_secs + 2) * 1000 <= u64::MAX,
        c.peers@[i].write_timeout_secs * 1000 <= u64::MAX,
        c.kernel.dump_timeout_secs * 1000 <= u64::MAX,
        c.kernel.stale_timeout_secs * 1000 <= u64::MAX,
        c.kernel.reconcile_interval_secs * 1000 <= u64::MAX,
        c.peers@[i].ipv4 || c.peers@[i].ipv6,
        c.peers@[i].ipv4 ==> c.peers@[i].nh4() is Some,
        c.peers@[i].ipv6 ==> c.ipv6 && c.peers@[i].nh6() is Some,
{
    law_valid_means_in_order(c);
    assert(peer_ok(c, c.peers@[i]));
}

/// The text of a configuration error.
pub open spec fn problem_text(c: Config, e: ConfigError) -> Seq<char> {
    match e {
        ConfigError::ManagementAddress => "management CLI must bind to a loopback address"@,
        ConfigError::ManagementPort => "management CLI port must be nonzero"@,
        ConfigError::LocalAsn => "local ASN must be nonzero and not AS_TRANS"@,
        ConfigError::RouterId => "router_id must be nonzero"@,
        ConfigError::ListenPort => "listen_port must be nonzero"@,
        ConfigError::NoPeers => "at least one peer is required"@,
        ConfigError::Tables => "select at least one nonzero routing table"@,
        ConfigError::ReceiveBuffer => "receive_buffer_bytes must be 64 KiB..1 GiB"@,
        ConfigError::RefreshInterval => "refresh_interval_ms must be 10..60000"@,
        ConfigError::ReconcileInterval => "kernel "@ + "reconcile_interval_secs"@
            + timeout_bounds(),
        ConfigError::StaleTimeout => "kernel "@ + "stale_timeout_secs"@ + timeout_bounds(),
        ConfigError::DumpTimeout => "kernel "@ + "dump_timeout_secs"@ + timeout_bounds(),
        ConfigError::DumpNotShorter => "dump timeout must be shorter than stale timeout"@,
        ConfigError::MaxPrefixes => "max_prefixes must be positive"@,
        ConfigError::AclName => "ACL name must not be empty"@,
        ConfigError::AclHostBits(i) => "ACL "@ + c.acls@[i as int].name@
            + ": prefix must have no host bits"@,
        ConfigError::AclRange(i) => "ACL "@ + c.acls@[i as int].name@
            + ": invalid prefix length range"@,
        ConfigError::Md5Length(i) => peer_name(c, i)
            + ": md5_password must contain 1..=80 UTF-8 bytes; omit it to disable authentication"@,
        ConfigError::MissingAcl(i) => peer_name(c, i) + ": mandatory export ACL "@ + quoted(
            c.peers@[i as int].export_acl@,
        ) + " does not exist"@,
        ConfigError::PeerAsnOrPort => "invalid peer ASN or port"@,
        ConfigError::AddressPair =>
            "peer/local addresses must differ and use the same transport family"@,
        ConfigError::PeerAddress => "invalid peer address"@,
        ConfigError::LocalAddress => "invalid local address"@,
        ConfigError::Interface => "invalid peer interface"@,
        ConfigError::DuplicateEndpoint => "duplicate peer endpoint"@,
        ConfigError::HoldTime => "hold time must be zero or >= 3 seconds"@,
        ConfigError::ConnectTimeout(i) => peer_name(c, i) + ": "@ + "connect_timeout_secs"@
            + timeout_bounds(),
        ConfigError::WriteTimeout(i) => peer_name(c, i) + ": "@ + "write_timeout_secs"@
            + timeout_bounds(),
        ConfigError::NoFamily => "peer must enable at least one address family"@,
        ConfigError::Ipv6Disabled => "IPv6 must be enabled globally before using IPv6 settings"@,
        ConfigError::NextHopV4 => "IPv4 export requires a valid local next_hop_v4"@,
        ConfigError::NextHopV6 => "IPv6 export requires a non-link-local next_hop_v6"@,
        ConfigError::LinkLocal => "next_hop_v6_link_local must be link-local"@,
    }
}

/// How a peer is named in an error.
pub open spec fn peer_name(c: Config, i: usize) -> Seq<char> {
    "peer "@ + addr_text(c.peers@[i as int].address)
}

/// The bounds of a timeout, as an error gives them.
pub open spec fn timeout_bounds() -> Seq<char> {
    " must be 1..="@ + decimal(MAX_TIMEOUT_SECS as nat) + " seconds"@
}

impl ConfigError {
    /// The ACL or peer that the error names exists.
    pub open spec fn names(self, c: Config) -> bool {
        match self {
            ConfigError::AclHostBits(i) | ConfigError::AclRange(i) => i < c.acls@.len(),
            ConfigError::Md5Length(i) | ConfigError::MissingAcl(i)
            | ConfigError::ConnectTimeout(i) | ConfigError::WriteTimeout(i) => i
                < c.peers@.len(),
            _ => true,
        }
    }

    /// Render the error in terms of the configuration it was found in.
    pub fn message(&self, c: &Config) -> (r: String)
        requires
            self.names(*c),
        ensures
            r@ == problem_text(*c, *self),
    {
        let fixed: &'static str = match self {
            ConfigError::ManagementAddress => "management CLI must bind to a loopback address",
            ConfigError::ManagementPort => "management CLI port must be nonzero",
            ConfigError::LocalAsn => "local ASN must be nonzero and not AS_TRANS",
            ConfigError::RouterId => "router_id must be nonzero",
            ConfigError::ListenPort => "listen_port must be nonzero",
            ConfigError::NoPeers => "at least one peer is required",
            ConfigError::Tables => "select at least one nonzero routing table",
            ConfigError::ReceiveBuffer => "receive_buffer_bytes must be 64 KiB..1 GiB",
            ConfigError::RefreshInterval => "refresh_interval_ms must be 10..60000",
            ConfigError::ReconcileInterval => {
                return timeout_message("kernel ".to_string(), "reconcile_interval_secs");
            },
            ConfigError::StaleTimeout => {
                return timeout_message("kernel ".to_string(), "stale_timeout_secs");
            },
            ConfigError::DumpTimeout => {
                return timeout_message("kernel ".to_string(), "dump_timeout_secs");
            },
            ConfigError::DumpNotShorter => "dump timeout must be shorter than stale timeout",
            ConfigError::MaxPrefixes => "max_prefixes must be positive",
            ConfigError::AclName => "ACL name must not be empty",
            ConfigError::AclHostBits(i) => {
                let mut s: String = "ACL ".to_string();
                s.append(c.acls[*i].name.as_str());
                s.append(": prefix must have no host bits");
                return s;
            },
            ConfigError::AclRange(i) => {
                let mut s: String = "ACL ".to_string();
                s.append(c.acls[*i].name.as_str());
                s.append(": invalid prefix length range");
                return s;
            },
            ConfigError::Md5Length(i) => {
                let mut s = name_peer(c, *i);
                s.append(
                    ": md5_password must contain 1..=80 UTF-8 bytes; omit it to disable authentication",
                );
                return s;
            },
            ConfigError::MissingAcl(i) => {
                let mut s = name_peer(c, *i);
                s.append(": mandatory export ACL ");
                let acl = quote(c.peers[*i].export_acl.as_str());
                s.append(acl.as_str());
                s.append(" does not exist");
                return s;
            },
            ConfigError::PeerAsnOrPort => "invalid peer ASN or port",
            ConfigError::AddressPair =>
                "peer/local addresses must differ and use the same transport family",
            ConfigError::PeerAddress => "invalid peer address",
            ConfigError::LocalAddress => "invalid local address",
            ConfigError::Interface => "invalid peer interface",
            ConfigError::DuplicateEndpoint => "duplicate peer endpoint",
            ConfigError::HoldTime => "hold time must be zero or >= 3 seconds",
            ConfigError::ConnectTimeout(i) => {
                let mut s = name_peer(c, *i);
                s.append(": ");
                return timeout_message(s, "connect_timeout_secs");
            },
            ConfigError::WriteTimeout(i) => {
                let mut s = name_peer(c, *i);
                s.append(": ");
                return timeout_message(s, "write_timeout_secs");
            },
            ConfigError::NoFamily => "peer must enable at least one address family",
            ConfigError::Ipv6Disabled => "IPv6 must be enabled globally before using IPv6 settings",
            ConfigError::NextHopV4 => "IPv4 export requires a valid local next_hop_v4",
            ConfigError::NextHopV6 => "IPv6 export requires a non-link-local next_hop_v6",
            ConfigError::LinkLocal => "next_hop_v6_link_local must be link-local",
        };
        fixed.to_string()
    }
}

/// An error that is found names an ACL or a peer that exists.
proof fn lemma_problem_names(c: Config)
    ensures
        first_problem(c) matches Some(e) ==> e.names(c),
{
    assert(c.acls.len() == c.acls@.len());
    assert(c.peers.len() == c.peers@.len());
    lemma_acls_problem_names(c, c.acls@.len());
    lemma_peers_problem_names(c, c.peers@.len());
}

proof fn lemma_rules_problem_names(rules: Seq<Rule>, k: nat, acl: usize)
    ensures
        rules_problem(rules, k, acl) matches Some(e) ==> e == ConfigError::AclHostBits(acl) || e
            == ConfigError::AclRange(acl),
    decreases k,
{
    if k > 0 {
        lemma_rules_problem_names(rules, (k - 1) as nat, acl);
    }
}

proof fn lemma_acls_problem_names(c: Config, k: nat)
    requires
        k <= c.acls@.len() <= usize::MAX,
    ensures
        acls_problem(c.acls@, k) matches Some(e) ==> e.names(c),
    decreases k,
{
    if k > 0 {
        let rules = c.acls@[k - 1].acl.rules@;
        lemma_acls_problem_names(c, (k - 1) as nat);
        lemma_rules_problem_names(rules, rules.len(), (k - 1) as usize);
    }
}

proof fn lemma_peers_problem_names(c: Config, k: nat)
    requires
        k <= c.peers@.len() <= usize::MAX,
    ensures
        peers_problem(c, k) matches Some(e) ==> e.names(c),
    decreases k,
{
    if k > 0 {
        lemma_peers_problem_names(c, (k - 1) as nat);
    }
}

fn name_peer(c: &Config, i: usize) -> (r: String)
    requires
        i < c.peers@.len(),
    ensures
        r@ == peer_name(*c, i),
{
    let mut s: String = "peer ".to_string();
    append_addr(&mut s, c.peers[i].address);
    s
}

fn timeout_message(start: String, name: &'static str) -> (r: String)
    ensures
        r@ == start@ + name@ + timeout_bounds(),
{
    let mut s: String = start;
    s.append(name);
    s.append(" must be 1..=");
    append_decimal(&mut s, MAX_TIMEOUT_SECS);
    s.append(" seconds");
    assert(s@ =~= start@ + name@ + timeout_bounds());
    s
}

/// No error depends on a key: configurations that differ in keys alone are
/// described alike.
pub proof fn law_errors_hide_keys(c: Config, d: Config, e: ConfigError)
    requires
        e.names(c),
        c.acls@ == d.acls@,
        c.peers@.len() == d.peers@.len(),
        forall|i: int|
            0 <= i < c.peers@.len() ==> (#[trigger] c.peers@[i]).address == d.peers@[i].address
                && c.peers@[i].export_acl@ == d.peers@[i].export_acl@,
    ensures
        problem_text(c, e) == problem_text(d, e),
{
    match e {
        ConfigError::Md5Length(i) | ConfigError::MissingAcl(i) | ConfigError::ConnectTimeout(i)
        | ConfigError::WriteTimeout(i) => {
            assert(c.peers@[i as int].address == d.peers@[i as int].address);
        },
        _ => {},
    }
}

/// How many lines end in `s`.
pub open spec fn line_ends(s: Seq<u8>) -> nat
    decreases s.len(),
{
    if s.len() == 0 {
        0
    } else {
        line_ends(s.drop_last()) + if s.last() == 10 {
            1nat
        } else {
            0nat
        }
    }
}

/// The column, counted in bytes from one, of what follows `s`.
pub open spec fn column_after(s: Seq<u8>) -> nat
    decreases s.len(),
{
    if s.len() == 0 || s.last() == 10 {
        1
    } else {
        column_after(s.drop_last()) + 1
    }
}

/// What is told of a configuration text that does not parse: where, and no more.
pub open spec fn syntax_text(line: nat, column: nat) -> Seq<char> {
    "parsing configuration at line "@ + decimal(line) + ", column "@ + decimal(column)
        + ": check TOML syntax, field names and types (source omitted to protect secrets)"@
}

/// Describe a syntax error at a byte offset without quoting the source, which
/// may hold keys. An offset beyond the end stands for the end, none for the start.
pub fn syntax_message(text: &str, offset: Option<usize>) -> (r: String)
    requires
        encode_utf8(text@).len() < usize::MAX,
    ensures
        ({
            let b = encode_utf8(text@);
            let at = match offset {
                Some(n) => if n <= b.len() {
                    n as int
                } else {
                    b.len() as int
                },
                None => 0,
            };
            r@ == syntax_text(line_ends(b.take(at)) + 1, column_after(b.take(at)))
        }),
{
    let b = text.as_bytes();
    let wanted: usize = match offset {
        Some(n) => n,
        None => 0,
    };
    let at: usize = if wanted <= b.len() {
        wanted
    } else {
        b.len()
    };
    let mut line: u64 = 1;
    let mut column: u64 = 1;
    let mut i: usize = 0;
    while i < at
        invariant
            i <= at <= b@.len(),
            b@.len() < usize::MAX,
            line == line_ends(b@.take(i as int)) + 1,
            column == column_after(b@.take(i as int)),
            line <= i + 1,
            column <= i + 1,
        decreases at - i,
    {
        assert(b@.take(i + 1).drop_last() =~= b@.take(i as int));
        if b[i] == 10 {
            line += 1;
            column = 1;
        } else {
            column += 1;
        }
        i += 1;
    }
    let mut s: String = "parsing configuration at line ".to_string();
    append_decimal(&mut s, line);
    s.append(", column ");
    append_decimal(&mut s, column);
    s.append(": check TOML syntax, field names and types (source omitted to protect secrets)");
    s
}

/// What is told of a syntax error depends on the text by its line ends alone:
/// two texts with the same line ends bring the same message.
pub proof fn law_syntax_message_hides_source(a: Seq<u8>, b: Seq<u8>)
    requires
        a.len() == b.len(),
        forall|i: int| 0 <= i < a.len() ==> (#[trigger] a[i] == 10) == (b[i] == 10),
    ensures
        line_ends(a) == line_ends(b),
        column_after(a) == column_after(b),
    decreases a.len(),
{
    if a.len() > 0 {
        let n = a.len() - 1;
        assert((a[n] == 10) == (b[n] == 10));
        law_syntax_message_hides_source(a.drop_last(), b.drop_last());
    }
}

/// The first rule that matches decides.
pub proof fn law_first_match_decides(acl: Acl, p: IpNet, i: int)
    requires
        0 <= i < acl.rules@.len(),
        acl.rules@[i].matches(p),
        forall|j: int| 0 <= j < i ==> !(#[trigger] acl.rules@[j]).matches(p),
    ensures
        acl.allows(p) <==> acl.rules@[i].action == Action::Permit,
{
}

/// What no rule matches is denied; an ACL without rules permits nothing.
pub proof fn law_no_match_denies(acl: Acl, p: IpNet)
    requires
        forall|j: int| 0 <= j < acl.rules@.len() ==> !(#[trigger] acl.rules@[j]).matches(p),
    ensures
        !acl.allows(p),
{
}

/// A rule without a length range matches its own prefix and nothing else, so
/// permitting a network does not permit its more-specifics.
pub proof fn law_rule_without_range_is_exact(rule: Rule, p: IpNet)
    requires
        rule.min_length is None,
        rule.max_length is None,
        rule.prefix.wf(),
        p.wf(),
        rule.prefix.canonical(),
        p.canonical(),
    ensures
        rule.matches(p) <==> p == rule.prefix,
{
    law_covers_means_shared_bits(rule.prefix, p);
}

/// Only a rule for a default route matches one.
pub proof fn law_default_route_needs_its_own_rule(rule: Rule, p: IpNet)
    requires
        rule.prefix.wf(),
        p.wf(),
        p.prefix_len == 0,
        rule.matches(p),
    ensures
        rule.prefix.prefix_len == 0,
        rule.prefix.addr.is_ipv4() == p.addr.is_ipv4(),
{
    law_covers_means_shared_bits(rule.prefix, p);
}

} // verus!
