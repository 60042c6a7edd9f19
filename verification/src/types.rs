//! The data the parsers produce and the simulation consumes, each with the
//! mathematical value that the contracts speak of.

use crate::ip::IpAddr;
use crate::text::string_views;
use vstd::prelude::*;

verus! {

/// One source that nsswitch can consult, in the order it appears in the
/// `hosts:` line of /etc/nsswitch.conf.
#[derive(Debug, Clone, PartialEq, Eq)]
pub enum NssSource {
    /// `files` — /etc/hosts.
    Files,
    /// `dns` — a real DNS query via the configured resolver.
    Dns,
    /// `mdns4_minimal` — one-shot IPv4 multicast DNS, the common
    /// desktop-default source that traps names ending in `.local`.
    Mdns4Minimal,
    /// `mdns6_minimal` — IPv6 counterpart of `mdns4_minimal`.
    Mdns6Minimal,
    /// `mdns4` — full (non-minimal) IPv4 mDNS source.
    Mdns4,
    /// `mdns6` — full (non-minimal) IPv6 mDNS source.
    Mdns6,
    /// `myhostname` — systemd's synthetic source for the machine's own
    /// hostname and a handful of well-known names (`localhost`, etc).
    Myhostname,
    /// `resolve` — the systemd-resolved NSS module.
    Resolve,
    /// Any source nsswitch.conf lists that gai doesn't have specific
    /// handling for. Always resolves to `Skipped`, never guessed at.
    Other(String),
}

/// The value of an [`NssSource`]: the same variants, with the text of an
/// unknown source as a character sequence.
pub enum SourceModel {
    Files,
    Dns,
    Mdns4Minimal,
    Mdns6Minimal,
    Mdns4,
    Mdns6,
    Myhostname,
    Resolve,
    Other(Seq<char>),
}

impl View for NssSource {
    type V = SourceModel;

    open spec fn view(&self) -> SourceModel {
        match self {
            NssSource::Files => SourceModel::Files,
            NssSource::Dns => SourceModel::Dns,
            NssSource::Mdns4Minimal => SourceModel::Mdns4Minimal,
            NssSource::Mdns6Minimal => SourceModel::Mdns6Minimal,
            NssSource::Mdns4 => SourceModel::Mdns4,
            NssSource::Mdns6 => SourceModel::Mdns6,
            NssSource::Myhostname => SourceModel::Myhostname,
            NssSource::Resolve => SourceModel::Resolve,
            NssSource::Other(s) => SourceModel::Other(s@),
        }
    }
}

/// The classified outcome of trying one NSS source, used to match
/// against a source's `[STATUS=action]` criteria.
#[derive(Debug, Clone, Copy, PartialEq, Eq, Structural)]
pub enum NssStatus {
    /// The source found an answer.
    Success,
    /// The source was reachable and definitively has no answer.
    NotFound,
    /// The source itself couldn't be consulted.
    Unavail,
    /// The source is temporarily unable to answer.
    TryAgain,
}

/// What happens to the nsswitch chain when a source's result matches one
/// of its criteria.
#[derive(Debug, Clone, Copy, PartialEq, Eq, Structural)]
pub enum NssAction {
    /// Stop the chain here — later sources are never tried.
    Return,
    /// Keep going to the next source even though this one matched.
    Continue,
}

/// A `[STATUS=action]` clause attached to one NSS source, e.g. the
/// `[NOTFOUND=return]` in `mdns4_minimal [NOTFOUND=return]`.
#[derive(Debug, Clone, Copy, PartialEq, Eq, Structural)]
pub struct NssCriterion {
    /// The result status this clause reacts to.
    pub status: NssStatus,
    /// What happens to the chain when `status` is matched.
    pub action: NssAction,
}

/// One source entry from the `hosts:` line, with whatever criteria are
/// attached to it in nsswitch.conf.
#[derive(Debug, Clone, PartialEq, Eq)]
pub struct NssEntry {
    /// Which NSS source this entry is.
    pub source: NssSource,
    /// The `[STATUS=action]` clauses attached to this source, if any.
    pub criteria: Vec<NssCriterion>,
}

/// The value of an [`NssEntry`].
pub struct EntryModel {
    pub source: SourceModel,
    pub criteria: Seq<NssCriterion>,
}

impl View for NssEntry {
    type V = EntryModel;

    open spec fn view(&self) -> EntryModel {
        EntryModel { source: self.source@, criteria: self.criteria@ }
    }
}

/// The values of a list of entries.
pub open spec fn entry_views(v: Seq<NssEntry>) -> Seq<EntryModel> {
    Seq::new(v.len(), |i: int| v[i]@)
}

/// Parsed `/etc/nsswitch.conf`, currently only the `hosts:` line.
#[derive(Debug, Clone)]
pub struct NsswitchConfig {
    /// The ordered list of sources from the `hosts:` line.
    pub hosts: Vec<NssEntry>,
}

impl View for NsswitchConfig {
    type V = Seq<EntryModel>;

    open spec fn view(&self) -> Seq<EntryModel> {
        entry_views(self.hosts@)
    }
}

/// Parsed `/etc/resolv.conf`.
#[derive(Debug, Clone)]
pub struct ResolvConfig {
    /// Nameserver IPs from `nameserver` lines, in file order.
    pub nameservers: Vec<IpAddr>,
    /// Search domains from `search`/`domain` lines.
    pub search: Vec<String>,
    /// The `ndots` option; 1 when the file doesn't set it.
    pub ndots: u32,
    /// True if this file points at the systemd-resolved stub (127.0.0.53)
    /// rather than at real nameservers.
    pub is_systemd_stub: bool,
}

/// Parsed `/etc/gai.conf` — IPv4/IPv6 address selection policy (RFC 6724).
#[derive(Debug, Clone)]
pub struct GaiConfig {
    /// `label` rules: (address prefix, label value).
    pub label_rules: Vec<(String, u32)>,
    /// `precedence` rules: (address prefix, precedence value).
    pub precedence_rules: Vec<(String, u32)>,
    /// Whether IPv6 addresses are preferred over IPv4 when both are
    /// available: true by default (glibc's compiled-in policy), false when
    /// the precedence rules rank IPv4-mapped addresses above IPv6.
    pub prefer_ipv6: bool,
}

/// A single parsed line of `/etc/hosts`.
#[derive(Debug, Clone)]
pub struct HostsEntry {
    /// The address on this line.
    pub ip: IpAddr,
    /// All names this line maps to that address.
    pub names: Vec<String>,
}

/// The value of a [`ResolvConfig`].
pub struct ResolvModel {
    pub nameservers: Seq<IpAddr>,
    pub search: Seq<Seq<char>>,
    pub ndots: u32,
    pub is_systemd_stub: bool,
}

impl View for ResolvConfig {
    type V = ResolvModel;

    open spec fn view(&self) -> ResolvModel {
        ResolvModel {
            nameservers: self.nameservers@,
            search: string_views(self.search@),
            ndots: self.ndots,
            is_systemd_stub: self.is_systemd_stub,
        }
    }
}

/// The values of a list of (text, number) rules.
pub open spec fn rule_views(v: Seq<(String, u32)>) -> Seq<(Seq<char>, u32)> {
    Seq::new(v.len(), |i: int| (v[i].0@, v[i].1))
}

/// The value of a [`GaiConfig`].
pub struct GaiModel {
    pub label_rules: Seq<(Seq<char>, u32)>,
    pub precedence_rules: Seq<(Seq<char>, u32)>,
    pub prefer_ipv6: bool,
}

impl View for GaiConfig {
    type V = GaiModel;

    open spec fn view(&self) -> GaiModel {
        GaiModel {
            label_rules: rule_views(self.label_rules@),
            precedence_rules: rule_views(self.precedence_rules@),
            prefer_ipv6: self.prefer_ipv6,
        }
    }
}

/// The value of a [`HostsEntry`].
pub struct HostsModel {
    pub ip: IpAddr,
    pub names: Seq<Seq<char>>,
}

impl View for HostsEntry {
    type V = HostsModel;

    open spec fn view(&self) -> HostsModel {
        HostsModel { ip: self.ip, names: string_views(self.names@) }
    }
}

/// The values of a list of hosts entries.
pub open spec fn hosts_views(v: Seq<HostsEntry>) -> Seq<HostsModel> {
    Seq::new(v.len(), |i: int| v[i]@)
}

/// How the target binary resolves names at all — not every process even
/// goes through glibc/NSS.
#[derive(Debug, Clone, Copy, PartialEq, Eq, Structural)]
pub enum ResolverRuntime {
    /// Dynamically linked against glibc — goes through the full NSS chain.
    GlibcNss,
    /// Dynamically linked against musl.
    MuslNss,
    /// Statically linked Go binary using Go's built-in resolver, which
    /// bypasses nsswitch.conf entirely.
    GoPureResolver,
    /// Detection was inconclusive.
    Unknown,
}

/// The result of trying one NSS source during simulation.
#[derive(Debug, Clone)]
pub enum StepResult {
    /// The source found one or more addresses.
    Found(Vec<IpAddr>),
    /// The source was consulted and definitively has no answer.
    NotFound,
    /// The source couldn't be tried at all; `reason` explains why.
    Skipped { reason: String },
}

/// The value of a [`StepResult`].
pub enum ResultModel {
    Found(Seq<IpAddr>),
    NotFound,
    Skipped(Seq<char>),
}

impl View for StepResult {
    type V = ResultModel;

    open spec fn view(&self) -> ResultModel {
        match self {
            StepResult::Found(a) => ResultModel::Found(a@),
            StepResult::NotFound => ResultModel::NotFound,
            StepResult::Skipped { reason } => ResultModel::Skipped(reason@),
        }
    }
}

/// One step in the simulated resolution path.
#[derive(Debug, Clone)]
pub struct ResolutionStep {
    /// Which NSS source this step tried.
    pub source: NssSource,
    /// What that source returned.
    pub result: StepResult,
    /// If this step halted the chain because of an explicit criterion, that
    /// criterion.
    pub halted_chain: Option<NssCriterion>,
}

/// The value of a [`ResolutionStep`].
pub struct StepModel {
    pub source: SourceModel,
    pub result: ResultModel,
    pub halted_chain: Option<NssCriterion>,
}

impl View for ResolutionStep {
    type V = StepModel;

    open spec fn view(&self) -> StepModel {
        StepModel { source: self.source@, result: self.result@, halted_chain: self.halted_chain }
    }
}

/// The values of a list of steps.
pub open spec fn step_views(v: Seq<ResolutionStep>) -> Seq<StepModel> {
    Seq::new(v.len(), |i: int| v[i]@)
}

impl NssSource {
    /// A copy of this source.
    pub(crate) fn copied(&self) -> (r: NssSource)
        ensures
            r@ == self@,
    {
        match self {
            NssSource::Files => NssSource::Files,
            NssSource::Dns => NssSource::Dns,
            NssSource::Mdns4Minimal => NssSource::Mdns4Minimal,
            NssSource::Mdns6Minimal => NssSource::Mdns6Minimal,
            NssSource::Mdns4 => NssSource::Mdns4,
            NssSource::Mdns6 => NssSource::Mdns6,
            NssSource::Myhostname => NssSource::Myhostname,
            NssSource::Resolve => NssSource::Resolve,
            NssSource::Other(s) => NssSource::Other(s.clone()),
        }
    }
}

} // verus!
