//! How each NSS source is answered on a real system. The decisions — which
//! sources are answered from `/etc/hosts`, which need a DNS or mDNS query
//! and against which servers, and what a query's outcome means for the
//! chain — are made here; the queries themselves are performed by the
//! caller, which hands their outcomes back.

use crate::ip::IpAddr;
use crate::mdns::{QTYPE_A, QTYPE_AAAA};
use crate::text::{chars_eq, chars_of, has_suffix, lower, lower_char, push_chars, to_lower, upper, upper_char};
use crate::types::{HostsEntry, HostsModel, NssSource, ResultModel, SourceModel, StepResult, hosts_views};
use vstd::prelude::*;

verus! {

/// Answers the NSS sources the way the real system would: `/etc/hosts` for
/// `files`, the configured nameservers for `dns`, systemd-resolved's real
/// nameservers for `resolve` (and for `dns` when resolv.conf only names the
/// resolved stub), one-shot mDNS for the `mdns*` sources.
pub struct SystemSourceResolver {
    hosts: Vec<HostsEntry>,
    nameservers: Vec<IpAddr>,
    resolved_nameservers: Vec<IpAddr>,
}

/// The value of a [`SystemSourceResolver`].
pub struct ResolverModel {
    pub hosts: Seq<HostsModel>,
    pub nameservers: Seq<IpAddr>,
    pub resolved_nameservers: Seq<IpAddr>,
}

impl View for SystemSourceResolver {
    type V = ResolverModel;

    closed spec fn view(&self) -> ResolverModel {
        ResolverModel {
            hosts: hosts_views(self.hosts@),
            nameservers: self.nameservers@,
            resolved_nameservers: self.resolved_nameservers@,
        }
    }
}

/// What answering one source takes: an answer known without any query, a
/// DNS query against the given servers, or a one-shot mDNS query for the
/// given record type.
#[derive(Debug)]
pub enum SourceAction {
    Answer(StepResult),
    QueryDns(Vec<IpAddr>),
    QueryMdns(u16),
}

/// The value of a [`SourceAction`].
pub enum ActionModel {
    Answer(ResultModel),
    QueryDns(Seq<IpAddr>),
    QueryMdns(u16),
}

impl View for SourceAction {
    type V = ActionModel;

    open spec fn view(&self) -> ActionModel {
        match self {
            SourceAction::Answer(r) => ActionModel::Answer(r@),
            SourceAction::QueryDns(s) => ActionModel::QueryDns(s@),
            SourceAction::QueryMdns(t) => ActionModel::QueryMdns(*t),
        }
    }
}

/// How a DNS query ended: with addresses (possibly none), with an
/// authoritative "no such records" (NXDOMAIN/NODATA), or with a failure
/// (starting the async runtime, building the resolver, or the query itself:
/// timeout, refusal, unreachable network, ...) described by its message.
#[derive(Debug)]
pub enum DnsReply {
    Answered(Vec<IpAddr>),
    NoRecords,
    RuntimeFailed(String),
    InitFailed(String),
    QueryFailed(String),
}

/// The value of a [`DnsReply`].
pub enum DnsReplyModel {
    Answered(Seq<IpAddr>),
    NoRecords,
    RuntimeFailed(Seq<char>),
    InitFailed(Seq<char>),
    QueryFailed(Seq<char>),
}

impl View for DnsReply {
    type V = DnsReplyModel;

    open spec fn view(&self) -> DnsReplyModel {
        match self {
            DnsReply::Answered(a) => DnsReplyModel::Answered(a@),
            DnsReply::NoRecords => DnsReplyModel::NoRecords,
            DnsReply::RuntimeFailed(e) => DnsReplyModel::RuntimeFailed(e@),
            DnsReply::InitFailed(e) => DnsReplyModel::InitFailed(e@),
            DnsReply::QueryFailed(e) => DnsReplyModel::QueryFailed(e@),
        }
    }
}

/// The addresses of the hosts lines that list `name` exactly, in file
/// order.
pub open spec fn hosts_matching(hosts: Seq<HostsModel>, name: Seq<char>) -> Seq<IpAddr>
    decreases hosts.len(),
{
    if hosts.len() == 0 {
        Seq::empty()
    } else {
        let rest = hosts_matching(hosts.drop_last(), name);
        if hosts.last().names.contains(name) {
            rest.push(hosts.last().ip)
        } else {
            rest
        }
    }
}

/// A `files` lookup finds the address of every hosts entry that lists the
/// name exactly as asked, and only such addresses.
pub proof fn files_finds_listed_names(hosts: Seq<HostsModel>, name: Seq<char>, x: IpAddr)
    ensures
        hosts_matching(hosts, name).contains(x) <==> exists|k: int|
            0 <= k < hosts.len() && (#[trigger] hosts[k]).names.contains(name) && hosts[k].ip == x,
    decreases hosts.len(),
{
    if hosts.len() > 0 {
        let prev = hosts.drop_last();
        files_finds_listed_names(prev, name, x);
        let rest = hosts_matching(prev, name);
        let last = hosts.last();
        assert forall|k: int| 0 <= k < prev.len() implies prev[k] == hosts[k] by {}
        if last.names.contains(name) {
            assert(rest.push(last.ip)[rest.len() as int] == last.ip);
            if hosts_matching(hosts, name).contains(x) && !rest.contains(x) {
                let j = choose|j: int| 0 <= j < rest.push(last.ip).len() && rest.push(last.ip)[j] == x;
                if j < rest.len() {
                    assert(rest[j] == x);
                }
                assert(hosts[hosts.len() - 1].names.contains(name) && hosts[hosts.len() - 1].ip == x);
            }
            if rest.contains(x) {
                let j = choose|j: int| 0 <= j < rest.len() && rest[j] == x;
                assert(rest.push(last.ip)[j] == x);
            }
            if exists|k: int| 0 <= k < hosts.len() && (#[trigger] hosts[k]).names.contains(name) && hosts[k].ip == x {
                let k = choose|k: int| 0 <= k < hosts.len() && (#[trigger] hosts[k]).names.contains(name) && hosts[k].ip == x;
                if k == hosts.len() - 1 {
                    assert(rest.push(last.ip)[rest.len() as int] == x);
                }
            }
        } else {
            if exists|k: int| 0 <= k < hosts.len() && (#[trigger] hosts[k]).names.contains(name) && hosts[k].ip == x {
                let k = choose|k: int| 0 <= k < hosts.len() && (#[trigger] hosts[k]).names.contains(name) && hosts[k].ip == x;
                assert(k < prev.len());
                assert(prev[k] == hosts[k]);
            }
        }
    }
}

/// A list of addresses as a source's result: found when there is one,
/// not found otherwise.
pub open spec fn found_or_not(addrs: Seq<IpAddr>) -> ResultModel {
    if addrs.len() == 0 {
        ResultModel::NotFound
    } else {
        ResultModel::Found(addrs)
    }
}

/// The servers a plain `dns` query goes to: resolved's real nameservers
/// when it reported any, resolv.conf's otherwise.
pub open spec fn dns_servers(m: ResolverModel) -> Seq<IpAddr> {
    if m.resolved_nameservers.len() > 0 {
        m.resolved_nameservers
    } else {
        m.nameservers
    }
}

/// `s` without its trailing dots.
pub open spec fn trim_dots_end(s: Seq<char>) -> Seq<char>
    decreases s.len(),
{
    if s.len() > 0 && s.last() == '.' {
        trim_dots_end(s.drop_last())
    } else {
        s
    }
}

/// Whether nss-mdns would query mDNS for `name` at all: the name without
/// trailing dots, in ASCII lowercase, ends in `.local` or is `local`.
pub open spec fn is_local_name(name: Seq<char>) -> bool {
    let n = lower(trim_dots_end(name));
    has_suffix(n, ".local"@) || n == "local"@
}

/// Why an mDNS source is not probed for a name outside `.local`.
pub open spec fn non_local_reason(name: Seq<char>) -> Seq<char> {
    "'"@ + name
        + "' doesn't end in .local — nss-mdns wouldn't query mDNS for this name at all (real UNAVAIL, not a probed NOT FOUND)"@
}

proof fn lemma_case_chars(c: char)
    ensures
        lower_char(upper_char(c)) == lower_char(c),
        lower_char(lower_char(c)) == lower_char(c),
        (upper_char(c) == '.') == (c == '.'),
        (lower_char(c) == '.') == (c == '.'),
{
    assert(('a' <= c && c <= 'z') ==> (c as u32) - 32 == (((c as u32) - 32) as char) as u32);
    assert(('A' <= c && c <= 'Z') ==> (c as u32) + 32 == (((c as u32) + 32) as char) as u32);
}

proof fn lemma_trim_dots_case(s: Seq<char>)
    ensures
        trim_dots_end(upper(s)) == upper(trim_dots_end(s)),
        trim_dots_end(lower(s)) == lower(trim_dots_end(s)),
    decreases s.len(),
{
    if s.len() > 0 {
        lemma_trim_dots_case(s.drop_last());
        lemma_case_chars(s.last());
        assert(upper(s).drop_last() =~= upper(s.drop_last()));
        assert(lower(s).drop_last() =~= lower(s.drop_last()));
    } else {
        assert(upper(s) =~= s);
        assert(lower(s) =~= s);
    }
}

/// Whether the mDNS sources are probed for a name does not depend on
/// trailing dots or on ASCII letter case.
pub proof fn local_gate_ignores_dots_and_case(name: Seq<char>)
    ensures
        is_local_name(name.push('.')) == is_local_name(name),
        is_local_name(upper(name)) == is_local_name(name),
        is_local_name(lower(name)) == is_local_name(name),
{
    assert(name.push('.').drop_last() =~= name);
    lemma_trim_dots_case(name);
    let t = trim_dots_end(name);
    assert forall|i: int| 0 <= i < t.len() implies lower(upper(t))[i] == lower(t)[i] && lower(lower(t))[i]
        == lower(t)[i] by {
        lemma_case_chars(t[i]);
    }
    assert(lower(upper(t)) =~= lower(t));
    assert(lower(lower(t)) =~= lower(t));
}

/// A DNS query against `servers`, or a skip when there are none.
pub open spec fn query_or_skip(servers: Seq<IpAddr>) -> ActionModel {
    if servers.len() == 0 {
        ActionModel::Answer(ResultModel::Skipped("no nameservers configured"@))
    } else {
        ActionModel::QueryDns(servers)
    }
}

/// An mDNS query for `qtype`, or a skip for a name outside `.local`.
pub open spec fn mdns_action(name: Seq<char>, qtype: u16) -> ActionModel {
    match skip_reason(name) {
        Some(reason) => ActionModel::Answer(ResultModel::Skipped(reason)),
        None => ActionModel::QueryMdns(qtype),
    }
}

/// The reason an mDNS source skips `name`, if it does.
pub open spec fn skip_reason(name: Seq<char>) -> Option<Seq<char>> {
    if is_local_name(name) {
        None
    } else {
        Some(non_local_reason(name))
    }
}

/// What answering `source` for `name` takes.
pub open spec fn spec_plan(m: ResolverModel, source: SourceModel, name: Seq<char>) -> ActionModel {
    match source {
        SourceModel::Files => ActionModel::Answer(found_or_not(hosts_matching(m.hosts, name))),
        SourceModel::Dns => query_or_skip(dns_servers(m)),
        SourceModel::Mdns4Minimal | SourceModel::Mdns4 => mdns_action(name, QTYPE_A),
        SourceModel::Mdns6Minimal | SourceModel::Mdns6 => mdns_action(name, QTYPE_AAAA),
        SourceModel::Myhostname => ActionModel::Answer(
            ResultModel::Skipped("myhostname probing not implemented in MVP"@),
        ),
        SourceModel::Resolve => if m.resolved_nameservers.len() == 0 {
            ActionModel::Answer(ResultModel::Skipped("systemd-resolved not detected on D-Bus"@))
        } else {
            ActionModel::QueryDns(m.resolved_nameservers)
        },
        SourceModel::Other(s) => ActionModel::Answer(
            ResultModel::Skipped("unknown NSS source '"@ + s + "'"@),
        ),
    }
}

/// What a DNS query's outcome means for the chain: addresses are found, an
/// empty answer or an authoritative negative is not found, and any failure
/// means the source could not be asked at all.
pub open spec fn spec_dns_result(reply: DnsReplyModel) -> ResultModel {
    match reply {
        DnsReplyModel::Answered(a) => found_or_not(a),
        DnsReplyModel::NoRecords => ResultModel::NotFound,
        DnsReplyModel::RuntimeFailed(e) => ResultModel::Skipped("failed to start async runtime: "@ + e),
        DnsReplyModel::InitFailed(e) => ResultModel::Skipped("resolver init failed: "@ + e),
        DnsReplyModel::QueryFailed(e) => ResultModel::Skipped("DNS query failed: "@ + e),
    }
}

/// What an mDNS query's outcome means for the chain: addresses are found,
/// silence is not found, and a failed query means the source could not be
/// asked.
pub open spec fn spec_mdns_result(reply: Result<Seq<IpAddr>, Seq<char>>, qtype: u16) -> ResultModel {
    match reply {
        Ok(a) => found_or_not(a),
        Err(e) => if qtype == QTYPE_AAAA {
            ResultModel::Skipped("mDNS AAAA query failed: "@ + e)
        } else {
            ResultModel::Skipped("mDNS query failed: "@ + e)
        },
    }
}

/// A string holding `prefix` followed by `detail`.
fn prefixed(prefix: &str, detail: &String) -> (r: String)
    ensures
        r@ == prefix@ + detail@,
{
    let mut s = String::from_str(prefix);
    push_chars(&mut s, &chars_of(detail.as_str()));
    s
}

/// The step result a DNS query's outcome gives.
pub fn dns_result(reply: DnsReply) -> (r: StepResult)
    ensures
        r@ == spec_dns_result(reply@),
{
    match reply {
        DnsReply::Answered(a) => {
            if a.len() == 0 {
                StepResult::NotFound
            } else {
                StepResult::Found(a)
            }
        },
        DnsReply::NoRecords => StepResult::NotFound,
        DnsReply::RuntimeFailed(e) => StepResult::Skipped {
            reason: prefixed("failed to start async runtime: ", &e),
        },
        DnsReply::InitFailed(e) => StepResult::Skipped { reason: prefixed("resolver init failed: ", &e) },
        DnsReply::QueryFailed(e) => StepResult::Skipped { reason: prefixed("DNS query failed: ", &e) },
    }
}

/// The step result an mDNS query's outcome gives; `qtype` says whether
/// the query was for A or AAAA records.
pub fn mdns_result(reply: Result<Vec<IpAddr>, String>, qtype: u16) -> (r: StepResult)
    ensures
        r@ == spec_mdns_result(
            match reply {
                Ok(a) => Ok(a@),
                Err(e) => Err(e@),
            },
            qtype,
        ),
{
    match reply {
        Ok(a) => {
            if a.len() == 0 {
                StepResult::NotFound
            } else {
                StepResult::Found(a)
            }
        },
        Err(e) => {
            if qtype == QTYPE_AAAA {
                StepResult::Skipped { reason: prefixed("mDNS AAAA query failed: ", &e) }
            } else {
                StepResult::Skipped { reason: prefixed("mDNS query failed: ", &e) }
            }
        },
    }
}

impl SystemSourceResolver {
    /// A resolver over the parsed `/etc/hosts` entries and resolv.conf's
    /// nameservers, with no systemd-resolved nameservers.
    pub fn new(hosts: Vec<HostsEntry>, nameservers: Vec<IpAddr>) -> (r: Self)
        ensures
            r@.hosts == hosts_views(hosts@),
            r@.nameservers == nameservers@,
            r@.resolved_nameservers == Seq::<IpAddr>::empty(),
    {
        SystemSourceResolver { hosts, nameservers, resolved_nameservers: Vec::new() }
    }

    /// Attaches systemd-resolved's real nameservers, which answer the
    /// `resolve` source and back plain `dns` queries too, since the stub
    /// that resolv.conf names is not a server worth asking directly.
    pub fn with_resolved_nameservers(self, servers: Vec<IpAddr>) -> (r: Self)
        ensures
            r@.hosts == self@.hosts,
            r@.nameservers == self@.nameservers,
            r@.resolved_nameservers == servers@,
    {
        SystemSourceResolver {
            hosts: self.hosts,
            nameservers: self.nameservers,
            resolved_nameservers: servers,
        }
    }

    /// The `files` answer for `name`: the addresses of every hosts line
    /// that lists `name` exactly.
    fn lookup_hosts(&self, name: &str) -> (r: StepResult)
        ensures
            r@ == found_or_not(hosts_matching(self@.hosts, name@)),
    {
        let target = chars_of(name);
        let mut addrs: Vec<IpAddr> = Vec::new();
        let mut i: usize = 0;
        while i < self.hosts.len()
            invariant
                i <= self.hosts@.len(),
                target@ == name@,
                addrs@ == hosts_matching(hosts_views(self.hosts@).take(i as int), name@),
            decreases self.hosts@.len() - i,
        {
            let entry = &self.hosts[i];
            proof {
                assert(hosts_views(self.hosts@).take(i + 1).drop_last() =~= hosts_views(self.hosts@).take(
                    i as int,
                ));
            }
            let mut listed = false;
            let mut j: usize = 0;
            while j < entry.names.len()
                invariant_except_break
                    !listed,
                invariant
                    j <= entry.names@.len(),
                    target@ == name@,
                    forall|k: int| 0 <= k < j ==> entry.names@[k]@ != name@,
                ensures
                    listed <==> entry@.names.contains(name@),
                decreases entry.names@.len() - j,
            {
                if chars_eq(&chars_of(entry.names[j].as_str()), &target) {
                    assert(entry@.names[j as int] == name@);
                    listed = true;
                    break;
                }
                j = j + 1;
            }
            if listed {
                addrs.push(entry.ip);
            }
            i = i + 1;
        }
        assert(hosts_views(self.hosts@).take(self.hosts@.len() as int) =~= hosts_views(self.hosts@));
        if addrs.len() == 0 {
            StepResult::NotFound
        } else {
            StepResult::Found(addrs)
        }
    }

    /// The servers a plain `dns` query goes to.
    fn effective_dns_servers(&self) -> (r: &Vec<IpAddr>)
        ensures
            r@ == dns_servers(self@),
    {
        if self.resolved_nameservers.len() != 0 {
            &self.resolved_nameservers
        } else {
            &self.nameservers
        }
    }

    /// Why the mDNS sources would not be probed for `name`, or nothing when
    /// they would: real nss-mdns sends no packet for a name outside `.local`
    /// (compared without trailing dots and without regard to ASCII case) and
    /// answers UNAVAIL at once, so that an ordinary internet name cannot be
    /// caught by an `[NOTFOUND=return]` after it.
    pub fn skip_non_local(name: &str) -> (r: Option<String>)
        ensures
            r is None <==> is_local_name(name@),
            r matches Some(s) ==> s@ == non_local_reason(name@),
    {
        let n = to_lower(&trim_trailing_dots(&chars_of(name)));
        let local = crate::text::ends_with(&n, &chars_of(".local")) || chars_eq(&n, &chars_of("local"));
        if local {
            None
        } else {
            let mut s = String::from_str("'");
            push_chars(&mut s, &chars_of(name));
            push_chars(
                &mut s,
                &chars_of(
                    "' doesn't end in .local — nss-mdns wouldn't query mDNS for this name at all (real UNAVAIL, not a probed NOT FOUND)",
                ),
            );
            Some(s)
        }
    }

    /// What answering `source` for `name` takes: the `files` answer and
    /// every skip are known at once; `dns` and `resolve` need a DNS query
    /// against the servers given, the `mdns*` sources a one-shot mDNS query
    /// (but only for `.local` names, as real nss-mdns).
    pub fn plan(&self, source: &NssSource, name: &str) -> (r: SourceAction)
        ensures
            r@ == spec_plan(self@, source@, name@),
    {
        match source {
            NssSource::Files => SourceAction::Answer(self.lookup_hosts(name)),
            NssSource::Dns => {
                let servers = self.effective_dns_servers();
                if servers.len() == 0 {
                    SourceAction::Answer(
                        StepResult::Skipped { reason: String::from_str("no nameservers configured") },
                    )
                } else {
                    SourceAction::QueryDns(servers.clone())
                }
            },
            NssSource::Mdns4Minimal | NssSource::Mdns4 => match Self::skip_non_local(name) {
                Some(reason) => SourceAction::Answer(StepResult::Skipped { reason }),
                None => SourceAction::QueryMdns(QTYPE_A),
            },
            NssSource::Mdns6Minimal | NssSource::Mdns6 => match Self::skip_non_local(name) {
                Some(reason) => SourceAction::Answer(StepResult::Skipped { reason }),
                None => SourceAction::QueryMdns(QTYPE_AAAA),
            },
            NssSource::Myhostname => SourceAction::Answer(
                StepResult::Skipped { reason: String::from_str("myhostname probing not implemented in MVP") },
            ),
            NssSource::Resolve => {
                if self.resolved_nameservers.len() == 0 {
                    SourceAction::Answer(
                        StepResult::Skipped { reason: String::from_str("systemd-resolved not detected on D-Bus") },
                    )
                } else {
                    SourceAction::QueryDns(self.resolved_nameservers.clone())
                }
            },
            NssSource::Other(s) => {
                let mut reason = String::from_str("unknown NSS source '");
                push_chars(&mut reason, &chars_of(s.as_str()));
                push_chars(&mut reason, &chars_of("'"));
                SourceAction::Answer(StepResult::Skipped { reason })
            },
        }
    }
}

/// `s` without its trailing dots.
fn trim_trailing_dots(s: &Vec<char>) -> (r: Vec<char>)
    ensures
        r@ == trim_dots_end(s@),
{
    let mut e = s.len();
    assert(s@.take(s@.len() as int) =~= s@);
    while e > 0 && s[e - 1] == '.'
        invariant
            e <= s@.len(),
            trim_dots_end(s@) == trim_dots_end(s@.take(e as int)),
        decreases e,
    {
        assert(s@.take(e as int).drop_last() =~= s@.take(e - 1));
        e = e - 1;
    }
    let mut out: Vec<char> = Vec::new();
    let mut i: usize = 0;
    while i < e
        invariant
            i <= e <= s@.len(),
            out@ == s@.take(i as int),
        decreases e - i,
    {
        out.push(s[i]);
        assert(s@.take(i + 1) =~= s@.take(i as int).push(s@[i as int]));
        i = i + 1;
    }
    assert(trim_dots_end(s@.take(e as int)) == s@.take(e as int));
    out
}

} // verus!
