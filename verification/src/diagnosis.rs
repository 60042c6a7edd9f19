//! The verdict of `doctor`: what the simulated chain and the independent
//! DNS query say together.

use crate::ip::{IpAddr, same_address_set};
use crate::reality::RealityCheck;
use crate::sim::SimulationOutcome;
use crate::types::{NssSource, SourceModel, StepModel, step_views};
use vstd::prelude::*;

verus! {

/// How much a diagnosis asks for attention: no issue, informational only,
/// or worth a look.
#[derive(Debug, Clone, Copy, PartialEq, Eq, Structural)]
pub enum Severity {
    Clear,
    Note,
    Issue,
}

/// The verdict on one name.
#[derive(Debug)]
pub enum Diagnosis {
    /// The chain halted early on an explicit criterion, never reaching
    /// DNS, while a direct DNS query found these addresses.
    HaltedButDnsAnswers(Vec<IpAddr>),
    /// The chain halted early and a direct DNS query found nothing either.
    HaltedNoDiscrepancy,
    /// The chain halted early and no reality check could be made.
    HaltedUnchecked,
    /// The chain failed and no reality check could be made.
    FailedUnchecked,
    /// The chain failed and a direct DNS query agrees that the name does
    /// not resolve.
    FailedAgreed,
    /// The chain failed without an early halt, while a direct DNS query
    /// found these addresses.
    FailedButDnsAnswers(Vec<IpAddr>),
    /// The chain resolved to these addresses, but no reality check could be
    /// made.
    ResolvedUnchecked(Vec<IpAddr>),
    /// The chain resolved to the same addresses a direct DNS query found.
    Agreed,
    /// The chain's answer came from DNS itself and differs from the direct
    /// query's (more likely anycast/GeoDNS variance than an interception):
    /// the chain's addresses, then the direct query's.
    DnsVariance(Vec<IpAddr>, Vec<IpAddr>),
    /// A source earlier than DNS answered with other addresses than a
    /// direct DNS query found: the chain's addresses, then the direct
    /// query's.
    EarlierSourceAnswers(Vec<IpAddr>, Vec<IpAddr>),
}

/// The value of a [`Diagnosis`].
pub enum DiagnosisModel {
    HaltedButDnsAnswers(Seq<IpAddr>),
    HaltedNoDiscrepancy,
    HaltedUnchecked,
    FailedUnchecked,
    FailedAgreed,
    FailedButDnsAnswers(Seq<IpAddr>),
    ResolvedUnchecked(Seq<IpAddr>),
    Agreed,
    DnsVariance(Seq<IpAddr>, Seq<IpAddr>),
    EarlierSourceAnswers(Seq<IpAddr>, Seq<IpAddr>),
}

impl View for Diagnosis {
    type V = DiagnosisModel;

    open spec fn view(&self) -> DiagnosisModel {
        match self {
            Diagnosis::HaltedButDnsAnswers(a) => DiagnosisModel::HaltedButDnsAnswers(a@),
            Diagnosis::HaltedNoDiscrepancy => DiagnosisModel::HaltedNoDiscrepancy,
            Diagnosis::HaltedUnchecked => DiagnosisModel::HaltedUnchecked,
            Diagnosis::FailedUnchecked => DiagnosisModel::FailedUnchecked,
            Diagnosis::FailedAgreed => DiagnosisModel::FailedAgreed,
            Diagnosis::FailedButDnsAnswers(a) => DiagnosisModel::FailedButDnsAnswers(a@),
            Diagnosis::ResolvedUnchecked(a) => DiagnosisModel::ResolvedUnchecked(a@),
            Diagnosis::Agreed => DiagnosisModel::Agreed,
            Diagnosis::DnsVariance(a, b) => DiagnosisModel::DnsVariance(a@, b@),
            Diagnosis::EarlierSourceAnswers(a, b) => DiagnosisModel::EarlierSourceAnswers(a@, b@),
        }
    }
}

/// The chain ended without addresses because its last step halted it on
/// an explicit criterion.
pub open spec fn spec_halted_early(steps: Seq<StepModel>, final_addresses: Seq<IpAddr>) -> bool {
    &&& steps.len() > 0
    &&& steps.last().halted_chain is Some
    &&& final_addresses.len() == 0
}

/// The verdict for a chain that took `steps` and ended with
/// `final_addresses`, given the addresses of the reality check when it
/// ran. Addresses are compared as sets with repeats, whatever their order.
pub open spec fn spec_diagnose(
    steps: Seq<StepModel>,
    final_addresses: Seq<IpAddr>,
    reality: Option<Seq<IpAddr>>,
) -> DiagnosisModel {
    if final_addresses.len() == 0 {
        if spec_halted_early(steps, final_addresses) {
            match reality {
                Some(a) => if a.len() > 0 {
                    DiagnosisModel::HaltedButDnsAnswers(a)
                } else {
                    DiagnosisModel::HaltedNoDiscrepancy
                },
                None => DiagnosisModel::HaltedUnchecked,
            }
        } else {
            match reality {
                None => DiagnosisModel::FailedUnchecked,
                Some(a) => if a.len() == 0 {
                    DiagnosisModel::FailedAgreed
                } else {
                    DiagnosisModel::FailedButDnsAnswers(a)
                },
            }
        }
    } else {
        match reality {
            None => DiagnosisModel::ResolvedUnchecked(final_addresses),
            Some(a) => if a.to_multiset() == final_addresses.to_multiset() {
                DiagnosisModel::Agreed
            } else if steps.len() > 0 && steps.last().source == SourceModel::Dns {
                DiagnosisModel::DnsVariance(final_addresses, a)
            } else {
                DiagnosisModel::EarlierSourceAnswers(final_addresses, a)
            },
        }
    }
}

/// How much a verdict asks for attention: agreement is no issue; a verdict
/// that could not be cross-checked, or a DNS-vs-DNS difference, is
/// informational; a real answer that the chain hides or contradicts is
/// worth a look.
pub open spec fn spec_severity(d: DiagnosisModel) -> Severity {
    match d {
        DiagnosisModel::HaltedNoDiscrepancy | DiagnosisModel::FailedAgreed | DiagnosisModel::Agreed => Severity::Clear,
        DiagnosisModel::HaltedUnchecked | DiagnosisModel::FailedUnchecked | DiagnosisModel::ResolvedUnchecked(
            _,
        ) | DiagnosisModel::DnsVariance(_, _) => Severity::Note,
        DiagnosisModel::HaltedButDnsAnswers(_) | DiagnosisModel::FailedButDnsAnswers(_)
        | DiagnosisModel::EarlierSourceAnswers(_, _) => Severity::Issue,
    }
}

/// Without a reality check the verdict is never "no issue": a result that
/// could not be cross-checked is reported as informational, never as
/// matching DNS.
pub proof fn unchecked_is_never_clear(steps: Seq<StepModel>, final_addresses: Seq<IpAddr>)
    ensures
        spec_severity(spec_diagnose(steps, final_addresses, None)) == Severity::Note,
{
}

/// A resolved chain whose addresses are those of the reality check, in
/// whatever order, agrees with it.
pub proof fn same_answer_in_any_order_agrees(steps: Seq<StepModel>, final_addresses: Seq<IpAddr>, reality: Seq<IpAddr>)
    requires
        final_addresses.len() > 0,
        reality.to_multiset() == final_addresses.to_multiset(),
    ensures
        spec_diagnose(steps, final_addresses, Some(reality)) == DiagnosisModel::Agreed,
{
}

/// The order in which the reality check's addresses came back carries no
/// meaning: reordering them never changes how much the verdict asks for
/// attention.
pub proof fn verdict_ignores_address_order(
    steps: Seq<StepModel>,
    final_addresses: Seq<IpAddr>,
    a: Seq<IpAddr>,
    b: Seq<IpAddr>,
)
    requires
        a.to_multiset() == b.to_multiset(),
    ensures
        spec_severity(spec_diagnose(steps, final_addresses, Some(a))) == spec_severity(
            spec_diagnose(steps, final_addresses, Some(b)),
        ),
{
    a.to_multiset_ensures();
    b.to_multiset_ensures();
    assert(a.len() == b.len());
}

/// What each verdict means, in terms of the chain's steps and addresses
/// and the reality check's addresses. A resolved chain that the reality
/// check contradicts blames a source earlier than DNS (an issue) unless its
/// last step was the `dns` source, when the two answers are DNS against DNS
/// (a note); agreement is exactly equal addresses, counted with repeats;
/// a failed chain that DNS answers is an issue whether or not it halted.
pub proof fn verdicts_follow_the_evidence(
    steps: Seq<StepModel>,
    final_addresses: Seq<IpAddr>,
    reality: Option<Seq<IpAddr>>,
)
    ensures
        final_addresses.len() > 0 && reality is Some && reality->0.to_multiset() != final_addresses.to_multiset()
            && !(steps.len() > 0 && steps.last().source == SourceModel::Dns) ==> spec_diagnose(
            steps,
            final_addresses,
            reality,
        ) == DiagnosisModel::EarlierSourceAnswers(final_addresses, reality->0) && spec_severity(
            spec_diagnose(steps, final_addresses, reality),
        ) == Severity::Issue,
        final_addresses.len() > 0 && reality is Some && reality->0.to_multiset() != final_addresses.to_multiset()
            && steps.len() > 0 && steps.last().source == SourceModel::Dns ==> spec_diagnose(
            steps,
            final_addresses,
            reality,
        ) == DiagnosisModel::DnsVariance(final_addresses, reality->0),
        spec_diagnose(steps, final_addresses, reality) is DnsVariance ==> steps.len() > 0 && steps.last().source
            == SourceModel::Dns,
        (spec_diagnose(steps, final_addresses, reality) is Agreed) <==> (final_addresses.len() > 0
            && reality is Some && reality->0.to_multiset() == final_addresses.to_multiset()),
        final_addresses.len() == 0 && reality is Some && reality->0.len() > 0 ==> spec_severity(
            spec_diagnose(steps, final_addresses, reality),
        ) == Severity::Issue,
        final_addresses.len() == 0 && reality is Some && reality->0.len() == 0 ==> spec_severity(
            spec_diagnose(steps, final_addresses, reality),
        ) == Severity::Clear,
        final_addresses.len() > 0 && reality is None ==> spec_diagnose(steps, final_addresses, reality)
            == DiagnosisModel::ResolvedUnchecked(final_addresses),
{
}

/// Whether the simulated chain ended without addresses because its last
/// step halted it on an explicit criterion.
pub fn halted_early(outcome: &SimulationOutcome) -> (r: bool)
    ensures
        r == spec_halted_early(step_views(outcome.steps@), outcome.final_addresses@),
{
    let n = outcome.steps.len();
    if n == 0 {
        return false;
    }
    let last = &outcome.steps[n - 1];
    assert(step_views(outcome.steps@).last() == last@);
    last.halted_chain.is_some() && !outcome.resolved()
}

/// The verdict on a simulated chain, given the reality check when it ran.
pub fn diagnose(outcome: &SimulationOutcome, reality: &Option<RealityCheck>) -> (r: Diagnosis)
    ensures
        r@ == spec_diagnose(
            step_views(outcome.steps@),
            outcome.final_addresses@,
            match reality {
                Some(c) => Some(c.addresses@),
                None => None,
            },
        ),
{
    let ghost steps = step_views(outcome.steps@);
    if !outcome.resolved() {
        if halted_early(outcome) {
            match reality {
                Some(c) => if c.addresses.len() > 0 {
                    Diagnosis::HaltedButDnsAnswers(c.addresses.clone())
                } else {
                    Diagnosis::HaltedNoDiscrepancy
                },
                None => Diagnosis::HaltedUnchecked,
            }
        } else {
            match reality {
                None => Diagnosis::FailedUnchecked,
                Some(c) => if c.addresses.len() == 0 {
                    Diagnosis::FailedAgreed
                } else {
                    Diagnosis::FailedButDnsAnswers(c.addresses.clone())
                },
            }
        }
    } else {
        match reality {
            None => Diagnosis::ResolvedUnchecked(outcome.final_addresses.clone()),
            Some(c) => {
                if same_address_set(&c.addresses, &outcome.final_addresses) {
                    Diagnosis::Agreed
                } else if last_source_is_dns(outcome) {
                    Diagnosis::DnsVariance(outcome.final_addresses.clone(), c.addresses.clone())
                } else {
                    Diagnosis::EarlierSourceAnswers(outcome.final_addresses.clone(), c.addresses.clone())
                }
            },
        }
    }
}

/// Whether the chain's last step was the `dns` source.
fn last_source_is_dns(outcome: &SimulationOutcome) -> (r: bool)
    ensures
        r == {
            let steps = step_views(outcome.steps@);
            steps.len() > 0 && steps.last().source == SourceModel::Dns
        },
{
    let n = outcome.steps.len();
    if n == 0 {
        return false;
    }
    let last = &outcome.steps[n - 1];
    assert(step_views(outcome.steps@).last() == last@);
    match last.source {
        NssSource::Dns => true,
        _ => false,
    }
}

impl Diagnosis {
    /// How much this verdict asks for attention.
    pub fn severity(&self) -> (r: Severity)
        ensures
            r == spec_severity(self@),
    {
        match self {
            Diagnosis::HaltedNoDiscrepancy | Diagnosis::FailedAgreed | Diagnosis::Agreed => Severity::Clear,
            Diagnosis::HaltedUnchecked | Diagnosis::FailedUnchecked | Diagnosis::ResolvedUnchecked(_)
            | Diagnosis::DnsVariance(_, _) => Severity::Note,
            Diagnosis::HaltedButDnsAnswers(_) | Diagnosis::FailedButDnsAnswers(_)
            | Diagnosis::EarlierSourceAnswers(_, _) => Severity::Issue,
        }
    }
}

impl Severity {
    /// The one-word verdict that titles the diagnosis panel.
    pub fn title(&self) -> (r: &'static str)
        ensures
            r@ == match self {
                Severity::Clear => "OK"@,
                Severity::Note => "NOTE"@,
                Severity::Issue => "ISSUE"@,
            },
    {
        match self {
            Severity::Clear => "OK",
            Severity::Note => "NOTE",
            Severity::Issue => "ISSUE",
        }
    }

    /// The lower-case label of this severity ("ok", "note" or "issue").
    pub fn label(&self) -> (r: &'static str)
        ensures
            r@ == match self {
                Severity::Clear => "ok"@,
                Severity::Note => "note"@,
                Severity::Issue => "issue"@,
            },
    {
        match self {
            Severity::Clear => "ok",
            Severity::Note => "note",
            Severity::Issue => "issue",
        }
    }

    /// The SGR colour code of this severity: green, yellow or red.
    pub fn accent_code(&self) -> (r: &'static str)
        ensures
            r@ == match self {
                Severity::Clear => "32"@,
                Severity::Note => "33"@,
                Severity::Issue => "31"@,
            },
    {
        match self {
            Severity::Clear => crate::style::GREEN,
            Severity::Note => crate::style::YELLOW,
            Severity::Issue => crate::style::RED,
        }
    }
}

} // verus!
