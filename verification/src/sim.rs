//! Walking the `hosts:` chain of nsswitch.conf the way glibc's NSS
//! dispatcher does.

use crate::ip::IpAddr;
use crate::types::{
    EntryModel, NssAction, NssCriterion, NssEntry, NssSource, NssStatus, NsswitchConfig, ResolutionStep,
    ResultModel, SourceModel, StepModel, StepResult, step_views,
};
use vstd::prelude::*;

verus! {

/// Supplies the actual lookup result for one NSS source. The library does
/// no I/O itself: a caller implements this with real DNS sockets,
/// /etc/hosts lookups, mDNS queries, or scripted answers in a test.
pub trait SourceResolver {
    /// Whether this resolver keeps the record of [`SourceResolver::asked`];
    /// a resolver that does not claims nothing about its questions.
    open spec fn records_questions() -> bool {
        false
    }

    /// The questions asked of this resolver so far, in order: each source
    /// and name, with the answer given.
    open spec fn asked(&self) -> Seq<(SourceModel, Seq<char>, ResultModel)> {
        Seq::empty()
    }

    /// The answer of `source` for `name`; a resolver that records its
    /// questions adds this one, with its answer, to
    /// [`SourceResolver::asked`].
    fn resolve(&mut self, source: &NssSource, name: &str) -> (r: StepResult)
        ensures
            Self::records_questions() ==> final(self).asked() == old(self).asked().push(
                (source@, name@, r@),
            ),
    ;
}

/// The questions a walk over `hosts` that got `results` asks about `name`:
/// one per step, the step's source and the name, with the step's answer.
pub open spec fn questions(hosts: Seq<EntryModel>, name: Seq<char>, results: Seq<ResultModel>) -> Seq<
    (SourceModel, Seq<char>, ResultModel),
> {
    Seq::new(results.len(), |i: int| (hosts[i].source, name, results[i]))
}

/// The path the simulated chain took, and the addresses it ended with.
pub struct SimulationOutcome {
    pub steps: Vec<ResolutionStep>,
    pub final_addresses: Vec<IpAddr>,
}

/// The status a source's result is classified as: an answer is SUCCESS, a
/// definitive miss is NOTFOUND, and a source that could not be tried is
/// UNAVAIL.
pub open spec fn status_of(r: ResultModel) -> NssStatus {
    match r {
        ResultModel::Found(_) => NssStatus::Success,
        ResultModel::NotFound => NssStatus::NotFound,
        ResultModel::Skipped(_) => NssStatus::Unavail,
    }
}

/// The first criterion in `criteria` that reacts to `status`.
pub open spec fn first_match(criteria: Seq<NssCriterion>, status: NssStatus) -> Option<NssCriterion>
    decreases criteria.len(),
{
    if criteria.len() == 0 {
        None
    } else if criteria[0].status == status {
        Some(criteria[0])
    } else {
        first_match(criteria.drop_first(), status)
    }
}

/// Whether a source whose result has `status` stops the chain: by the
/// action of its first matching criterion, or, with no matching criterion,
/// exactly when the source succeeded.
pub open spec fn halts(entry: EntryModel, status: NssStatus) -> bool {
    match first_match(entry.criteria, status) {
        Some(c) => c.action == NssAction::Return,
        None => status == NssStatus::Success,
    }
}

/// The criterion recorded as having stopped the chain: the matching
/// criterion when the step halts, nothing otherwise.
pub open spec fn halted_by(entry: EntryModel, status: NssStatus) -> Option<NssCriterion> {
    if halts(entry, status) {
        first_match(entry.criteria, status)
    } else {
        None
    }
}

/// The step recorded for trying `entry` and getting `result`.
pub open spec fn step_model(entry: EntryModel, result: ResultModel) -> StepModel {
    StepModel {
        source: entry.source,
        result: result,
        halted_chain: halted_by(entry, status_of(result)),
    }
}

/// `results` is what the sources of `hosts` answered, in order, for a walk
/// that stopped where the rules say: no step before the last halts the
/// chain, and the walk ends early only at a step that halts it.
pub open spec fn walk_consistent(hosts: Seq<EntryModel>, results: Seq<ResultModel>) -> bool {
    &&& results.len() <= hosts.len()
    &&& forall|i: int| 0 <= i < results.len() - 1 ==> !halts(hosts[i], status_of(#[trigger] results[i]))
    &&& results.len() < hosts.len() ==> {
        &&& results.len() > 0
        &&& halts(hosts[results.len() - 1], status_of(results[results.len() - 1]))
    }
}

/// The steps of the walk over `hosts` that got `results`.
pub open spec fn walk_steps(hosts: Seq<EntryModel>, results: Seq<ResultModel>) -> Seq<StepModel> {
    Seq::new(results.len(), |i: int| step_model(hosts[i], results[i]))
}

/// The addresses of the last answer among `results`, or none.
pub open spec fn last_found(results: Seq<ResultModel>) -> Seq<IpAddr>
    decreases results.len(),
{
    if results.len() == 0 {
        Seq::empty()
    } else {
        match results.last() {
            ResultModel::Found(a) => a,
            _ => last_found(results.drop_last()),
        }
    }
}

/// The results recorded in a list of steps.
pub open spec fn step_results(steps: Seq<StepModel>) -> Seq<ResultModel> {
    Seq::new(steps.len(), |i: int| steps[i].result)
}

/// A step that stops the chain is the walk's last step: no source after
/// it is ever tried.
pub proof fn halting_step_is_last(hosts: Seq<EntryModel>, results: Seq<ResultModel>, i: int)
    requires
        walk_consistent(hosts, results),
        0 <= i < results.len(),
        halts(hosts[i], status_of(results[i])),
    ensures
        results.len() == i + 1,
{
    if i < results.len() - 1 {
        assert(!halts(hosts[i], status_of(results[i])));
    }
}

/// The sources' answers decide the walk: two walks over the same chain
/// whose answers agree wherever both have one have the same length.
pub proof fn answers_decide_the_walk(hosts: Seq<EntryModel>, r1: Seq<ResultModel>, r2: Seq<ResultModel>)
    requires
        walk_consistent(hosts, r1),
        walk_consistent(hosts, r2),
        forall|i: int| 0 <= i < r1.len() && i < r2.len() ==> r1[i] == r2[i],
    ensures
        r1.len() == r2.len(),
{
    if r1.len() < r2.len() {
        let k = r1.len() - 1;
        assert(r1[k] == r2[k]);
        assert(!halts(hosts[k], status_of(r2[k])));
    } else if r2.len() < r1.len() {
        let k = r2.len() - 1;
        assert(r1[k] == r2[k]);
        assert(!halts(hosts[k], status_of(r1[k])));
    }
}

/// Nothing is asked after the chain halts: the questions a walk asks are
/// one per step, the step's source and the name, so when step `i` halts the
/// chain, exactly the first `i + 1` sources were asked, in order.
pub proof fn nothing_asked_after_a_halt(hosts: Seq<EntryModel>, name: Seq<char>, results: Seq<ResultModel>, i: int)
    requires
        walk_consistent(hosts, results),
        0 <= i < results.len(),
        halts(hosts[i], status_of(results[i])),
    ensures
        questions(hosts, name, results).len() == i + 1,
        forall|j: int|
            0 <= j <= i ==> (#[trigger] questions(hosts, name, results)[j]) == (hosts[j].source, name, results[j]),
{
    halting_step_is_last(hosts, results, i);
}

/// A source with no criteria stops the chain exactly when it found an
/// answer, and records no criterion as the reason.
pub proof fn default_halts_only_on_success(entry: EntryModel, status: NssStatus)
    requires
        entry.criteria.len() == 0,
    ensures
        halts(entry, status) == (status == NssStatus::Success),
        halted_by(entry, status) is None,
{
}

/// The `[NOTFOUND=return]` trap: a source that reacts to NOTFOUND by
/// returning, and found nothing, ends the walk there, with that criterion
/// recorded as what stopped it; any source after it (DNS, typically) is
/// never asked.
pub proof fn notfound_return_ends_the_walk(hosts: Seq<EntryModel>, results: Seq<ResultModel>, i: int)
    requires
        walk_consistent(hosts, results),
        0 <= i < results.len(),
        results[i] == ResultModel::NotFound,
        first_match(hosts[i].criteria, NssStatus::NotFound) == Some(
            NssCriterion { status: NssStatus::NotFound, action: NssAction::Return },
        ),
    ensures
        results.len() == i + 1,
        walk_steps(hosts, results)[i].halted_chain == Some(
            NssCriterion { status: NssStatus::NotFound, action: NssAction::Return },
        ),
{
    halting_step_is_last(hosts, results, i);
}

impl SimulationOutcome {
    /// Whether the chain ended with addresses.
    pub fn resolved(&self) -> (r: bool)
        ensures
            r == (self.final_addresses@.len() > 0),
    {
        self.final_addresses.len() != 0
    }
}

/// Classifies a source's result into the status its criteria react to.
pub fn classify(result: &StepResult) -> (s: NssStatus)
    ensures
        s == status_of(result@),
{
    match result {
        StepResult::Found(_) => NssStatus::Success,
        StepResult::NotFound => NssStatus::NotFound,
        StepResult::Skipped { .. } => NssStatus::Unavail,
    }
}

/// The first criterion that reacts to `status`, if any.
pub fn find_criterion(criteria: &Vec<NssCriterion>, status: NssStatus) -> (r: Option<NssCriterion>)
    ensures
        r == first_match(criteria@, status),
{
    let mut i: usize = 0;
    assert(criteria@.skip(0) =~= criteria@);
    while i < criteria.len()
        invariant
            i <= criteria@.len(),
            first_match(criteria@, status) == first_match(criteria@.skip(i as int), status),
        decreases criteria@.len() - i,
    {
        let ghost rest = criteria@.skip(i as int);
        if criteria[i].status == status {
            return Some(criteria[i]);
        }
        assert(rest.drop_first() =~= criteria@.skip(i + 1));
        i = i + 1;
    }
    None
}

/// Applies one source's result to its entry: the recorded step, and
/// whether the chain stops there.
pub fn evaluate_step(entry: &NssEntry, result: StepResult) -> (r: (ResolutionStep, bool))
    ensures
        r.0@ == step_model(entry@, result@),
        r.1 == halts(entry@, status_of(result@)),
{
    let status = classify(&result);
    let matched = find_criterion(&entry.criteria, status);
    let halt = match matched {
        Some(c) => match c.action {
            NssAction::Return => true,
            NssAction::Continue => false,
        },
        None => match status {
            NssStatus::Success => true,
            _ => false,
        },
    };
    let step = ResolutionStep {
        source: entry.source.copied(),
        result: result,
        halted_chain: if halt { matched } else { None },
    };
    (step, halt)
}

/// Walks the `hosts:` chain in order, applying `[STATUS=action]` criteria
/// as glibc's NSS dispatcher does: each source is tried, its result is
/// classified into a status, and if that status has a matching criterion
/// its action either halts the chain (`return`) or falls through
/// (`continue`); with no matching criterion the chain halts exactly on
/// SUCCESS. The addresses of the last source that answered are the result.
///
/// The steps are exactly the walk that the sources' answers determine; the
/// answers themselves come from `resolver`, asked once per step, in order,
/// about that step's source and `name`, and each step records the answer
/// that its question got (stated for a resolver that records its
/// questions).
pub fn simulate<R: SourceResolver>(config: &NsswitchConfig, name: &str, resolver: &mut R) -> (outcome: SimulationOutcome)
    ensures
        walk_consistent(config@, step_results(step_views(outcome.steps@))),
        step_views(outcome.steps@) == walk_steps(config@, step_results(step_views(outcome.steps@))),
        outcome.final_addresses@ == last_found(step_results(step_views(outcome.steps@))),
        R::records_questions() ==> final(resolver).asked() == old(resolver).asked() + questions(
            config@,
            name@,
            step_results(step_views(outcome.steps@)),
        ),
{
    let mut steps: Vec<ResolutionStep> = Vec::new();
    let mut final_addresses: Vec<IpAddr> = Vec::new();
    let mut i: usize = 0;
    let mut halted = false;
    while i < config.hosts.len() && !halted
        invariant
            i <= config.hosts@.len(),
            steps@.len() == i,
            halted ==> i > 0,
            ({
                let results = step_results(step_views(steps@));
                &&& forall|j: int| 0 <= j < i - 1 ==> !halts(config@[j], status_of(#[trigger] results[j]))
                &&& i > 0 ==> (halted == halts(config@[i - 1], status_of(results[i - 1])))
                &&& step_views(steps@) == walk_steps(config@, results)
                &&& final_addresses@ == last_found(results)
                &&& R::records_questions() ==> resolver.asked() == old(resolver).asked() + questions(
                    config@,
                    name@,
                    results,
                )
            }),
        decreases config.hosts@.len() - i,
    {
        let ghost before = steps@;
        let entry = &config.hosts[i];
        let result = resolver.resolve(&entry.source, name);
        let found = match &result {
            StepResult::Found(addrs) => Some(addrs.clone()),
            _ => None,
        };
        let ghost rv = result@;
        let (step, halt) = evaluate_step(entry, result);
        steps.push(step);
        proof {
            let old_results = step_results(step_views(before));
            let results = step_results(step_views(steps@));
            assert(step_views(steps@) =~= step_views(before).push(step@));
            assert(results =~= old_results.push(rv));
            assert(results.drop_last() =~= old_results);
            assert(step_views(steps@) =~= walk_steps(config@, results));
            assert(questions(config@, name@, results) =~= questions(config@, name@, old_results).push(
                (config@[i as int].source, name@, rv),
            ));
            assert forall|j: int| 0 <= j < i implies !halts(config@[j], status_of(#[trigger] results[j])) by {
                assert(results[j] == old_results[j]);
            }
        }
        match found {
            Some(addrs) => {
                proof {
                    assert(addrs@ =~= rv->Found_0);
                }
                final_addresses = addrs;
            },
            None => {},
        }
        halted = halt;
        i = i + 1;
    }
    proof {
        let results = step_results(step_views(steps@));
        if i < config.hosts@.len() {
            assert(halted);
        }
    }
    SimulationOutcome { steps, final_addresses }
}

} // verus!
