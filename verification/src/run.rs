//! The course of a run: which search is fetched next, what becomes of each
//! fetch, and what the run reports in the end. A fetch that fails upstream
//! ends that search only; the searches after it are still fetched.

use vstd::prelude::*;
use crate::aggregate::{
    Aggregation, AggregationView, OutcomeView, RunPlan, SearchOutcome,
};
use crate::error::{ErrorView, PipelineError};
use crate::fetcher::{SingleOutcomeView, SingleSearchOutcome};

verus! {

/// What the driver of a run does next.
#[derive(Clone, Copy, Debug, PartialEq, Eq, Structural)]
pub enum RunAction {
    /// Fetch the target with this index and hand in what came of it.
    Fetch(usize),
    /// No fetch is left: ask for the report.
    Finish,
}

/// What a run reports: its result, and the upstream failures of the
/// searches that could not be fetched, in the order of the searches.
#[derive(Debug)]
pub struct RunReport {
    pub outcome: SearchOutcome,
    pub failures: Vec<PipelineError>,
}

/// Mathematical content of a [`RunReport`].
pub struct RunReportView {
    pub outcome: OutcomeView,
    pub failures: Seq<ErrorView>,
}

/// The views of a list of errors.
pub open spec fn error_views(v: Seq<PipelineError>) -> Seq<ErrorView> {
    Seq::new(v.len(), |i: int| v[i]@)
}

/// The view of an optional error.
pub open spec fn opt_error(o: Option<PipelineError>) -> Option<ErrorView> {
    match o {
        Some(e) => Some(e@),
        None => None,
    }
}

impl View for RunReport {
    type V = RunReportView;

    open spec fn view(&self) -> RunReportView {
        RunReportView { outcome: self.outcome@, failures: error_views(self.failures@) }
    }
}

/// A run in progress.
#[derive(Debug)]
pub struct RunState {
    pub aggregation: Aggregation,
    pub targets: usize,
    pub next_target: usize,
    pub failures: Vec<PipelineError>,
    pub fatal: Option<PipelineError>,
}

/// Mathematical content of a [`RunState`].
pub struct RunView {
    pub aggregation: AggregationView,
    pub targets: nat,
    pub next_target: nat,
    pub failures: Seq<ErrorView>,
    pub fatal: Option<ErrorView>,
}

impl View for RunState {
    type V = RunView;

    open spec fn view(&self) -> RunView {
        RunView {
            aggregation: self.aggregation@,
            targets: self.targets as nat,
            next_target: self.next_target as nat,
            failures: error_views(self.failures@),
            fatal: opt_error(self.fatal),
        }
    }
}

/// A failure of a call to the service, as opposed to a fault of the
/// configuration.
pub open spec fn is_upstream_failure(e: ErrorView) -> bool {
    e is SearchFailed || e is DetailsFailed
}

/// What came of the fetch of one search, by its content.
pub open spec fn fetch_view(r: Result<SingleSearchOutcome, PipelineError>) -> Result<
    SingleOutcomeView,
    ErrorView,
> {
    match r {
        Ok(o) => Ok(o@),
        Err(e) => Err(e@),
    }
}

/// The report of a run, by its content.
pub open spec fn report_view(r: Result<RunReport, PipelineError>) -> Result<
    RunReportView,
    ErrorView,
> {
    match r {
        Ok(o) => Ok(o@),
        Err(e) => Err(e@),
    }
}

impl RunView {
    /// The run of a plan with `targets` searches before anything is fetched.
    pub open spec fn begun(is_any_mode: bool, targets: nat) -> RunView {
        RunView {
            aggregation: AggregationView::empty(is_any_mode),
            targets,
            next_target: 0,
            failures: Seq::empty(),
            fatal: None,
        }
    }

    /// What the driver does next: fetch the next target, unless none is
    /// left or the run has met a fault that ends it.
    pub open spec fn next_action(self) -> RunAction {
        if self.fatal is Some || self.next_target >= self.targets {
            RunAction::Finish
        } else {
            RunAction::Fetch(self.next_target as usize)
        }
    }

    /// The counts stay within the machine's range when the result is taken
    /// in.
    pub open spec fn fits(self, result: Result<SingleOutcomeView, ErrorView>) -> bool {
        &&& self.next_target < usize::MAX
        &&& result matches Ok(o) ==> self.aggregation.fits(o)
    }

    /// The run after the fetch of its next target. An outcome is taken into
    /// the aggregation. An upstream failure is noted, and the run goes on
    /// to the next target. Any other error ends the run.
    pub open spec fn recorded(self, result: Result<SingleOutcomeView, ErrorView>) -> RunView {
        match result {
            Ok(o) => RunView {
                aggregation: self.aggregation.absorbed(o),
                next_target: self.next_target + 1,
                ..self
            },
            Err(e) => if is_upstream_failure(e) {
                RunView {
                    failures: self.failures.push(e),
                    next_target: self.next_target + 1,
                    ..self
                }
            } else {
                RunView { fatal: Some(e), ..self }
            },
        }
    }

    /// What the run comes to. A fault that ended the run is its error. So is
    /// the first upstream failure where no search could be fetched at all.
    /// Otherwise the run reports the aggregated result, newest first,
    /// together with the failures of the searches that could not be fetched.
    pub open spec fn report(self) -> Result<RunReportView, ErrorView> {
        match self.fatal {
            Some(e) => Err(e),
            None => if self.aggregation.totals.presets_ran == 0 && self.failures.len() > 0 {
                Err(self.failures[0])
            } else {
                Ok(RunReportView { outcome: self.aggregation.finished(), failures: self.failures })
            },
        }
    }
}

/// An upstream failure of one search does not end the run: the aggregation
/// stays as it is, the failure is noted, and where a further target is left
/// it is fetched next.
pub proof fn lemma_failure_spares_siblings(run: RunView, e: ErrorView)
    requires
        is_upstream_failure(e),
        run.fatal is None,
    ensures
        run.recorded(Err(e)).aggregation == run.aggregation,
        run.recorded(Err(e)).fatal is None,
        run.recorded(Err(e)).failures == run.failures.push(e),
        run.next_target + 1 < run.targets && run.next_target + 1 <= usize::MAX ==> run.recorded(
            Err(e),
        ).next_action() == RunAction::Fetch((run.next_target + 1) as usize),
        run.next_target + 1 >= run.targets ==> run.recorded(Err(e)).next_action()
            == RunAction::Finish,
{
}

/// A run whose searches were fetched, some of them in vain, still reports
/// what the others brought.
pub proof fn lemma_partial_run_reports(run: RunView)
    requires
        run.fatal is None,
        run.aggregation.totals.presets_ran > 0,
    ensures
        run.report() == Ok::<RunReportView, ErrorView>(
            RunReportView { outcome: run.aggregation.finished(), failures: run.failures },
        ),
{
}

impl RunState {
    /// The run of a plan before anything is fetched.
    pub fn begin(plan: &RunPlan) -> (r: RunState)
        ensures
            r@ == RunView::begun(plan@.is_any_mode, plan@.targets.len()),
            r@.aggregation.wf(),
    {
        let r = RunState {
            aggregation: Aggregation::new(plan.is_any_mode),
            targets: plan.targets.len(),
            next_target: 0,
            failures: Vec::new(),
            fatal: None,
        };
        assert(error_views(r.failures@) =~= Seq::<ErrorView>::empty());
        assert(crate::prefs::search_views(plan.targets@).len() == plan.targets@.len());
        r
    }

    /// What the driver does next.
    pub fn next_action(&self) -> (r: RunAction)
        ensures
            r == self@.next_action(),
            r matches RunAction::Fetch(i) ==> i < self@.targets && i == self@.next_target,
    {
        if self.fatal.is_some() || self.next_target >= self.targets {
            RunAction::Finish
        } else {
            RunAction::Fetch(self.next_target)
        }
    }

    /// Takes in what came of the fetch of the next target, if the counts
    /// stay within the machine's range, and says whether it did. Otherwise
    /// nothing changes.
    pub fn record(&mut self, result: Result<SingleSearchOutcome, PipelineError>) -> (taken: bool)
        requires
            old(self)@.aggregation.wf(),
        ensures
            taken == old(self)@.fits(fetch_view(result)),
            taken ==> final(self)@ == old(self)@.recorded(fetch_view(result)),
            !taken ==> final(self)@ == old(self)@,
            final(self)@.aggregation.wf(),
    {
        if self.next_target == usize::MAX {
            return false;
        }
        match result {
            Ok(outcome) => {
                if !self.aggregation.try_absorb(&outcome) {
                    return false;
                }
                self.next_target += 1;
                true
            },
            Err(e) => {
                let upstream = match &e {
                    PipelineError::SearchFailed(_) => true,
                    PipelineError::DetailsFailed(_) => true,
                    _ => false,
                };
                if upstream {
                    let ghost before = self.failures@;
                    self.failures.push(e);
                    assert(error_views(self.failures@) =~= error_views(before).push(e@));
                    self.next_target += 1;
                } else {
                    self.fatal = Some(e);
                }
                true
            },
        }
    }

    /// Ends the run and gives its report.
    pub fn finish(self) -> (r: Result<RunReport, PipelineError>)
        ensures
            report_view(r) == self@.report(),
    {
        let RunState { aggregation, targets: _, next_target: _, failures, fatal } = self;
        match fatal {
            Some(e) => Err(e),
            None => {
                assert(error_views(failures@).len() == failures@.len());
                if aggregation.totals.presets_ran == 0 && failures.len() > 0 {
                    let mut rest = failures;
                    assert(error_views(rest@)[0] == rest@[0]@);
                    let first = rest.remove(0);
                    Err(first)
                } else {
                    Ok(RunReport { outcome: aggregation.finish(), failures })
                }
            },
        }
    }
}

} // verus!
