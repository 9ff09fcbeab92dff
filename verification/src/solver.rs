//! The decision procedure of a solve: what one sweep's report means for the
//! run, and how a run of sweeps ends.
//!
//! Both update rules share it. A sweep reports either that it met a zero
//! on the diagonal or how the largest change of any unknown compares with
//! the tolerance and with the divergence guard.
use vstd::prelude::*;

verus! {

/// The iteration cap that a run uses unless the caller picks another.
pub const DEFAULT_MAX_ITER: u32 = 10_000;

/// Why a solve ended.
#[derive(Clone, Copy, Debug, PartialEq, Eq, Structural)]
pub enum StopReason {
    /// The largest change of any unknown was within the tolerance.
    Converged,
    /// The diagonal coefficient of equation `row` was zero.
    ZeroPivot { row: usize },
    /// The iteration cap was reached before the tolerance was met.
    IterationCap,
    /// The largest change of an unknown reached the divergence guard.
    Diverged,
}

/// The end of one solve: why it stopped and in which sweep.
#[derive(Clone, Copy, Debug, PartialEq, Eq, Structural)]
pub struct Outcome {
    pub reason: StopReason,
    pub iterations: u32,
}

/// What one sweep saw.
#[derive(Clone, Copy, Debug, PartialEq, Eq, Structural)]
pub enum SweepReport {
    /// The sweep stopped at equation `row`, whose diagonal coefficient is zero.
    ZeroPivot { row: usize },
    /// The sweep updated every unknown. `within_tolerance` says that the
    /// largest change was at most the tolerance, `beyond_guard` that it was at
    /// least the divergence guard.
    Measured { within_tolerance: bool, beyond_guard: bool },
}

/// What a run does after a sweep.
pub enum Progress {
    /// Another sweep is due; the run to report it to is inside.
    Continue(Run),
    /// The solve is over.
    Done(Outcome),
}

/// The outcome that sweep number `sweep` (counted from 1) brings under the
/// cap `max_iter`, or `None` where another sweep is due.
///
/// A zero pivot ends the solve at once. Otherwise the tolerance is looked at
/// first, then the cap, then the divergence guard.
pub open spec fn verdict(max_iter: u32, sweep: u32, report: SweepReport) -> Option<Outcome> {
    match report {
        SweepReport::ZeroPivot { row } => Some(
            Outcome { reason: StopReason::ZeroPivot { row }, iterations: sweep },
        ),
        SweepReport::Measured { within_tolerance, beyond_guard } => if within_tolerance {
            Some(Outcome { reason: StopReason::Converged, iterations: sweep })
        } else if sweep >= max_iter {
            Some(Outcome { reason: StopReason::IterationCap, iterations: sweep })
        } else if beyond_guard {
            Some(Outcome { reason: StopReason::Diverged, iterations: sweep })
        } else {
            None
        },
    }
}

/// The outcome of the first sweep, from index `from` on, whose report ends
/// the solve; `None` where no report from there on does.
pub open spec fn outcome_from(max_iter: u32, reports: Seq<SweepReport>, from: int) -> Option<
    Outcome,
>
    decreases reports.len() - from,
{
    if from < 0 || from >= reports.len() {
        None
    } else if verdict(max_iter, (from + 1) as u32, reports[from]) is Some {
        verdict(max_iter, (from + 1) as u32, reports[from])
    } else {
        outcome_from(max_iter, reports, from + 1)
    }
}

/// The outcome of a solve whose sweeps report `reports`, in that order;
/// `None` where the solve is not over after the last of them.
pub open spec fn outcome_of(max_iter: u32, reports: Seq<SweepReport>) -> Option<Outcome> {
    outcome_from(max_iter, reports, 0)
}

impl Outcome {
    /// A solve has converged exactly when it stopped for that reason.
    pub open spec fn spec_converged(&self) -> bool {
        self.reason == StopReason::Converged
    }

    /// Whether the solve met the tolerance.
    #[verifier::when_used_as_spec(spec_converged)]
    pub fn converged(&self) -> (b: bool)
        ensures
            b == self.spec_converged(),
    {
        match self.reason {
            StopReason::Converged => true,
            _ => false,
        }
    }

    /// The outcome as the pair of the convergence flag and the sweep count.
    pub fn as_pair(&self) -> (p: (bool, u32))
        ensures
            p.0 == self.spec_converged(),
            p.1 == self.iterations,
    {
        (self.converged(), self.iterations)
    }
}

/// Decides what sweep number `sweep` brings: the executable form of
/// [`verdict`].
pub fn judge(max_iter: u32, sweep: u32, report: SweepReport) -> (r: Option<Outcome>)
    ensures
        r == verdict(max_iter, sweep, report),
{
    match report {
        SweepReport::ZeroPivot { row } => Some(
            Outcome { reason: StopReason::ZeroPivot { row }, iterations: sweep },
        ),
        SweepReport::Measured { within_tolerance, beyond_guard } => {
            if within_tolerance {
                Some(Outcome { reason: StopReason::Converged, iterations: sweep })
            } else if sweep >= max_iter {
                Some(Outcome { reason: StopReason::IterationCap, iterations: sweep })
            } else if beyond_guard {
                Some(Outcome { reason: StopReason::Diverged, iterations: sweep })
            } else {
                None
            }
        },
    }
}

/// A solve in progress: the cap it runs under and the sweeps it has seen.
///
/// A run exists only while another sweep is due, so the count of sweeps
/// stays below the cap once the first sweep is over.
pub struct Run {
    max_iter: u32,
    sweeps: u32,
}

impl Run {
    #[verifier::type_invariant]
    spec fn within_cap(self) -> bool {
        self.sweeps == 0 || self.sweeps < self.max_iter
    }

    /// The iteration cap of the run.
    pub closed spec fn spec_max_iter(&self) -> u32 {
        self.max_iter
    }

    /// The number of sweeps reported so far.
    pub closed spec fn spec_sweeps(&self) -> u32 {
        self.sweeps
    }

    /// A run that has seen no sweep yet.
    pub fn new(max_iter: u32) -> (run: Run)
        ensures
            run.spec_max_iter() == max_iter,
            run.spec_sweeps() == 0,
    {
        Run { max_iter, sweeps: 0 }
    }

    /// The iteration cap of the run.
    #[verifier::when_used_as_spec(spec_max_iter)]
    pub fn max_iter(&self) -> (m: u32)
        ensures
            m == self.spec_max_iter(),
    {
        self.max_iter
    }

    /// The number of sweeps reported so far.
    #[verifier::when_used_as_spec(spec_sweeps)]
    pub fn sweeps(&self) -> (s: u32)
        ensures
            s == self.spec_sweeps(),
            s == 0 || s < self.spec_max_iter(),
    {
        proof {
            use_type_invariant(self);
        }
        self.sweeps
    }

    /// Takes the report of the next sweep and says whether the solve goes on.
    ///
    /// The sweep is counted first, so the first report is that of sweep 1.
    /// The solve ends with the verdict on that sweep, or goes on with a run
    /// that has seen one sweep more.
    pub fn advance(self, report: SweepReport) -> (p: Progress)
        ensures
            self.spec_sweeps() < u32::MAX,
            match verdict(self.spec_max_iter(), (self.spec_sweeps() + 1) as u32, report) {
                Some(outcome) => p == Progress::Done(outcome),
                None => p matches Progress::Continue(next) && next.spec_max_iter()
                    == self.spec_max_iter() && next.spec_sweeps() == self.spec_sweeps() + 1,
            },
    {
        proof {
            use_type_invariant(&self);
        }
        let sweep: u32 = self.sweeps + 1;
        match judge(self.max_iter, sweep, report) {
            Some(outcome) => Progress::Done(outcome),
            None => Progress::Continue(Run { max_iter: self.max_iter, sweeps: sweep }),
        }
    }
}

/// Runs a solve over recorded reports, first to last, and returns how it
/// ended; `None` where the reports run out while another sweep is due.
/// Reports after the one that ends the solve are not looked at.
pub fn replay(max_iter: u32, reports: &[SweepReport]) -> (r: Option<Outcome>)
    ensures
        r == outcome_of(max_iter, reports@),
{
    let mut run = Run::new(max_iter);
    let mut k: usize = 0;
    while k < reports.len()
        invariant
            k <= reports.len(),
            run.spec_max_iter() == max_iter,
            run.spec_sweeps() == k,
            outcome_of(max_iter, reports@) == outcome_from(max_iter, reports@, k as int),
        decreases reports.len() - k,
    {
        match run.advance(reports[k]) {
            Progress::Done(outcome) => {
                return Some(outcome);
            },
            Progress::Continue(next) => {
                run = next;
            },
        }
        k += 1;
    }
    None
}

/// Whether every report of `reports` is one that `sweep` may hand back.
pub open spec fn reported_by<F: Fn() -> SweepReport>(sweep: F, reports: Seq<SweepReport>) -> bool {
    forall|i: int| 0 <= i < reports.len() ==> call_ensures(sweep, (), #[trigger] reports[i])
}

/// Solves a system: calls `sweep` once for every sweep, until a report ends
/// the solve, and returns how it ended.
///
/// `sweep` carries out one sweep and reports what it saw. The outcome is
/// that of the reports it handed back, taken in order, and the solve ends
/// with the last of them: `sweep` is called `outcome.iterations` times, at
/// least once and at most `sweep_limit(max_iter)` times.
pub fn solve<F: Fn() -> SweepReport>(max_iter: u32, sweep: F) -> (outcome: Outcome)
    requires
        call_requires(sweep, ()),
    ensures
        1 <= outcome.iterations <= sweep_limit(max_iter),
        exists|reports: Seq<SweepReport>|
            {
                &&& reports.len() == outcome.iterations
                &&& reported_by(sweep, reports)
                &&& #[trigger] outcome_of(max_iter, reports) == Some(outcome)
            },
{
    let mut run = Run::new(max_iter);
    let ghost mut reports: Seq<SweepReport> = Seq::empty();
    loop
        invariant
            call_requires(sweep, ()),
            run.spec_max_iter() == max_iter,
            run.spec_sweeps() == reports.len(),
            run.spec_sweeps() == 0 || run.spec_sweeps() < max_iter,
            reported_by(sweep, reports),
            none_stops(max_iter, reports, 0, reports.len() as int),
        decreases sweep_limit(max_iter) - run.spec_sweeps(),
    {
        let report = sweep();
        let ghost seen = reports;
        proof {
            reports = seen.push(report);
            assert(none_stops(max_iter, reports, 0, seen.len() as int)) by {
                assert forall|j: int| 0 <= j < seen.len() implies (#[trigger] verdict(
                    max_iter,
                    (j + 1) as u32,
                    reports[j],
                )) is None by {
                    assert(reports[j] == seen[j]);
                    assert(verdict(max_iter, (j + 1) as u32, seen[j]) is None);
                }
            }
        }
        match run.advance(report) {
            Progress::Done(outcome) => {
                proof {
                    lemma_outcome_is_first_verdict(max_iter, reports, outcome);
                    lemma_cap_bounds_the_run(max_iter, reports);
                }
                return outcome;
            },
            Progress::Continue(next) => {
                run = next;
            },
        }
    }
}

/// The largest number of sweeps that any run under the cap `max_iter` can
/// take: the cap itself, and one where the cap is zero, because the first
/// sweep always runs.
pub open spec fn sweep_limit(max_iter: u32) -> int {
    if max_iter == 0 {
        1
    } else {
        max_iter as int
    }
}

/// Whether no report at the indices from `from` up to `to` ends the solve.
pub open spec fn none_stops(max_iter: u32, reports: Seq<SweepReport>, from: int, to: int) -> bool {
    forall|j: int|
        from <= j < to ==> (#[trigger] verdict(max_iter, (j + 1) as u32, reports[j])) is None
}

proof fn lemma_outcome_from(max_iter: u32, reports: Seq<SweepReport>, from: int)
    requires
        0 <= from < sweep_limit(max_iter),
    ensures
        match outcome_from(max_iter, reports, from) {
            Some(o) => {
                &&& from < o.iterations <= reports.len()
                &&& o.iterations <= sweep_limit(max_iter)
                &&& verdict(max_iter, o.iterations, reports[o.iterations - 1]) == Some(o)
                &&& none_stops(max_iter, reports, from, o.iterations - 1)
            },
            None => {
                &&& reports.len() < sweep_limit(max_iter)
                &&& none_stops(max_iter, reports, from, reports.len() as int)
            },
        },
    decreases reports.len() - from,
{
    if from < reports.len() && verdict(max_iter, (from + 1) as u32, reports[from]) is None {
        lemma_outcome_from(max_iter, reports, from + 1);
    }
}

/// A solve ends with the first report whose verdict is an outcome, and that
/// verdict is its outcome: `outcome_of` is `Some(o)` exactly when `o` is the
/// verdict on sweep `o.iterations` and no earlier sweep ended the solve.
pub proof fn lemma_outcome_is_first_verdict(max_iter: u32, reports: Seq<SweepReport>, o: Outcome)
    ensures
        outcome_of(max_iter, reports) == Some(o) <==> {
            &&& 0 < o.iterations <= reports.len()
            &&& verdict(max_iter, o.iterations, reports[o.iterations - 1]) == Some(o)
            &&& none_stops(max_iter, reports, 0, o.iterations - 1)
        },
{
    lemma_outcome_from(max_iter, reports, 0);
    if 0 < o.iterations <= reports.len() && verdict(
        max_iter,
        o.iterations,
        reports[o.iterations - 1],
    ) == Some(o) && none_stops(max_iter, reports, 0, o.iterations - 1) {
        match outcome_of(max_iter, reports) {
            Some(p) => {
                if p.iterations < o.iterations {
                    assert(verdict(
                        max_iter,
                        ((p.iterations - 1) + 1) as u32,
                        reports[p.iterations - 1],
                    ) is None);
                } else if o.iterations < p.iterations {
                    assert(verdict(
                        max_iter,
                        ((o.iterations - 1) + 1) as u32,
                        reports[o.iterations - 1],
                    ) is None);
                }
            },
            None => {
                assert(verdict(
                    max_iter,
                    ((o.iterations - 1) + 1) as u32,
                    reports[o.iterations - 1],
                ) is None);
            },
        }
    }
}

/// The iteration cap bounds every solve: a solve that has ended took at
/// least one sweep and at most `sweep_limit(max_iter)`, and no solve is still
/// running after that many reports.
pub proof fn lemma_cap_bounds_the_run(max_iter: u32, reports: Seq<SweepReport>)
    ensures
        outcome_of(max_iter, reports) matches Some(o) ==> 1 <= o.iterations <= sweep_limit(
            max_iter,
        ) && o.iterations <= reports.len(),
        reports.len() >= sweep_limit(max_iter) ==> outcome_of(max_iter, reports) is Some,
{
    lemma_outcome_from(max_iter, reports, 0);
}

/// A zero on the diagonal in the first sweep ends the solve at once: the
/// solve has not converged and counts one iteration, whatever the cap and
/// whatever any later sweep would report.
pub proof fn lemma_zero_pivot_in_first_sweep(max_iter: u32, reports: Seq<SweepReport>, row: usize)
    requires
        reports.len() > 0,
        reports[0] == (SweepReport::ZeroPivot { row }),
    ensures
        outcome_of(max_iter, reports) == Some(
            Outcome { reason: StopReason::ZeroPivot { row }, iterations: 1 },
        ),
        !outcome_of(max_iter, reports).unwrap().spec_converged(),
{
}

/// A solve converges only on a sweep that was within the tolerance, and a
/// sweep within the tolerance always ends the solve as converged.
pub proof fn lemma_converged_means_within_tolerance(
    max_iter: u32,
    reports: Seq<SweepReport>,
    o: Outcome,
)
    requires
        outcome_of(max_iter, reports) == Some(o),
    ensures
        o.spec_converged() <==> (reports[o.iterations - 1] matches SweepReport::Measured {
            within_tolerance,
            ..
        } && within_tolerance),
{
    lemma_outcome_from(max_iter, reports, 0);
}

/// Solving again gives the same outcome: a solve depends on nothing but
/// its cap and the reports of its sweeps, up to the one that ends it. Two
/// solves under one cap whose sweeps report alike up to the end of the first
/// end in the same sweep and for the same reason, whatever the second would
/// report later.
pub proof fn lemma_same_reports_same_outcome(
    max_iter: u32,
    first: Seq<SweepReport>,
    second: Seq<SweepReport>,
)
    requires
        outcome_of(max_iter, first) is Some,
        second.len() >= outcome_of(max_iter, first).unwrap().iterations,
        forall|i: int|
            0 <= i < outcome_of(max_iter, first).unwrap().iterations ==> second[i] == first[i],
    ensures
        outcome_of(max_iter, second) == outcome_of(max_iter, first),
{
    let o = outcome_of(max_iter, first).unwrap();
    lemma_outcome_is_first_verdict(max_iter, first, o);
    assert(second[o.iterations - 1] == first[o.iterations - 1]);
    assert(none_stops(max_iter, second, 0, o.iterations - 1)) by {
        assert forall|j: int| 0 <= j < o.iterations - 1 implies (#[trigger] verdict(
            max_iter,
            (j + 1) as u32,
            second[j],
        )) is None by {
            assert(second[j] == first[j]);
            assert(verdict(max_iter, (j + 1) as u32, first[j]) is None);
        }
    }
    lemma_outcome_is_first_verdict(max_iter, second, o);
}

} // verus!
