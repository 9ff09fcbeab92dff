//! The trial runner: a planned number of trials, each solved by both
//! methods, and the report at the end.
use crate::solver::Outcome;
use crate::stats::{
    Fixed4, MethodStats, Tally, average_iterations_of, success_ratio_of, tally,
};
use vstd::prelude::*;

verus! {

/// The figures reported for one method once the trials are over.
#[derive(Clone, Copy, Debug, PartialEq, Eq, Structural)]
pub struct MethodReport {
    /// The number of trials in which the method converged.
    pub converged: u64,
    /// The number of trials run.
    pub trials: u64,
    /// The share of converged trials, in percent.
    pub success_ratio: Fixed4,
    /// The average number of sweeps of the converged trials; `None` where
    /// the method converged in no trial.
    pub average_iterations: Option<Fixed4>,
}

/// The figures reported for both methods.
#[derive(Clone, Copy, Debug, PartialEq, Eq, Structural)]
pub struct Report {
    pub jacobi: MethodReport,
    pub gauss_seidel: MethodReport,
}

/// Whether `r` is the report of the tally `t`: its counts, its success
/// ratio, and its average where one is defined.
pub open spec fn is_report_of(t: Tally, r: MethodReport) -> bool {
    &&& r.converged == t.successes
    &&& r.trials == t.trials
    &&& Some(r.success_ratio.units as nat) == success_ratio_of(t)
    &&& match r.average_iterations {
        Some(f) => average_iterations_of(t) == Some(f.units as nat),
        None => average_iterations_of(t) is None,
    }
}

/// The outcomes of one trial: one system, solved by both methods.
#[derive(Clone, Copy, Debug, PartialEq, Eq, Structural)]
pub struct Trial {
    pub gauss_seidel: Outcome,
    pub jacobi: Outcome,
}

/// The Jacobi outcomes of a series of trials.
pub open spec fn jacobi_outcomes(trials: Seq<Trial>) -> Seq<Outcome> {
    trials.map_values(|t: Trial| t.jacobi)
}

/// The Gauss-Seidel outcomes of a series of trials.
pub open spec fn gauss_seidel_outcomes(trials: Seq<Trial>) -> Seq<Outcome> {
    trials.map_values(|t: Trial| t.gauss_seidel)
}

/// Whether `report` is the report of the series `trials`.
pub open spec fn is_report_of_series(trials: Seq<Trial>, report: Report) -> bool {
    &&& is_report_of(tally(jacobi_outcomes(trials)), report.jacobi)
    &&& is_report_of(tally(gauss_seidel_outcomes(trials)), report.gauss_seidel)
}

/// Whether every trial of `trials` is one that `trial` may hand back.
pub open spec fn run_by<F: Fn() -> Trial>(trial: F, trials: Seq<Trial>) -> bool {
    forall|i: int| 0 <= i < trials.len() ==> call_ensures(trial, (), #[trigger] trials[i])
}

/// A series of trials in progress.
pub struct TrialRunner {
    planned: u64,
    jacobi: MethodStats,
    gauss_seidel: MethodStats,
}

impl TrialRunner {
    #[verifier::type_invariant]
    spec fn in_step(self) -> bool {
        &&& self.planned >= 1
        &&& self.jacobi@.trials == self.gauss_seidel@.trials
        &&& self.jacobi@.trials <= self.planned
    }

    /// The number of trials that the series is to run.
    pub closed spec fn spec_planned(&self) -> u64 {
        self.planned
    }

    /// The tally of the Jacobi solves so far.
    pub closed spec fn jacobi_tally(&self) -> Tally {
        self.jacobi@
    }

    /// The tally of the Gauss-Seidel solves so far.
    pub closed spec fn gauss_seidel_tally(&self) -> Tally {
        self.gauss_seidel@
    }

    /// The number of trials recorded so far.
    pub open spec fn spec_completed(&self) -> nat {
        self.jacobi_tally().trials
    }

    /// Whether every planned trial has been recorded.
    pub open spec fn spec_is_complete(&self) -> bool {
        self.spec_completed() == self.spec_planned()
    }

    /// A series of `planned` trials, none of them run yet. A series needs at
    /// least one trial: `None` comes back for `planned == 0` and only then.
    pub fn new(planned: u64) -> (runner: Option<TrialRunner>)
        ensures
            runner is Some <==> planned >= 1,
            runner matches Some(r) ==> {
                &&& r.spec_planned() == planned
                &&& r.jacobi_tally() == Tally::zero()
                &&& r.gauss_seidel_tally() == Tally::zero()
            },
    {
        if planned == 0 {
            None
        } else {
            Some(
                TrialRunner {
                    planned,
                    jacobi: MethodStats::new(),
                    gauss_seidel: MethodStats::new(),
                },
            )
        }
    }

    /// The number of trials that the series is to run.
    #[verifier::when_used_as_spec(spec_planned)]
    pub fn planned(&self) -> (n: u64)
        ensures
            n == self.spec_planned(),
            n >= 1,
    {
        proof {
            use_type_invariant(self);
        }
        self.planned
    }

    /// The number of trials recorded so far.
    pub fn completed(&self) -> (n: u64)
        ensures
            n == self.spec_completed(),
            n == self.gauss_seidel_tally().trials,
            n <= self.spec_planned(),
    {
        proof {
            use_type_invariant(self);
        }
        self.jacobi.trials()
    }

    /// Whether every planned trial has been recorded.
    #[verifier::when_used_as_spec(spec_is_complete)]
    pub fn is_complete(&self) -> (done: bool)
        ensures
            done == self.spec_is_complete(),
    {
        self.jacobi.trials() == self.planned
    }

    /// The statistics of the Jacobi solves so far.
    pub fn jacobi(&self) -> (stats: &MethodStats)
        ensures
            stats@ == self.jacobi_tally(),
    {
        &self.jacobi
    }

    /// The statistics of the Gauss-Seidel solves so far.
    pub fn gauss_seidel(&self) -> (stats: &MethodStats)
        ensures
            stats@ == self.gauss_seidel_tally(),
    {
        &self.gauss_seidel
    }

    /// Records one trial: the outcome of the Gauss-Seidel solve and that of
    /// the Jacobi solve of the same system. Says whether another trial is
    /// due.
    pub fn record_trial(&mut self, gauss_seidel: &Outcome, jacobi: &Outcome) -> (more: bool)
        requires
            !old(self).spec_is_complete(),
        ensures
            final(self).spec_planned() == old(self).spec_planned(),
            final(self).gauss_seidel_tally() == old(self).gauss_seidel_tally().with(*gauss_seidel),
            final(self).jacobi_tally() == old(self).jacobi_tally().with(*jacobi),
            more == !final(self).spec_is_complete(),
    {
        proof {
            use_type_invariant(&*self);
        }
        let mut jacobi_stats = self.jacobi;
        jacobi_stats.record(jacobi);
        let mut gauss_seidel_stats = self.gauss_seidel;
        gauss_seidel_stats.record(gauss_seidel);
        let more = jacobi_stats.trials() < self.planned;
        *self = TrialRunner {
            planned: self.planned,
            jacobi: jacobi_stats,
            gauss_seidel: gauss_seidel_stats,
        };
        more
    }

    /// The report of a finished series; `None` while trials are still due.
    pub fn report(&self) -> (r: Option<Report>)
        ensures
            r is Some <==> self.spec_is_complete(),
            r matches Some(rep) ==> {
                &&& is_report_of(self.jacobi_tally(), rep.jacobi)
                &&& is_report_of(self.gauss_seidel_tally(), rep.gauss_seidel)
            },
    {
        proof {
            use_type_invariant(self);
        }
        if !self.is_complete() {
            return None;
        }
        Some(
            Report {
                jacobi: method_report(&self.jacobi),
                gauss_seidel: method_report(&self.gauss_seidel),
            },
        )
    }
}

/// The figures reported for one method after at least one trial.
pub fn method_report(stats: &MethodStats) -> (r: MethodReport)
    requires
        stats@.trials > 0,
    ensures
        is_report_of(stats@, r),
{
    let ratio = stats.success_ratio();
    MethodReport {
        converged: stats.successes(),
        trials: stats.trials(),
        success_ratio: ratio.unwrap(),
        average_iterations: stats.average_iterations(),
    }
}

/// Runs a series of `planned` trials: calls `trial` once for each and
/// returns the report of the outcomes that it handed back. A series needs
/// at least one trial: `None` comes back for `planned == 0` and only then,
/// and `trial` is not called.
pub fn run_trials<F: Fn() -> Trial>(planned: u64, trial: F) -> (r: Option<Report>)
    requires
        call_requires(trial, ()),
    ensures
        r is Some <==> planned >= 1,
        r matches Some(report) ==> exists|trials: Seq<Trial>|
            {
                &&& trials.len() == planned
                &&& run_by(trial, trials)
                &&& #[trigger] is_report_of_series(trials, report)
            },
{
    let mut runner = match TrialRunner::new(planned) {
        Some(runner) => runner,
        None => {
            return None;
        },
    };
    let ghost mut trials: Seq<Trial> = Seq::empty();
    let mut more = true;
    while more
        invariant
            call_requires(trial, ()),
            runner.spec_planned() == planned,
            more == !runner.spec_is_complete(),
            trials.len() == runner.spec_completed() <= planned,
            run_by(trial, trials),
            runner.jacobi_tally() == tally(jacobi_outcomes(trials)),
            runner.gauss_seidel_tally() == tally(gauss_seidel_outcomes(trials)),
        decreases planned - trials.len(),
    {
        let outcomes = trial();
        let ghost done = trials;
        proof {
            trials = done.push(outcomes);
            assert(jacobi_outcomes(trials).drop_last() == jacobi_outcomes(done));
            assert(gauss_seidel_outcomes(trials).drop_last() == gauss_seidel_outcomes(done));
            assert forall|i: int| 0 <= i < trials.len() implies call_ensures(
                trial,
                (),
                #[trigger] trials[i],
            ) by {
                if i < done.len() {
                    assert(trials[i] == done[i]);
                }
            }
        }
        more = runner.record_trial(&outcomes.gauss_seidel, &outcomes.jacobi);
    }
    let report = runner.report();
    proof {
        assert(is_report_of_series(trials, report.unwrap()));
    }
    report
}

} // verus!
