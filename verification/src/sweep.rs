//! One sweep over the equations: the order in which they are updated, when
//! the sweep breaks off, and what it reports.
//!
//! The caller updates one unknown at a time, on its own numbers, and says
//! for each whether the diagonal coefficient was zero or how the change of
//! the unknown compares with the tolerance and with the divergence guard.
//! The sweep is judged by its largest change: it is within the tolerance
//! when every change is, and beyond the guard when any change is.
use crate::solver::SweepReport;
use vstd::prelude::*;

verus! {

/// What the caller saw when it came to update one unknown.
#[derive(Clone, Copy, Debug, PartialEq, Eq, Structural)]
pub enum RowReport {
    /// The diagonal coefficient of the equation is zero; nothing was updated.
    ZeroPivot,
    /// The unknown was updated. `within_tolerance` says that its change was
    /// at most the tolerance, `beyond_guard` that it was at least the
    /// divergence guard.
    Updated { within_tolerance: bool, beyond_guard: bool },
}

/// A sweep in progress: the equation that is due and the changes so far.
pub struct Sweep {
    unknowns: usize,
    row: usize,
    within_tolerance: bool,
    beyond_guard: bool,
}

/// What a sweep does next.
pub enum SweepStep {
    /// The equation `sweep.row()` is to be updated and reported.
    Row(Sweep),
    /// The sweep is over.
    Done(SweepReport),
}

impl RowReport {
    /// Whether the unknown was updated by no more than the tolerance.
    pub open spec fn is_within_tolerance(self) -> bool {
        self matches RowReport::Updated { within_tolerance, .. } && within_tolerance
    }

    /// Whether the unknown was updated by at least the divergence guard.
    pub open spec fn is_beyond_guard(self) -> bool {
        self matches RowReport::Updated { beyond_guard, .. } && beyond_guard
    }
}

/// The index of the first report of a zero pivot from `from` up to `to`, if
/// there is one.
pub open spec fn zero_pivot_from(rows: Seq<RowReport>, from: int, to: int) -> Option<int>
    decreases to - from,
{
    if 0 <= from < to <= rows.len() {
        if rows[from] == RowReport::ZeroPivot {
            Some(from)
        } else {
            zero_pivot_from(rows, from + 1, to)
        }
    } else {
        None
    }
}

/// Whether each of the first `to` changes was within the tolerance.
pub open spec fn all_within_tolerance(rows: Seq<RowReport>, to: int) -> bool {
    forall|i: int| 0 <= i < to ==> (#[trigger] rows[i]).is_within_tolerance()
}

/// Whether one of the first `to` changes reached the divergence guard.
pub open spec fn some_beyond_guard(rows: Seq<RowReport>, to: int) -> bool {
    exists|i: int| 0 <= i < to && (#[trigger] rows[i]).is_beyond_guard()
}

/// The report of a sweep over `unknowns` equations whose updates report
/// `rows`, in the order of the equations; `None` while equations are left
/// and none had a zero pivot.
///
/// The first zero pivot ends the sweep and is its report. A sweep that
/// updates every unknown is within the tolerance when every change is, and
/// beyond the guard when some change is.
pub open spec fn sweep_report(unknowns: usize, rows: Seq<RowReport>) -> Option<SweepReport> {
    let seen: int = if rows.len() < unknowns {
        rows.len() as int
    } else {
        unknowns as int
    };
    match zero_pivot_from(rows, 0, seen) {
        Some(row) => Some(SweepReport::ZeroPivot { row: row as usize }),
        None => if rows.len() >= unknowns {
            Some(
                SweepReport::Measured {
                    within_tolerance: all_within_tolerance(rows, unknowns as int),
                    beyond_guard: some_beyond_guard(rows, unknowns as int),
                },
            )
        } else {
            None
        },
    }
}

impl Sweep {
    #[verifier::type_invariant]
    spec fn row_is_due(self) -> bool {
        self.row < self.unknowns
    }

    /// The number of equations of the system.
    pub closed spec fn spec_unknowns(&self) -> usize {
        self.unknowns
    }

    /// The index of the equation that is due.
    pub closed spec fn spec_row(&self) -> usize {
        self.row
    }

    /// Whether every change so far was within the tolerance.
    pub closed spec fn so_far_within_tolerance(&self) -> bool {
        self.within_tolerance
    }

    /// Whether some change so far reached the divergence guard.
    pub closed spec fn so_far_beyond_guard(&self) -> bool {
        self.beyond_guard
    }

    /// Begins a sweep over `unknowns` equations. The first equation is due,
    /// unless there is none: a sweep over no equation changes nothing, so it
    /// is within the tolerance and not beyond the guard.
    pub fn begin(unknowns: usize) -> (step: SweepStep)
        ensures
            unknowns == 0 ==> step == SweepStep::Done(
                SweepReport::Measured { within_tolerance: true, beyond_guard: false },
            ),
            unknowns > 0 ==> (step matches SweepStep::Row(sweep) && {
                &&& sweep.spec_unknowns() == unknowns
                &&& sweep.spec_row() == 0
                &&& sweep.so_far_within_tolerance()
                &&& !sweep.so_far_beyond_guard()
            }),
    {
        if unknowns == 0 {
            SweepStep::Done(SweepReport::Measured { within_tolerance: true, beyond_guard: false })
        } else {
            SweepStep::Row(
                Sweep { unknowns, row: 0, within_tolerance: true, beyond_guard: false },
            )
        }
    }

    /// The number of equations of the system.
    #[verifier::when_used_as_spec(spec_unknowns)]
    pub fn unknowns(&self) -> (n: usize)
        ensures
            n == self.spec_unknowns(),
    {
        self.unknowns
    }

    /// The index of the equation that is due.
    #[verifier::when_used_as_spec(spec_row)]
    pub fn row(&self) -> (i: usize)
        ensures
            i == self.spec_row(),
            i < self.spec_unknowns(),
    {
        proof {
            use_type_invariant(self);
        }
        self.row
    }

    /// Takes the report on the equation that was due. A zero pivot ends the
    /// sweep with that equation's index. An update is taken into the largest
    /// change; after the last equation the sweep ends with its measure, else
    /// the next equation is due.
    pub fn record(self, report: RowReport) -> (step: SweepStep)
        ensures
            self.spec_row() < self.spec_unknowns(),
            match report {
                RowReport::ZeroPivot => step == SweepStep::Done(
                    SweepReport::ZeroPivot { row: self.spec_row() },
                ),
                RowReport::Updated { within_tolerance, beyond_guard } => if self.spec_row() + 1
                    == self.spec_unknowns() {
                    step == SweepStep::Done(
                        SweepReport::Measured {
                            within_tolerance: self.so_far_within_tolerance() && within_tolerance,
                            beyond_guard: self.so_far_beyond_guard() || beyond_guard,
                        },
                    )
                } else {
                    step matches SweepStep::Row(next) && {
                        &&& next.spec_unknowns() == self.spec_unknowns()
                        &&& next.spec_row() == self.spec_row() + 1
                        &&& next.so_far_within_tolerance() == (self.so_far_within_tolerance()
                            && within_tolerance)
                        &&& next.so_far_beyond_guard() == (self.so_far_beyond_guard()
                            || beyond_guard)
                    }
                },
            },
    {
        proof {
            use_type_invariant(&self);
        }
        match report {
            RowReport::ZeroPivot => SweepStep::Done(SweepReport::ZeroPivot { row: self.row }),
            RowReport::Updated { within_tolerance, beyond_guard } => {
                let within = self.within_tolerance && within_tolerance;
                let beyond = self.beyond_guard || beyond_guard;
                if self.row + 1 == self.unknowns {
                    SweepStep::Done(
                        SweepReport::Measured { within_tolerance: within, beyond_guard: beyond },
                    )
                } else {
                    SweepStep::Row(
                        Sweep {
                            unknowns: self.unknowns,
                            row: self.row + 1,
                            within_tolerance: within,
                            beyond_guard: beyond,
                        },
                    )
                }
            },
        }
    }
}

/// Whether `sweep` stands where a sweep stands after the updates `rows`,
/// none of them a zero pivot.
pub open spec fn stands_after(sweep: Sweep, unknowns: usize, rows: Seq<RowReport>) -> bool {
    &&& sweep.spec_unknowns() == unknowns
    &&& sweep.spec_row() == rows.len()
    &&& zero_pivot_from(rows, 0, rows.len() as int) is None
    &&& sweep.so_far_within_tolerance() == all_within_tolerance(rows, rows.len() as int)
    &&& sweep.so_far_beyond_guard() == some_beyond_guard(rows, rows.len() as int)
}

proof fn lemma_zero_pivot_from(rows: Seq<RowReport>, from: int, to: int)
    requires
        0 <= from <= to <= rows.len(),
    ensures
        match zero_pivot_from(rows, from, to) {
            Some(k) => from <= k < to && rows[k] == RowReport::ZeroPivot && forall|i: int|
                from <= i < k ==> (#[trigger] rows[i]) != RowReport::ZeroPivot,
            None => forall|i: int| from <= i < to ==> (#[trigger] rows[i]) != RowReport::ZeroPivot,
        },
    decreases to - from,
{
    if from < to && rows[from] != RowReport::ZeroPivot {
        lemma_zero_pivot_from(rows, from + 1, to);
    }
}

proof fn lemma_sweep_step(
    unknowns: usize,
    rows: Seq<RowReport>,
    report: RowReport,
    within: bool,
    beyond: bool,
)
    requires
        rows.len() < unknowns,
        zero_pivot_from(rows, 0, rows.len() as int) is None,
        within == all_within_tolerance(rows, rows.len() as int),
        beyond == some_beyond_guard(rows, rows.len() as int),
    ensures
        sweep_report(unknowns, rows) is None,
        report == RowReport::ZeroPivot ==> sweep_report(unknowns, rows.push(report)) == Some(
            SweepReport::ZeroPivot { row: rows.len() as usize },
        ),
        report != RowReport::ZeroPivot ==> {
            &&& zero_pivot_from(rows.push(report), 0, rows.len() as int + 1) is None
            &&& all_within_tolerance(rows.push(report), rows.len() as int + 1) == (within
                && report.is_within_tolerance())
            &&& some_beyond_guard(rows.push(report), rows.len() as int + 1) == (beyond
                || report.is_beyond_guard())
        },
{
    let longer = rows.push(report);
    let n: int = rows.len() as int;
    lemma_zero_pivot_from(rows, 0, n);
    lemma_zero_pivot_from(longer, 0, n + 1);
    assert forall|i: int| 0 <= i < n implies longer[i] == rows[i] by {}
    assert(longer[n] == report);
    if report != RowReport::ZeroPivot {
        if all_within_tolerance(rows, n) && report.is_within_tolerance() {
            assert forall|i: int| 0 <= i < n + 1 implies (#[trigger] longer[i]).is_within_tolerance(
            ) by {
                if i < n {
                    assert(rows[i].is_within_tolerance());
                }
            }
        }
        if all_within_tolerance(longer, n + 1) {
            assert(longer[n].is_within_tolerance());
            assert forall|i: int| 0 <= i < n implies (#[trigger] rows[i]).is_within_tolerance() by {
                assert(longer[i].is_within_tolerance());
            }
        }
        if some_beyond_guard(rows, n) {
            let i = choose|i: int| 0 <= i < n && (#[trigger] rows[i]).is_beyond_guard();
            assert(longer[i].is_beyond_guard());
        }
        if report.is_beyond_guard() {
            assert(longer[n].is_beyond_guard());
        }
        if some_beyond_guard(longer, n + 1) {
            let i = choose|i: int| 0 <= i < n + 1 && (#[trigger] longer[i]).is_beyond_guard();
            if i < n {
                assert(rows[i].is_beyond_guard());
            }
        }
    } else {
        match zero_pivot_from(longer, 0, n + 1) {
            Some(k) => {
                if k < n {
                    assert(longer[k] == rows[k]);
                }
            },
            None => {
                assert(longer[n] != RowReport::ZeroPivot);
            },
        }
    }
}

/// Carries out a sweep over recorded row reports, first to last, and
/// returns its report; `None` where the reports run out while equations are
/// left. Reports after the one that ends the sweep are not looked at.
pub fn summarize(unknowns: usize, rows: &[RowReport]) -> (r: Option<SweepReport>)
    ensures
        r == sweep_report(unknowns, rows@),
{
    let mut sweep = match Sweep::begin(unknowns) {
        SweepStep::Done(report) => {
            proof {
                assert(zero_pivot_from(rows@, 0, 0) is None);
            }
            return Some(report);
        },
        SweepStep::Row(sweep) => sweep,
    };
    let mut k: usize = 0;
    while k < rows.len()
        invariant
            k <= rows@.len(),
            k < unknowns,
            stands_after(sweep, unknowns, rows@.take(k as int)),
        decreases rows@.len() - k,
    {
        let ghost seen = rows@.take(k as int);
        proof {
            lemma_sweep_step(
                unknowns,
                seen,
                rows@[k as int],
                sweep.so_far_within_tolerance(),
                sweep.so_far_beyond_guard(),
            );
            assert(rows@.take(k + 1) == seen.push(rows@[k as int]));
        }
        match sweep.record(rows[k]) {
            SweepStep::Done(report) => {
                proof {
                    lemma_report_looks_at_the_first_rows(unknowns, rows@, k + 1);
                }
                return Some(report);
            },
            SweepStep::Row(next) => {
                sweep = next;
            },
        }
        k += 1;
    }
    proof {
        assert(rows@.take(k as int) == rows@);
        lemma_sweep_step(
            unknowns,
            rows@,
            RowReport::ZeroPivot,
            sweep.so_far_within_tolerance(),
            sweep.so_far_beyond_guard(),
        );
    }
    None
}

/// Whether `rows` are reports that `update` may hand back for the
/// equations `0`, `1` and so on, in that order.
pub open spec fn updated_by<F: Fn(usize) -> RowReport>(update: F, rows: Seq<RowReport>) -> bool {
    forall|i: int| 0 <= i < rows.len() ==> call_ensures(update, (i as usize,), #[trigger] rows[i])
}

/// Carries out one sweep: calls `update` with the index of each equation in
/// turn, from the first on, until one reports a zero pivot or every unknown
/// is updated, and returns the report of the sweep.
///
/// `update` updates one unknown on the caller's own numbers and reports
/// what it saw. The report of the sweep is that of the reports it handed
/// back, and the sweep ends with the last of them.
pub fn sweep_rows<F: Fn(usize) -> RowReport>(unknowns: usize, update: F) -> (report: SweepReport)
    requires
        forall|i: usize| i < unknowns ==> call_requires(update, (i,)),
    ensures
        exists|rows: Seq<RowReport>|
            {
                &&& rows.len() <= unknowns
                &&& updated_by(update, rows)
                &&& #[trigger] sweep_report(unknowns, rows) == Some(report)
                &&& rows.len() > 0 ==> sweep_report(unknowns, rows.drop_last()) is None
            },
{
    let mut sweep = match Sweep::begin(unknowns) {
        SweepStep::Done(report) => {
            proof {
                let rows = Seq::<RowReport>::empty();
                assert(zero_pivot_from(rows, 0, 0) is None);
                assert(updated_by(update, rows));
                assert(sweep_report(unknowns, rows) == Some(report));
            }
            return report;
        },
        SweepStep::Row(sweep) => sweep,
    };
    let ghost mut rows: Seq<RowReport> = Seq::empty();
    loop
        invariant
            forall|i: usize| i < unknowns ==> call_requires(update, (i,)),
            rows.len() < unknowns,
            updated_by(update, rows),
            stands_after(sweep, unknowns, rows),
        decreases unknowns - rows.len(),
    {
        let row = sweep.row();
        let ghost seen_within = sweep.so_far_within_tolerance();
        let ghost seen_beyond = sweep.so_far_beyond_guard();
        let row_report = update(row);
        let ghost seen = rows;
        proof {
            rows = seen.push(row_report);
            lemma_sweep_step(unknowns, seen, row_report, seen_within, seen_beyond);
            assert(rows.drop_last() == seen);
            assert forall|i: int| 0 <= i < rows.len() implies call_ensures(
                update,
                (i as usize,),
                #[trigger] rows[i],
            ) by {
                if i < seen.len() {
                    assert(rows[i] == seen[i]);
                }
            }
        }
        match sweep.record(row_report) {
            SweepStep::Done(report) => {
                proof {
                    assert(sweep_report(unknowns, rows) == Some(report));
                }
                return report;
            },
            SweepStep::Row(next) => {
                sweep = next;
            },
        }
    }
}

/// The report of a sweep rests on the rows up to the one that ended it:
/// where the first `len` rows make a report, so do all the rows, and the
/// same one.
pub proof fn lemma_report_looks_at_the_first_rows(unknowns: usize, rows: Seq<RowReport>, len: int)
    requires
        0 <= len <= rows.len(),
        sweep_report(unknowns, rows.take(len)) is Some,
    ensures
        sweep_report(unknowns, rows) == sweep_report(unknowns, rows.take(len)),
{
    let first = rows.take(len);
    let seen: int = if len < unknowns {
        len
    } else {
        unknowns as int
    };
    let all_seen: int = if rows.len() < unknowns {
        rows.len() as int
    } else {
        unknowns as int
    };
    lemma_zero_pivot_from(first, 0, seen);
    lemma_zero_pivot_from(rows, 0, all_seen);
    assert forall|i: int| 0 <= i < len implies first[i] == rows[i] by {}
    match zero_pivot_from(first, 0, seen) {
        Some(k) => {
            assert(first[k] == rows[k]);
            match zero_pivot_from(rows, 0, all_seen) {
                Some(l) => {
                    if l < len {
                        assert(first[l] == rows[l]);
                    }
                },
                None => {},
            }
        },
        None => {
            assert(len >= unknowns);
            match zero_pivot_from(rows, 0, all_seen) {
                Some(l) => {
                    assert(first[l] == rows[l]);
                },
                None => {},
            }
            if all_within_tolerance(first, unknowns as int) {
                assert forall|i: int| 0 <= i < unknowns implies (
                #[trigger] rows[i]).is_within_tolerance() by {
                    assert(first[i].is_within_tolerance());
                }
            }
            if all_within_tolerance(rows, unknowns as int) {
                assert forall|i: int| 0 <= i < unknowns implies (
                #[trigger] first[i]).is_within_tolerance() by {
                    assert(rows[i].is_within_tolerance());
                }
            }
            if some_beyond_guard(first, unknowns as int) {
                let i = choose|i: int| 0 <= i < unknowns && (#[trigger] first[i]).is_beyond_guard();
                assert(rows[i].is_beyond_guard());
            }
            if some_beyond_guard(rows, unknowns as int) {
                let i = choose|i: int| 0 <= i < unknowns && (#[trigger] rows[i]).is_beyond_guard();
                assert(first[i].is_beyond_guard());
            }
        },
    }
}

/// A zero on the diagonal of the first equation ends the sweep before any
/// unknown is updated, whatever the later equations would report.
pub proof fn lemma_zero_pivot_in_the_first_row(unknowns: usize, rows: Seq<RowReport>)
    requires
        unknowns > 0,
        rows.len() > 0,
        rows[0] == RowReport::ZeroPivot,
    ensures
        sweep_report(unknowns, rows) == Some(SweepReport::ZeroPivot { row: 0 }),
{
}

/// A sweep is judged by its largest change. Where every unknown is
/// updated, the sweep is within the tolerance exactly when every change is,
/// so that one unknown that is not yet settled keeps the whole sweep from
/// it; and the sweep is beyond the guard exactly when some change is.
pub proof fn lemma_sweep_is_judged_by_its_largest_change(unknowns: usize, rows: Seq<RowReport>)
    requires
        rows.len() == unknowns,
        forall|i: int| 0 <= i < rows.len() ==> (#[trigger] rows[i]) != RowReport::ZeroPivot,
    ensures
        sweep_report(unknowns, rows) == Some(
            SweepReport::Measured {
                within_tolerance: forall|i: int|
                    0 <= i < rows.len() ==> (#[trigger] rows[i]).is_within_tolerance(),
                beyond_guard: exists|i: int|
                    0 <= i < rows.len() && (#[trigger] rows[i]).is_beyond_guard(),
            },
        ),
{
    lemma_zero_pivot_from(rows, 0, rows.len() as int);
}

} // verus!
