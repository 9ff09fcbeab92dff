use jacobi_seidel::solver::SweepReport;
use jacobi_seidel::sweep::{summarize, sweep_rows, RowReport, Sweep, SweepStep};
use std::cell::RefCell;

fn updated(within_tolerance: bool, beyond_guard: bool) -> RowReport {
    RowReport::Updated { within_tolerance, beyond_guard }
}

fn measured(within_tolerance: bool, beyond_guard: bool) -> SweepReport {
    SweepReport::Measured { within_tolerance, beyond_guard }
}

fn due(step: SweepStep) -> Sweep {
    match step {
        SweepStep::Row(sweep) => sweep,
        SweepStep::Done(report) => panic!("the sweep ended with {report:?}"),
    }
}

fn ended(step: SweepStep) -> SweepReport {
    match step {
        SweepStep::Done(report) => report,
        SweepStep::Row(sweep) => panic!("equation {} is still due", sweep.row()),
    }
}

#[test]
fn a_sweep_over_no_equation_is_within_the_tolerance() {
    assert_eq!(ended(Sweep::begin(0)), measured(true, false));
    assert_eq!(summarize(0, &[]), Some(measured(true, false)));
    assert_eq!(summarize(0, &[RowReport::ZeroPivot]), Some(measured(true, false)));
    assert_eq!(sweep_rows(0, |_| RowReport::ZeroPivot), measured(true, false));
}

#[test]
fn equations_come_due_in_order() {
    let sweep = due(Sweep::begin(3));
    assert_eq!((sweep.row(), sweep.unknowns()), (0, 3));
    let sweep = due(sweep.record(updated(true, false)));
    assert_eq!((sweep.row(), sweep.unknowns()), (1, 3));
    let sweep = due(sweep.record(updated(true, false)));
    assert_eq!((sweep.row(), sweep.unknowns()), (2, 3));
    assert_eq!(ended(sweep.record(updated(true, false))), measured(true, false));
}

#[test]
fn one_stubborn_unknown_keeps_the_sweep_from_the_tolerance() {
    let within = updated(true, false);
    let stubborn = updated(false, false);
    assert_eq!(summarize(3, &[within, within, within]), Some(measured(true, false)));
    assert_eq!(summarize(3, &[stubborn, within, within]), Some(measured(false, false)));
    assert_eq!(summarize(3, &[within, stubborn, within]), Some(measured(false, false)));
    assert_eq!(summarize(3, &[within, within, stubborn]), Some(measured(false, false)));
    assert_eq!(summarize(1, &[stubborn]), Some(measured(false, false)));
}

#[test]
fn one_runaway_unknown_puts_the_sweep_beyond_the_guard() {
    let calm = updated(false, false);
    let runaway = updated(false, true);
    assert_eq!(summarize(3, &[calm, calm, calm]), Some(measured(false, false)));
    assert_eq!(summarize(3, &[runaway, calm, calm]), Some(measured(false, true)));
    assert_eq!(summarize(3, &[calm, calm, runaway]), Some(measured(false, true)));
    assert_eq!(summarize(2, &[updated(true, true), updated(true, false)]), Some(measured(true, true)));
}

#[test]
fn the_first_zero_pivot_ends_the_sweep() {
    let within = updated(true, false);
    assert_eq!(
        summarize(3, &[RowReport::ZeroPivot, within, within]),
        Some(SweepReport::ZeroPivot { row: 0 })
    );
    assert_eq!(
        summarize(3, &[within, RowReport::ZeroPivot, RowReport::ZeroPivot]),
        Some(SweepReport::ZeroPivot { row: 1 })
    );
    assert_eq!(summarize(3, &[within, RowReport::ZeroPivot]), Some(SweepReport::ZeroPivot { row: 1 }));
    assert_eq!(
        summarize(3, &[within, updated(false, true), RowReport::ZeroPivot]),
        Some(SweepReport::ZeroPivot { row: 2 })
    );
    assert_eq!(
        summarize(2, &[within, within, RowReport::ZeroPivot]),
        Some(measured(true, false))
    );
    let sweep = due(Sweep::begin(2));
    let sweep = due(sweep.record(within));
    assert_eq!(ended(sweep.record(RowReport::ZeroPivot)), SweepReport::ZeroPivot { row: 1 });
}

#[test]
fn too_few_rows_make_no_report() {
    let within = updated(true, false);
    assert_eq!(summarize(3, &[]), None);
    assert_eq!(summarize(3, &[within, within]), None);
    assert_eq!(summarize(usize::MAX, &[within]), None);
}

#[test]
fn the_driver_updates_every_equation_once_and_in_order() {
    let seen = RefCell::new(Vec::new());
    let report = sweep_rows(4, |i| {
        seen.borrow_mut().push(i);
        updated(i != 2, i == 3)
    });
    assert_eq!(report, measured(false, true));
    assert_eq!(*seen.borrow(), vec![0, 1, 2, 3]);
}

#[test]
fn the_driver_breaks_off_at_a_zero_pivot() {
    let seen = RefCell::new(Vec::new());
    let report = sweep_rows(4, |i| {
        seen.borrow_mut().push(i);
        if i == 1 {
            RowReport::ZeroPivot
        } else {
            updated(true, false)
        }
    });
    assert_eq!(report, SweepReport::ZeroPivot { row: 1 });
    assert_eq!(*seen.borrow(), vec![0, 1]);
}
