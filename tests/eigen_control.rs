use sparse_eigen::eigen::{
    check_square, delimit_subproblem, end_after_step, first_phase, next_phase, step_for,
    EigenError, Phase, Step, Subproblem,
};

#[test]
fn scan_everything_deflated() {
    let neg = vec![true, true, true];
    assert_eq!(delimit_subproblem(&neg, 3), Subproblem { start: 0, end: 0, zeroed: None });
}

#[test]
fn scan_single_row() {
    let neg: Vec<bool> = vec![];
    let sub = delimit_subproblem(&neg, 0);
    assert_eq!(sub, Subproblem { start: 0, end: 0, zeroed: None });
    assert_eq!(first_phase(sub), Phase::Converged);
}

#[test]
fn scan_trailing_block() {
    // rows 0..=5; off-diagonals 0..5; entries 1 and 4 negligible
    let neg = vec![false, true, false, false, true];
    assert_eq!(delimit_subproblem(&neg, 5), Subproblem { start: 2, end: 4, zeroed: Some(1) });
}

#[test]
fn scan_whole_matrix_unreduced() {
    let neg = vec![false, false, false];
    assert_eq!(delimit_subproblem(&neg, 3), Subproblem { start: 0, end: 3, zeroed: None });
}

#[test]
fn scan_from_inner_end() {
    let neg = vec![false, false, true, false];
    assert_eq!(delimit_subproblem(&neg, 2), Subproblem { start: 0, end: 2, zeroed: None });
}

#[test]
fn step_choice() {
    assert_eq!(step_for(2, 3), Step::Solve2 { start: 2 });
    assert_eq!(step_for(0, 4), Step::Sweep { start: 0, end: 4 });
    assert_eq!(end_after_step(Step::Solve2 { start: 2 }, 3, false), 2);
    assert_eq!(end_after_step(Step::Sweep { start: 0, end: 4 }, 4, false), 4);
    assert_eq!(end_after_step(Step::Sweep { start: 0, end: 4 }, 4, true), 3);
}

#[test]
fn budget_of_one_iteration_diverges() {
    let sub = Subproblem { start: 0, end: 3, zeroed: None };
    assert_eq!(next_phase(sub, 1, 1), Phase::Diverged);
    assert_eq!(next_phase(sub, 1, 0), Phase::Running { start: 0, end: 3 });
    assert_eq!(next_phase(sub, 1, 5), Phase::Running { start: 0, end: 3 });
    let done = Subproblem { start: 0, end: 0, zeroed: None };
    assert_eq!(next_phase(done, 1, 1), Phase::Converged);
}

#[test]
fn non_square_rejected() {
    assert_eq!(check_square(3, 4), Err(EigenError::NotSquare));
    assert_eq!(check_square(0, 0), Err(EigenError::Empty));
    assert_eq!(check_square(5, 5), Ok(5));
}
