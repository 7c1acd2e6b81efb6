use sql_lambda::pipeline::{Action, Batch};

/// Drives a batch with the given outcome per statement; returns the indices
/// that ran and how the batch ended.
fn drive(outcomes: &[Result<(), &str>]) -> (Vec<usize>, Action) {
    let mut b = Batch::new(outcomes.len());
    let mut ran = Vec::new();
    loop {
        match b.action() {
            Action::Execute(i) | Action::ExecuteLast(i) => {
                ran.push(i);
                match outcomes[i] {
                    Ok(()) => b.record_success(),
                    Err(m) => b.record_failure(m.to_string()),
                }
            }
            other => return (ran, other),
        }
    }
}

#[test]
fn empty_batch_asks_for_empty_result() {
    let (ran, end) = drive(&[]);
    assert!(ran.is_empty());
    assert!(matches!(end, Action::Empty));
}

#[test]
fn all_statements_run_in_order() {
    let (ran, end) = drive(&[Ok(()), Ok(()), Ok(())]);
    assert_eq!(ran, vec![0, 1, 2]);
    assert!(matches!(end, Action::Done));
}

#[test]
fn only_last_statement_is_kept() {
    let b = Batch::new(1);
    assert!(matches!(b.action(), Action::ExecuteLast(0)));
    let b = Batch::new(3);
    assert!(matches!(b.action(), Action::Execute(0)));
}

#[test]
fn first_failure_stops_the_batch() {
    let (ran, end) = drive(&[Ok(()), Err("table t not found"), Err("second"), Ok(())]);
    assert_eq!(ran, vec![0, 1]);
    match end {
        Action::Failed(m) => assert_eq!(m, "table t not found"),
        _ => panic!("expected a failure"),
    }
}

#[test]
fn reports_after_failure_change_nothing() {
    let mut b = Batch::new(2);
    b.record_failure("bad".to_string());
    b.record_success();
    b.record_failure("later".to_string());
    assert_eq!(b.done, 0);
    match b.action() {
        Action::Failed(m) => assert_eq!(m, "bad"),
        _ => panic!("expected a failure"),
    }
}
