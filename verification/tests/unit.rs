use flinderax::error::{AppError, ErrorKind, LedgerError};
use flinderax::unit::{settle_rows, settle_update, Command, Reply, UnitOfWork};

fn drive(statements: usize, replies: &[Reply]) -> (Vec<Command>, Option<Result<(), LedgerError>>) {
    let (mut unit, first) = UnitOfWork::start(statements);
    let mut commands = vec![first];
    for reply in replies {
        commands.push(unit.next(*reply));
    }
    (commands, unit.outcome())
}

#[test]
fn a_sound_unit_commits_and_then_invalidates() {
    let (commands, outcome) = drive(2, &[Reply::Done; 5]);
    assert_eq!(
        commands,
        vec![
            Command::Begin,
            Command::Execute(0),
            Command::Execute(1),
            Command::Commit,
            Command::Invalidate,
            Command::Finish,
        ]
    );
    assert_eq!(outcome, Some(Ok(())));
}

#[test]
fn a_unit_under_way_has_no_outcome() {
    assert_eq!(drive(2, &[]).1, None);
    assert_eq!(drive(2, &[Reply::Done]).1, None);
    assert_eq!(drive(2, &[Reply::Done, Reply::Done, Reply::Done]).1, None);
    assert_eq!(drive(2, &[Reply::Done, Reply::Failed]).1, None);
}

#[test]
fn a_refused_statement_rolls_the_unit_back() {
    let (commands, outcome) = drive(
        2,
        &[Reply::Done, Reply::Done, Reply::Refused(LedgerError::StaleTransaction), Reply::Done],
    );
    assert_eq!(
        commands,
        vec![
            Command::Begin,
            Command::Execute(0),
            Command::Execute(1),
            Command::Rollback,
            Command::Finish,
        ]
    );
    assert_eq!(outcome, Some(Err(LedgerError::StaleTransaction)));
}

#[test]
fn a_failing_statement_rolls_the_unit_back_as_a_storage_failure() {
    let (commands, outcome) = drive(2, &[Reply::Done, Reply::Failed, Reply::Failed]);
    assert_eq!(
        commands,
        vec![Command::Begin, Command::Execute(0), Command::Rollback, Command::Finish]
    );
    assert_eq!(outcome, Some(Err(LedgerError::Persistence)));
}

#[test]
fn a_unit_that_cannot_open_ends_at_once() {
    let (commands, outcome) = drive(2, &[Reply::Failed]);
    assert_eq!(commands, vec![Command::Begin, Command::Finish]);
    assert_eq!(outcome, Some(Err(LedgerError::Persistence)));
}

#[test]
fn a_failed_commit_never_invalidates() {
    let (commands, outcome) = drive(1, &[Reply::Done, Reply::Done, Reply::Failed, Reply::Done]);
    assert_eq!(
        commands,
        vec![
            Command::Begin,
            Command::Execute(0),
            Command::Commit,
            Command::Finish,
            Command::Finish,
        ]
    );
    assert_eq!(outcome, Some(Err(LedgerError::Persistence)));
}

#[test]
fn a_failing_cache_does_not_fail_the_unit() {
    let (commands, outcome) = drive(1, &[Reply::Done, Reply::Done, Reply::Done, Reply::Failed]);
    assert_eq!(commands[3], Command::Invalidate);
    assert_eq!(commands[4], Command::Finish);
    assert_eq!(outcome, Some(Ok(())));
}

#[test]
fn a_unit_without_statements_commits_right_away() {
    let (commands, outcome) = drive(0, &[Reply::Done, Reply::Done, Reply::Done]);
    assert_eq!(
        commands,
        vec![Command::Begin, Command::Commit, Command::Invalidate, Command::Finish]
    );
    assert_eq!(outcome, Some(Ok(())));
}

#[test]
fn no_run_invalidates_before_an_acknowledged_commit() {
    let choices = [Reply::Done, Reply::Failed, Reply::Refused(LedgerError::NotFound)];
    for code in 0..243 {
        let mut replies = Vec::new();
        let mut rest = code;
        for _ in 0..5 {
            replies.push(choices[rest % 3]);
            rest /= 3;
        }
        let (commands, outcome) = drive(2, &replies);
        for (k, command) in commands.iter().enumerate() {
            if *command == Command::Invalidate {
                assert!(k >= 1);
                assert_eq!(commands[k - 1], Command::Commit);
                assert_eq!(replies[k - 1], Reply::Done);
            }
            if *command == Command::Commit {
                assert!(replies[..k].iter().all(|r| *r == Reply::Done));
            }
        }
        if let Some(Err(_)) = outcome {
            assert!(!commands.contains(&Command::Invalidate));
        }
    }
}

#[test]
fn the_conditional_update_is_settled_by_what_the_store_found() {
    assert_eq!(settle_update(Some(50), true, true), Ok(50));
    assert_eq!(settle_update(Some(0), false, false), Ok(0));
    assert_eq!(settle_update(None, false, true), Err(LedgerError::NotFound));
    assert_eq!(settle_update(None, false, false), Err(LedgerError::NotFound));
    assert_eq!(settle_update(None, true, false), Err(LedgerError::MissingState));
    assert_eq!(settle_update(None, true, true), Err(LedgerError::StaleTransaction));
}

#[test]
fn a_statement_that_touched_no_row_did_not_find_the_card() {
    assert_eq!(settle_rows(0), Reply::Refused(LedgerError::NotFound));
    assert_eq!(settle_rows(1), Reply::Done);
    assert_eq!(settle_rows(7), Reply::Done);
}

#[test]
fn every_refusal_has_its_class_and_status() {
    assert_eq!(LedgerError::NotFound.kind(), ErrorKind::Validation);
    assert_eq!(LedgerError::MissingState.kind(), ErrorKind::Consistency);
    assert_eq!(LedgerError::StaleTransaction.kind(), ErrorKind::Consistency);
    assert_eq!(LedgerError::Persistence.kind(), ErrorKind::Persistence);
    assert_eq!(LedgerError::NotFound.status(), 404);
    assert_eq!(LedgerError::MissingState.status(), 409);
    assert_eq!(LedgerError::StaleTransaction.status(), 409);
    assert_eq!(LedgerError::Persistence.status(), 500);
}

#[test]
fn every_refusal_has_its_reason_in_words() {
    let answer = AppError::refusing(LedgerError::NotFound, "reset");
    assert_eq!(answer.0, 404);
    assert_eq!(answer.1, "Card not found or you don't have permission to reset it");
    let answer = AppError::refusing(LedgerError::MissingState, "reset");
    assert_eq!(answer.0, 409);
    assert_eq!(answer.1, "Card has no running state");
    let answer = AppError::refusing(LedgerError::StaleTransaction, "reset");
    assert_eq!(answer.0, 409);
    assert_eq!(answer.1, "Reported total is below the current balance");
    let answer = AppError::refusing(LedgerError::Persistence, "reset");
    assert_eq!(answer.0, 500);
    assert_eq!(answer.1, "Storage operation failed");
}
