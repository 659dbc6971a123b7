use flinderax::card::{
    create_card, create_card_with_id, delete_card, get_all_cards, get_card, get_history,
    insert_transaction, insert_transaction_with_id, reset_transactions, update, AppState,
};
use flinderax::models::{
    CreateCardPayload, DeleteCardPayload, GetCardForUser, GetHistoryPayload,
    InsertTransactionPayload, ResetTransactionsPayload, UpdateCardPayload,
};
use flinderax::timestamp::Timestamp;

fn at(seconds: i64) -> Timestamp {
    Timestamp { seconds, nanos: 0 }
}

fn visa() -> CreateCardPayload {
    CreateCardPayload {
        card_name: "Visa X".to_string(),
        card_bank: "ACME".to_string(),
        card_primary_color: (1, 2, 3),
        card_secondary_color: (4, 5, 6),
    }
}

fn report(card_id: &str, amount_due: i64) -> InsertTransactionPayload {
    InsertTransactionPayload { card_id: card_id.to_string(), amount_due }
}

fn card_of(state: &AppState, user: &str, card_id: &str) -> (Option<i64>, Option<i64>) {
    let shown = get_card(state, &user.to_string(), GetCardForUser { card_id: card_id.to_string() })
        .expect("the owner sees the card");
    (shown.last_total_due, shown.last_delta)
}

#[test]
fn balances_follow_the_reported_totals() {
    let mut state = AppState::new(true);
    let user = "alice".to_string();
    let created = create_card(&mut state, &user, visa(), at(1)).expect("created");
    assert!(created.status);
    assert_eq!(created.card_id.chars().count(), 21);
    let c1 = created.card_id;

    let first = insert_transaction(&mut state, &user, report(&c1, 10_000), at(2)).expect("first");
    assert!(first.status);
    assert_eq!(first.amount_due, 10_000);
    assert_eq!(first.transaction_id.chars().count(), 21);
    assert_eq!(card_of(&state, "alice", &c1), (Some(10_000), Some(10_000)));

    let second = insert_transaction(&mut state, &user, report(&c1, 15_000), at(3)).expect("second");
    assert_eq!(second.amount_due, 5_000);
    assert_ne!(second.transaction_id, first.transaction_id);
    assert_eq!(card_of(&state, "alice", &c1), (Some(15_000), Some(5_000)));
}

#[test]
fn a_lower_total_is_rejected_as_a_conflict() {
    let mut state = AppState::new(true);
    let user = "alice".to_string();
    create_card_with_id(&mut state, &user, visa(), "C1".to_string(), at(1)).expect("created");
    insert_transaction_with_id(&mut state, &user, report("C1", 100), "T1".to_string(), at(2))
        .expect("first");
    insert_transaction_with_id(&mut state, &user, report("C1", 150), "T2".to_string(), at(3))
        .expect("second");
    let history_before =
        get_history(&state, &user, GetHistoryPayload { card_id: "C1".to_string() }).expect("history");

    let refused =
        insert_transaction_with_id(&mut state, &user, report("C1", 80), "T3".to_string(), at(4))
            .expect_err("80 is below 150");
    assert_eq!(refused.0, 409);
    assert_eq!(refused.1, "Reported total is below the current balance");

    assert_eq!(card_of(&state, "alice", "C1"), (Some(150), Some(50)));
    let history_after =
        get_history(&state, &user, GetHistoryPayload { card_id: "C1".to_string() }).expect("history");
    assert_eq!(history_after, history_before);
    assert_eq!(state.ledger().account(0).unwrap().events.len(), 2);
}

#[test]
fn the_second_listing_comes_out_of_the_cache() {
    let mut state = AppState::new(true);
    let user = "alice".to_string();
    create_card_with_id(&mut state, &user, visa(), "C1".to_string(), at(1)).expect("created");
    let first = get_all_cards(&mut state, &user, at(10));
    let second = get_all_cards(&mut state, &user, at(11));
    assert!(!first.from_cache);
    assert!(second.from_cache);
    assert_eq!(first.body, second.body);
    assert!(!first.body.is_empty());
    let store_reads = [first.from_cache, second.from_cache].iter().filter(|hit| !**hit).count();
    assert_eq!(store_reads, 1);
}

#[test]
fn another_user_cannot_delete_the_card() {
    let mut state = AppState::new(true);
    let alice = "alice".to_string();
    let bob = "bob".to_string();
    create_card_with_id(&mut state, &alice, visa(), "C1".to_string(), at(1)).expect("created");
    let refused = delete_card(&mut state, &bob, DeleteCardPayload { card_id: "C1".to_string() })
        .expect_err("bob does not own C1");
    assert_eq!(refused.0, 404);
    assert_eq!(refused.1, "Card not found or you don't have permission to delete it");
    let shown = get_card(&state, &alice, GetCardForUser { card_id: "C1".to_string() })
        .expect("still there for alice");
    assert_eq!(shown.card_id, "C1");
    assert_eq!(shown.card_name, "Visa X");
    assert_eq!(shown.card_bank, "ACME");
    assert_eq!(shown.card_primary_color, (1, 2, 3));
    assert_eq!(shown.card_secondary_color, (4, 5, 6));
}

#[test]
fn a_reset_card_starts_over() {
    let mut state = AppState::new(true);
    let user = "alice".to_string();
    create_card_with_id(&mut state, &user, visa(), "C1".to_string(), at(1)).expect("created");
    insert_transaction_with_id(&mut state, &user, report("C1", 100), "T1".to_string(), at(2))
        .expect("first");
    insert_transaction_with_id(&mut state, &user, report("C1", 150), "T2".to_string(), at(3))
        .expect("second");

    let answer = reset_transactions(
        &mut state,
        &user,
        ResetTransactionsPayload { card_id: "C1".to_string() },
        at(4),
    )
    .expect("reset");
    assert_eq!(answer.card_id, "C1");
    assert!(answer.status);

    let history =
        get_history(&state, &user, GetHistoryPayload { card_id: "C1".to_string() }).expect("history");
    assert!(history.is_empty());
    assert_eq!(card_of(&state, "alice", "C1"), (Some(0), Some(0)));

    let next = insert_transaction_with_id(&mut state, &user, report("C1", 50), "T3".to_string(), at(5))
        .expect("50 is admitted after the reset");
    assert_eq!(next.amount_due, 50);
    assert_eq!(card_of(&state, "alice", "C1"), (Some(50), Some(50)));
}

#[test]
fn a_second_reset_changes_nothing() {
    let mut state = AppState::new(false);
    let user = "alice".to_string();
    create_card_with_id(&mut state, &user, visa(), "C1".to_string(), at(1)).expect("created");
    insert_transaction_with_id(&mut state, &user, report("C1", 100), "T1".to_string(), at(2))
        .expect("first");
    for _ in 0..2 {
        reset_transactions(
            &mut state,
            &user,
            ResetTransactionsPayload { card_id: "C1".to_string() },
            at(4),
        )
        .expect("reset");
        assert_eq!(card_of(&state, "alice", "C1"), (Some(0), Some(0)));
        assert_eq!(state.ledger().account(0).unwrap().events.len(), 0);
        assert_eq!(state.ledger().account(0).unwrap().state.updated_at, at(4));
    }
}

#[test]
fn a_reset_card_answers_like_a_new_one() {
    let user = "alice".to_string();
    let mut used = AppState::new(false);
    create_card_with_id(&mut used, &user, visa(), "C1".to_string(), at(1)).expect("created");
    insert_transaction_with_id(&mut used, &user, report("C1", 900), "T1".to_string(), at(2))
        .expect("first");
    reset_transactions(
        &mut used,
        &user,
        ResetTransactionsPayload { card_id: "C1".to_string() },
        at(3),
    )
    .expect("reset");
    let mut new = AppState::new(false);
    create_card_with_id(&mut new, &user, visa(), "C1".to_string(), at(3)).expect("created");

    for (i, amount) in [30_i64, 20, 45].iter().enumerate() {
        let id = format!("N{}", i);
        let a = insert_transaction_with_id(&mut used, &user, report("C1", *amount), id.clone(), at(9));
        let b = insert_transaction_with_id(&mut new, &user, report("C1", *amount), id, at(9));
        match (a, b) {
            (Ok(x), Ok(y)) => assert_eq!(x.amount_due, y.amount_due),
            (Err(x), Err(y)) => assert_eq!(x.0, y.0),
            _ => panic!("the reset card and the new card answered differently"),
        }
        assert_eq!(card_of(&used, "alice", "C1"), card_of(&new, "alice", "C1"));
    }
    assert_eq!(get_all_cards(&mut used, &user, at(10)).body, get_all_cards(&mut new, &user, at(10)).body);
}

#[test]
fn foreign_cards_are_not_found_and_stay_untouched() {
    let mut state = AppState::new(true);
    let alice = "alice".to_string();
    let bob = "bob".to_string();
    create_card_with_id(&mut state, &alice, visa(), "C1".to_string(), at(1)).expect("created");
    insert_transaction_with_id(&mut state, &alice, report("C1", 100), "T1".to_string(), at(2))
        .expect("first");
    let listing = get_all_cards(&mut state, &alice, at(3)).body;

    let shown = get_card(&state, &bob, GetCardForUser { card_id: "C1".to_string() })
        .expect_err("not bob's");
    assert_eq!(shown.0, 404);
    assert_eq!(shown.1, "Card not found or you don't have permission to view it");

    let updated = update(
        &mut state,
        &bob,
        UpdateCardPayload {
            card_id: "C1".to_string(),
            card_name: "Mine".to_string(),
            card_bank: "Bobs".to_string(),
            card_primary_color: (9, 9, 9),
            card_secondary_color: (9, 9, 9),
        },
    )
    .expect_err("not bob's");
    assert_eq!(updated.0, 404);
    assert_eq!(updated.1, "Card not found or you don't have permission to update it");

    let reported =
        insert_transaction_with_id(&mut state, &bob, report("C1", 500), "T9".to_string(), at(4))
            .expect_err("not bob's");
    assert_eq!(reported.0, 404);
    assert_eq!(reported.1, "Card not found or you don't have permission to report a total for it");

    let reset = reset_transactions(
        &mut state,
        &bob,
        ResetTransactionsPayload { card_id: "C1".to_string() },
        at(5),
    )
    .expect_err("not bob's");
    assert_eq!(reset.0, 404);
    assert_eq!(reset.1, "Card not found or you don't have permission to reset it");

    let history = get_history(&state, &bob, GetHistoryPayload { card_id: "C1".to_string() })
        .expect_err("not bob's");
    assert_eq!(history.0, 404);
    assert_eq!(history.1, "Card not found or you don't have permission to view the history of it");

    assert!(get_all_cards(&mut state, &bob, at(6)).body.is_empty());
    assert_eq!(card_of(&state, "alice", "C1"), (Some(100), Some(100)));
    assert_eq!(get_all_cards(&mut state, &alice, at(7)).body, listing);
    assert_eq!(state.ledger().account(0).unwrap().card.card_name, "Visa X");
    assert_eq!(state.ledger().account(0).unwrap().events.len(), 1);
}

#[test]
fn an_unknown_card_is_not_found() {
    let mut state = AppState::new(true);
    let alice = "alice".to_string();
    let refused = insert_transaction(&mut state, &alice, report("nope", 5), at(1))
        .expect_err("no such card");
    assert_eq!(refused.0, 404);
    let refused = delete_card(&mut state, &alice, DeleteCardPayload { card_id: "nope".to_string() })
        .expect_err("no such card");
    assert_eq!(refused.0, 404);
}

#[test]
fn a_taken_card_id_is_a_storage_failure() {
    let mut state = AppState::new(true);
    let alice = "alice".to_string();
    let bob = "bob".to_string();
    create_card_with_id(&mut state, &alice, visa(), "C1".to_string(), at(1)).expect("created");
    let refused = create_card_with_id(&mut state, &bob, visa(), "C1".to_string(), at(2))
        .expect_err("C1 is taken");
    assert_eq!(refused.0, 500);
    assert_eq!(refused.1, "Storage operation failed");
    assert_eq!(state.ledger().len(), 1);
    assert_eq!(state.ledger().account(0).unwrap().card.user_id, "alice");
}

#[test]
fn a_taken_transaction_id_is_a_storage_failure() {
    let mut state = AppState::new(true);
    let alice = "alice".to_string();
    create_card_with_id(&mut state, &alice, visa(), "C1".to_string(), at(1)).expect("created");
    create_card_with_id(&mut state, &alice, visa(), "C2".to_string(), at(1)).expect("created");
    insert_transaction_with_id(&mut state, &alice, report("C1", 100), "T1".to_string(), at(2))
        .expect("first");
    let refused =
        insert_transaction_with_id(&mut state, &alice, report("C2", 100), "T1".to_string(), at(3))
            .expect_err("T1 is taken");
    assert_eq!(refused.0, 500);
    assert_eq!(card_of(&state, "alice", "C2"), (Some(0), Some(0)));
    assert_eq!(state.ledger().account(1).unwrap().events.len(), 0);
}

#[test]
fn a_deleted_card_is_gone_with_its_history() {
    let mut state = AppState::new(true);
    let alice = "alice".to_string();
    create_card_with_id(&mut state, &alice, visa(), "C1".to_string(), at(1)).expect("created");
    create_card_with_id(&mut state, &alice, visa(), "C2".to_string(), at(1)).expect("created");
    insert_transaction_with_id(&mut state, &alice, report("C1", 100), "T1".to_string(), at(2))
        .expect("first");
    let answer = delete_card(&mut state, &alice, DeleteCardPayload { card_id: "C1".to_string() })
        .expect("deleted");
    assert_eq!(answer.card_id, "C1");
    assert!(answer.status);
    assert_eq!(state.ledger().len(), 1);
    assert_eq!(state.ledger().account(0).unwrap().card.card_id, "C2");
    let gone = get_card(&state, &alice, GetCardForUser { card_id: "C1".to_string() })
        .expect_err("deleted");
    assert_eq!(gone.0, 404);
    assert!(!state.ledger().has_transaction(&"T1".to_string()));
    create_card_with_id(&mut state, &alice, visa(), "C1".to_string(), at(5))
        .expect("the id is free again");
    assert_eq!(card_of(&state, "alice", "C1"), (Some(0), Some(0)));
}

#[test]
fn an_update_replaces_what_is_shown_and_keeps_the_balance() {
    let mut state = AppState::new(true);
    let alice = "alice".to_string();
    create_card_with_id(&mut state, &alice, visa(), "C1".to_string(), at(1)).expect("created");
    insert_transaction_with_id(&mut state, &alice, report("C1", 100), "T1".to_string(), at(2))
        .expect("first");
    let answer = update(
        &mut state,
        &alice,
        UpdateCardPayload {
            card_id: "C1".to_string(),
            card_name: "Gold".to_string(),
            card_bank: "Bank".to_string(),
            card_primary_color: (10, 20, 30),
            card_secondary_color: (0, 0, 0),
        },
    )
    .expect("updated");
    assert_eq!(answer.card_id, "C1");
    assert!(answer.status);
    let shown =
        get_card(&state, &alice, GetCardForUser { card_id: "C1".to_string() }).expect("shown");
    assert_eq!(shown.card_name, "Gold");
    assert_eq!(shown.card_bank, "Bank");
    assert_eq!(shown.card_primary_color, (10, 20, 30));
    assert_eq!(shown.card_secondary_color, (0, 0, 0));
    assert_eq!(shown.last_total_due, Some(100));
    assert_eq!(shown.last_delta, Some(100));
    assert_eq!(state.ledger().account(0).unwrap().card.user_id, "alice");
    assert_eq!(state.ledger().account(0).unwrap().card.card_primary_color, 0x0A141E);
}
