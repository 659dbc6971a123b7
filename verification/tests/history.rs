use flinderax::card::{create_card_with_id, get_history, insert_transaction_with_id, AppState};
use flinderax::event_log::{history_of, TransactionEvent};
use flinderax::models::{CreateCardPayload, GetHistoryPayload, InsertTransactionPayload};
use flinderax::timestamp::Timestamp;
use flinderax::wire::{CardHistoryList, CardTransactionHistory};

fn event(id: &str, total: i64, seconds: i64, nanos: i32) -> TransactionEvent {
    TransactionEvent {
        transaction_id: id.to_string(),
        card_id: "C1".to_string(),
        total_due_input: total,
        timestamp: Timestamp { seconds, nanos },
    }
}

fn ids(list: &CardHistoryList) -> Vec<String> {
    list.histories.iter().map(|h| h.transaction_id.clone()).collect()
}

#[test]
fn an_empty_log_has_an_empty_history() {
    assert!(history_of(&Vec::new()).histories.is_empty());
}

#[test]
fn the_newest_event_comes_first() {
    let log = vec![event("a", 1, 10, 0), event("b", 2, 20, 0), event("c", 3, 30, 0)];
    let list = history_of(&log);
    assert_eq!(ids(&list), vec!["c", "b", "a"]);
    assert_eq!(list.histories[0].total_due_input, 3);
    assert_eq!(list.histories[0].timestamp_seconds, 30);
    assert_eq!(list.histories[0].timestamp_nanos, 0);
}

#[test]
fn events_of_the_same_time_keep_their_order() {
    let log = vec![
        event("a", 1, 10, 0),
        event("b", 2, 10, 0),
        event("c", 3, 20, 0),
        event("d", 4, 10, 0),
        event("e", 5, 20, 0),
    ];
    assert_eq!(ids(&history_of(&log)), vec!["c", "e", "a", "b", "d"]);
}

#[test]
fn nanoseconds_break_ties_of_seconds() {
    let log = vec![event("a", 1, 10, 5), event("b", 2, 10, 7), event("c", 3, 10, 6)];
    assert_eq!(ids(&history_of(&log)), vec!["b", "c", "a"]);
}

#[test]
fn a_log_out_of_order_is_sorted() {
    let log = vec![
        event("a", 1, 30, 0),
        event("b", 2, 10, 0),
        event("c", 3, 20, 0),
        event("d", 4, -5, 0),
    ];
    let list = history_of(&log);
    assert_eq!(ids(&list), vec!["a", "c", "b", "d"]);
    for pair in list.histories.windows(2) {
        assert!(
            (pair[0].timestamp_seconds, pair[0].timestamp_nanos)
                >= (pair[1].timestamp_seconds, pair[1].timestamp_nanos)
        );
    }
    assert_eq!(list.histories.len(), log.len());
}

#[test]
fn the_encoded_history_lists_the_events_newest_first() {
    let mut state = AppState::new(false);
    let alice = "alice".to_string();
    create_card_with_id(
        &mut state,
        &alice,
        CreateCardPayload {
            card_name: "A".to_string(),
            card_bank: "B".to_string(),
            card_primary_color: (0, 0, 0),
            card_secondary_color: (0, 0, 0),
        },
        "C1".to_string(),
        Timestamp { seconds: 0, nanos: 0 },
    )
    .expect("created");
    for (i, total) in [10_i64, 20, 30].iter().enumerate() {
        insert_transaction_with_id(
            &mut state,
            &alice,
            InsertTransactionPayload { card_id: "C1".to_string(), amount_due: *total },
            format!("T{}", i),
            Timestamp { seconds: 100 + i as i64, nanos: 0 },
        )
        .expect("reported");
    }
    let body = get_history(&state, &alice, GetHistoryPayload { card_id: "C1".to_string() })
        .expect("history");
    let expected = CardHistoryList {
        histories: vec![
            CardTransactionHistory {
                transaction_id: "T2".to_string(),
                total_due_input: 30,
                timestamp_seconds: 102,
                timestamp_nanos: 0,
            },
            CardTransactionHistory {
                transaction_id: "T1".to_string(),
                total_due_input: 20,
                timestamp_seconds: 101,
                timestamp_nanos: 0,
            },
            CardTransactionHistory {
                transaction_id: "T0".to_string(),
                total_due_input: 10,
                timestamp_seconds: 100,
                timestamp_nanos: 0,
            },
        ],
    }
    .encode_to_vec();
    assert_eq!(body, expected);
    assert_eq!(body[0], 0x0A);
}
