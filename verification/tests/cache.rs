use flinderax::cache::{cache_key, MemoryCache, CACHE_TTL_SECONDS};
use flinderax::card::{
    create_card_with_id, delete_card, get_all_cards, insert_transaction_with_id,
    reset_transactions, update, AppState,
};
use flinderax::models::{
    CreateCardPayload, DeleteCardPayload, InsertTransactionPayload, ResetTransactionsPayload,
    UpdateCardPayload,
};
use flinderax::timestamp::Timestamp;

fn at(seconds: i64) -> Timestamp {
    Timestamp { seconds, nanos: 0 }
}

fn card(name: &str) -> CreateCardPayload {
    CreateCardPayload {
        card_name: name.to_string(),
        card_bank: "ACME".to_string(),
        card_primary_color: (1, 2, 3),
        card_secondary_color: (4, 5, 6),
    }
}

#[test]
fn the_key_names_the_user() {
    assert_eq!(cache_key(&"alice".to_string()), "user_cards_proto_v2:alice");
    assert_eq!(cache_key(&String::new()), "user_cards_proto_v2:");
    assert_ne!(cache_key(&"alice".to_string()), cache_key(&"bob".to_string()));
}

#[test]
fn the_time_to_live_is_one_hour() {
    assert_eq!(CACHE_TTL_SECONDS, 3600);
}

#[test]
fn a_stored_value_is_found_until_it_expires() {
    let mut cache = MemoryCache::new();
    let key = "k".to_string();
    assert_eq!(cache.get(&key, 0), None);
    cache.set_ex(key.clone(), vec![1, 2, 3], 10, 100);
    assert_eq!(cache.get(&key, 100), Some(vec![1, 2, 3]));
    assert_eq!(cache.get(&key, 109), Some(vec![1, 2, 3]));
    assert_eq!(cache.get(&key, 110), None);
    assert_eq!(cache.get(&"other".to_string(), 100), None);
}

#[test]
fn storing_again_replaces_the_value() {
    let mut cache = MemoryCache::new();
    let key = "k".to_string();
    cache.set_ex(key.clone(), vec![1], 10, 0);
    cache.set_ex("j".to_string(), vec![9], 10, 0);
    cache.set_ex(key.clone(), vec![2], 10, 5);
    assert_eq!(cache.get(&key, 6), Some(vec![2]));
    assert_eq!(cache.get(&key, 12), Some(vec![2]));
    assert_eq!(cache.get(&"j".to_string(), 6), Some(vec![9]));
}

#[test]
fn deleting_removes_only_that_key() {
    let mut cache = MemoryCache::new();
    cache.set_ex("a".to_string(), vec![1], 10, 0);
    cache.set_ex("b".to_string(), vec![2], 10, 0);
    cache.set_ex("c".to_string(), vec![3], 10, 0);
    cache.del(&"b".to_string());
    assert_eq!(cache.get(&"a".to_string(), 1), Some(vec![1]));
    assert_eq!(cache.get(&"b".to_string(), 1), None);
    assert_eq!(cache.get(&"c".to_string(), 1), Some(vec![3]));
    cache.del(&"missing".to_string());
    assert_eq!(cache.get(&"a".to_string(), 1), Some(vec![1]));
}

#[test]
fn an_expiry_past_the_last_second_is_held_to_it() {
    let mut cache = MemoryCache::new();
    cache.set_ex("k".to_string(), vec![1], 3600, i64::MAX - 5);
    assert_eq!(cache.get(&"k".to_string(), i64::MAX - 1), Some(vec![1]));
    assert_eq!(cache.get(&"k".to_string(), i64::MAX), None);
}

#[test]
fn a_cached_listing_expires_after_an_hour() {
    let mut state = AppState::new(true);
    let alice = "alice".to_string();
    create_card_with_id(&mut state, &alice, card("A"), "C1".to_string(), at(0)).expect("created");
    assert!(!get_all_cards(&mut state, &alice, at(1000)).from_cache);
    assert!(get_all_cards(&mut state, &alice, at(1000 + 3599)).from_cache);
    assert!(!get_all_cards(&mut state, &alice, at(1000 + 3600)).from_cache);
    assert!(get_all_cards(&mut state, &alice, at(1000 + 3601)).from_cache);
}

#[test]
fn without_a_cache_every_listing_reads_the_ledger() {
    let mut state = AppState::new(false);
    let alice = "alice".to_string();
    create_card_with_id(&mut state, &alice, card("A"), "C1".to_string(), at(0)).expect("created");
    let first = get_all_cards(&mut state, &alice, at(1));
    let second = get_all_cards(&mut state, &alice, at(2));
    assert!(!first.from_cache);
    assert!(!second.from_cache);
    assert_eq!(first.body, second.body);
}

#[test]
fn every_change_shows_in_the_next_listing_with_or_without_a_cache() {
    let alice = "alice".to_string();
    let bob = "bob".to_string();
    let mut cached = AppState::new(true);
    let mut plain = AppState::new(false);
    let mut seen: Vec<Vec<u8>> = Vec::new();
    for step in 0..7 {
        for state in [&mut cached, &mut plain] {
            match step {
                0 => {
                    create_card_with_id(state, &alice, card("A"), "C1".to_string(), at(1))
                        .expect("created");
                }
                1 => {
                    create_card_with_id(state, &bob, card("B"), "C2".to_string(), at(1))
                        .expect("created");
                }
                2 => {
                    insert_transaction_with_id(
                        state,
                        &alice,
                        InsertTransactionPayload { card_id: "C1".to_string(), amount_due: 100 },
                        "T1".to_string(),
                        at(2),
                    )
                    .expect("reported");
                }
                3 => {
                    update(
                        state,
                        &alice,
                        UpdateCardPayload {
                            card_id: "C1".to_string(),
                            card_name: "A2".to_string(),
                            card_bank: "Bank".to_string(),
                            card_primary_color: (7, 7, 7),
                            card_secondary_color: (8, 8, 8),
                        },
                    )
                    .expect("updated");
                }
                4 => {
                    reset_transactions(
                        state,
                        &alice,
                        ResetTransactionsPayload { card_id: "C1".to_string() },
                        at(3),
                    )
                    .expect("reset");
                }
                5 => {
                    create_card_with_id(state, &alice, card("A3"), "C3".to_string(), at(4))
                        .expect("created");
                }
                _ => {
                    delete_card(state, &alice, DeleteCardPayload { card_id: "C1".to_string() })
                        .expect("deleted");
                }
            }
        }
        let with_cache = get_all_cards(&mut cached, &alice, at(10)).body;
        let without_cache = get_all_cards(&mut plain, &alice, at(10)).body;
        assert_eq!(with_cache, without_cache);
        assert_eq!(get_all_cards(&mut cached, &alice, at(11)).body, with_cache);
        if step != 1 {
            assert!(!seen.contains(&with_cache), "step {} did not show", step);
        }
        seen.push(with_cache);
        assert_eq!(
            get_all_cards(&mut cached, &bob, at(10)).body,
            get_all_cards(&mut plain, &bob, at(10)).body
        );
    }
}

#[test]
fn a_change_drops_only_the_owners_listing() {
    let mut state = AppState::new(true);
    let alice = "alice".to_string();
    let bob = "bob".to_string();
    create_card_with_id(&mut state, &alice, card("A"), "C1".to_string(), at(0)).expect("created");
    create_card_with_id(&mut state, &bob, card("B"), "C2".to_string(), at(0)).expect("created");
    assert!(!get_all_cards(&mut state, &alice, at(1)).from_cache);
    assert!(!get_all_cards(&mut state, &bob, at(1)).from_cache);
    insert_transaction_with_id(
        &mut state,
        &alice,
        InsertTransactionPayload { card_id: "C1".to_string(), amount_due: 5 },
        "T1".to_string(),
        at(2),
    )
    .expect("reported");
    assert!(get_all_cards(&mut state, &bob, at(3)).from_cache);
    assert!(!get_all_cards(&mut state, &alice, at(3)).from_cache);
}

#[test]
fn a_refused_change_leaves_the_cached_listing() {
    let mut state = AppState::new(true);
    let alice = "alice".to_string();
    create_card_with_id(&mut state, &alice, card("A"), "C1".to_string(), at(0)).expect("created");
    insert_transaction_with_id(
        &mut state,
        &alice,
        InsertTransactionPayload { card_id: "C1".to_string(), amount_due: 50 },
        "T1".to_string(),
        at(1),
    )
    .expect("reported");
    let listing = get_all_cards(&mut state, &alice, at(2));
    assert!(!listing.from_cache);
    insert_transaction_with_id(
        &mut state,
        &alice,
        InsertTransactionPayload { card_id: "C1".to_string(), amount_due: 10 },
        "T2".to_string(),
        at(3),
    )
    .expect_err("10 is below 50");
    let again = get_all_cards(&mut state, &alice, at(4));
    assert!(again.from_cache);
    assert_eq!(again.body, listing.body);
}
