//! The operations on cards: each changes the ledger in one atomic unit
//! and, once that has succeeded, drops the cached list of the owner.

use crate::cache::{
    cache_key, expiry, lemma_lookup_found, lemma_user_key_injective, lemma_without_keeps, lookup,
    stored, user_key, without, EntryView, MemoryCache, CACHE_TTL_SECONDS,
};
use crate::color::{pack, packed, unpack, unpacked};
use crate::error::{refusal_text, AppError, LedgerError};
use crate::ids::{fresh_id, ID_LENGTH};
use crate::ledger::{CardRecord, CardView, Ledger, LedgerView};
use crate::models::{
    CardResponse, CreateCardPayload, DeleteCardPayload, GetCardForUser, GetHistoryPayload,
    InsertTransactionPayload, InsertTransactionResponse, ResetTransactionsPayload,
    ShowGetCardResponse, UpdateCardPayload,
};
use crate::timestamp::Timestamp;
use crate::wire::{card_list_bytes, history_list_bytes};
use vstd::prelude::*;

verus! {

/// Every cached list is the encoded list of its user's cards in `ledger`.
pub open spec fn coherent_with(entries: Seq<EntryView>, ledger: LedgerView) -> bool {
    forall|i: int, user_id: Seq<char>|
        0 <= i < entries.len() && (#[trigger] entries[i]).key == #[trigger] user_key(user_id)
            ==> entries[i].value == card_list_bytes(ledger.cards_of(user_id))
}

/// The cache after the list of `user_id` was dropped from it. Without a
/// cache there is nothing to drop.
pub open spec fn invalidated(cached: Option<Seq<EntryView>>, user_id: Seq<char>) -> Option<
    Seq<EntryView>,
> {
    match cached {
        Some(entries) => Some(without(entries, user_key(user_id))),
        None => None,
    }
}

/// Dropping the list of the one user whose cards changed makes the cache
/// agree with the ledger again.
pub proof fn lemma_invalidation_restores(
    entries: Seq<EntryView>,
    before: LedgerView,
    after: LedgerView,
    user_id: Seq<char>,
)
    requires
        coherent_with(entries, before),
        forall|other: Seq<char>|
            other != user_id ==> #[trigger] after.cards_of(other) == before.cards_of(other),
    ensures
        coherent_with(without(entries, user_key(user_id)), after),
{
    let left = without(entries, user_key(user_id));
    assert forall|i: int, other: Seq<char>|
        0 <= i < left.len() && (#[trigger] left[i]).key == #[trigger] user_key(
            other,
        ) implies left[i].value == card_list_bytes(after.cards_of(other)) by {
        lemma_without_keeps(entries, user_key(user_id), i);
        let j = choose|j: int| 0 <= j < entries.len() && entries[j] == left[i];
        assert(entries[j].key == user_key(other));
        assert(other != user_id);
        assert(after.cards_of(other) == before.cards_of(other));
    }
}

/// The ledger and, where there is one, the cache in front of it.
pub struct AppState {
    ledger: Ledger,
    cache: Option<MemoryCache>,
}

impl AppState {
    /// What the ledger holds.
    pub closed spec fn model(&self) -> LedgerView {
        self.ledger@
    }

    /// What the cache holds, where there is a cache.
    pub closed spec fn cached(&self) -> Option<Seq<EntryView>> {
        match self.cache {
            Some(cache) => Some(cache@.entries),
            None => None,
        }
    }

    /// Cache coherence: whatever is cached for a user is the encoded list
    /// of that user's cards as the ledger has them now.
    pub open spec fn coherent(&self) -> bool {
        self.cached() matches Some(entries) ==> coherent_with(entries, self.model())
    }

    /// An empty ledger, with an empty cache in front of it if `with_cache`
    /// says so.
    pub fn new(with_cache: bool) -> (state: AppState)
        ensures
            state.model() == LedgerView::empty(),
            state.model().wf(),
            state.cached() == if with_cache {
                Some(Seq::<EntryView>::empty())
            } else {
                None
            },
            state.coherent(),
    {
        let cache = if with_cache {
            Some(MemoryCache::new())
        } else {
            None
        };
        let state = AppState { ledger: Ledger::new(), cache };
        proof {
            if with_cache {
                assert(state.cached().unwrap() =~= Seq::<EntryView>::empty());
            }
        }
        state
    }

    /// The ledger, to read from.
    pub fn ledger(&self) -> (ledger: &Ledger)
        ensures
            ledger@ == self.model(),
    {
        &self.ledger
    }

    /// Drops the cached list of `user_id`, if there is a cache.
    fn invalidate(&mut self, user_id: &String)
        ensures
            final(self).model() == old(self).model(),
            final(self).cached() == invalidated(old(self).cached(), user_id@),
    {
        let key = cache_key(user_id);
        match &mut self.cache {
            Some(cache) => {
                cache.del(&key);
            },
            None => {},
        }
    }
}

/// Resets a card of `user_id` at `now`: its events are deleted and its
/// balance set to zero in one atomic unit, and then the owner's cached
/// list is dropped. A card that the requester does not own is not found;
/// then neither ledger nor cache changes.
pub fn reset_transactions(
    state: &mut AppState,
    user_id: &String,
    payload: ResetTransactionsPayload,
    now: Timestamp,
) -> (res: Result<CardResponse, AppError>)
    ensures
        match old(state).model().after_reset(payload.card_id@, user_id@, now) {
            Ok(next) => {
                &&& res matches Ok(answer) && answer.card_id@ == payload.card_id@ && answer.status
                &&& final(state).model() == next
                &&& final(state).cached() == invalidated(old(state).cached(), user_id@)
            },
            Err(e) => {
                &&& res matches Err(answer) && answer.0 == e.status() && answer.1@ == refusal_text(
                    e,
                    "reset"@,
                )
                &&& final(state).model() == old(state).model()
                &&& final(state).cached() == old(state).cached()
            },
        },
        old(state).coherent() ==> final(state).coherent(),
        old(state).model().wf() ==> final(state).model().wf(),
{
    match state.ledger.reset(&payload.card_id, user_id, now) {
        Err(e) => Err(AppError::refusing(e, "reset")),
        Ok(()) => {
            state.invalidate(user_id);
            proof {
                if old(state).coherent() && old(state).cached().is_some() {
                    assert forall|other: Seq<char>| other != user_id@ implies #[trigger]
                        state.model().cards_of(other) == old(state).model().cards_of(other) by {
                        old(state).model().lemma_reset_isolated(
                            payload.card_id@,
                            user_id@,
                            now,
                            other,
                        );
                    }
                    lemma_invalidation_restores(
                        old(state).cached().unwrap(),
                        old(state).model(),
                        state.model(),
                        user_id@,
                    );
                }
            }
            Ok(CardResponse { card_id: payload.card_id, status: true })
        },
    }
}

/// What reporting a total under the transaction id `transaction_id` must
/// have done: where the ledger accepts the report, the answer carries the
/// id and the change, the ledger holds the new event and state, and the
/// owner's cached list is dropped; where it refuses, the answer carries
/// the refusal and neither ledger nor cache has changed.
pub open spec fn transaction_outcome(
    before: AppState,
    after: AppState,
    res: Result<InsertTransactionResponse, AppError>,
    user_id: Seq<char>,
    card_id: Seq<char>,
    amount_due: i64,
    transaction_id: Seq<char>,
    now: Timestamp,
) -> bool {
    match before.model().after_transaction(card_id, user_id, transaction_id, amount_due, now) {
        Ok((next, change)) => {
            &&& res matches Ok(answer) && answer.transaction_id@ == transaction_id
                && answer.amount_due == change && answer.status
            &&& after.model() == next
            &&& after.cached() == invalidated(before.cached(), user_id)
        },
        Err(e) => {
            &&& res matches Err(answer) && answer.0 == e.status() && answer.1@ == refusal_text(
                e,
                "report a total for"@,
            )
            &&& after.model() == before.model()
            &&& after.cached() == before.cached()
        },
    }
}

/// Reports the total now due on a card of `user_id`, under a transaction
/// id that the caller supplies. Event append and conditional balance
/// update happen as one atomic unit; after it has succeeded the owner's
/// cached list is dropped.
pub fn insert_transaction_with_id(
    state: &mut AppState,
    user_id: &String,
    payload: InsertTransactionPayload,
    transaction_id: String,
    now: Timestamp,
) -> (res: Result<InsertTransactionResponse, AppError>)
    ensures
        transaction_outcome(
            *old(state),
            *final(state),
            res,
            user_id@,
            payload.card_id@,
            payload.amount_due,
            transaction_id@,
            now,
        ),
        old(state).coherent() ==> final(state).coherent(),
        old(state).model().wf() ==> final(state).model().wf(),
{
    let id = transaction_id.clone();
    match state.ledger.record(
        &payload.card_id,
        user_id,
        transaction_id,
        payload.amount_due,
        now,
    ) {
        Err(e) => Err(AppError::refusing(e, "report a total for")),
        Ok(change) => {
            state.invalidate(user_id);
            proof {
                if old(state).coherent() && old(state).cached().is_some() {
                    assert forall|other: Seq<char>| other != user_id@ implies #[trigger]
                        state.model().cards_of(other) == old(state).model().cards_of(other) by {
                        old(state).model().lemma_transaction_isolated(
                            payload.card_id@,
                            user_id@,
                            transaction_id@,
                            payload.amount_due,
                            now,
                            other,
                        );
                    }
                    lemma_invalidation_restores(
                        old(state).cached().unwrap(),
                        old(state).model(),
                        state.model(),
                        user_id@,
                    );
                }
            }
            Ok(InsertTransactionResponse { transaction_id: id, amount_due: change, status: true })
        },
    }
}

/// Reports the total now due on a card of `user_id`, under a freshly
/// generated transaction id. Whatever id was generated, the outcome is
/// that of `insert_transaction_with_id` for it.
pub fn insert_transaction(
    state: &mut AppState,
    user_id: &String,
    payload: InsertTransactionPayload,
    now: Timestamp,
) -> (res: Result<InsertTransactionResponse, AppError>)
    ensures
        exists|transaction_id: Seq<char>|
            transaction_id.len() == ID_LENGTH && #[trigger] transaction_outcome(
                *old(state),
                *final(state),
                res,
                user_id@,
                payload.card_id@,
                payload.amount_due,
                transaction_id,
                now,
            ),
        old(state).coherent() ==> final(state).coherent(),
        old(state).model().wf() ==> final(state).model().wf(),
{
    let transaction_id = fresh_id();
    let ghost id = transaction_id@;
    let ghost card_id = payload.card_id@;
    let amount_due = payload.amount_due;
    let res = insert_transaction_with_id(state, user_id, payload, transaction_id, now);
    assert(transaction_outcome(
        *old(state),
        *state,
        res,
        user_id@,
        card_id,
        amount_due,
        id,
        now,
    ));
    res
}

/// The card that `user_id` asks to create with `details`, under the id
/// `card_id`: each colour packed into one integer.
pub open spec fn card_to_create(
    card_id: Seq<char>,
    user_id: Seq<char>,
    details: CreateCardPayload,
) -> CardView {
    CardView {
        card_id,
        user_id,
        card_name: details.card_name@,
        card_bank: details.card_bank@,
        card_primary_color: packed(details.card_primary_color) as i32,
        card_secondary_color: packed(details.card_secondary_color) as i32,
    }
}

/// What creating a card under the id `card_id` must have done: where the
/// id is free, the answer carries it, the ledger holds the card with a
/// zero balance, and the owner's cached list is dropped; where it is
/// taken, the answer is a storage failure and nothing has changed.
pub open spec fn creation_outcome(
    before: AppState,
    after: AppState,
    res: Result<CardResponse, AppError>,
    user_id: Seq<char>,
    details: CreateCardPayload,
    card_id: Seq<char>,
    now: Timestamp,
) -> bool {
    match before.model().after_create(card_to_create(card_id, user_id, details), now) {
        Ok(next) => {
            &&& res matches Ok(answer) && answer.card_id@ == card_id && answer.status
            &&& after.model() == next
            &&& after.cached() == invalidated(before.cached(), user_id)
        },
        Err(e) => {
            &&& res matches Err(answer) && answer.0 == e.status() && answer.1@ == refusal_text(
                e,
                "create"@,
            )
            &&& after.model() == before.model()
            &&& after.cached() == before.cached()
        },
    }
}

/// Creates a card for `user_id` under an id that the caller supplies:
/// card and zero running state come into being together, and then the
/// owner's cached list is dropped.
pub fn create_card_with_id(
    state: &mut AppState,
    user_id: &String,
    card_details: CreateCardPayload,
    card_id: String,
    now: Timestamp,
) -> (res: Result<CardResponse, AppError>)
    ensures
        creation_outcome(*old(state), *final(state), res, user_id@, card_details, card_id@, now),
        old(state).coherent() ==> final(state).coherent(),
        old(state).model().wf() ==> final(state).model().wf(),
{
    let id = card_id.clone();
    let card = CardRecord {
        card_id,
        user_id: user_id.clone(),
        card_name: card_details.card_name,
        card_bank: card_details.card_bank,
        card_primary_color: pack(card_details.card_primary_color),
        card_secondary_color: pack(card_details.card_secondary_color),
    };
    assert(card@ == card_to_create(card_id@, user_id@, card_details));
    match state.ledger.create(card, now) {
        Err(e) => Err(AppError::refusing(e, "create")),
        Ok(()) => {
            state.invalidate(user_id);
            proof {
                if old(state).coherent() && old(state).cached().is_some() {
                    assert forall|other: Seq<char>| other != user_id@ implies #[trigger]
                        state.model().cards_of(other) == old(state).model().cards_of(other) by {
                        old(state).model().lemma_create_isolated(card@, now, other);
                    }
                    lemma_invalidation_restores(
                        old(state).cached().unwrap(),
                        old(state).model(),
                        state.model(),
                        user_id@,
                    );
                }
            }
            Ok(CardResponse { card_id: id, status: true })
        },
    }
}

/// Creates a card for `user_id` under a freshly generated id. Whatever
/// id was generated, the outcome is that of `create_card_with_id` for it.
pub fn create_card(
    state: &mut AppState,
    user_id: &String,
    card_details: CreateCardPayload,
    now: Timestamp,
) -> (res: Result<CardResponse, AppError>)
    ensures
        exists|card_id: Seq<char>|
            card_id.len() == ID_LENGTH && #[trigger] creation_outcome(
                *old(state),
                *final(state),
                res,
                user_id@,
                card_details,
                card_id,
                now,
            ),
        old(state).coherent() ==> final(state).coherent(),
        old(state).model().wf() ==> final(state).model().wf(),
{
    let card_id = fresh_id();
    let ghost id = card_id@;
    let ghost details = card_details;
    let res = create_card_with_id(state, user_id, card_details, card_id, now);
    assert(creation_outcome(*old(state), *state, res, user_id@, details, id, now));
    res
}

/// Replaces what is shown of a card of `user_id`, and then drops the
/// owner's cached list. A card that the requester does not own is not
/// found; then neither ledger nor cache changes.
pub fn update(state: &mut AppState, user_id: &String, update_card_details: UpdateCardPayload) -> (res:
    Result<CardResponse, AppError>)
    ensures
        match old(state).model().after_update(
            update_card_details.card_id@,
            user_id@,
            update_card_details.card_name@,
            update_card_details.card_bank@,
            packed(update_card_details.card_primary_color) as i32,
            packed(update_card_details.card_secondary_color) as i32,
        ) {
            Ok(next) => {
                &&& res matches Ok(answer) && answer.card_id@ == update_card_details.card_id@
                    && answer.status
                &&& final(state).model() == next
                &&& final(state).cached() == invalidated(old(state).cached(), user_id@)
            },
            Err(e) => {
                &&& res matches Err(answer) && answer.0 == e.status() && answer.1@ == refusal_text(
                    e,
                    "update"@,
                )
                &&& final(state).model() == old(state).model()
                &&& final(state).cached() == old(state).cached()
            },
        },
        old(state).coherent() ==> final(state).coherent(),
        old(state).model().wf() ==> final(state).model().wf(),
{
    let card_primary_color = pack(update_card_details.card_primary_color);
    let card_secondary_color = pack(update_card_details.card_secondary_color);
    match state.ledger.update(
        &update_card_details.card_id,
        user_id,
        update_card_details.card_name,
        update_card_details.card_bank,
        card_primary_color,
        card_secondary_color,
    ) {
        Err(e) => Err(AppError::refusing(e, "update")),
        Ok(()) => {
            state.invalidate(user_id);
            proof {
                if old(state).coherent() && old(state).cached().is_some() {
                    assert forall|other: Seq<char>| other != user_id@ implies #[trigger]
                        state.model().cards_of(other) == old(state).model().cards_of(other) by {
                        old(state).model().lemma_update_isolated(
                            update_card_details.card_id@,
                            user_id@,
                            update_card_details.card_name@,
                            update_card_details.card_bank@,
                            card_primary_color,
                            card_secondary_color,
                            other,
                        );
                    }
                    lemma_invalidation_restores(
                        old(state).cached().unwrap(),
                        old(state).model(),
                        state.model(),
                        user_id@,
                    );
                }
            }
            Ok(CardResponse { card_id: update_card_details.card_id, status: true })
        },
    }
}

/// Deletes a card of `user_id` with its balance and its events, and then
/// drops the owner's cached list. A card that the requester does not own
/// is not found; then neither ledger nor cache changes.
pub fn delete_card(state: &mut AppState, user_id: &String, card_details: DeleteCardPayload) -> (res:
    Result<CardResponse, AppError>)
    ensures
        match old(state).model().after_delete(card_details.card_id@, user_id@) {
            Ok(next) => {
                &&& res matches Ok(answer) && answer.card_id@ == card_details.card_id@
                    && answer.status
                &&& final(state).model() == next
                &&& final(state).cached() == invalidated(old(state).cached(), user_id@)
            },
            Err(e) => {
                &&& res matches Err(answer) && answer.0 == e.status() && answer.1@ == refusal_text(
                    e,
                    "delete"@,
                )
                &&& final(state).model() == old(state).model()
                &&& final(state).cached() == old(state).cached()
            },
        },
        old(state).coherent() ==> final(state).coherent(),
        old(state).model().wf() ==> final(state).model().wf(),
{
    match state.ledger.delete(&card_details.card_id, user_id) {
        Err(e) => Err(AppError::refusing(e, "delete")),
        Ok(()) => {
            state.invalidate(user_id);
            proof {
                if old(state).coherent() && old(state).cached().is_some() {
                    assert forall|other: Seq<char>| other != user_id@ implies #[trigger]
                        state.model().cards_of(other) == old(state).model().cards_of(other) by {
                        old(state).model().lemma_delete_isolated(
                            card_details.card_id@,
                            user_id@,
                            other,
                        );
                    }
                    lemma_invalidation_restores(
                        old(state).cached().unwrap(),
                        old(state).model(),
                        state.model(),
                        user_id@,
                    );
                }
            }
            Ok(CardResponse { card_id: card_details.card_id, status: true })
        },
    }
}

/// One card of `user_id` with its balance, colours by channel. A card
/// that the requester does not own is not found.
pub fn get_card(state: &AppState, user_id: &String, payload: GetCardForUser) -> (res: Result<
    ShowGetCardResponse,
    AppError,
>)
    ensures
        match state.model().locate(payload.card_id@, user_id@) {
            Some(i) => {
                let account = state.model().accounts[i];
                &&& res matches Ok(answer)
                &&& answer.card_id@ == account.card.card_id
                &&& answer.card_name@ == account.card.card_name
                &&& answer.card_bank@ == account.card.card_bank
                &&& answer.card_primary_color == unpacked(account.card.card_primary_color as int)
                &&& answer.card_secondary_color == unpacked(
                    account.card.card_secondary_color as int,
                )
                &&& answer.last_total_due == Some(account.state.last_total_due)
                &&& answer.last_delta == Some(account.state.last_delta)
            },
            None => res matches Err(answer) && answer.0 == LedgerError::NotFound.status()
                && answer.1@ == refusal_text(LedgerError::NotFound, "view"@),
        },
{
    match state.ledger.get(&payload.card_id, user_id) {
        None => Err(AppError::refusing(LedgerError::NotFound, "view")),
        Some(account) => Ok(
            ShowGetCardResponse {
                card_id: account.card.card_id.clone(),
                card_name: account.card.card_name.clone(),
                card_bank: account.card.card_bank.clone(),
                card_primary_color: unpack(account.card.card_primary_color),
                card_secondary_color: unpack(account.card.card_secondary_color),
                last_total_due: Some(account.state.last_total_due),
                last_delta: Some(account.state.last_delta),
            },
        ),
    }
}

/// The content type of the encoded lists, distinct from that of JSON.
pub const PROTOBUF_CONTENT_TYPE: &'static str = "application/x-protobuf";

/// An encoded list, and whether it came out of the cache.
#[derive(Debug)]
pub struct EncodedList {
    pub body: Vec<u8>,
    pub from_cache: bool,
}

/// The encoded list of the cards of `user_id`, cache-aside: a cached list
/// that has not expired at `now` is returned as it is, without a look at
/// the ledger; otherwise the ledger is read, the list encoded, stored in
/// the cache for `CACHE_TTL_SECONDS`, and returned. Without a cache every
/// call reads the ledger. The ledger is never changed, and while the
/// cache is coherent the answer is the same with or without it.
pub fn get_all_cards(state: &mut AppState, user_id: &String, now: Timestamp) -> (reply: EncodedList)
    ensures
        final(state).model() == old(state).model(),
        match old(state).cached() {
            Some(entries) => match lookup(entries, user_key(user_id@), now.seconds) {
                Some(value) => {
                    &&& reply.from_cache
                    &&& reply.body@ == value
                    &&& final(state).cached() == old(state).cached()
                },
                None => {
                    &&& !reply.from_cache
                    &&& reply.body@ == card_list_bytes(old(state).model().cards_of(user_id@))
                    &&& final(state).cached() == Some(
                        stored(
                            entries,
                            user_key(user_id@),
                            reply.body@,
                            expiry(now.seconds, CACHE_TTL_SECONDS),
                        ),
                    )
                },
            },
            None => {
                &&& !reply.from_cache
                &&& reply.body@ == card_list_bytes(old(state).model().cards_of(user_id@))
                &&& final(state).cached().is_none()
            },
        },
        old(state).coherent() ==> final(state).coherent() && reply.body@ == card_list_bytes(
            old(state).model().cards_of(user_id@),
        ),
{
    let key = cache_key(user_id);
    match &state.cache {
        Some(cache) => {
            match cache.get(&key, now.seconds) {
                Some(body) => {
                    proof {
                        lemma_lookup_found(cache@.entries, key@, now.seconds);
                    }
                    return EncodedList { body, from_cache: true };
                },
                None => {},
            }
        },
        None => {},
    }
    let list = state.ledger.cards_of(user_id);
    let body = list.encode_to_vec();
    match &mut state.cache {
        Some(cache) => {
            let ghost entries = cache@.entries;
            let copy = body.clone();
            assert(copy@ =~= body@);
            cache.set_ex(key, copy, CACHE_TTL_SECONDS, now.seconds);
            proof {
                let kept = without(entries, key@);
                let next = cache@.entries;
                if coherent_with(entries, state.ledger@) {
                    assert forall|i: int, other: Seq<char>|
                        0 <= i < next.len() && (#[trigger] next[i]).key == #[trigger] user_key(
                            other,
                        ) implies next[i].value == card_list_bytes(
                        state.ledger@.cards_of(other),
                    ) by {
                        if i < kept.len() {
                            lemma_without_keeps(entries, key@, i);
                            let j = choose|j: int| 0 <= j < entries.len() && entries[j] == kept[i];
                            assert(entries[j].key == user_key(other));
                        } else {
                            lemma_user_key_injective(other, user_id@);
                        }
                    }
                }
            }
        },
        None => {},
    }
    EncodedList { body, from_cache: false }
}

/// The encoded history of a card of `user_id`: every event since the
/// last reset, newest first. A card that the requester does not own is
/// not found.
pub fn get_history(state: &AppState, user_id: &String, payload: GetHistoryPayload) -> (res: Result<
    Vec<u8>,
    AppError,
>)
    ensures
        match state.model().history_of(payload.card_id@, user_id@) {
            Ok(entries) => res matches Ok(body) && body@ == history_list_bytes(entries),
            Err(e) => res matches Err(answer) && answer.0 == e.status() && answer.1@
                == refusal_text(e, "view the history of"@),
        },
{
    match state.ledger.history(&payload.card_id, user_id) {
        Err(e) => Err(AppError::refusing(e, "view the history of")),
        Ok(list) => Ok(list.encode_to_vec()),
    }
}

} // verus!
