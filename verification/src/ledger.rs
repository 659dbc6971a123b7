//! The ledger: every card with its running state and its event log, and
//! the atomic operations that change them together.

use crate::balance::RunningState;
use crate::error::LedgerError;
use crate::event_log::{
    entries_of, events_view, history_of, last_total, newest_first, previous_total, EventView,
    TransactionEvent,
};
use crate::timestamp::Timestamp;
use crate::wire::{Card, CardHistoryList, CardList, CardMessage, HistoryMessage};
use vstd::prelude::*;

verus! {

/// A card as it is stored: its identity, its owner, and what is shown of
/// it. Each colour is one packed 24-bit integer.
pub struct CardRecord {
    pub card_id: String,
    pub user_id: String,
    pub card_name: String,
    pub card_bank: String,
    pub card_primary_color: i32,
    pub card_secondary_color: i32,
}

/// What a stored card holds, as plain values.
pub struct CardView {
    pub card_id: Seq<char>,
    pub user_id: Seq<char>,
    pub card_name: Seq<char>,
    pub card_bank: Seq<char>,
    pub card_primary_color: i32,
    pub card_secondary_color: i32,
}

impl View for CardRecord {
    type V = CardView;

    open spec fn view(&self) -> CardView {
        CardView {
            card_id: self.card_id@,
            user_id: self.user_id@,
            card_name: self.card_name@,
            card_bank: self.card_bank@,
            card_primary_color: self.card_primary_color,
            card_secondary_color: self.card_secondary_color,
        }
    }
}

/// A card together with its running state and its events, oldest first.
pub struct Account {
    pub card: CardRecord,
    pub state: RunningState,
    pub events: Vec<TransactionEvent>,
}

/// What an account holds, as plain values.
pub struct AccountView {
    pub card: CardView,
    pub state: RunningState,
    pub events: Seq<EventView>,
}

impl View for Account {
    type V = AccountView;

    open spec fn view(&self) -> AccountView {
        AccountView { card: self.card@, state: self.state, events: events_view(self.events@) }
    }
}

/// Whether one of `events` has the id `transaction_id`.
pub open spec fn log_names(events: Seq<EventView>, transaction_id: Seq<char>) -> bool {
    exists|j: int| 0 <= j < events.len() && (#[trigger] events[j]).transaction_id == transaction_id
}

impl AccountView {
    /// The ownership predicate: this is the card `card_id`, and `user_id`
    /// owns it.
    pub open spec fn belongs_to(self, card_id: Seq<char>, user_id: Seq<char>) -> bool {
        self.card.card_id == card_id && self.card.user_id == user_id
    }

    /// Whether one of this account's events has the id `transaction_id`.
    pub open spec fn holds_transaction(self, transaction_id: Seq<char>) -> bool {
        log_names(self.events, transaction_id)
    }

    /// The account of a card just created at `now`: zero balance, no
    /// events.
    pub open spec fn fresh(card: CardView, now: Timestamp) -> AccountView {
        AccountView { card, state: RunningState::opened(now), events: Seq::empty() }
    }

    /// This account after `reported` was accepted at `now` under the id
    /// `transaction_id`: one more event, and the state advanced to it.
    pub open spec fn with_transaction(
        self,
        transaction_id: Seq<char>,
        reported: i64,
        now: Timestamp,
    ) -> AccountView {
        AccountView {
            card: self.card,
            state: self.state.advanced(reported, now),
            events: self.events.push(
                EventView {
                    transaction_id,
                    card_id: self.card.card_id,
                    total_due_input: reported,
                    timestamp: now,
                },
            ),
        }
    }

    /// This account after a reset at `now`: no events, zero balance.
    pub open spec fn cleared(self, now: Timestamp) -> AccountView {
        AccountView { card: self.card, state: RunningState::opened(now), events: Seq::empty() }
    }

    /// This account with the shown attributes of its card replaced.
    /// Identity and owner stay.
    pub open spec fn retitled(
        self,
        card_name: Seq<char>,
        card_bank: Seq<char>,
        card_primary_color: i32,
        card_secondary_color: i32,
    ) -> AccountView {
        AccountView {
            card: CardView {
                card_id: self.card.card_id,
                user_id: self.card.user_id,
                card_name,
                card_bank,
                card_primary_color,
                card_secondary_color,
            },
            state: self.state,
            events: self.events,
        }
    }

    /// This account as a card of a list: what is shown of it, and its
    /// balance.
    pub open spec fn shown(self) -> CardMessage {
        CardMessage {
            card_id: self.card.card_id,
            card_name: self.card.card_name,
            card_bank: self.card.card_bank,
            card_primary_color: self.card.card_primary_color,
            card_secondary_color: self.card.card_secondary_color,
            last_total_due: Some(self.state.last_total_due),
            last_delta: Some(self.state.last_delta),
        }
    }

    /// Event log and running state agree: the balance is the total of the
    /// newest event (zero without one), the delta is its difference from
    /// the total before, and every event names this card.
    pub open spec fn consistent(self) -> bool {
        &&& self.state.wf()
        &&& self.state.last_total_due == last_total(self.events)
        &&& self.state.last_delta == last_total(self.events) - previous_total(self.events)
        &&& forall|j: int|
            0 <= j < self.events.len() ==> (#[trigger] self.events[j]).card_id
                == self.card.card_id
    }
}

/// The cards among `accounts` that `user_id` owns, as shown in a list, in
/// the order of the accounts.
pub open spec fn cards_shown(accounts: Seq<AccountView>, user_id: Seq<char>) -> Seq<CardMessage>
    decreases accounts.len(),
{
    if accounts.len() == 0 {
        Seq::empty()
    } else if accounts.last().card.user_id == user_id {
        cards_shown(accounts.drop_last(), user_id).push(accounts.last().shown())
    } else {
        cards_shown(accounts.drop_last(), user_id)
    }
}

/// A card pushed onto the accounts shows at the end of its owner's list and
/// in no other list.
pub proof fn lemma_cards_shown_push(accounts: Seq<AccountView>, account: AccountView, user_id: Seq<char>)
    ensures
        cards_shown(accounts.push(account), user_id) == if account.card.user_id == user_id {
            cards_shown(accounts, user_id).push(account.shown())
        } else {
            cards_shown(accounts, user_id)
        },
{
    assert(accounts.push(account).drop_last() =~= accounts);
}

/// Replacing an account changes no list but its owner's.
pub proof fn lemma_cards_shown_update(
    accounts: Seq<AccountView>,
    i: int,
    account: AccountView,
    user_id: Seq<char>,
)
    requires
        0 <= i < accounts.len(),
        accounts[i].card.user_id != user_id,
        account.card.user_id != user_id,
    ensures
        cards_shown(accounts.update(i, account), user_id) == cards_shown(accounts, user_id),
    decreases accounts.len(),
{
    let next = accounts.update(i, account);
    if i == accounts.len() - 1 {
        assert(next.drop_last() =~= accounts.drop_last());
    } else {
        assert(next.drop_last() =~= accounts.drop_last().update(i, account));
        lemma_cards_shown_update(accounts.drop_last(), i, account, user_id);
    }
}

/// Removing an account changes no list but its owner's.
pub proof fn lemma_cards_shown_remove(accounts: Seq<AccountView>, i: int, user_id: Seq<char>)
    requires
        0 <= i < accounts.len(),
        accounts[i].card.user_id != user_id,
    ensures
        cards_shown(accounts.remove(i), user_id) == cards_shown(accounts, user_id),
    decreases accounts.len(),
{
    let next = accounts.remove(i);
    if i == accounts.len() - 1 {
        assert(next =~= accounts.drop_last());
    } else {
        assert(next.drop_last() =~= accounts.drop_last().remove(i));
        assert(next.last() == accounts.last());
        lemma_cards_shown_remove(accounts.drop_last(), i, user_id);
    }
}

/// Every card of a user's list is the card of an account of that user.
pub proof fn lemma_cards_shown_owned(accounts: Seq<AccountView>, user_id: Seq<char>, k: int)
    requires
        0 <= k < cards_shown(accounts, user_id).len(),
    ensures
        exists|j: int|
            0 <= j < accounts.len() && (#[trigger] accounts[j]).card.user_id == user_id
                && cards_shown(accounts, user_id)[k] == accounts[j].shown(),
    decreases accounts.len(),
{
    let front = accounts.drop_last();
    if accounts.last().card.user_id == user_id && k == cards_shown(front, user_id).len() {
        assert(accounts[accounts.len() - 1].card.user_id == user_id);
    } else {
        lemma_cards_shown_owned(front, user_id, k);
        let j = choose|j: int|
            0 <= j < front.len() && (#[trigger] front[j]).card.user_id == user_id && cards_shown(
                front,
                user_id,
            )[k] == front[j].shown();
        assert(accounts[j].card.user_id == user_id);
    }
}

/// What a ledger holds: its accounts in the order of their creation.
pub struct LedgerView {
    pub accounts: Seq<AccountView>,
}

impl LedgerView {
    /// The ledger without any card.
    pub open spec fn empty() -> LedgerView {
        LedgerView { accounts: Seq::empty() }
    }

    /// Whether some account is the card `card_id`, whoever owns it.
    pub open spec fn holds_card(self, card_id: Seq<char>) -> bool {
        exists|i: int|
            0 <= i < self.accounts.len() && (#[trigger] self.accounts[i]).card.card_id
                == card_id
    }

    /// Whether some event of some account has the id `transaction_id`.
    pub open spec fn holds_transaction(self, transaction_id: Seq<char>) -> bool {
        exists|i: int|
            0 <= i < self.accounts.len() && (#[trigger] self.accounts[i]).holds_transaction(
                transaction_id,
            )
    }

    /// The cards that `user_id` owns, as shown in a list.
    pub open spec fn cards_of(self, user_id: Seq<char>) -> Seq<CardMessage> {
        cards_shown(self.accounts, user_id)
    }

    /// The history of the card `card_id` of `user_id`: its events, newest
    /// first.
    pub open spec fn history_of(self, card_id: Seq<char>, user_id: Seq<char>) -> Result<
        Seq<HistoryMessage>,
        LedgerError,
    > {
        match self.locate(card_id, user_id) {
            None => Err(LedgerError::NotFound),
            Some(i) => Ok(newest_first(entries_of(self.accounts[i].events))),
        }
    }

    /// `i` is the first account that is the card `card_id` owned by
    /// `user_id`.
    pub open spec fn is_position(self, i: int, card_id: Seq<char>, user_id: Seq<char>) -> bool {
        &&& 0 <= i < self.accounts.len()
        &&& self.accounts[i].belongs_to(card_id, user_id)
        &&& forall|j: int|
            0 <= j < i ==> !(#[trigger] self.accounts[j]).belongs_to(card_id, user_id)
    }

    /// Where the card `card_id` of `user_id` stands, if the ledger has it.
    pub open spec fn locate(self, card_id: Seq<char>, user_id: Seq<char>) -> Option<int> {
        if exists|i: int| self.is_position(i, card_id, user_id) {
            Some(choose|i: int| self.is_position(i, card_id, user_id))
        } else {
            None
        }
    }

    /// No two accounts are the same card, no two events anywhere share a
    /// transaction id, and every account is consistent.
    pub open spec fn wf(self) -> bool {
        &&& forall|i: int, j: int|
            0 <= i < j < self.accounts.len() ==> (#[trigger] self.accounts[i]).card.card_id != (
            #[trigger] self.accounts[j]).card.card_id
        &&& forall|i: int| 0 <= i < self.accounts.len() ==> (#[trigger] self.accounts[i]).consistent()
        &&& forall|i: int, j: int, k: int, l: int|
            0 <= i < self.accounts.len() && 0 <= k < self.accounts.len() && 0 <= j
                < self.accounts[i].events.len() && 0 <= l < self.accounts[k].events.len() && (i, j)
                != (k, l) ==> (#[trigger] self.accounts[i].events[j]).transaction_id != (
            #[trigger] self.accounts[k].events[l]).transaction_id
    }

    /// The ledger after a card was created at `now`: a fresh account at
    /// the end. A card id that is already taken is a storage failure, and
    /// nothing changes.
    pub open spec fn after_create(self, card: CardView, now: Timestamp) -> Result<
        LedgerView,
        LedgerError,
    > {
        if self.holds_card(card.card_id) {
            Err(LedgerError::Persistence)
        } else {
            Ok(LedgerView { accounts: self.accounts.push(AccountView::fresh(card, now)) })
        }
    }

    /// The ledger after `user_id` replaced the shown attributes of the
    /// card `card_id`.
    pub open spec fn after_update(
        self,
        card_id: Seq<char>,
        user_id: Seq<char>,
        card_name: Seq<char>,
        card_bank: Seq<char>,
        card_primary_color: i32,
        card_secondary_color: i32,
    ) -> Result<LedgerView, LedgerError> {
        match self.locate(card_id, user_id) {
            None => Err(LedgerError::NotFound),
            Some(i) => Ok(
                LedgerView {
                    accounts: self.accounts.update(
                        i,
                        self.accounts[i].retitled(
                            card_name,
                            card_bank,
                            card_primary_color,
                            card_secondary_color,
                        ),
                    ),
                },
            ),
        }
    }

    /// The ledger after `user_id` deleted the card `card_id`: the card
    /// leaves together with its running state and its events.
    pub open spec fn after_delete(self, card_id: Seq<char>, user_id: Seq<char>) -> Result<
        LedgerView,
        LedgerError,
    > {
        match self.locate(card_id, user_id) {
            None => Err(LedgerError::NotFound),
            Some(i) => Ok(LedgerView { accounts: self.accounts.remove(i) }),
        }
    }

    /// The ledger after `user_id` reported the total `reported` for the
    /// card `card_id` at `now`, and the change it made. The event is
    /// appended and the state advanced together, or neither: the card
    /// must belong to the requester, the transaction id must be new, and
    /// the policy must admit the total.
    pub open spec fn after_transaction(
        self,
        card_id: Seq<char>,
        user_id: Seq<char>,
        transaction_id: Seq<char>,
        reported: i64,
        now: Timestamp,
    ) -> Result<(LedgerView, i64), LedgerError> {
        match self.locate(card_id, user_id) {
            None => Err(LedgerError::NotFound),
            Some(i) => if self.holds_transaction(transaction_id) {
                Err(LedgerError::Persistence)
            } else if !self.accounts[i].state.accepts(reported) {
                Err(LedgerError::StaleTransaction)
            } else {
                Ok(
                    (
                        LedgerView {
                            accounts: self.accounts.update(
                                i,
                                self.accounts[i].with_transaction(transaction_id, reported, now),
                            ),
                        },
                        (reported - self.accounts[i].state.last_total_due) as i64,
                    ),
                )
            },
        }
    }

    /// The ledger after `user_id` reset the card `card_id` at `now`: its
    /// events are gone and its balance is zero.
    pub open spec fn after_reset(self, card_id: Seq<char>, user_id: Seq<char>, now: Timestamp) -> Result<
        LedgerView,
        LedgerError,
    > {
        match self.locate(card_id, user_id) {
            None => Err(LedgerError::NotFound),
            Some(i) => Ok(
                LedgerView { accounts: self.accounts.update(i, self.accounts[i].cleared(now)) },
            ),
        }
    }

    /// Ownership isolation of a reset: it changes no list but that of
    /// the requester.
    pub proof fn lemma_reset_isolated(
        self,
        card_id: Seq<char>,
        user_id: Seq<char>,
        now: Timestamp,
        other: Seq<char>,
    )
        requires
            other != user_id,
        ensures
            self.after_reset(card_id, user_id, now) matches Ok(next) ==> next.cards_of(other)
                == self.cards_of(other),
    {
        if let Some(i) = self.locate(card_id, user_id) {
            lemma_cards_shown_update(self.accounts, i, self.accounts[i].cleared(now), other);
        }
    }

    /// Ownership isolation of a report: it changes no list but that of
    /// the requester.
    pub proof fn lemma_transaction_isolated(
        self,
        card_id: Seq<char>,
        user_id: Seq<char>,
        transaction_id: Seq<char>,
        reported: i64,
        now: Timestamp,
        other: Seq<char>,
    )
        requires
            other != user_id,
        ensures
            self.after_transaction(card_id, user_id, transaction_id, reported, now) matches Ok(
                (next, _),
            ) ==> next.cards_of(other) == self.cards_of(other),
    {
        if let Some(i) = self.locate(card_id, user_id) {
            lemma_cards_shown_update(
                self.accounts,
                i,
                self.accounts[i].with_transaction(transaction_id, reported, now),
                other,
            );
        }
    }

    /// Ownership isolation of a creation: the new card shows in no list
    /// but that of its owner.
    pub proof fn lemma_create_isolated(self, card: CardView, now: Timestamp, other: Seq<char>)
        requires
            other != card.user_id,
        ensures
            self.after_create(card, now) matches Ok(next) ==> next.cards_of(other)
                == self.cards_of(other),
    {
        lemma_cards_shown_push(self.accounts, AccountView::fresh(card, now), other);
    }

    /// Ownership isolation of an update: it changes no list but that of
    /// the requester.
    pub proof fn lemma_update_isolated(
        self,
        card_id: Seq<char>,
        user_id: Seq<char>,
        card_name: Seq<char>,
        card_bank: Seq<char>,
        card_primary_color: i32,
        card_secondary_color: i32,
        other: Seq<char>,
    )
        requires
            other != user_id,
        ensures
            self.after_update(
                card_id,
                user_id,
                card_name,
                card_bank,
                card_primary_color,
                card_secondary_color,
            ) matches Ok(next) ==> next.cards_of(other) == self.cards_of(other),
    {
        if let Some(i) = self.locate(card_id, user_id) {
            lemma_cards_shown_update(
                self.accounts,
                i,
                self.accounts[i].retitled(
                    card_name,
                    card_bank,
                    card_primary_color,
                    card_secondary_color,
                ),
                other,
            );
        }
    }

    /// Ownership isolation of a deletion: it changes no list but that of
    /// the requester.
    pub proof fn lemma_delete_isolated(
        self,
        card_id: Seq<char>,
        user_id: Seq<char>,
        other: Seq<char>,
    )
        requires
            other != user_id,
        ensures
            self.after_delete(card_id, user_id) matches Ok(next) ==> next.cards_of(other)
                == self.cards_of(other),
    {
        if let Some(i) = self.locate(card_id, user_id) {
            lemma_cards_shown_remove(self.accounts, i, other);
        }
    }

    /// `locate` names the first account of the requester's card, with
    /// nothing of the kind before it, or none where there is none.
    pub proof fn lemma_locate(self, card_id: Seq<char>, user_id: Seq<char>)
        ensures
            match self.locate(card_id, user_id) {
                Some(i) => self.is_position(i, card_id, user_id),
                None => forall|j: int|
                    0 <= j < self.accounts.len() ==> !(#[trigger] self.accounts[j]).belongs_to(
                        card_id,
                        user_id,
                    ),
            },
    {
        if self.locate(card_id, user_id).is_none() {
            assert forall|j: int| 0 <= j < self.accounts.len() implies !(
            #[trigger] self.accounts[j]).belongs_to(card_id, user_id) by {
                if self.accounts[j].belongs_to(card_id, user_id) {
                    self.lemma_first_exists(j, card_id, user_id);
                }
            }
        }
    }

    /// Where some account belongs to the requester, there is a first one.
    proof fn lemma_first_exists(self, j: int, card_id: Seq<char>, user_id: Seq<char>)
        requires
            0 <= j < self.accounts.len(),
            self.accounts[j].belongs_to(card_id, user_id),
        ensures
            exists|i: int| self.is_position(i, card_id, user_id),
        decreases j,
    {
        if exists|k: int| 0 <= k < j && (#[trigger] self.accounts[k]).belongs_to(card_id, user_id) {
            let k = choose|k: int|
                0 <= k < j && (#[trigger] self.accounts[k]).belongs_to(card_id, user_id);
            self.lemma_first_exists(k, card_id, user_id);
        } else {
            assert(self.is_position(j, card_id, user_id));
        }
    }

    /// Creating a card keeps the ledger well formed.
    pub proof fn lemma_create_keeps_wf(self, card: CardView, now: Timestamp)
        requires
            self.wf(),
        ensures
            self.after_create(card, now) matches Ok(next) ==> next.wf(),
    {
        if let Ok(next) = self.after_create(card, now) {
            let n = self.accounts.len() as int;
            assert forall|i: int, j: int| 0 <= i < j < next.accounts.len() implies (
            #[trigger] next.accounts[i]).card.card_id != (#[trigger] next.accounts[j]).card.card_id by {
                if j == n {
                    assert(self.accounts[i].card.card_id != card.card_id);
                } else {
                    assert(self.accounts[i].card.card_id != self.accounts[j].card.card_id);
                }
            }
            assert forall|i: int| 0 <= i < next.accounts.len() implies (
            #[trigger] next.accounts[i]).consistent() by {
                if i < n {
                    assert(self.accounts[i].consistent());
                }
            }
            assert forall|i: int, j: int, k: int, l: int|
                0 <= i < next.accounts.len() && 0 <= k < next.accounts.len() && 0 <= j
                    < next.accounts[i].events.len() && 0 <= l < next.accounts[k].events.len() && (
                i, j) != (k, l) implies (#[trigger] next.accounts[i].events[j]).transaction_id != (
            #[trigger] next.accounts[k].events[l]).transaction_id by {
                assert(self.accounts[i].events[j].transaction_id
                    != self.accounts[k].events[l].transaction_id);
            }
        }
    }

    /// Updating what is shown of a card keeps the ledger well formed.
    pub proof fn lemma_update_keeps_wf(
        self,
        card_id: Seq<char>,
        user_id: Seq<char>,
        card_name: Seq<char>,
        card_bank: Seq<char>,
        card_primary_color: i32,
        card_secondary_color: i32,
    )
        requires
            self.wf(),
        ensures
            self.after_update(
                card_id,
                user_id,
                card_name,
                card_bank,
                card_primary_color,
                card_secondary_color,
            ) matches Ok(next) ==> next.wf(),
    {
        self.lemma_locate(card_id, user_id);
        if let Ok(next) = self.after_update(
            card_id,
            user_id,
            card_name,
            card_bank,
            card_primary_color,
            card_secondary_color,
        ) {
            assert forall|i: int, j: int| 0 <= i < j < next.accounts.len() implies (
            #[trigger] next.accounts[i]).card.card_id != (#[trigger] next.accounts[j]).card.card_id by {
                assert(self.accounts[i].card.card_id != self.accounts[j].card.card_id);
            }
            assert forall|i: int| 0 <= i < next.accounts.len() implies (
            #[trigger] next.accounts[i]).consistent() by {
                assert(self.accounts[i].consistent());
            }
            assert forall|i: int, j: int, k: int, l: int|
                0 <= i < next.accounts.len() && 0 <= k < next.accounts.len() && 0 <= j
                    < next.accounts[i].events.len() && 0 <= l < next.accounts[k].events.len() && (
                i, j) != (k, l) implies (#[trigger] next.accounts[i].events[j]).transaction_id != (
            #[trigger] next.accounts[k].events[l]).transaction_id by {
                assert(self.accounts[i].events[j].transaction_id
                    != self.accounts[k].events[l].transaction_id);
            }
        }
    }

    /// Deleting a card keeps the ledger well formed.
    pub proof fn lemma_delete_keeps_wf(self, card_id: Seq<char>, user_id: Seq<char>)
        requires
            self.wf(),
        ensures
            self.after_delete(card_id, user_id) matches Ok(next) ==> next.wf(),
    {
        self.lemma_locate(card_id, user_id);
        if let Ok(next) = self.after_delete(card_id, user_id) {
            let at = self.locate(card_id, user_id).unwrap();
            let was = |i: int|
                if i < at {
                    i
                } else {
                    i + 1
                };
            assert forall|i: int| 0 <= i < next.accounts.len() implies #[trigger] next.accounts[i]
                == self.accounts[was(i)] by {}
            assert forall|i: int, j: int| 0 <= i < j < next.accounts.len() implies (
            #[trigger] next.accounts[i]).card.card_id != (#[trigger] next.accounts[j]).card.card_id by {
                assert(self.accounts[was(i)].card.card_id != self.accounts[was(j)].card.card_id);
            }
            assert forall|i: int| 0 <= i < next.accounts.len() implies (
            #[trigger] next.accounts[i]).consistent() by {
                assert(self.accounts[was(i)].consistent());
            }
            assert forall|i: int, j: int, k: int, l: int|
                0 <= i < next.accounts.len() && 0 <= k < next.accounts.len() && 0 <= j
                    < next.accounts[i].events.len() && 0 <= l < next.accounts[k].events.len() && (
                i, j) != (k, l) implies (#[trigger] next.accounts[i].events[j]).transaction_id != (
            #[trigger] next.accounts[k].events[l]).transaction_id by {
                assert(self.accounts[was(i)].events[j].transaction_id
                    != self.accounts[was(k)].events[l].transaction_id);
            }
        }
    }

    /// Balance correctness as an invariant: accepting a report keeps the
    /// ledger well formed, so that the balance of every card stays the
    /// total of its newest event and the delta its difference from the
    /// total before.
    pub proof fn lemma_transaction_keeps_wf(
        self,
        card_id: Seq<char>,
        user_id: Seq<char>,
        transaction_id: Seq<char>,
        reported: i64,
        now: Timestamp,
    )
        requires
            self.wf(),
        ensures
            self.after_transaction(card_id, user_id, transaction_id, reported, now) matches Ok(
                (next, _),
            ) ==> next.wf(),
    {
        self.lemma_locate(card_id, user_id);
        if let Ok((next, _)) = self.after_transaction(
            card_id,
            user_id,
            transaction_id,
            reported,
            now,
        ) {
            let at = self.locate(card_id, user_id).unwrap();
            let before = self.accounts[at];
            let after = next.accounts[at];
            assert(before.consistent());
            assert forall|i: int, j: int| 0 <= i < j < next.accounts.len() implies (
            #[trigger] next.accounts[i]).card.card_id != (#[trigger] next.accounts[j]).card.card_id by {
                assert(self.accounts[i].card.card_id != self.accounts[j].card.card_id);
            }
            assert(after.events.drop_last() =~= before.events);
            assert forall|i: int| 0 <= i < next.accounts.len() implies (
            #[trigger] next.accounts[i]).consistent() by {
                if i == at {
                    assert forall|j: int| 0 <= j < after.events.len() implies (
                    #[trigger] after.events[j]).card_id == after.card.card_id by {
                        if j < before.events.len() {
                            assert(before.events[j].card_id == before.card.card_id);
                        }
                    }
                } else {
                    assert(self.accounts[i].consistent());
                }
            }
            assert forall|i: int, j: int, k: int, l: int|
                0 <= i < next.accounts.len() && 0 <= k < next.accounts.len() && 0 <= j
                    < next.accounts[i].events.len() && 0 <= l < next.accounts[k].events.len() && (
                i, j) != (k, l) implies (#[trigger] next.accounts[i].events[j]).transaction_id != (
            #[trigger] next.accounts[k].events[l]).transaction_id by {
                let fresh_j = i == at && j == before.events.len();
                let fresh_l = k == at && l == before.events.len();
                if fresh_j {
                    assert(!self.accounts[k].holds_transaction(transaction_id));
                    assert(self.accounts[k].events[l].transaction_id != transaction_id);
                } else if fresh_l {
                    assert(!self.accounts[i].holds_transaction(transaction_id));
                    assert(self.accounts[i].events[j].transaction_id != transaction_id);
                } else {
                    assert(self.accounts[i].events[j].transaction_id
                        != self.accounts[k].events[l].transaction_id);
                }
            }
        }
    }

    /// Resetting a card keeps the ledger well formed.
    pub proof fn lemma_reset_keeps_wf(self, card_id: Seq<char>, user_id: Seq<char>, now: Timestamp)
        requires
            self.wf(),
        ensures
            self.after_reset(card_id, user_id, now) matches Ok(next) ==> next.wf(),
    {
        self.lemma_locate(card_id, user_id);
        if let Ok(next) = self.after_reset(card_id, user_id, now) {
            let at = self.locate(card_id, user_id).unwrap();
            assert forall|i: int, j: int| 0 <= i < j < next.accounts.len() implies (
            #[trigger] next.accounts[i]).card.card_id != (#[trigger] next.accounts[j]).card.card_id by {
                assert(self.accounts[i].card.card_id != self.accounts[j].card.card_id);
            }
            assert forall|i: int| 0 <= i < next.accounts.len() implies (
            #[trigger] next.accounts[i]).consistent() by {
                if i != at {
                    assert(self.accounts[i].consistent());
                }
            }
            assert forall|i: int, j: int, k: int, l: int|
                0 <= i < next.accounts.len() && 0 <= k < next.accounts.len() && 0 <= j
                    < next.accounts[i].events.len() && 0 <= l < next.accounts[k].events.len() && (
                i, j) != (k, l) implies (#[trigger] next.accounts[i].events[j]).transaction_id != (
            #[trigger] next.accounts[k].events[l]).transaction_id by {
                assert(self.accounts[i].events[j].transaction_id
                    != self.accounts[k].events[l].transaction_id);
            }
        }
    }

    /// Ownership isolation: in a well-formed ledger, whoever does not own
    /// a card is told that it is not found, whatever is asked of it, and
    /// the card shows in no list of theirs.
    pub proof fn lemma_foreign_card_not_found(self, i: int, requester: Seq<char>)
        requires
            self.wf(),
            0 <= i < self.accounts.len(),
            self.accounts[i].card.user_id != requester,
        ensures
            ({
                let card_id = self.accounts[i].card.card_id;
                &&& self.locate(card_id, requester).is_none()
                &&& self.after_delete(card_id, requester) == Err::<LedgerView, LedgerError>(
                    LedgerError::NotFound,
                )
                &&& self.history_of(card_id, requester) == Err::<Seq<HistoryMessage>, LedgerError>(
                    LedgerError::NotFound,
                )
                &&& forall|now: Timestamp| #[trigger]
                    self.after_reset(card_id, requester, now) == Err::<LedgerView, LedgerError>(
                        LedgerError::NotFound,
                    )
                &&& forall|transaction_id: Seq<char>, reported: i64, now: Timestamp| #[trigger]
                    self.after_transaction(card_id, requester, transaction_id, reported, now)
                        == Err::<(LedgerView, i64), LedgerError>(LedgerError::NotFound)
                &&& forall|
                    card_name: Seq<char>,
                    card_bank: Seq<char>,
                    card_primary_color: i32,
                    card_secondary_color: i32,
                | #[trigger]
                    self.after_update(
                        card_id,
                        requester,
                        card_name,
                        card_bank,
                        card_primary_color,
                        card_secondary_color,
                    ) == Err::<LedgerView, LedgerError>(LedgerError::NotFound)
                &&& forall|k: int|
                    0 <= k < self.cards_of(requester).len() ==> (#[trigger] self.cards_of(
                        requester,
                    )[k]).card_id != card_id
            }),
    {
        let card_id = self.accounts[i].card.card_id;
        assert forall|j: int| 0 <= j < self.accounts.len() implies !(
        #[trigger] self.accounts[j]).belongs_to(card_id, requester) by {
            if j != i && self.accounts[j].card.card_id == card_id {
                if j < i {
                    assert(self.accounts[j].card.card_id != self.accounts[i].card.card_id);
                } else {
                    assert(self.accounts[i].card.card_id != self.accounts[j].card.card_id);
                }
            }
        }
        self.lemma_not_located(card_id, requester);
        assert forall|k: int| 0 <= k < self.cards_of(requester).len() implies (
        #[trigger] self.cards_of(requester)[k]).card_id != card_id by {
            lemma_cards_shown_owned(self.accounts, requester, k);
            let j = choose|j: int|
                0 <= j < self.accounts.len() && (#[trigger] self.accounts[j]).card.user_id
                    == requester && cards_shown(self.accounts, requester)[k]
                    == self.accounts[j].shown();
            assert(!self.accounts[j].belongs_to(card_id, requester));
        }
    }

    /// Reset idempotence: a reset leaves the card as a card just created
    /// is, with an empty history and a zero balance, so that whatever is
    /// asked of it next is answered as for a new card; and a second reset
    /// changes nothing.
    pub proof fn lemma_reset_as_new(self, card_id: Seq<char>, user_id: Seq<char>, now: Timestamp)
        ensures
            self.after_reset(card_id, user_id, now) matches Ok(next) ==> ({
                let i = self.locate(card_id, user_id).unwrap();
                &&& next.accounts.len() == self.accounts.len()
                &&& next.accounts[i] == AccountView::fresh(self.accounts[i].card, now)
                &&& next.accounts[i].state == RunningState::opened(now)
                &&& next.locate(card_id, user_id) == Some(i)
                &&& next.history_of(card_id, user_id) == Ok::<Seq<HistoryMessage>, LedgerError>(
                    Seq::empty(),
                )
                &&& next.after_reset(card_id, user_id, now) == Ok::<LedgerView, LedgerError>(next)
            }),
    {
        self.lemma_locate(card_id, user_id);
        if let Ok(next) = self.after_reset(card_id, user_id, now) {
            let i = self.locate(card_id, user_id).unwrap();
            assert(next.is_position(i, card_id, user_id)) by {
                assert forall|j: int| 0 <= j < i implies !(#[trigger] next.accounts[j]).belongs_to(
                    card_id,
                    user_id,
                ) by {
                    assert(!self.accounts[j].belongs_to(card_id, user_id));
                }
            }
            next.lemma_located(i, card_id, user_id);
            assert(entries_of(next.accounts[i].events) =~= Seq::empty());
            assert(next.accounts.update(i, next.accounts[i].cleared(now)) =~= next.accounts);
        }
    }

    /// The first account found at `i` is what `locate` names.
    pub proof fn lemma_located(self, i: int, card_id: Seq<char>, user_id: Seq<char>)
        requires
            self.is_position(i, card_id, user_id),
        ensures
            self.locate(card_id, user_id) == Some(i),
    {
        let k = choose|k: int| self.is_position(k, card_id, user_id);
        assert(self.is_position(k, card_id, user_id));
        if k < i {
            assert(self.accounts[k].belongs_to(card_id, user_id));
        } else if i < k {
            assert(self.accounts[i].belongs_to(card_id, user_id));
        }
    }

    /// Where no account belongs to the requester, `locate` names none.
    pub proof fn lemma_not_located(self, card_id: Seq<char>, user_id: Seq<char>)
        requires
            forall|j: int|
                0 <= j < self.accounts.len() ==> !(#[trigger] self.accounts[j]).belongs_to(
                    card_id,
                    user_id,
                ),
        ensures
            self.locate(card_id, user_id).is_none(),
    {
    }
}

/// The ledger itself. Its accounts are reached only through its
/// operations.
pub struct Ledger {
    accounts: Vec<Account>,
}

impl View for Ledger {
    type V = LedgerView;

    closed spec fn view(&self) -> LedgerView {
        LedgerView { accounts: self.accounts@.map_values(|a: Account| a@) }
    }
}

/// Whether one of `events` has the id `transaction_id`.
fn log_holds(events: &Vec<TransactionEvent>, transaction_id: &String) -> (found: bool)
    ensures
        found == log_names(events_view(events@), transaction_id@),
{
    let mut j: usize = 0;
    while j < events.len()
        invariant
            j <= events.len(),
            forall|k: int|
                0 <= k < j ==> (#[trigger] events_view(events@)[k]).transaction_id
                    != transaction_id@,
        decreases events.len() - j,
    {
        if events[j].transaction_id == *transaction_id {
            assert(events_view(events@)[j as int].transaction_id == transaction_id@);
            return true;
        }
        j += 1;
    }
    false
}

impl Ledger {
    /// A ledger without any card.
    pub fn new() -> (ledger: Ledger)
        ensures
            ledger@ == LedgerView::empty(),
            ledger@.wf(),
    {
        let ledger = Ledger { accounts: Vec::new() };
        assert(ledger@.accounts =~= Seq::empty());
        ledger
    }

    /// How many cards the ledger holds.
    pub fn len(&self) -> (n: usize)
        ensures
            n == self@.accounts.len(),
    {
        self.accounts.len()
    }

    /// A look at the account at position `i`, if there is one.
    pub fn account(&self, i: usize) -> (account: Option<&Account>)
        ensures
            match account {
                Some(a) => i < self@.accounts.len() && a@ == self@.accounts[i as int],
                None => i >= self@.accounts.len(),
            },
    {
        if i < self.accounts.len() {
            Some(&self.accounts[i])
        } else {
            None
        }
    }

    /// Where the card `card_id` of `user_id` stands, if the ledger has it.
    pub fn find(&self, card_id: &String, user_id: &String) -> (found: Option<usize>)
        ensures
            match found {
                Some(i) => self@.locate(card_id@, user_id@) == Some(i as int),
                None => self@.locate(card_id@, user_id@).is_none(),
            },
            found matches Some(i) ==> self@.is_position(i as int, card_id@, user_id@),
    {
        let mut i: usize = 0;
        while i < self.accounts.len()
            invariant
                i <= self.accounts.len(),
                forall|j: int|
                    0 <= j < i ==> !(#[trigger] self@.accounts[j]).belongs_to(card_id@, user_id@),
            decreases self.accounts.len() - i,
        {
            if self.accounts[i].card.card_id == *card_id && self.accounts[i].card.user_id
                == *user_id {
                proof {
                    assert(self@.accounts[i as int] == self.accounts[i as int]@);
                    assert(self@.is_position(i as int, card_id@, user_id@));
                    self@.lemma_located(i as int, card_id@, user_id@);
                }
                return Some(i);
            }
            assert(!self@.accounts[i as int].belongs_to(card_id@, user_id@));
            i += 1;
        }
        proof {
            self@.lemma_not_located(card_id@, user_id@);
        }
        None
    }

    /// Whether some account is the card `card_id`, whoever owns it.
    pub fn has_card(&self, card_id: &String) -> (found: bool)
        ensures
            found == self@.holds_card(card_id@),
    {
        let mut i: usize = 0;
        while i < self.accounts.len()
            invariant
                i <= self.accounts.len(),
                forall|j: int|
                    0 <= j < i ==> (#[trigger] self@.accounts[j]).card.card_id != card_id@,
            decreases self.accounts.len() - i,
        {
            if self.accounts[i].card.card_id == *card_id {
                assert(self@.accounts[i as int].card.card_id == card_id@);
                return true;
            }
            assert(self@.accounts[i as int].card.card_id != card_id@);
            i += 1;
        }
        false
    }

    /// Whether some event of some account has the id `transaction_id`.
    pub fn has_transaction(&self, transaction_id: &String) -> (found: bool)
        ensures
            found == self@.holds_transaction(transaction_id@),
    {
        let mut i: usize = 0;
        while i < self.accounts.len()
            invariant
                i <= self.accounts.len(),
                forall|j: int|
                    0 <= j < i ==> !(#[trigger] self@.accounts[j]).holds_transaction(
                        transaction_id@,
                    ),
            decreases self.accounts.len() - i,
        {
            assert(self@.accounts[i as int] == self.accounts[i as int]@);
            if log_holds(&self.accounts[i].events, transaction_id) {
                return true;
            }
            i += 1;
        }
        false
    }
    /// Resets the card `card_id` of `user_id` at `now`: deletes all its
    /// events and sets its running state to zero, in one step. A card
    /// that the requester does not own is not found, and nothing changes.
    pub fn reset(&mut self, card_id: &String, user_id: &String, now: Timestamp) -> (res: Result<
        (),
        LedgerError,
    >)
        ensures
            match old(self)@.after_reset(card_id@, user_id@, now) {
                Ok(next) => res.is_ok() && final(self)@ == next,
                Err(e) => res == Err::<(), LedgerError>(e) && final(self)@ == old(self)@,
            },
            old(self)@.wf() ==> final(self)@.wf(),
    {
        proof {
            if self@.wf() {
                self@.lemma_reset_keeps_wf(card_id@, user_id@, now);
            }
        }
        match self.find(card_id, user_id) {
            None => Err(LedgerError::NotFound),
            Some(i) => {
                self.accounts[i].events.clear();
                self.accounts[i].state = RunningState::open(now);
                proof {
                    assert(self.accounts[i as int]@.events =~= Seq::empty());
                    assert(self@.accounts =~= old(self)@.accounts.update(
                        i as int,
                        old(self)@.accounts[i as int].cleared(now),
                    ));
                }
                Ok(())
            },
        }
    }
    /// Records that `user_id` reported the total `reported` for the card
    /// `card_id` at `now`, as one atomic unit: the event is appended, then
    /// the running state is updated under the monotonicity policy; where
    /// that update is refused the appended event is taken back, so that
    /// log and state never part. Returns the change in balance.
    pub fn record(
        &mut self,
        card_id: &String,
        user_id: &String,
        transaction_id: String,
        reported: i64,
        now: Timestamp,
    ) -> (res: Result<i64, LedgerError>)
        ensures
            match old(self)@.after_transaction(
                card_id@,
                user_id@,
                transaction_id@,
                reported,
                now,
            ) {
                Ok((next, change)) => res == Ok::<i64, LedgerError>(change) && final(self)@
                    == next,
                Err(e) => res == Err::<i64, LedgerError>(e) && final(self)@ == old(self)@,
            },
            old(self)@.wf() ==> final(self)@.wf(),
    {
        proof {
            if self@.wf() {
                self@.lemma_transaction_keeps_wf(card_id@, user_id@, transaction_id@, reported, now);
            }
        }
        let i = match self.find(card_id, user_id) {
            None => {
                return Err(LedgerError::NotFound);
            },
            Some(i) => i,
        };
        if self.has_transaction(&transaction_id) {
            return Err(LedgerError::Persistence);
        }
        let ghost before = self@.accounts[i as int];
        assert(before == self.accounts[i as int]@);
        let event = TransactionEvent {
            transaction_id,
            card_id: self.accounts[i].card.card_id.clone(),
            total_due_input: reported,
            timestamp: now,
        };
        let ghost appended = event@;
        self.accounts[i].events.push(event);
        match self.accounts[i].state.conditional_update(reported, now) {
            Some(change) => {
                proof {
                    assert(self.accounts[i as int]@.events =~= before.events.push(appended));
                    assert(self@.accounts =~= old(self)@.accounts.update(
                        i as int,
                        before.with_transaction(transaction_id@, reported, now),
                    ));
                }
                Ok(change)
            },
            None => {
                self.accounts[i].events.pop();
                proof {
                    assert(self.accounts[i as int]@.events =~= before.events);
                    assert(self@.accounts =~= old(self)@.accounts);
                }
                Err(LedgerError::StaleTransaction)
            },
        }
    }
    /// Creates a card with a zero running state at `now`, both or
    /// neither. A card id that is already taken is a storage failure.
    pub fn create(&mut self, card: CardRecord, now: Timestamp) -> (res: Result<(), LedgerError>)
        ensures
            match old(self)@.after_create(card@, now) {
                Ok(next) => res.is_ok() && final(self)@ == next,
                Err(e) => res == Err::<(), LedgerError>(e) && final(self)@ == old(self)@,
            },
            old(self)@.wf() ==> final(self)@.wf(),
    {
        proof {
            if self@.wf() {
                self@.lemma_create_keeps_wf(card@, now);
            }
        }
        if self.has_card(&card.card_id) {
            return Err(LedgerError::Persistence);
        }
        let account = Account { card, state: RunningState::open(now), events: Vec::new() };
        proof {
            assert(account@.events =~= Seq::empty());
        }
        self.accounts.push(account);
        proof {
            assert(self@.accounts =~= old(self)@.accounts.push(AccountView::fresh(card@, now)));
        }
        Ok(())
    }

    /// Replaces the shown attributes of the card `card_id` of `user_id`.
    /// A card that the requester does not own is not found, and nothing
    /// changes.
    pub fn update(
        &mut self,
        card_id: &String,
        user_id: &String,
        card_name: String,
        card_bank: String,
        card_primary_color: i32,
        card_secondary_color: i32,
    ) -> (res: Result<(), LedgerError>)
        ensures
            match old(self)@.after_update(
                card_id@,
                user_id@,
                card_name@,
                card_bank@,
                card_primary_color,
                card_secondary_color,
            ) {
                Ok(next) => res.is_ok() && final(self)@ == next,
                Err(e) => res == Err::<(), LedgerError>(e) && final(self)@ == old(self)@,
            },
            old(self)@.wf() ==> final(self)@.wf(),
    {
        proof {
            if self@.wf() {
                self@.lemma_update_keeps_wf(
                    card_id@,
                    user_id@,
                    card_name@,
                    card_bank@,
                    card_primary_color,
                    card_secondary_color,
                );
            }
        }
        match self.find(card_id, user_id) {
            None => Err(LedgerError::NotFound),
            Some(i) => {
                let ghost before = self@.accounts[i as int];
                assert(before == self.accounts[i as int]@);
                self.accounts[i].card.card_name = card_name;
                self.accounts[i].card.card_bank = card_bank;
                self.accounts[i].card.card_primary_color = card_primary_color;
                self.accounts[i].card.card_secondary_color = card_secondary_color;
                proof {
                    assert(self@.accounts =~= old(self)@.accounts.update(
                        i as int,
                        before.retitled(
                            card_name@,
                            card_bank@,
                            card_primary_color,
                            card_secondary_color,
                        ),
                    ));
                }
                Ok(())
            },
        }
    }

    /// Deletes the card `card_id` of `user_id` together with its running
    /// state and its events. A card that the requester does not own is
    /// not found, and nothing changes.
    pub fn delete(&mut self, card_id: &String, user_id: &String) -> (res: Result<(), LedgerError>)
        ensures
            match old(self)@.after_delete(card_id@, user_id@) {
                Ok(next) => res.is_ok() && final(self)@ == next,
                Err(e) => res == Err::<(), LedgerError>(e) && final(self)@ == old(self)@,
            },
            old(self)@.wf() ==> final(self)@.wf(),
    {
        proof {
            if self@.wf() {
                self@.lemma_delete_keeps_wf(card_id@, user_id@);
            }
        }
        match self.find(card_id, user_id) {
            None => Err(LedgerError::NotFound),
            Some(i) => {
                self.accounts.remove(i);
                proof {
                    assert(self@.accounts =~= old(self)@.accounts.remove(i as int));
                }
                Ok(())
            },
        }
    }

    /// The account of the card `card_id`, if `user_id` owns it.
    pub fn get(&self, card_id: &String, user_id: &String) -> (found: Option<&Account>)
        ensures
            match self@.locate(card_id@, user_id@) {
                Some(i) => found.is_some() && found.unwrap()@ == self@.accounts[i],
                None => found.is_none(),
            },
    {
        match self.find(card_id, user_id) {
            None => None,
            Some(i) => {
                assert(self@.accounts[i as int] == self.accounts[i as int]@);
                Some(&self.accounts[i])
            },
        }
    }
    /// The cards that `user_id` owns, with their balances, in the order
    /// of their creation. Cards of other users are left out.
    pub fn cards_of(&self, user_id: &String) -> (list: CardList)
        ensures
            list.messages() == self@.cards_of(user_id@),
    {
        let mut cards: Vec<Card> = Vec::new();
        let mut i: usize = 0;
        assert(self@.accounts.take(0) =~= Seq::empty());
        assert(cards@.map_values(|c: Card| c@) =~= Seq::empty());
        while i < self.accounts.len()
            invariant
                i <= self.accounts.len(),
                cards@.map_values(|c: Card| c@) == cards_shown(
                    self@.accounts.take(i as int),
                    user_id@,
                ),
            decreases self.accounts.len() - i,
        {
            let account = &self.accounts[i];
            proof {
                let upto = self@.accounts.take(i + 1);
                assert(upto.drop_last() =~= self@.accounts.take(i as int));
                assert(upto.last() == account@);
            }
            if account.card.user_id == *user_id {
                let card = Card {
                    card_id: account.card.card_id.clone(),
                    card_name: account.card.card_name.clone(),
                    card_bank: account.card.card_bank.clone(),
                    card_primary_color: account.card.card_primary_color,
                    card_secondary_color: account.card.card_secondary_color,
                    last_total_due: Some(account.state.last_total_due),
                    last_delta: Some(account.state.last_delta),
                };
                assert(card@ == account@.shown());
                let ghost before = cards@.map_values(|c: Card| c@);
                cards.push(card);
                assert(cards@.map_values(|c: Card| c@) =~= before.push(account@.shown()));
            }
            i += 1;
        }
        assert(self@.accounts.take(i as int) =~= self@.accounts);
        CardList { cards }
    }
    /// The history of the card `card_id` of `user_id`: its events, newest
    /// first. A card that the requester does not own is not found.
    pub fn history(&self, card_id: &String, user_id: &String) -> (res: Result<
        CardHistoryList,
        LedgerError,
    >)
        ensures
            match self@.history_of(card_id@, user_id@) {
                Ok(entries) => res matches Ok(list) && list.messages() == entries,
                Err(e) => res matches Err(refusal) && refusal == e,
            },
    {
        match self.find(card_id, user_id) {
            None => Err(LedgerError::NotFound),
            Some(i) => {
                assert(self@.accounts[i as int] == self.accounts[i as int]@);
                Ok(history_of(&self.accounts[i].events))
            },
        }
    }
}

} // verus!
