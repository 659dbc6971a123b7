//! Transaction events: one reported balance each, kept in the order in
//! which they were accepted.

use crate::timestamp::Timestamp;
use crate::wire::{history_messages, CardHistoryList, CardTransactionHistory, HistoryMessage};
use vstd::prelude::*;

verus! {

/// One accepted report of a card's balance.
pub struct TransactionEvent {
    pub transaction_id: String,
    pub card_id: String,
    pub total_due_input: i64,
    pub timestamp: Timestamp,
}

/// What a transaction event holds, as plain values.
pub struct EventView {
    pub transaction_id: Seq<char>,
    pub card_id: Seq<char>,
    pub total_due_input: i64,
    pub timestamp: Timestamp,
}

impl View for TransactionEvent {
    type V = EventView;

    open spec fn view(&self) -> EventView {
        EventView {
            transaction_id: self.transaction_id@,
            card_id: self.card_id@,
            total_due_input: self.total_due_input,
            timestamp: self.timestamp,
        }
    }
}

/// The events of a log, each by its view.
pub open spec fn events_view(events: Seq<TransactionEvent>) -> Seq<EventView> {
    events.map_values(|e: TransactionEvent| e@)
}

/// The total of the newest event of a log, or zero for an empty log.
pub open spec fn last_total(events: Seq<EventView>) -> int {
    if events.len() == 0 {
        0
    } else {
        events.last().total_due_input as int
    }
}

/// The total of the event before the newest, or zero where there is none.
pub open spec fn previous_total(events: Seq<EventView>) -> int {
    if events.len() == 0 {
        0
    } else {
        last_total(events.drop_last())
    }
}

/// An event as an entry of a history: its id, its total, and its time.
pub open spec fn entry_of(event: EventView) -> HistoryMessage {
    HistoryMessage {
        transaction_id: event.transaction_id,
        total_due_input: event.total_due_input,
        timestamp_seconds: event.timestamp.seconds,
        timestamp_nanos: event.timestamp.nanos,
    }
}

/// The events of a log as history entries, in the order of the log.
pub open spec fn entries_of(events: Seq<EventView>) -> Seq<HistoryMessage> {
    events.map_values(|e: EventView| entry_of(e))
}

/// When a history entry happened.
pub open spec fn stamp(entry: HistoryMessage) -> Timestamp {
    Timestamp { seconds: entry.timestamp_seconds, nanos: entry.timestamp_nanos }
}

/// `sorted` with `entry` put in its place: behind every entry that is not
/// older than it, in front of those that are.
pub open spec fn placed(sorted: Seq<HistoryMessage>, entry: HistoryMessage) -> Seq<HistoryMessage>
    decreases sorted.len(),
{
    if sorted.len() == 0 {
        seq![entry]
    } else if stamp(sorted.last()).not_before(stamp(entry)) {
        sorted.push(entry)
    } else {
        placed(sorted.drop_last(), entry).push(sorted.last())
    }
}

/// The entries by descending time. Entries of the same time keep the
/// order in which they were appended.
pub open spec fn newest_first(entries: Seq<HistoryMessage>) -> Seq<HistoryMessage>
    decreases entries.len(),
{
    if entries.len() == 0 {
        Seq::empty()
    } else {
        placed(newest_first(entries.drop_last()), entries.last())
    }
}

/// No entry of `sorted` is older than one that follows it.
pub open spec fn descending(sorted: Seq<HistoryMessage>) -> bool {
    forall|i: int, j: int|
        0 <= i < j < sorted.len() ==> stamp(#[trigger] sorted[i]).not_before(
            stamp(#[trigger] sorted[j]),
        )
}

/// Where `entry` goes: at the position `p` behind which every entry is
/// older, and in front of which the nearest one is not.
pub proof fn lemma_placed_at(sorted: Seq<HistoryMessage>, entry: HistoryMessage, p: int)
    requires
        0 <= p <= sorted.len(),
        forall|k: int| p <= k < sorted.len() ==> !stamp(#[trigger] sorted[k]).not_before(stamp(entry)),
        p > 0 ==> stamp(sorted[p - 1]).not_before(stamp(entry)),
    ensures
        placed(sorted, entry) == sorted.insert(p, entry),
    decreases sorted.len(),
{
    if sorted.len() == 0 {
        assert(sorted.insert(0, entry) =~= seq![entry]);
    } else if p == sorted.len() {
        assert(sorted.insert(p, entry) =~= sorted.push(entry));
    } else {
        assert(!stamp(sorted[sorted.len() - 1]).not_before(stamp(entry)));
        lemma_placed_at(sorted.drop_last(), entry, p);
        assert(sorted.insert(p, entry) =~= sorted.drop_last().insert(p, entry).push(
            sorted.last(),
        ));
    }
}

/// Putting an entry in its place keeps a descending history descending,
/// and adds this one entry to it.
pub proof fn lemma_placed_descending(sorted: Seq<HistoryMessage>, entry: HistoryMessage)
    requires
        descending(sorted),
    ensures
        descending(placed(sorted, entry)),
        placed(sorted, entry).to_multiset() == sorted.to_multiset().insert(entry),
        placed(sorted, entry).len() == sorted.len() + 1,
    decreases sorted.len(),
{
    broadcast use vstd::seq_lib::group_to_multiset_ensures;

    if sorted.len() == 0 {
        assert(seq![entry] =~= Seq::<HistoryMessage>::empty().push(entry));
        assert(sorted =~= Seq::<HistoryMessage>::empty());
    } else if stamp(sorted.last()).not_before(stamp(entry)) {
        let next = sorted.push(entry);
        assert forall|i: int, j: int| 0 <= i < j < next.len() implies stamp(
            #[trigger] next[i],
        ).not_before(stamp(#[trigger] next[j])) by {
            if j == sorted.len() {
                if i < sorted.len() - 1 {
                    assert(stamp(sorted[i]).not_before(stamp(sorted[sorted.len() - 1])));
                }
            } else {
                assert(stamp(sorted[i]).not_before(stamp(sorted[j])));
            }
        }
    } else {
        let front = sorted.drop_last();
        assert forall|i: int, j: int| 0 <= i < j < front.len() implies stamp(
            #[trigger] front[i],
        ).not_before(stamp(#[trigger] front[j])) by {
            assert(stamp(sorted[i]).not_before(stamp(sorted[j])));
        }
        lemma_placed_descending(front, entry);
        let inner = placed(front, entry);
        let next = inner.push(sorted.last());
        assert(sorted =~= front.push(sorted.last()));
        assert forall|i: int, j: int| 0 <= i < j < next.len() implies stamp(
            #[trigger] next[i],
        ).not_before(stamp(#[trigger] next[j])) by {
            if j == inner.len() {
                assert(inner.to_multiset().count(inner[i]) > 0);
                if inner[i] == entry {
                } else {
                    assert(front.to_multiset().count(inner[i]) > 0);
                    let k = choose|k: int| 0 <= k < front.len() && front[k] == inner[i];
                    assert(stamp(sorted[k]).not_before(stamp(sorted[sorted.len() - 1])));
                }
            } else {
                assert(stamp(inner[i]).not_before(stamp(inner[j])));
            }
        }
        assert(next.to_multiset() =~= sorted.to_multiset().insert(entry));
    }
}

/// Stability: an entry is put behind every entry of the same or a later
/// time that was there before it, and in front of every older one.
pub proof fn lemma_placed_is_stable(sorted: Seq<HistoryMessage>, entry: HistoryMessage)
    requires
        descending(sorted),
    ensures
        exists|p: int|
            0 <= p <= sorted.len() && #[trigger] sorted.insert(p, entry) == placed(sorted, entry)
                && (forall|k: int|
                0 <= k < p ==> stamp(#[trigger] sorted[k]).not_before(stamp(entry))) && (forall|
                k: int,
            | p <= k < sorted.len() ==> !stamp(#[trigger] sorted[k]).not_before(stamp(entry))),
    decreases sorted.len(),
{
    if sorted.len() == 0 {
        lemma_placed_at(sorted, entry, 0);
        assert(sorted.insert(0, entry) == placed(sorted, entry));
    } else if stamp(sorted.last()).not_before(stamp(entry)) {
        let p = sorted.len() as int;
        assert forall|k: int| 0 <= k < p implies stamp(#[trigger] sorted[k]).not_before(
            stamp(entry),
        ) by {
            if k < p - 1 {
                assert(stamp(sorted[k]).not_before(stamp(sorted[p - 1])));
            }
        }
        lemma_placed_at(sorted, entry, p);
        assert(sorted.insert(p, entry) == placed(sorted, entry));
    } else {
        let front = sorted.drop_last();
        assert forall|i: int, j: int| 0 <= i < j < front.len() implies stamp(
            #[trigger] front[i],
        ).not_before(stamp(#[trigger] front[j])) by {
            assert(stamp(sorted[i]).not_before(stamp(sorted[j])));
        }
        lemma_placed_is_stable(front, entry);
        let p = choose|p: int|
            0 <= p <= front.len() && #[trigger] front.insert(p, entry) == placed(front, entry)
                && (forall|k: int|
                0 <= k < p ==> stamp(#[trigger] front[k]).not_before(stamp(entry))) && (forall|
                k: int,
            | p <= k < front.len() ==> !stamp(#[trigger] front[k]).not_before(stamp(entry)));
        assert forall|k: int| 0 <= k < p implies stamp(#[trigger] sorted[k]).not_before(
            stamp(entry),
        ) by {
            assert(front[k] == sorted[k]);
        }
        assert forall|k: int| p <= k < sorted.len() implies !stamp(
            #[trigger] sorted[k],
        ).not_before(stamp(entry)) by {
            if k < front.len() {
                assert(front[k] == sorted[k]);
            }
        }
        lemma_placed_at(sorted, entry, p);
        assert(sorted.insert(p, entry) == placed(sorted, entry));
    }
}

/// The history is descending in time and holds exactly the entries of
/// the log, each as often as the log does.
pub proof fn lemma_newest_first_sorted(entries: Seq<HistoryMessage>)
    ensures
        descending(newest_first(entries)),
        newest_first(entries).to_multiset() == entries.to_multiset(),
        newest_first(entries).len() == entries.len(),
    decreases entries.len(),
{
    broadcast use vstd::seq_lib::group_to_multiset_ensures;

    if entries.len() == 0 {
        assert(entries =~= Seq::<HistoryMessage>::empty());
    } else {
        lemma_newest_first_sorted(entries.drop_last());
        lemma_placed_descending(newest_first(entries.drop_last()), entries.last());
        assert(entries =~= entries.drop_last().push(entries.last()));
    }
}

/// Whether `entry` is older than the instant `seconds`, `nanos`.
fn is_older(entry: &CardTransactionHistory, seconds: i64, nanos: i32) -> (older: bool)
    ensures
        older == !stamp(entry@).not_before(Timestamp { seconds, nanos }),
{
    let then = Timestamp { seconds: entry.timestamp_seconds, nanos: entry.timestamp_nanos };
    !then.is_not_before(&Timestamp { seconds, nanos })
}

/// The history of a log: its events as entries, newest first, those of
/// the same time in the order in which they were appended.
pub fn history_of(events: &Vec<TransactionEvent>) -> (list: CardHistoryList)
    ensures
        list.messages() == newest_first(entries_of(events_view(events@))),
{
    let mut histories: Vec<CardTransactionHistory> = Vec::new();
    let ghost all = entries_of(events_view(events@));
    let mut i: usize = 0;
    assert(all.take(0) =~= Seq::empty());
    assert(history_messages(histories@) =~= Seq::empty());
    while i < events.len()
        invariant
            i <= events.len(),
            all == entries_of(events_view(events@)),
            history_messages(histories@) == newest_first(all.take(i as int)),
        decreases events.len() - i,
    {
        let event = &events[i];
        let entry = CardTransactionHistory {
            transaction_id: event.transaction_id.clone(),
            total_due_input: event.total_due_input,
            timestamp_seconds: event.timestamp.seconds,
            timestamp_nanos: event.timestamp.nanos,
        };
        assert(entry@ == all[i as int]);
        let ghost sorted = history_messages(histories@);
        let mut p: usize = histories.len();
        while p > 0 && is_older(&histories[p - 1], entry.timestamp_seconds, entry.timestamp_nanos)
            invariant
                p <= histories.len(),
                sorted == history_messages(histories@),
                forall|k: int|
                    p <= k < sorted.len() ==> !stamp(#[trigger] sorted[k]).not_before(
                        stamp(entry@),
                    ),
            decreases p,
        {
            assert(sorted[p - 1] == histories[p - 1]@);
            p -= 1;
        }
        proof {
            if p > 0 {
                assert(sorted[p - 1] == histories[p - 1]@);
            }
            lemma_placed_at(sorted, entry@, p as int);
            assert(all.take(i + 1).drop_last() =~= all.take(i as int));
        }
        histories.insert(p, entry);
        assert(history_messages(histories@) =~= sorted.insert(p as int, entry@));
        i += 1;
    }
    assert(all.take(i as int) =~= all);
    CardHistoryList { histories }
}

} // verus!
