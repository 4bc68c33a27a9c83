//! The ledger history: for each account the completed transfers that touched it,
//! numbered in the order in which they were recorded. Entries are only ever added.

use crate::transfer::{Transfer, TransferView};
use vstd::prelude::*;

verus! {

/// The record of one completed transfer in the history of one account.
#[derive(Debug)]
pub struct LedgerEntry {
    /// The entry's number in its account's history: 1 for the first, then 2, and so on.
    pub sequence: u64,
    /// When the transfer was completed.
    pub timestamp: u64,
    /// The transfer.
    pub transfer: Transfer,
}

/// The mathematical value of a [`LedgerEntry`].
pub struct LedgerEntryView {
    pub sequence: u64,
    pub timestamp: u64,
    pub transfer: TransferView,
}

impl View for LedgerEntry {
    type V = LedgerEntryView;

    open spec fn view(&self) -> LedgerEntryView {
        LedgerEntryView {
            sequence: self.sequence,
            timestamp: self.timestamp,
            transfer: self.transfer@,
        }
    }
}

impl Clone for LedgerEntry {
    fn clone(&self) -> (copy: LedgerEntry)
        ensures
            copy@ == self@,
    {
        LedgerEntry {
            sequence: self.sequence,
            timestamp: self.timestamp,
            transfer: self.transfer.clone(),
        }
    }
}

/// The order in which a listing hands its entries out.
#[derive(Debug, Clone, Copy, PartialEq, Eq)]
pub enum Order {
    /// By rising sequence number.
    OldestFirst,
    /// By falling sequence number.
    NewestFirst,
}

/// A range of sequence numbers, both ends included. A range whose first number is
/// above its last holds nothing.
#[derive(Debug, Clone, Copy, PartialEq, Eq)]
pub struct SequenceRange {
    pub first: u64,
    pub last: u64,
}

/// Why an entry could not be added.
#[derive(Debug, Clone, Copy, PartialEq, Eq)]
pub enum HistoryError {
    /// The account's history has used up the sequence numbers.
    Exhausted,
}

/// The histories as a mathematical map from identity key to the entries recorded for
/// that account, oldest first.
pub type Histories = Map<Seq<char>, Seq<LedgerEntryView>>;

/// The entries recorded for `key`: none where the account has no history yet.
pub open spec fn history_of(histories: Histories, key: Seq<char>) -> Seq<LedgerEntryView> {
    if histories.contains_key(key) {
        histories[key]
    } else {
        Seq::empty()
    }
}

/// Every entry of `entries` carries its position, counted from 1, as its sequence
/// number.
pub open spec fn numbered(entries: Seq<LedgerEntryView>) -> bool {
    forall|i: int| 0 <= i < entries.len() ==> (#[trigger] entries[i]).sequence == i + 1
}

/// Every account's history is numbered.
pub open spec fn all_numbered(histories: Histories) -> bool {
    forall|key: Seq<char>| #[trigger]
        histories.contains_key(key) ==> numbered(histories[key])
}

/// The entry that records `transfer` at `timestamp` as the next one after `entries`.
pub open spec fn next_entry(
    entries: Seq<LedgerEntryView>,
    timestamp: u64,
    transfer: TransferView,
) -> LedgerEntryView {
    LedgerEntryView { sequence: (entries.len() + 1) as u64, timestamp, transfer }
}

/// The histories after `transfer` is recorded for `key`, where a sequence number is
/// left for it.
pub open spec fn appended(
    histories: Histories,
    key: Seq<char>,
    timestamp: u64,
    transfer: TransferView,
) -> Option<Histories> {
    let entries = history_of(histories, key);
    if entries.len() < u64::MAX {
        Some(histories.insert(key, entries.push(next_entry(entries, timestamp, transfer))))
    } else {
        None
    }
}

/// Whether `entry`'s sequence number lies in `range`.
pub open spec fn in_range(entry: LedgerEntryView, range: SequenceRange) -> bool {
    range.first <= entry.sequence <= range.last
}

/// The index in a numbered history at which the entries of `range` begin.
pub open spec fn page_start(count: nat, range: SequenceRange) -> int {
    if range.first == 0 {
        0
    } else if range.first - 1 <= count {
        range.first - 1
    } else {
        count as int
    }
}

/// The index in a numbered history before which the entries of `range` end.
pub open spec fn page_end(count: nat, range: SequenceRange) -> int {
    let start = page_start(count, range);
    let end = if range.last <= count {
        range.last as int
    } else {
        count as int
    };
    if end < start {
        start
    } else {
        end
    }
}

/// The entries of the numbered history `entries` whose sequence numbers lie in
/// `range`, in `order`. In a numbered history they lie side by side, from
/// `page_start` up to `page_end`.
pub open spec fn page(entries: Seq<LedgerEntryView>, range: SequenceRange, order: Order) -> Seq<
    LedgerEntryView,
> {
    let chosen = entries.subrange(
        page_start(entries.len(), range),
        page_end(entries.len(), range),
    );
    match order {
        Order::OldestFirst => chosen,
        Order::NewestFirst => chosen.reverse(),
    }
}

/// A listing by rising sequence number is the history with every entry outside the
/// range left out.
pub proof fn lemma_page_is_filter(entries: Seq<LedgerEntryView>, range: SequenceRange)
    requires
        numbered(entries),
    ensures
        page(entries, range, Order::OldestFirst) == entries.filter(
            |entry: LedgerEntryView| in_range(entry, range),
        ),
        page(entries, range, Order::NewestFirst) == entries.filter(
            |entry: LedgerEntryView| in_range(entry, range),
        ).reverse(),
    decreases entries.len(),
{
    reveal(Seq::filter);
    if entries.len() > 0 {
        lemma_page_is_filter(entries.drop_last(), range);
    }
}

/// A listing hands out every entry of its range and no other, each once, in the order
/// asked for.
pub proof fn lemma_page_sorted(entries: Seq<LedgerEntryView>, range: SequenceRange, order: Order)
    requires
        numbered(entries),
    ensures
        ({
            let listed = page(entries, range, order);
            &&& forall|i: int| 0 <= i < listed.len() ==> in_range(#[trigger] listed[i], range)
            &&& forall|i: int, j: int|
                0 <= i < j < listed.len() ==> match order {
                    Order::OldestFirst => (#[trigger] listed[i]).sequence < (
                    #[trigger] listed[j]).sequence,
                    Order::NewestFirst => (#[trigger] listed[i]).sequence > (
                    #[trigger] listed[j]).sequence,
                }
            &&& forall|k: int|
                0 <= k < entries.len() && in_range(#[trigger] entries[k], range)
                    ==> listed.contains(entries[k])
            &&& forall|i: int| 0 <= i < listed.len() ==> entries.contains(#[trigger] listed[i])
        }),
{
    let start = page_start(entries.len(), range);
    let end = page_end(entries.len(), range);
    let listed = page(entries, range, order);
    assert forall|k: int|
        0 <= k < entries.len() && in_range(#[trigger] entries[k], range) implies listed.contains(
        entries[k],
    ) by {
        match order {
            Order::OldestFirst => {
                assert(listed[k - start] == entries[k]);
            },
            Order::NewestFirst => {
                assert(listed[end - 1 - k] == entries[k]);
            },
        }
    }
}

/// The next entry keeps a numbered history numbered.
pub proof fn lemma_next_entry_numbered(
    entries: Seq<LedgerEntryView>,
    timestamp: u64,
    transfer: TransferView,
)
    requires
        numbered(entries),
        entries.len() < u64::MAX,
    ensures
        numbered(entries.push(next_entry(entries, timestamp, transfer))),
{
}

/// The history is only ever added to: recording an entry for one account keeps every
/// account's entries as they were, in their places, and puts the new entry behind
/// those of its account.
pub proof fn lemma_append_only(
    histories: Histories,
    key: Seq<char>,
    timestamp: u64,
    transfer: TransferView,
    other: Seq<char>,
)
    requires
        appended(histories, key, timestamp, transfer) is Some,
    ensures
        ({
            let grown = appended(histories, key, timestamp, transfer).unwrap();
            let before = history_of(histories, other);
            let after = history_of(grown, other);
            &&& other != key ==> after == before
            &&& other == key ==> after == before.push(next_entry(before, timestamp, transfer))
            &&& before.len() <= after.len()
            &&& forall|i: int| 0 <= i < before.len() ==> after[i] == before[i]
        }),
{
}

/// What a listing returned for a range of sequence numbers that were all given out
/// already, it returns again after any further entry is recorded.
pub proof fn lemma_page_stable(
    entries: Seq<LedgerEntryView>,
    timestamp: u64,
    transfer: TransferView,
    range: SequenceRange,
    order: Order,
)
    requires
        numbered(entries),
        entries.len() < u64::MAX,
        range.last <= entries.len(),
    ensures
        page(entries.push(next_entry(entries, timestamp, transfer)), range, order) == page(
            entries,
            range,
            order,
        ),
{
}

/// The mathematical values of `entries`, in the same order.
pub open spec fn views_of(entries: Seq<LedgerEntry>) -> Seq<LedgerEntryView> {
    entries.map_values(|entry: LedgerEntry| entry@)
}

/// The history of one account.
struct AccountLog {
    key: String,
    entries: Vec<LedgerEntry>,
}

/// The index of the history kept for `key` among `logs`, if there is one.
spec fn log_position(logs: Seq<AccountLog>, key: Seq<char>) -> Option<int> {
    if exists|i: int| 0 <= i < logs.len() && logs[i].key@ == key {
        Some(choose|i: int| 0 <= i < logs.len() && logs[i].key@ == key)
    } else {
        None
    }
}

/// No two of `logs` are kept for the same account.
spec fn distinct_logs(logs: Seq<AccountLog>) -> bool {
    forall|i: int, j: int|
        0 <= i < logs.len() && 0 <= j < logs.len() && logs[i].key@ == logs[j].key@ ==> i == j
}

/// The map that `logs` stand for.
spec fn histories_of(logs: Seq<AccountLog>) -> Histories {
    Map::new(
        |key: Seq<char>| log_position(logs, key) is Some,
        |key: Seq<char>| views_of(logs[log_position(logs, key).unwrap()].entries@),
    )
}

/// Among distinct histories, a history is found at its own index.
proof fn lemma_position_of_log(logs: Seq<AccountLog>, i: int)
    requires
        distinct_logs(logs),
        0 <= i < logs.len(),
    ensures
        log_position(logs, logs[i].key@) == Some(i),
        histories_of(logs).contains_key(logs[i].key@),
        histories_of(logs)[logs[i].key@] == views_of(logs[i].entries@),
{
}

/// A history opened for an account that had none is the one new binding of the map.
proof fn lemma_log_added(logs: Seq<AccountLog>, log: AccountLog)
    requires
        distinct_logs(logs),
        log_position(logs, log.key@) is None,
    ensures
        distinct_logs(logs.push(log)),
        histories_of(logs.push(log)) == histories_of(logs).insert(
            log.key@,
            views_of(log.entries@),
        ),
{
    let grown = logs.push(log);
    let expected = histories_of(logs).insert(log.key@, views_of(log.entries@));
    assert forall|key: Seq<char>|
        histories_of(grown).contains_key(key) <==> #[trigger] expected.contains_key(key) by {
        if log_position(logs, key) is Some {
            let i = log_position(logs, key).unwrap();
            assert(grown[i].key@ == key);
        }
        if key == log.key@ {
            assert(grown[logs.len() as int].key@ == key);
        }
    }
    assert forall|key: Seq<char>| #[trigger]
        histories_of(grown).contains_key(key) implies histories_of(grown)[key] == expected[key] by {
        let i = log_position(grown, key).unwrap();
        if i < logs.len() {
            lemma_position_of_log(logs, i);
        }
    }
}

/// A history replaced by one for the same account rebinds that account and no other.
proof fn lemma_log_replaced(logs: Seq<AccountLog>, i: int, log: AccountLog)
    requires
        distinct_logs(logs),
        0 <= i < logs.len(),
        log.key@ == logs[i].key@,
    ensures
        distinct_logs(logs.update(i, log)),
        histories_of(logs.update(i, log)) == histories_of(logs).insert(
            log.key@,
            views_of(log.entries@),
        ),
{
    let changed = logs.update(i, log);
    let expected = histories_of(logs).insert(log.key@, views_of(log.entries@));
    assert forall|key: Seq<char>|
        histories_of(changed).contains_key(key) <==> #[trigger] expected.contains_key(key) by {
        if log_position(logs, key) is Some {
            let j = log_position(logs, key).unwrap();
            assert(changed[j].key@ == key);
        }
    }
    assert forall|key: Seq<char>| #[trigger]
        histories_of(changed).contains_key(key) implies histories_of(changed)[key]
        == expected[key] by {
        let j = log_position(changed, key).unwrap();
        lemma_position_of_log(logs, j);
    }
}

/// The ledger history of all accounts.
pub struct LedgerHistory {
    logs: Vec<AccountLog>,
}

impl View for LedgerHistory {
    type V = Histories;

    closed spec fn view(&self) -> Histories {
        histories_of(self.logs@)
    }
}

impl LedgerHistory {
    /// The history's invariant: one list of entries per account, each numbered from 1
    /// without a gap.
    pub closed spec fn wf(&self) -> bool {
        &&& distinct_logs(self.logs@)
        &&& forall|i: int|
            0 <= i < self.logs.len() ==> numbered(views_of((#[trigger] self.logs[i]).entries@))
    }

    /// In a well-formed history every account's entries are numbered.
    pub proof fn lemma_numbered(&self)
        requires
            self.wf(),
        ensures
            all_numbered(self@),
    {
    }

    /// A history without entries.
    pub fn new() -> (history: LedgerHistory)
        ensures
            history.wf(),
            history@ == Map::<Seq<char>, Seq<LedgerEntryView>>::empty(),
    {
        LedgerHistory { logs: Vec::new() }
    }

    /// Where the history of `key` lies.
    fn find(&self, key: &str) -> (found: Option<usize>)
        requires
            self.wf(),
        ensures
            match found {
                Some(i) => i < self.logs.len() && log_position(self.logs@, key@) == Some(i as int),
                None => log_position(self.logs@, key@) is None,
            },
    {
        let mut i: usize = 0;
        while i < self.logs.len()
            invariant
                i <= self.logs.len(),
                distinct_logs(self.logs@),
                forall|j: int| 0 <= j < i ==> self.logs[j].key@ != key@,
            decreases self.logs.len() - i,
        {
            if *self.logs[i].key.as_str() == *key {
                proof {
                    lemma_position_of_log(self.logs@, i as int);
                }
                return Some(i);
            }
            i += 1;
        }
        None
    }

    /// Records `transfer`, completed at `timestamp`, as the next entry of the history of
    /// `key`, and returns the sequence number that the entry got.
    pub fn append(&mut self, key: &str, timestamp: u64, transfer: &Transfer) -> (r: Result<
        u64,
        HistoryError,
    >)
        requires
            old(self).wf(),
        ensures
            final(self).wf(),
            match appended(old(self)@, key@, timestamp, transfer@) {
                Some(histories) => final(self)@ == histories && r == Ok::<u64, HistoryError>(
                    (history_of(old(self)@, key@).len() + 1) as u64,
                ),
                None => final(self)@ == old(self)@ && r == Err::<u64, HistoryError>(
                    HistoryError::Exhausted,
                ),
            },
    {
        match self.find(key) {
            None => {
                let entry = LedgerEntry { sequence: 1, timestamp, transfer: transfer.clone() };
                let mut entries: Vec<LedgerEntry> = Vec::new();
                entries.push(entry);
                let log = AccountLog { key: key.to_owned(), entries };
                proof {
                    lemma_log_added(self.logs@, log);
                    assert(views_of(log.entries@) =~= Seq::<LedgerEntryView>::empty().push(
                        next_entry(Seq::empty(), timestamp, transfer@),
                    ));
                }
                self.logs.push(log);
                Ok(1)
            },
            Some(i) => {
                proof {
                    lemma_position_of_log(self.logs@, i as int);
                }
                let count = self.logs[i].entries.len();
                if count as u64 == u64::MAX {
                    return Err(HistoryError::Exhausted);
                }
                let sequence: u64 = count as u64 + 1;
                let entry = LedgerEntry { sequence, timestamp, transfer: transfer.clone() };
                let ghost before = self.logs@;
                self.logs[i].entries.push(entry);
                proof {
                    let log = self.logs[i as int];
                    lemma_log_replaced(before, i as int, log);
                    assert(views_of(log.entries@) =~= views_of(before[i as int].entries@).push(
                        next_entry(views_of(before[i as int].entries@), timestamp, transfer@),
                    ));
                }
                Ok(sequence)
            },
        }
    }

    /// The entries recorded for `key` whose sequence numbers lie in `range`, in `order`.
    /// An account without history has no entries. What a listing returned for a range
    /// stays what later listings return for it, whatever is recorded in between.
    pub fn list(&self, key: &str, range: SequenceRange, order: Order) -> (entries: Vec<
        LedgerEntry,
    >)
        requires
            self.wf(),
        ensures
            views_of(entries@) == page(history_of(self@, key@), range, order),
            entries.len() == page(history_of(self@, key@), range, order).len(),
            forall|i: int|
                0 <= i < entries.len() ==> (#[trigger] entries[i])@ == page(
                    history_of(self@, key@),
                    range,
                    order,
                )[i],
    {
        let mut listed: Vec<LedgerEntry> = Vec::new();
        match self.find(key) {
            None => {},
            Some(i) => {
                let log = &self.logs[i].entries;
                let count = log.len();
                let start: usize = if range.first == 0 {
                    0
                } else if range.first - 1 <= count as u64 {
                    (range.first - 1) as usize
                } else {
                    count
                };
                let bound: usize = if range.last <= count as u64 {
                    range.last as usize
                } else {
                    count
                };
                let end: usize = if bound < start {
                    start
                } else {
                    bound
                };
                let ghost recorded = views_of(log@);
                proof {
                    lemma_position_of_log(self.logs@, i as int);
                }
                let ghost slice = recorded.subrange(start as int, end as int);
                match order {
                    Order::OldestFirst => {
                        let mut at: usize = start;
                        while at < end
                            invariant
                                start <= at <= end <= log.len(),
                                recorded == views_of(log@),
                                views_of(listed@) == recorded.subrange(start as int, at as int),
                            decreases end - at,
                        {
                            let ghost before = listed@;
                            let copy = log[at].clone();
                            listed.push(copy);
                            at += 1;
                            assert(views_of(listed@) =~= views_of(before).push(copy@));
                        }
                    },
                    Order::NewestFirst => {
                        let mut at: usize = end;
                        while at > start
                            invariant
                                start <= at <= end <= log.len(),
                                recorded == views_of(log@),
                                slice == recorded.subrange(start as int, end as int),
                                views_of(listed@) == slice.reverse().subrange(0, end - at),
                            decreases at - start,
                        {
                            at -= 1;
                            let ghost before = listed@;
                            let copy = log[at].clone();
                            listed.push(copy);
                            assert(views_of(listed@) =~= views_of(before).push(copy@));
                        }
                    },
                }
            },
        }
        proof {
            let expected = page(history_of(self@, key@), range, order);
            assert forall|i: int| 0 <= i < listed.len() implies (#[trigger] listed[i])@
                == expected[i] by {
                assert(views_of(listed@)[i] == listed[i]@);
            }
        }
        listed
    }
}

} // verus!
