use account_ledger::history::{LedgerEntry, LedgerHistory, Order, SequenceRange};
use account_ledger::transfer::Transfer;

fn transfer(source: &str, target: &str, amount: u32) -> Transfer {
    Transfer { source: source.to_string(), target: target.to_string(), amount }
}

fn filled(count: u64) -> LedgerHistory {
    let mut history = LedgerHistory::new();
    for i in 0..count {
        let sequence = history.append("a", 1_000 + i, &transfer("a", "b", i as u32 + 1)).unwrap();
        assert_eq!(sequence, i + 1);
    }
    history
}

fn sequences(entries: &[LedgerEntry]) -> Vec<u64> {
    entries.iter().map(|e| e.sequence).collect()
}

#[test]
fn entries_are_numbered_from_one_per_account() {
    let mut history = LedgerHistory::new();
    assert_eq!(history.append("a", 5, &transfer("a", "b", 1)), Ok(1));
    assert_eq!(history.append("b", 5, &transfer("a", "b", 1)), Ok(1));
    assert_eq!(history.append("a", 6, &transfer("c", "a", 2)), Ok(2));
    assert_eq!(history.append("a", 7, &transfer("a", "c", 3)), Ok(3));
    assert_eq!(history.append("b", 8, &transfer("b", "c", 4)), Ok(2));
}

#[test]
fn entry_holds_what_was_recorded() {
    let mut history = LedgerHistory::new();
    history.append("a", 77, &transfer("a", "b", 9)).unwrap();
    let listed = history.list("a", SequenceRange { first: 1, last: 1 }, Order::OldestFirst);
    assert_eq!(listed.len(), 1);
    assert_eq!(listed[0].sequence, 1);
    assert_eq!(listed[0].timestamp, 77);
    assert_eq!(listed[0].transfer.source, "a");
    assert_eq!(listed[0].transfer.target, "b");
    assert_eq!(listed[0].transfer.amount, 9);
}

#[test]
fn account_without_history_lists_nothing() {
    let history = filled(3);
    let all = SequenceRange { first: 0, last: u64::MAX };
    assert!(history.list("b", all, Order::OldestFirst).is_empty());
    assert!(history.list("b", all, Order::NewestFirst).is_empty());
    assert!(LedgerHistory::new().list("a", all, Order::OldestFirst).is_empty());
}

#[test]
fn listing_follows_the_order_asked_for() {
    let history = filled(5);
    let all = SequenceRange { first: 0, last: u64::MAX };
    assert_eq!(sequences(&history.list("a", all, Order::OldestFirst)), vec![1, 2, 3, 4, 5]);
    assert_eq!(sequences(&history.list("a", all, Order::NewestFirst)), vec![5, 4, 3, 2, 1]);
    let newest = history.list("a", all, Order::NewestFirst);
    assert_eq!(newest[0].timestamp, 1_004);
    assert_eq!(newest[0].transfer.amount, 5);
}

#[test]
fn listing_keeps_to_its_range() {
    let history = filled(5);
    let list = |first, last, order| sequences(&history.list("a", SequenceRange { first, last }, order));
    assert_eq!(list(2, 4, Order::OldestFirst), vec![2, 3, 4]);
    assert_eq!(list(2, 4, Order::NewestFirst), vec![4, 3, 2]);
    assert_eq!(list(3, 3, Order::OldestFirst), vec![3]);
    assert_eq!(list(5, 9, Order::OldestFirst), vec![5]);
    assert_eq!(list(0, 1, Order::NewestFirst), vec![1]);
    assert_eq!(list(0, 0, Order::OldestFirst), Vec::<u64>::new());
    assert_eq!(list(6, 9, Order::OldestFirst), Vec::<u64>::new());
    assert_eq!(list(4, 2, Order::OldestFirst), Vec::<u64>::new());
    assert_eq!(list(4, 2, Order::NewestFirst), Vec::<u64>::new());
    assert_eq!(list(u64::MAX, u64::MAX, Order::OldestFirst), Vec::<u64>::new());
}

#[test]
fn pages_stay_as_they_were_when_entries_are_added() {
    let mut history = filled(4);
    let page = SequenceRange { first: 1, last: 3 };
    let before = sequences(&history.list("a", page, Order::NewestFirst));
    let stamps: Vec<u64> = history.list("a", page, Order::NewestFirst).iter().map(|e| e.timestamp).collect();
    history.append("a", 9_000, &transfer("z", "a", 100)).unwrap();
    history.append("b", 9_001, &transfer("z", "b", 100)).unwrap();
    let after = history.list("a", page, Order::NewestFirst);
    assert_eq!(sequences(&after), before);
    assert_eq!(after.iter().map(|e| e.timestamp).collect::<Vec<u64>>(), stamps);

    let next = history.list("a", SequenceRange { first: 4, last: 6 }, Order::OldestFirst);
    assert_eq!(sequences(&next), vec![4, 5]);
    assert_eq!(next[1].transfer.source, "z");
}
