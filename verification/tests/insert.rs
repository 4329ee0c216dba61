use ircjournal::insert::Inserter;
use ircjournal::model::{Datetime, NewMessage};

fn record(n: i64) -> NewMessage {
    NewMessage {
        channel: Some("serv/#chan".to_string()),
        nick: Some("nick".to_string()),
        line: Some(format!("line {}", n)),
        opcode: None,
        oper_nick: None,
        payload: None,
        timestamp: Datetime::new(n, 0),
    }
}

fn records(count: i64) -> Vec<NewMessage> {
    (0..count).map(record).collect()
}

fn drive(chunk_size: usize, count: i64, store: fn(&[NewMessage]) -> Option<u64>) -> (u64, Vec<Vec<NewMessage>>) {
    let mut inserter = Inserter::new(chunk_size);
    let mut batches = Vec::new();
    for message in records(count) {
        if let Some(batch) = inserter.push(message) {
            inserter.record(store(&batch));
            batches.push(batch);
        }
    }
    let last = inserter.finish();
    inserter.record(store(&last));
    batches.push(last);
    (inserter.total(), batches)
}

fn stores_all(batch: &[NewMessage]) -> Option<u64> {
    Some(batch.len() as u64)
}

fn fails_on_threes(batch: &[NewMessage]) -> Option<u64> {
    if batch.len() == 3 {
        None
    } else {
        Some(batch.len() as u64)
    }
}

#[test]
fn every_record_is_counted_whatever_the_batch_size() {
    for chunk_size in [0usize, 1, 2, 3, 4, 7, 8, 100] {
        for count in [0i64, 1, 7, 8, 9] {
            let (total, batches) = drive(chunk_size, count, stores_all);
            assert_eq!(total, count as u64);
            let flat: Vec<NewMessage> = batches.into_iter().flatten().collect();
            assert_eq!(flat, records(count));
        }
    }
}

#[test]
fn batches_are_full_but_for_the_last() {
    let (total, batches) = drive(3, 8, stores_all);
    assert_eq!(total, 8);
    assert_eq!(
        batches,
        vec![
            vec![record(0), record(1), record(2)],
            vec![record(3), record(4), record(5)],
            vec![record(6), record(7)],
        ]
    );
    let (_, batches) = drive(4, 8, stores_all);
    assert_eq!(
        batches.iter().map(|batch| batch.len()).collect::<Vec<_>>(),
        vec![4, 4, 0]
    );
    let (_, batches) = drive(0, 5, stores_all);
    assert_eq!(
        batches.iter().map(|batch| batch.len()).collect::<Vec<_>>(),
        vec![5]
    );
}

#[test]
fn failed_batch_counts_for_nothing() {
    let (total, batches) = drive(3, 8, fails_on_threes);
    assert_eq!(batches.len(), 3);
    assert_eq!(total, 2);
    let (total, _) = drive(3, 9, fails_on_threes);
    assert_eq!(total, 0);
}

#[test]
fn total_is_what_the_store_reports() {
    let mut inserter = Inserter::new(2);
    assert_eq!(inserter.total(), 0);
    assert_eq!(inserter.push(record(0)), None);
    assert_eq!(inserter.push(record(1)), Some(vec![record(0), record(1)]));
    inserter.record(Some(1));
    assert_eq!(inserter.total(), 1);
    inserter.record(None);
    assert_eq!(inserter.total(), 1);
    inserter.record(Some(40));
    assert_eq!(inserter.total(), 41);
    assert_eq!(inserter.push(record(2)), None);
    assert_eq!(inserter.finish(), vec![record(2)]);
    assert_eq!(inserter.finish(), vec![]);
    inserter.record(Some(u64::MAX));
    assert_eq!(inserter.total(), u64::MAX);
}

#[test]
fn answers_may_come_in_any_order() {
    let mut one = Inserter::new(2);
    one.record(Some(3));
    one.record(None);
    one.record(Some(4));
    let mut other = Inserter::new(2);
    other.record(Some(4));
    other.record(Some(3));
    other.record(None);
    assert_eq!(one.total(), 7);
    assert_eq!(other.total(), 7);
}
