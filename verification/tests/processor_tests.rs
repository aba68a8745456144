use boom_catalogs::processor::{InsertBatcher, Processor, WorkerOutcome};

#[test]
fn processor_keeps_its_settings() {
    let p = Processor::new("mongodb://h:1".to_string(), "boom".to_string(), "VSX".to_string(), 4, 10000, 100000);
    assert_eq!(p.mongodb_uri(), "mongodb://h:1");
    assert_eq!(p.db_name(), "boom");
    assert_eq!(p.collection_name(), "VSX");
    assert_eq!(p.num_workers(), 4);
    assert_eq!(p.batch_size(), 10000);
    assert_eq!(p.channel_capacity(), 100000);
}

#[test]
fn total_counts_only_finished_workers() {
    let p = Processor::new(String::new(), String::new(), String::new(), 3, 1, 1);
    let outcomes = vec![
        WorkerOutcome::Inserted(10),
        WorkerOutcome::Failed("bad uri".to_string()),
        WorkerOutcome::Inserted(5),
        WorkerOutcome::Panicked("boom".to_string()),
    ];
    assert_eq!(p.total_inserted(&outcomes), 15);
    assert_eq!(p.total_inserted(&[]), 0);
}

#[test]
fn batcher_hands_out_full_batches_in_order() {
    let mut b: InsertBatcher<u32> = InsertBatcher::new(3);
    let mut batches = Vec::new();
    for d in 0..8u32 {
        if let Some(batch) = b.push(d) {
            batches.push(batch);
        }
    }
    assert_eq!(batches, vec![vec![0, 1, 2], vec![3, 4, 5]]);
    assert_eq!(b.pending_len(), 2);
    assert_eq!(b.finish(), Some(vec![6, 7]));
    assert_eq!(b.finish(), None);
    b.record_insert(3, true);
    b.record_insert(3, false);
    b.record_insert(2, true);
    assert_eq!(b.inserted(), 5);
}

#[test]
fn batcher_with_zero_batch_size_inserts_one_at_a_time() {
    let mut b: InsertBatcher<&str> = InsertBatcher::new(0);
    assert_eq!(b.push("a"), Some(vec!["a"]));
    assert_eq!(b.push("b"), Some(vec!["b"]));
    assert_eq!(b.finish(), None);
}
