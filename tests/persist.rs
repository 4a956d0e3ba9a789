use kvs::{sync_plan, Command, Segment};

fn seg(gen: u64, n: usize) -> Segment {
    Segment { gen, records: (0..n).map(|i| Command::Rm(format!("k{}", i))).collect() }
}

#[test]
fn sync_plan_appends_new_records_only() {
    let plan = sync_plan(&vec![(1, 2), (2, 0)], &vec![seg(1, 3), seg(2, 1), seg(3, 2)]);
    assert_eq!(plan.appends, vec![2, 0, 0]);
    assert!(plan.deletes.is_empty());
}

#[test]
fn sync_plan_deletes_compacted_generations() {
    let plan = sync_plan(&vec![(1, 4), (2, 5)], &vec![seg(3, 2)]);
    assert_eq!(plan.appends, vec![0]);
    assert_eq!(plan.deletes, vec![1, 2]);
}

#[test]
fn sync_plan_clips_to_segment_length() {
    let plan = sync_plan(&vec![(7, 9)], &vec![seg(7, 3)]);
    assert_eq!(plan.appends, vec![3]);
    assert!(plan.deletes.is_empty());
}
