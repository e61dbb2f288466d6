use capybara::profiler::{same_name, DroppedObject, MergeDroppedObject, ProfilerData};

#[test]
fn profiler_records_in_order() {
    let mut d = ProfilerData::new();
    assert_eq!(d.len(), 0);
    assert!(!d.last_is("prepare_ack"));
    d.record("prepare_ack", 10);
    d.record("migrate_ack", 20);
    assert_eq!(d.len(), 2);
    assert_eq!(d.entry(0), ("prepare_ack", 10));
    assert_eq!(d.entry(1), ("migrate_ack", 20));
    assert!(d.last_is("migrate_ack"));
    assert!(!d.last_is("prepare_ack"));
}

#[test]
fn profiler_merges_into_last() {
    let mut d = ProfilerData::new();
    d.record("migrate", 5);
    d.merge_into_last(7);
    assert_eq!(d.len(), 1);
    assert_eq!(d.entry(0), ("migrate", 12));
    d.merge_into_last(u128::MAX);
    assert_eq!(d.entry(0).1, u128::MAX);
}

#[test]
fn profiler_timed_objects() {
    let mut d = ProfilerData::new();
    let obj = DroppedObject::begin("additional_delay");
    obj.end(&mut d);
    assert_eq!(d.len(), 1);
    assert_eq!(d.entry(0).0, "additional_delay");
    let first = d.entry(0).1;
    let m = MergeDroppedObject::begin("additional_delay", &d);
    m.end(&mut d);
    assert_eq!(d.len(), 1);
    assert!(d.entry(0).1 >= first);
}

#[test]
fn profiler_same_name() {
    assert!(same_name("abc", "abc"));
    assert!(!same_name("abc", "abd"));
    assert!(!same_name("abc", "ab"));
    assert!(same_name("", ""));
}
