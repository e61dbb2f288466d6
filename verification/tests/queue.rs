use capybara::queue::{IoQueueTable, QDesc, TcpmigPollState, BASE_QD};

#[test]
fn qdesc_conversions() {
    assert_eq!(QDesc::from(42usize), QDesc(42));
    assert_eq!(usize::from(QDesc(7)), 7);
}

#[test]
fn poll_state_set_and_take() {
    let mut s = TcpmigPollState::default();
    assert_eq!(s.take_qd(), None);
    s.set_qd(QDesc(3));
    assert_eq!(s.take_qd(), Some(QDesc(3)));
    assert_eq!(s.take_qd(), None);
    s.set_qd_to_migrate(QDesc(9));
    assert!(!s.is_fast_migrate_enabled());
    s.enable_fast_migrate();
    assert!(s.is_fast_migrate_enabled());
    assert_eq!(s.take_qd_to_migrate(), Some(QDesc(9)));
    assert_eq!(s.take_qd_to_migrate(), None);
    s.set_qd(QDesc(1));
    s.reset();
    assert_eq!(s.take_qd(), None);
    assert!(!s.is_fast_migrate_enabled());
}

#[test]
fn io_queue_table_allocate_and_get() {
    let mut t = IoQueueTable::new();
    let a = t.allocate(1);
    let b = t.allocate(2);
    assert_ne!(a, b);
    assert!(usize::from(a) >= BASE_QD);
    assert_eq!(t.get(a), Some(1));
    assert_eq!(t.get(b), Some(2));
    assert_eq!(t.get(QDesc(3)), None);
    assert_eq!(t.get(QDesc(BASE_QD as u32 + 100)), None);
}

#[test]
fn io_queue_table_free_releases_the_allocated_entry() {
    let mut t = IoQueueTable::new();
    let a = t.allocate(7);
    assert_eq!(usize::from(a), BASE_QD);
    assert_eq!(t.free(QDesc(0)), None);
    assert_eq!(t.get(a), Some(7));
    assert_eq!(t.free(a), Some(7));
    assert_eq!(t.get(a), None);
    assert_eq!(t.free(a), None);
}
