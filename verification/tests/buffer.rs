use capybara::buffer::{Buffer, DataBuffer};

#[test]
fn buffer_adjust_and_trim() {
    let mut b = Buffer::from_slice(&[1, 2, 3, 4, 5, 6]);
    assert_eq!(b.len(), 6);
    b.adjust(2);
    assert_eq!(b.to_vec(), vec![3, 4, 5, 6]);
    b.trim(1);
    assert_eq!(b.to_vec(), vec![3, 4, 5]);
    assert_eq!(b.as_slice(), &[3, 4, 5]);
    b.adjust(3);
    assert_eq!(b.len(), 0);
}

#[test]
fn buffer_empty() {
    let b = Buffer::empty();
    assert_eq!(b.len(), 0);
    assert!(b.to_vec().is_empty());
}

#[test]
fn data_buffer_window() {
    let mut d = DataBuffer::from_slice(&[10, 20, 30]);
    d.trim(2);
    assert_eq!(d.as_slice(), &[10]);
    let e = DataBuffer::empty();
    assert_eq!(e.len(), 0);
    let c = d.clone();
    assert_eq!(c.as_slice(), &[10]);
}

#[test]
fn buffer_equality_is_by_content() {
    let mut a = Buffer::from_slice(&[0, 1, 2, 3]);
    let b = Buffer::from_slice(&[1, 2, 3]);
    assert_ne!(a, b);
    a.adjust(1);
    assert_eq!(a, b);
    a.trim(1);
    assert_ne!(a, b);
    assert_eq!(Buffer::empty(), Buffer::from_slice(&[]));
}
