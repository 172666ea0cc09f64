use std::cell::Cell;

use connect_four::Memo;

#[test]
fn first_read_computes() {
    let mut m = Memo::new(0u32);
    assert!(m.is_stale());
    let calls = Cell::new(0);
    let v = m.get(|| {
        calls.set(calls.get() + 1);
        42
    });
    assert_eq!(v, 42);
    assert_eq!(calls.get(), 1);
    assert!(!m.is_stale());
}

#[test]
fn consecutive_reads_compute_once() {
    let mut m = Memo::new([0u64; 4]);
    let calls = Cell::new(0u32);
    let compute = || {
        calls.set(calls.get() + 1);
        [1, 2, 3, calls.get() as u64]
    };
    let a = m.get(compute);
    let b = m.get(compute);
    assert_eq!(a, b);
    assert_eq!(calls.get(), 1);
}

#[test]
fn invalidate_forces_a_new_computation() {
    let mut m = Memo::new(0i64);
    assert_eq!(m.get(|| 5), 5);
    assert_eq!(m.get(|| 6), 5);
    m.invalidate();
    assert!(m.is_stale());
    assert_eq!(m.get(|| 7), 7);
    assert_eq!(m.get(|| 8), 7);
}
