use decompiler::work_set::WorkSet;

#[test]
fn work_set_walks_a_cycle_with_peek() {
    let mut work_set = WorkSet::new();
    work_set.insert(1);
    while let Some(item) = work_set.peek().copied() {
        work_set.insert((item + 7) % 10);
        work_set.close(item);
    }
    let mut results = work_set.iter_known();
    results.sort();
    assert_eq!(results, [0, 1, 2, 3, 4, 5, 6, 7, 8, 9]);
}

#[test]
fn work_set_walks_a_cycle_with_pop() {
    let mut work_set = WorkSet::new();
    work_set.insert(1);
    while let Some(item) = work_set.pop() {
        work_set.insert((item + 7) % 10);
    }
    let mut results = work_set.iter_known();
    results.sort();
    assert_eq!(results, [0, 1, 2, 3, 4, 5, 6, 7, 8, 9]);
}

#[test]
fn work_set_states() {
    let mut work_set: WorkSet<u32> = WorkSet::new();
    assert_eq!(work_set.peek(), None);
    assert_eq!(work_set.pop(), None);
    // unknown -> closed
    assert!(work_set.close(5));
    assert!(!work_set.close(5));
    // A closed item is not opened again.
    work_set.insert(5);
    assert_eq!(work_set.peek(), None);
    // unknown -> open -> closed
    work_set.insert(6);
    assert_eq!(work_set.peek(), Some(&6));
    assert!(work_set.close(6));
    assert!(!work_set.close(6));
    assert_eq!(work_set.pop(), None);
    // open -> closed by pop
    work_set.insert(7);
    work_set.insert(7);
    assert_eq!(work_set.pop(), Some(7));
    assert_eq!(work_set.pop(), None);
    assert!(!work_set.close(7));
    work_set.extend(&[5, 8, 9, 8]);
    let mut open = Vec::new();
    while let Some(item) = work_set.pop() {
        open.push(item);
    }
    open.sort();
    assert_eq!(open, [8, 9]);
    let mut known = work_set.iter_known();
    known.sort();
    assert_eq!(known, [5, 6, 7, 8, 9]);
}

#[test]
fn work_set_default_knows_nothing() {
    let mut work_set: WorkSet<u32> = WorkSet::default();
    assert!(work_set.iter_known().is_empty());
    assert_eq!(work_set.pop(), None);
    work_set.insert(3);
    assert_eq!(work_set.pop(), Some(3));
}
