use boxworld::capped_deque::CappedVecDeque;

#[test]
fn push_back_drops_oldest_beyond_cap() {
    let mut q: CappedVecDeque<i32> = CappedVecDeque::new(3);
    q.push_back(1);
    q.push_back(2);
    q.push_back(3);
    let held: Vec<i32> = q.iter().copied().collect();
    assert_eq!(held, vec![1, 2, 3]);
    q.push_back(4);
    q.push_back(5);
    let held: Vec<i32> = q.iter().copied().collect();
    assert_eq!(held, vec![3, 4, 5]);
}

#[test]
fn zero_capacity_holds_nothing() {
    let mut q: CappedVecDeque<&str> = CappedVecDeque::new(0);
    q.push_back("a");
    assert_eq!(q.iter().count(), 0);
}
