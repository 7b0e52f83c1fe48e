use block_engine::vecdeque::{AVecDeque, VecDeque};

#[test]
fn test_construct() {
    let mut q: VecDeque<100, u8> = VecDeque::new();
    assert_eq!(q.len(), 0);
    assert!(q.empty());
    assert!(!q.full());
    assert_eq!(q.space(), 100);
    assert_eq!(q.pop_front(), None);
}

#[test]
fn test_fill_empty_fully() {
    let mut q: VecDeque<100, u8> = VecDeque::new();
    for i in 0..100 {
        assert!(!q.full());
        q.push_back(i as u8);
        assert_eq!(q.len(), i + 1);
        assert!(!q.empty());
    }
    assert_eq!(q.size, 100);
    assert_eq!(q.head, 0);
    assert!(q.full());

    for i in 0..100 {
        assert!(!q.empty());
        assert_eq!(q.pop_front(), Some(i as u8));
        assert_eq!(q.len(), 100 - i - 1);
        assert!(!q.full());
    }
    assert_eq!(q.pop_front(), None);
    assert!(q.empty());
}

#[test]
fn test_fill_empty_partially() {
    let mut q: VecDeque<100, u8> = VecDeque::new();
    for _ in 0..100 {
        for i in 0..100 - 10 {
            q.push_back(i as u8);
            assert_eq!(q.len(), i + 1);
        }
        for i in 0..100 - 10 {
            assert_eq!(q.pop_front(), Some(i as u8));
            assert_eq!(q.len(), 100 - i - 11);
        }
        assert_eq!(q.pop_front(), None);
    }
}

#[test]
fn test_small_queue() {
}

#[test]
fn test_overflow_is_silent_drop() {
    let mut q: VecDeque<2, u8> = VecDeque::new();
    q.push_back(1);
    q.push_back(2);
    assert!(q.full());
    assert_eq!(q.space(), 0);
    q.push_back(3);
    assert_eq!(q.len(), 2);
    assert_eq!(q.pop_front(), Some(1));
    assert_eq!(q.pop_front(), Some(2));
    assert_eq!(q.pop_front(), None);
}

#[test]
fn test_length_plus_space_is_capacity() {
    let mut q: VecDeque<7, u8> = VecDeque::new();
    assert_eq!(q.len() + q.space(), 7);
    for i in 0..5 {
        q.push_back(i);
        assert_eq!(q.len() + q.space(), 7);
    }
    for _ in 0..9 {
        q.pop_front();
        assert_eq!(q.len() + q.space(), 7);
    }
}

#[test]
fn test_fifo_order_interleaved() {
    let mut q: VecDeque<4, u16> = VecDeque::new();
    q.push_back(10);
    q.push_back(11);
    assert_eq!(q.pop_front(), Some(10));
    q.push_back(12);
    q.push_back(13);
    q.push_back(14);
    assert!(q.full());
    assert_eq!(q.pop_front(), Some(11));
    assert_eq!(q.pop_front(), Some(12));
    q.push_back(15);
    assert_eq!(q.pop_front(), Some(13));
    assert_eq!(q.pop_front(), Some(14));
    assert_eq!(q.pop_front(), Some(15));
    assert_eq!(q.pop_front(), None);
}

#[test]
fn test_zero_capacity_queue() {
    let mut q: VecDeque<0, u8> = VecDeque::new();
    assert!(q.empty());
    assert!(q.full());
    assert_eq!(q.space(), 0);
    q.push_back(1);
    assert_eq!(q.len(), 0);
    assert_eq!(q.pop_front(), None);
}
