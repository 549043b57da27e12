use toolshed::vector::Vec;

#[test]
fn push_pop_insert_remove() {
    let mut v = Vec::new();
    v.push(1);
    v.push(2);
    v.push(3);
    assert_eq!(v.len(), 3);
    assert_eq!(v.capacity(), 4);
    assert_eq!(v.pop(), Some(3));
    assert_eq!(v.len(), 2);
    assert_eq!(v.capacity(), 4);
    v.insert(0, 0);
    assert_eq!(&*v, &[0, 1, 2]);
    let removed = v.remove(1);
    assert_eq!(removed, 1);
    assert_eq!(&*v, &[0, 2]);
}

#[test]
fn capacity_doubles_from_one() {
    let mut v = Vec::new();
    assert_eq!(v.capacity(), 0);
    let mut caps = std::vec::Vec::new();
    for i in 0..10 {
        v.push(i);
        caps.push(v.capacity());
    }
    assert_eq!(caps, vec![1, 2, 4, 4, 8, 8, 8, 8, 16, 16]);
    assert_eq!(v.as_slice(), &[0, 1, 2, 3, 4, 5, 6, 7, 8, 9]);
}

#[test]
fn pop_on_empty_is_none() {
    let mut v: Vec<String> = Vec::new();
    assert!(v.is_empty());
    assert_eq!(v.pop(), None);
    v.push("a".to_string());
    assert!(!v.is_empty());
}

#[test]
fn insert_at_end_is_push() {
    let mut v = Vec::new();
    v.insert(0, 'a');
    v.insert(1, 'b');
    v.insert(1, 'c');
    assert_eq!(v.as_slice(), &['a', 'c', 'b']);
    assert_eq!(v.capacity(), 4);
}

#[test]
fn remove_after_insert_restores() {
    let mut v = Vec::new();
    for i in 0..5 {
        v.push(i * 10);
    }
    v.insert(2, 99);
    assert_eq!(v.remove(2), 99);
    assert_eq!(v.as_slice(), &[0, 10, 20, 30, 40]);
}

#[test]
fn length_counts_calls_and_stays_within_capacity() {
    let mut v: Vec<u32> = Vec::new();
    let mut expected: usize = 0;
    for i in 0..20u32 {
        v.push(i);
        expected += 1;
        if i % 3 == 0 {
            v.insert(0, i);
            expected += 1;
        }
        if i % 4 == 0 && v.pop().is_some() {
            expected -= 1;
        }
        if i % 5 == 0 {
            v.remove(0);
            expected -= 1;
        }
        assert_eq!(v.len(), expected);
        assert!(v.len() <= v.capacity());
        assert!(v.capacity().is_power_of_two());
        assert_eq!(v.is_empty(), v.len() == 0);
    }
    let mut w: Vec<u32> = Vec::new();
    assert_eq!(w.pop(), None);
    assert_eq!(w.len(), 0);
}
