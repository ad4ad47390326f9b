use bicycle_book::toyvec::ToyVec;

#[test]
fn a_fresh_toyvec_is_empty_with_no_capacity() {
    let v: ToyVec<u32> = ToyVec::new();
    assert_eq!(v.len(), 0);
    assert!(v.is_empty());
    assert_eq!(v.capacity(), 0);
    let w: ToyVec<String> = ToyVec::with_capacity(16);
    assert_eq!(w.len(), 0);
    assert_eq!(w.capacity(), 16);
    let d: ToyVec<u8> = ToyVec::default();
    assert_eq!(d.len(), 0);
}

#[test]
fn pushing_doubles_the_capacity_as_it_fills() {
    let mut v = ToyVec::new();
    v.push(1u64);
    assert_eq!((v.len(), v.capacity()), (1, 1));
    v.push(2);
    assert_eq!((v.len(), v.capacity()), (2, 2));
    v.push(3);
    assert_eq!((v.len(), v.capacity()), (3, 4));
    v.push(4);
    v.push(5);
    assert_eq!((v.len(), v.capacity()), (5, 8));
}

#[test]
fn get_returns_the_element_or_nothing() {
    let mut v = ToyVec::with_capacity(2);
    v.push("a".to_string());
    v.push("b".to_string());
    assert_eq!(v.get(0), Some(&"a".to_string()));
    assert_eq!(v.get(1), Some(&"b".to_string()));
    assert_eq!(v.get(2), None);
    let fallback = "z".to_string();
    assert_eq!(v.get_or(1, &fallback), &"b".to_string());
    assert_eq!(v.get_or(9, &fallback), &fallback);
}

#[test]
fn pop_takes_from_the_back_until_empty() {
    let mut v = ToyVec::new();
    v.push(10u32);
    v.push(20);
    assert_eq!(v.pop(), Some(20));
    assert_eq!(v.pop(), Some(10));
    assert_eq!(v.pop(), None);
    assert!(v.is_empty());
    // Popping never shrinks the capacity.
    assert_eq!(v.capacity(), 2);
}

#[test]
fn iter_hands_out_references_front_to_back() {
    let mut v = ToyVec::new();
    v.push(1u8);
    v.push(2);
    v.push(3);
    let mut it = v.iter();
    assert_eq!(it.next(), Some(&1));
    assert_eq!(it.next(), Some(&2));
    assert_eq!(it.next(), Some(&3));
    assert_eq!(it.next(), None);
    // The vector is untouched.
    assert_eq!(v.len(), 3);
}

#[test]
fn into_iter_takes_the_elements_front_to_back() {
    let mut v = ToyVec::new();
    v.push("x".to_string());
    v.push("y".to_string());
    let mut it = v.into_iter();
    assert_eq!(it.next(), Some("x".to_string()));
    assert_eq!(it.next(), Some("y".to_string()));
    assert_eq!(it.next(), None);
}
