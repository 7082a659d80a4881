use pi_kernel::stack_vec::StackVec;

#[test]
fn push_until_full() {
    let mut storage = [0u8; 3];
    let mut v = StackVec::new(&mut storage);
    assert_eq!(v.capacity(), 3);
    assert!(v.is_empty());
    assert_eq!(v.push(1), Ok(()));
    assert_eq!(v.push(2), Ok(()));
    assert!(!v.is_full());
    assert_eq!(v.push(3), Ok(()));
    assert!(v.is_full());
    assert_eq!(v.push(4), Err(()));
    assert_eq!(v.len(), 3);
    assert_eq!(v.as_slice(), &[1, 2, 3]);
}

#[test]
fn pop_returns_the_last() {
    let mut storage = [0u32; 4];
    let mut v = StackVec::new(&mut storage);
    assert_eq!(v.pop(), None);
    v.push(10).unwrap();
    v.push(20).unwrap();
    assert_eq!(v.pop(), Some(20));
    assert_eq!(v.pop(), Some(10));
    assert_eq!(v.pop(), None);
    assert!(v.is_empty());
}

#[test]
fn with_len_takes_the_front_of_the_storage() {
    let mut storage = [1, 2, 3, 4, 5];
    let mut v = StackVec::with_len(&mut storage, 2);
    assert_eq!(v.len(), 2);
    assert_eq!(v.capacity(), 5);
    assert_eq!(v.as_slice(), &[1, 2]);
    v.push(9).unwrap();
    assert_eq!(v.into_slice(), &mut [1, 2, 9]);
    assert_eq!(storage, [1, 2, 9, 4, 5]);
}

#[test]
fn truncate_only_shortens() {
    let mut storage = [1, 2, 3, 4];
    let mut v = StackVec::with_len(&mut storage, 4);
    v.truncate(6);
    assert_eq!(v.len(), 4);
    v.truncate(2);
    assert_eq!(v.as_slice(), &[1, 2]);
    assert_eq!(v.capacity(), 4);
    v.truncate(0);
    assert!(v.is_empty());
}

#[test]
fn mutable_slice_writes_through() {
    let mut storage = [1, 2, 3, 4];
    let mut v = StackVec::with_len(&mut storage, 3);
    v.as_mut_slice()[1] = 7;
    assert_eq!(v.as_mut_slice().len(), 3);
    assert_eq!(v.as_slice(), &[1, 7, 3]);
}

#[test]
fn insert_moves_the_rest_back() {
    let mut storage = [0u8; 5];
    let mut v = StackVec::new(&mut storage);
    assert_eq!(v.insert(1, 9), Err(()));
    assert_eq!(v.insert(0, 3), Ok(()));
    assert_eq!(v.insert(0, 1), Ok(()));
    assert_eq!(v.insert(1, 2), Ok(()));
    assert_eq!(v.insert(3, 4), Ok(()));
    assert_eq!(v.insert(5, 6), Err(()));
    assert_eq!(v.as_slice(), &[1, 2, 3, 4]);
    assert_eq!(v.insert(2, 0), Ok(()));
    assert_eq!(v.as_slice(), &[1, 2, 0, 3, 4]);
    assert_eq!(v.insert(0, 0), Err(()));
    assert_eq!(v.as_slice(), &[1, 2, 0, 3, 4]);
}

#[test]
fn remove_moves_the_rest_forward() {
    let mut storage = [1, 2, 3, 4];
    let mut v = StackVec::with_len(&mut storage, 4);
    assert_eq!(v.remove(1), 2);
    assert_eq!(v.as_slice(), &[1, 3, 4]);
    assert_eq!(v.remove(2), 4);
    assert_eq!(v.remove(0), 1);
    assert_eq!(v.as_slice(), &[3]);
    assert_eq!(v.remove(0), 3);
    assert!(v.is_empty());
}
