use stats_alloc_map::allocator_vec::SpecialVec;

#[test]
fn it_works() {
    let mut vec = SpecialVec::new();
    for i in 0..10000 {
        vec.push(i);
    }
    for i in 0..10000 {
        assert_eq!(*vec.get(i), i);
    }
}

#[test]
fn capacity_doubles_from_one() {
    let mut v: SpecialVec<u32> = SpecialVec::new();
    assert_eq!(v.cap(), 0);
    assert_eq!(v.len(), 0);
    v.push(10);
    assert_eq!(v.cap(), 1);
    v.push(11);
    assert_eq!(v.cap(), 2);
    v.push(12);
    assert_eq!(v.cap(), 4);
    v.push(13);
    assert_eq!(v.cap(), 4);
    v.push(14);
    assert_eq!(v.cap(), 8);
    assert_eq!(v.len(), 5);
}

#[test]
fn pop_keeps_capacity() {
    let mut v: SpecialVec<u32> = SpecialVec::new();
    v.push(1);
    v.push(2);
    v.push(3);
    let cap = v.cap();
    assert_eq!(v.pop(), Some(3));
    assert_eq!(v.pop(), Some(2));
    assert_eq!(v.pop(), Some(1));
    assert_eq!(v.pop(), None);
    assert_eq!(v.cap(), cap);
    assert_eq!(v.len(), 0);
}

#[test]
fn insert_and_remove_shift() {
    let mut v: SpecialVec<u32> = SpecialVec::new();
    v.push(1);
    v.push(3);
    v.insert(1, 2);
    assert_eq!(*v.get(0), 1);
    assert_eq!(*v.get(1), 2);
    assert_eq!(*v.get(2), 3);
    assert_eq!(v.remove(1), 2);
    assert_eq!(v.len(), 2);
    assert_eq!(*v.get(0), 1);
    assert_eq!(*v.get(1), 3);
}

#[test]
fn set_overwrites_in_place() {
    let mut v: SpecialVec<u32> = SpecialVec::new();
    v.push(5);
    v.push(6);
    v.set(0, 50);
    assert_eq!(*v.get(0), 50);
    assert_eq!(*v.get(1), 6);
    assert_eq!(v.len(), 2);
}

#[test]
fn into_iter_yields_both_ends() {
    let mut v: SpecialVec<u32> = SpecialVec::new();
    v.push(1);
    v.push(2);
    v.push(3);
    let mut it = v.into_iter();
    assert_eq!(it.next(), Some(1));
    assert_eq!(it.next_back(), Some(3));
    assert_eq!(it.next(), Some(2));
    assert_eq!(it.next(), None);
    assert_eq!(it.next_back(), None);
}

#[test]
fn drain_empties_but_keeps_capacity() {
    let mut v: SpecialVec<u32> = SpecialVec::new();
    v.push(7);
    v.push(8);
    let cap = v.cap();
    let mut d = v.drain();
    assert_eq!(d.next(), Some(7));
    assert_eq!(d.next(), Some(8));
    assert_eq!(d.next(), None);
    assert_eq!(v.len(), 0);
    assert_eq!(v.cap(), cap);
}

#[test]
fn zero_sized_elements_fix_capacity_at_max() {
    let mut v: SpecialVec<()> = SpecialVec::new();
    assert_eq!(v.cap(), usize::MAX);
    v.push(());
    v.push(());
    v.push(());
    assert_eq!(v.cap(), usize::MAX);
    assert_eq!(v.len(), 3);
    assert_eq!(v.pop(), Some(()));
    assert_eq!(v.cap(), usize::MAX);
}

#[test]
fn length_never_exceeds_capacity() {
    let mut v: SpecialVec<u32> = SpecialVec::new();
    for i in 0..100 {
        v.push(i);
        assert!(v.len() <= v.cap());
    }
    while v.pop().is_some() {
        assert!(v.len() <= v.cap());
    }
}
