use std::alloc::Layout;

use boba_script::ptr_vec::PtrVec;

#[test]
fn empty_zst_vec() {
    let layout = Layout::new::<()>();
    let vec = PtrVec::new(layout);
    assert_eq!(vec.len(), 0);
    assert_eq!(vec.capacity(), usize::MAX);
    assert!(vec.is_empty());
}

#[test]
fn empty_sized_vec() {
    let layout = Layout::new::<u32>();
    let vec = PtrVec::new(layout);
    assert_eq!(vec.len(), 0);
    assert_eq!(vec.capacity(), 0);
    assert!(vec.is_empty());
}

#[test]
fn push_grows_room_by_doubling() {
    let mut vec = PtrVec::new(Layout::new::<u32>());
    assert_eq!(vec.data_size(), 4);
    assert_eq!(vec.data_align(), 4);
    assert_eq!(vec.try_push(), Ok(0));
    assert_eq!(vec.capacity(), 1);
    assert_eq!(vec.try_push(), Ok(4));
    assert_eq!(vec.capacity(), 2);
    assert_eq!(vec.try_push(), Ok(8));
    assert_eq!(vec.capacity(), 4);
    assert_eq!(vec.array_size(), 16);
    assert_eq!(vec.len(), 3);
    assert_eq!(vec.first(), Some(0));
    assert_eq!(vec.last(), Some(8));
    assert_eq!(vec.get(1), Some(4));
    assert_eq!(vec.get(3), None);
    let mut it = vec.iter();
    assert_eq!(it.next(), Some(0));
    assert_eq!(it.next(), Some(4));
    assert_eq!(it.next(), Some(8));
    assert_eq!(it.next(), None);
    let mut it = vec.iter_from(2);
    assert_eq!(it.next(), Some(8));
    assert_eq!(it.next(), None);
    vec.trim(2);
    assert_eq!(vec.len(), 1);
    vec.trim(5);
    assert!(vec.is_empty());
    assert_eq!(vec.first(), None);
    assert_eq!(vec.last(), None);
}

#[test]
fn zst_push_uses_slot_zero() {
    let mut vec = PtrVec::new(Layout::new::<()>());
    assert_eq!(vec.try_push(), Ok(0));
    assert_eq!(vec.try_push(), Ok(0));
    assert_eq!(vec.len(), 2);
    assert_eq!(vec.get(1), Some(0));
}

#[test]
fn layout_is_padded() {
    let layout = Layout::from_size_align(5, 4).unwrap();
    let vec = PtrVec::new(layout);
    assert_eq!(vec.data_size(), 8);
    assert_eq!(vec.layout(), layout.pad_to_align());
}

#[test]
fn slot_size_follows_the_padded_layout() {
    let layout = Layout::from_size_align(6, 4).unwrap();
    let mut vec = PtrVec::new(layout);
    assert_eq!(vec.data_size(), vec.layout().size());
    assert_eq!(vec.data_align(), vec.layout().align());
    assert_eq!(vec.data_size() % vec.data_align(), 0);
    for _ in 0..3 {
        vec.try_push().unwrap();
    }
    let all: Vec<usize> = {
        let mut it = vec.iter();
        let mut v = Vec::new();
        while let Some(p) = it.next() {
            v.push(p);
        }
        v
    };
    let by_index: Vec<usize> = (0..vec.len()).map(|i| vec.get(i).unwrap()).collect();
    assert_eq!(all, by_index);
    let mut it = vec.iter_from(1);
    assert_eq!(it.next(), vec.get(1));
    assert_eq!(it.next(), vec.get(2));
    assert_eq!(it.next(), None);
    let mut it = vec.iter_from(5);
    assert_eq!(it.next(), None);
}
