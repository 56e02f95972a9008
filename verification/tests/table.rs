use handlekit::handle_map::Handle;
use handlekit::handle_map::HandleMap;
use handlekit::maybe_owned::MaybeOwned;
use handlekit::misc::nonzero_isize;

#[test]
fn scenario_reuse_bumps_generation() {
    let mut m = HandleMap::new();
    let h1 = m.insert(1);
    assert_eq!(h1, Handle { index: 0, generation: 0 });
    let h2 = m.insert(2);
    assert_eq!(h2, Handle { index: 1, generation: 0 });
    assert_eq!(m.get(&h1), Some(&1));
    assert_eq!(m.remove(&h1), Some(1));
    assert_eq!(m.get(&h1), None);
    let h3 = m.insert(3);
    assert_eq!(h3, Handle { index: 0, generation: 1 });
    assert_eq!(m.get(&h1), None);
    assert_eq!(m.get(&h3), Some(&3));
    assert_eq!(m.len(), 2);
}

#[test]
fn stale_handle_stays_invalid() {
    let mut m = HandleMap::new();
    let h1 = m.insert(10);
    assert_eq!(m.remove(&h1), Some(10));
    let h2 = m.insert(20);
    assert_eq!(h2.index, h1.index);
    assert!(!m.contains(&h1));
    assert_eq!(m.get(&h1), None);
    assert_eq!(m.remove(&h1), None);
    assert!(m.contains(&h2));
    assert_eq!(m.get(&h2), Some(&20));
}

#[test]
fn double_remove_yields_nothing() {
    let mut m = HandleMap::new();
    let h = m.insert(7);
    assert_eq!(m.remove(&h), Some(7));
    assert_eq!(m.remove(&h), None);
    assert_eq!(m.len(), 0);
    assert_eq!(m.remove(&h), None);
    assert_eq!(m.len(), 0);
}

#[test]
fn len_counts_contained_handles() {
    let mut m = HandleMap::new();
    let mut handles = Vec::new();
    for k in 0..5 {
        handles.push(m.insert(k));
    }
    assert_eq!(m.len(), 5);
    m.remove(&handles[1]);
    m.remove(&handles[3]);
    assert_eq!(m.len(), 3);
    let present = handles.iter().filter(|h| m.contains(h)).count();
    assert_eq!(present, 3);
}

#[test]
fn iter_yields_occupied_in_index_order() {
    let mut m = HandleMap::new();
    let h0 = m.insert(10);
    let h1 = m.insert(11);
    let h2 = m.insert(12);
    m.remove(&h1);
    let hs = m.iter();
    assert_eq!(hs.len(), 2);
    assert_eq!(hs[0], h0);
    assert_eq!(hs[1], h2);
    assert_eq!(m.get(&hs[0]), Some(&10));
    assert_eq!(m.get(&hs[1]), Some(&12));
}

#[test]
fn insert_get_round_trip() {
    let mut m = HandleMap::new();
    let h = m.insert(String::from("alpha"));
    assert_eq!(m.get(&h), Some(&String::from("alpha")));
}

#[test]
fn get_mut_writes_through() {
    let mut m = HandleMap::new();
    let h = m.insert(5);
    if let Some(v) = m.get_mut(&h) {
        *v = 9;
    }
    assert_eq!(m.get(&h), Some(&9));
    let missing = Handle { index: 9, generation: 0 };
    assert!(m.get_mut(&missing).is_none());
    assert_eq!(m.get(&h), Some(&9));
}

#[test]
fn maybe_owned_kinds() {
    let x = 4;
    let mo: MaybeOwned<i32> = MaybeOwned::Borrowed(&x);
    assert!(mo.is_borrowed());
    assert!(!mo.is_owned());
    assert_eq!(*mo, 4);
    assert_eq!(mo.unwrap_or_clone(), 4);

    let mut y = 6;
    let mut mm: MaybeOwned<i32> = MaybeOwned::BorrowedMut(&mut y);
    assert!(mm.is_borrowed());
    mm.take_ownership();
    assert!(mm.is_owned());
    assert_eq!(mm.unwrap(), Some(6));

    let owned: MaybeOwned<i32> = 5.into();
    assert!(owned.is_owned());
    assert_eq!(owned.unwrap_or_clone(), 5);
}

#[test]
fn maybe_owned_equality() {
    let x = 3;
    let a: MaybeOwned<i32> = MaybeOwned::Owned(3);
    let b: MaybeOwned<i32> = MaybeOwned::Borrowed(&x);
    assert!(a == b);
    let c: MaybeOwned<i32> = MaybeOwned::Owned(4);
    assert!(a != c);
}

#[test]
fn nonzero_isize_passes_through() {
    assert_eq!(nonzero_isize(-3), -3);
    assert_eq!(nonzero_isize(17), 17);
}
