use hadron::unique::UniqueId;
use hadron::unique::UniqueVec;

#[test]
fn test_unique_id() {
    let count: usize = 1000; // Performs count^2 comparisons
    let mut uids = Vec::new();

    for _ in 0..count {
        uids.push(UniqueId::get());
    }

    // Not a good test for uniqueness, but serves as a litmus that something
    // isn't catastrophically wrong
    for (idx, id) in uids.iter().enumerate() {
        for (idx2, id2) in uids.iter().enumerate() {
            if idx != idx2 {
                assert!(id != id2)
            }
        }
    }
}

#[test]
fn unindexed_ids_are_nonnegative_with_zero_low_bits() {
    for _ in 0..100 {
        let id = UniqueId::get();
        assert!(!id.indexed());
        assert!(id.index().is_none());
        assert_eq!(id.magnitude() % 0x1_0000_0000, 0);
        assert!(id.magnitude() != 0);
    }
}

#[test]
fn indexed_ids_report_their_index() {
    let cases: [usize; 5] = [0, 1, 7, 4096, u32::MAX as usize];
    for &i in cases.iter() {
        let id = UniqueId::get_with_index(i);
        assert!(id.indexed());
        assert_eq!(id.index(), Some(i));
    }
}

#[test]
fn reindex_is_idempotent() {
    let u = UniqueId::get();
    let v = u.set_index(7).expect("an unindexed identifier must take an index");
    assert_eq!(v.index(), Some(7));
    assert!(v.set_index(7).is_none());
    let w = v.set_index(8).expect("a different index must produce a new identifier");
    assert_eq!(w.index(), Some(8));
    assert!(w.set_index(8).is_none());
    // The entropy part survives every re-indexing.
    assert_eq!(u.magnitude() >> 32, v.magnitude() >> 32);
    assert_eq!(v.magnitude() >> 32, w.magnitude() >> 32);
}

#[test]
fn unique_vec_stores_and_returns_items() {
    let mut v: UniqueVec<String> = UniqueVec::new();
    let ida = v.push(String::from("alpha"));
    let idb = v.push(String::from("beta"));
    assert_eq!(ida.index(), Some(0));
    assert_eq!(idb.index(), Some(1));
    assert_eq!(v.get(ida).map(|s| s.as_str()), Some("alpha"));
    assert_eq!(v.get(idb).map(|s| s.as_str()), Some("beta"));

    let prev = v.set(ida, String::from("gamma")).expect("a live identifier must hit");
    assert_eq!(prev.as_str(), "alpha");
    assert_eq!(v.get(ida).map(|s| s.as_str()), Some("gamma"));

    let (popped_id, popped) = v.pop().expect("two items were stored");
    assert_eq!(popped_id.index(), Some(1));
    assert_eq!(popped.as_str(), "beta");
}

#[test]
fn unique_vec_detects_stale_identifier() {
    let mut v: UniqueVec<String> = UniqueVec::new();
    let old_id = v.push(String::from("first"));
    let _ = v.pop();
    let new_id = v.push(String::from("second"));
    // The slot is reused, but the fresh identifier carries new entropy, so
    // the stale identifier no longer addresses anything.
    assert_eq!(new_id.index(), Some(0));
    assert!(v.get(old_id).is_none());
    assert_eq!(v.get(new_id).map(|s| s.as_str()), Some("second"));
    // A stale set leaves the vector unchanged and hands the item back.
    let back = v.set(old_id, String::from("third"));
    assert_eq!(back, Err(String::from("third")));
    assert_eq!(v.get(new_id).map(|s| s.as_str()), Some("second"));
}

#[test]
fn unindexed_identifier_never_answers_a_lookup() {
    let mut v: UniqueVec<String> = UniqueVec::new();
    let _ = v.push(String::from("item"));
    let plain = UniqueId::get();
    assert!(v.get(plain).is_none());
}
