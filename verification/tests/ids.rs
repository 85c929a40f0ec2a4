use jepsen_rs::context::{GeneratorId, IdSet};

#[test]
fn test_alloc_and_free_id() {
    let mut id_set = IdSet::new();
    let id0 = GeneratorId::new(&mut id_set);
    assert_eq!(id0.get(), 0);
    let id1 = GeneratorId::new(&mut id_set);
    assert_eq!(id1.get(), 1);
    let id2 = GeneratorId::new(&mut id_set);
    assert_eq!(id2.get(), 2);
    assert!(id1.free_id(&mut id_set, id1.get()));
    assert!(id_set.ids == vec![0, 2]);
    let id1 = GeneratorId::new(&mut id_set);
    assert_eq!(id1.get(), 1);
    let _ = (id0, id2);
}

#[test]
fn allocation_returns_smallest_free_id() {
    let mut id_set = IdSet::new();
    for expected in 0..5u64 {
        assert_eq!(GeneratorId::alloc_id(&mut id_set), expected);
    }
    let probe = GeneratorId::new(&mut id_set);
    probe.free_id(&mut id_set, 2);
    probe.free_id(&mut id_set, 0);
    assert_eq!(GeneratorId::get_next_id(&id_set), 0);
    assert_eq!(GeneratorId::alloc_id(&mut id_set), 0);
    assert_eq!(GeneratorId::alloc_id(&mut id_set), 2);
}

#[test]
fn releasing_everything_empties_the_set() {
    let mut id_set = IdSet::new();
    let a = GeneratorId::new(&mut id_set);
    let b = GeneratorId::new(&mut id_set);
    let c = GeneratorId::new(&mut id_set);
    assert_eq!(id_set.len(), 3);
    assert!(a.free_id(&mut id_set, a.get()));
    assert!(b.free_id(&mut id_set, b.get()));
    assert!(c.free_id(&mut id_set, c.get()));
    assert_eq!(id_set.len(), 0);
    assert!(!id_set.contains(0));
}
