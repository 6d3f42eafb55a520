use prefab_core::prefab::{Prefab, PrefabEntityBuilder};

#[test]
fn new_tree_has_one_empty_root() {
    let t: Prefab<String> = Prefab::new();
    assert_eq!(t.entities.len(), 1);
    assert!(t.entities[0].parent.is_none());
    assert!(t.entities[0].data.is_none());
}

#[test]
fn from_data_roots_the_payload() {
    let t: Prefab<String> = Prefab::from_data(Some(String::from("root")));
    assert_eq!(t.entities.len(), 1);
    assert!(t.entities[0].parent.is_none());
    assert_eq!(t.entities[0].data.as_ref().unwrap(), "root");
}

#[test]
fn add_assigns_dense_indices_and_parents_stay_below() {
    // A tree built purely via `add`, handing it only existing indices: every
    // non-root node's parent index is strictly less than its own.
    let mut t: Prefab<u32> = Prefab::new();
    let a = t.add(Some(0), Some(10));
    let b = t.add(Some(0), Some(20));
    let c = t.add(Some(a), Some(30));
    assert_eq!((a, b, c), (1, 2, 3));
    for i in 1..t.entities.len() {
        let p = t.entities[i].parent.unwrap();
        assert!(p < i);
    }
}

#[test]
fn get_entity_is_bounds_checked() {
    let mut t: Prefab<u32> = Prefab::new();
    t.add(Some(0), Some(7));
    assert!(t.get_entity(1).is_some());
    assert!(t.get_entity(2).is_none());
    assert!(t.get_entity_mut(99).is_none());
}

#[test]
fn children_map_has_an_entry_for_every_index() {
    let mut t: Prefab<u32> = Prefab::new();
    t.add(Some(0), None);
    t.add(Some(0), None);
    t.add(Some(2), None);
    t.add(None, None); // orphan
    let m = t.all_parents_childs();
    for i in 0..t.entities.len() {
        assert!(m.contains_key(&i), "index {} missing a bucket", i);
    }
    assert_eq!(m[&0], vec![1, 2]);
    assert_eq!(m[&1], Vec::<usize>::new());
    assert_eq!(m[&2], vec![3]);
    assert_eq!(m[&3], Vec::<usize>::new());
    assert_eq!(m[&4], Vec::<usize>::new());
    assert_eq!(m.len(), 5);
}

#[test]
fn children_map_files_out_of_range_parents_under_their_key() {
    let mut t: Prefab<u32> = Prefab::new();
    t.add(Some(100), None);
    let m = t.all_parents_childs();
    assert_eq!(m[&100], vec![1]);
    assert_eq!(m[&0], Vec::<usize>::new());
    assert_eq!(m[&1], Vec::<usize>::new());
}

#[test]
fn children_map_resets_a_bucket_when_its_own_slot_is_reached() {
    // A parent pointer aimed *forward* (not produced by orderly `add` use)
    // is filed first, then wiped when the derivation reaches the parent's
    // own index — the derived bucket keeps only children above their parent.
    let mut t: Prefab<u32> = Prefab::new();
    t.add(Some(2), None); // slot 1 claims the yet-to-come slot 2 as parent
    t.add(None, None); // slot 2
    t.add(Some(2), None); // slot 3, ordinary child of 2
    let m = t.all_parents_childs();
    assert_eq!(m[&2], vec![3]);
}

#[test]
fn default_and_clone_mirror_the_tree() {
    let mut t: Prefab<String> = Prefab::default();
    assert_eq!(t.entities.len(), 1);
    t.add(Some(0), Some(String::from("x")));
    let copy = t.clone();
    assert_eq!(copy.entities.len(), 2);
    assert_eq!(copy.entities[1].parent, Some(0));
    assert_eq!(copy.entities[1].data.as_ref().unwrap(), "x");
    let b: PrefabEntityBuilder<String> = PrefabEntityBuilder::default();
    assert!(b.parent.is_none() && b.data.is_none());
}

#[test]
fn builder_accessors_roundtrip() {
    let mut b: PrefabEntityBuilder<u32> = PrefabEntityBuilder::new(None, None);
    assert!(b.get_data().is_none());
    b.set_parent(4);
    assert_eq!(b.parent, Some(4));
    b.set_data(11);
    assert_eq!(*b.get_data().unwrap(), 11);
    *b.get_data_mut().unwrap() = 12;
    assert_eq!(b.take_data(), Some(12));
    assert!(b.get_data().is_none());
    let v = b.get_data_or_insert_with(|| 5);
    assert_eq!(*v, 5);
    let v = b.get_data_or_insert_with(|| 9);
    assert_eq!(*v, 5);
    let mut c: PrefabEntityBuilder<u32> = PrefabEntityBuilder::new(None, None);
    assert_eq!(*c.get_data_or_default(), 0);
    c.set_data(3);
    assert_eq!(*c.get_data_or_default(), 3);
}
