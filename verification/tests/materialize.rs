use prefab_core::components::{VisibilityPrefab, ZIndexPrefab};
use prefab_core::prefab::{Prefab, PreparePrefab, SpawnPrefab};
use prefab_core::store::{EntityStore, LiveComponent, Resources};
use prefab_core::ui::UiData;
use std::collections::HashMap;

fn bare_world() -> EntityStore {
    EntityStore::new(Resources { asset_server: None, button_callbacks: None })
}

fn node_payload() -> UiData<()> {
    UiData {
        node: Some(prefab_core::components::NodeBundlePrefab {
            visibility: VisibilityPrefab::Inherited,
            z_index: ZIndexPrefab::Local(0),
        }),
        text: None,
        image: None,
        button: None,
        callback: None,
        custom: None,
    }
}

#[test]
fn three_node_chain_materializes_with_matching_parents() {
    // root -> child -> grandchild: three live entities, the grandchild's
    // live parent being the child's entity and the child's the root's.
    let mut tree: Prefab<UiData<()>> = Prefab::from_data(Some(node_payload()));
    let child = tree.add(Some(0), Some(node_payload()));
    tree.add(Some(child), Some(node_payload()));
    let map = tree.all_parents_childs();
    let mut world = bare_world();
    let root = tree.spawn(&map, &0, &mut world).expect("root bucket exists");
    assert_eq!(world.entities.len(), 3);
    let child_ent = world.entities[root].children[0];
    let grand_ent = world.entities[child_ent].children[0];
    assert_eq!(world.entities[child_ent].parent, Some(root));
    assert_eq!(world.entities[grand_ent].parent, Some(child_ent));
    assert_eq!(world.entities[root].parent, None);
    // Every entity got its payload applied and the prefab tag.
    for e in &world.entities {
        assert_eq!(e.components.len(), 1);
        assert!(matches!(e.components[0], LiveComponent::Node(_)));
        assert!(e.from_prefab);
    }
    // The payloads were moved out of the tree.
    for slot in &tree.entities {
        assert!(slot.data.is_none());
    }
}

#[test]
fn spawn_with_missing_bucket_reports_absence() {
    let mut tree: Prefab<UiData<()>> = Prefab::new();
    let empty: HashMap<usize, Vec<usize>> = HashMap::new();
    let mut world = bare_world();
    assert_eq!(tree.spawn(&empty, &0, &mut world), None);
    // The entity created up front before the check stays behind, empty.
    assert_eq!(world.entities.len(), 1);
    assert!(world.entities[0].components.is_empty());
    assert!(!world.entities[0].from_prefab);
}

#[test]
fn orphan_slots_are_excluded_from_materialization() {
    let mut tree: Prefab<UiData<()>> = Prefab::from_data(Some(node_payload()));
    tree.add(Some(0), Some(node_payload()));
    tree.add(None, Some(node_payload())); // orphan at index 2
    let map = tree.all_parents_childs();
    let mut world = bare_world();
    tree.spawn(&map, &0, &mut world).unwrap();
    // Only the two reachable slots became entities.
    assert_eq!(world.entities.len(), 2);
    // The orphan's payload was never taken.
    assert!(tree.entities[2].data.is_some());
    assert!(tree.entities[0].data.is_none());
    assert!(tree.entities[1].data.is_none());
}

#[test]
fn spawn_with_root_reuses_the_given_entity_untagged() {
    let mut tree: Prefab<UiData<()>> = Prefab::from_data(Some(node_payload()));
    tree.add(Some(0), Some(node_payload()));
    let map = tree.all_parents_childs();
    let mut world = bare_world();
    let pre_existing = world.spawn_empty().id();
    let got = tree.spawn_with_root(&map, &0, &mut world, pre_existing);
    assert_eq!(got, Some(pre_existing));
    assert_eq!(world.entities.len(), 2);
    assert_eq!(world.entities[pre_existing].components.len(), 1);
    // The pre-existing root is not tagged; the child spawned under it is.
    assert!(!world.entities[pre_existing].from_prefab);
    let child_ent = world.entities[pre_existing].children[0];
    assert!(world.entities[child_ent].from_prefab);
    assert_eq!(world.entities[child_ent].parent, Some(pre_existing));
}

#[test]
fn spawn_prefab_command_spawns_onto_its_entity() {
    let mut world = bare_world();
    let target = world.spawn_empty().id();
    let mut tree: Prefab<UiData<()>> = Prefab::from_data(Some(node_payload()));
    tree.add(Some(0), Some(node_payload()));
    SpawnPrefab(tree, target).apply(&mut world);
    assert_eq!(world.entities.len(), 2);
    assert_eq!(world.entities[target].children.len(), 1);
}

#[test]
fn prepare_prefab_command_hands_the_tree_back() {
    let mut world = bare_world();
    let tree: Prefab<UiData<()>> = Prefab::from_data(Some(node_payload()));
    let loaded = PreparePrefab(tree).apply(&mut world);
    // A bare node payload has nothing to resolve: the pass reports no
    // failure, and the tree comes back intact.
    assert!(!loaded.succefully_loaded);
    assert_eq!(loaded.prefab.entities.len(), 1);
    assert!(loaded.prefab.entities[0].data.is_some());
    assert_eq!(world.entities.len(), 0);
}

#[test]
fn handle_refresh_walks_a_wide_tree() {
    // Several siblings force repeated growth of the store between uses of
    // the parent's handle; each use re-derives the location first.
    let mut tree: Prefab<UiData<()>> = Prefab::from_data(Some(node_payload()));
    for _ in 0..5 {
        let c = tree.add(Some(0), Some(node_payload()));
        tree.add(Some(c), Some(node_payload()));
    }
    let map = tree.all_parents_childs();
    let mut world = bare_world();
    let root = tree.spawn(&map, &0, &mut world).unwrap();
    assert_eq!(world.entities.len(), 11);
    assert_eq!(world.entities[root].children.len(), 5);
    for &c in &world.entities[root].children {
        assert_eq!(world.entities[c].parent, Some(root));
        assert_eq!(world.entities[c].children.len(), 1);
    }
}
