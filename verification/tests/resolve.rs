use prefab_core::components::{
    ButtonBundlePrefab, CallbackPrefab, HandlePrefab, TextBundlePrefab, TextPrefab,
    TextSectionPrefab, TextStylePrefab, UiImagePrefab, VisibilityPrefab, ZIndexPrefab,
};
use prefab_core::prefab::{Prefab, PrefabData};
use prefab_core::store::{AssetServer, EntityStore, Resources};
use prefab_core::ui::{UiButtonCallbacks, UiData};

fn world_with_server() -> EntityStore {
    EntityStore::new(Resources { asset_server: Some(AssetServer::new()), button_callbacks: None })
}

fn image(path: &str) -> UiImagePrefab {
    UiImagePrefab {
        texture: HandlePrefab::File(String::from(path)),
        flip_x: false,
        flip_y: false,
    }
}

#[test]
fn composite_with_one_failing_field_fails_overall() {
    // Sub-fields resolving [ok, fail, ok] combine to overall failure.
    let mut world = world_with_server();
    let mut payload = (
        image("a.png"),
        UiImagePrefab { texture: HandlePrefab::Loaded(9), flip_x: false, flip_y: false },
        image("c.png"),
    );
    assert!(payload.load_sub_assets(&mut world));
}

#[test]
fn composite_with_all_fields_ok_succeeds_overall() {
    // Sub-fields resolving [ok, ok, ok] combine to overall success, and each
    // texture ends up with the fresh handle its load request returned.
    let mut world = world_with_server();
    let mut payload = (image("a.png"), image("b.png"), image("c.png"));
    assert!(!payload.load_sub_assets(&mut world));
    assert_eq!(payload.0.texture, HandlePrefab::Loaded(1));
    assert_eq!(payload.1.texture, HandlePrefab::Loaded(2));
    assert_eq!(payload.2.texture, HandlePrefab::Loaded(3));
    let srv = world.resources.asset_server.as_ref().unwrap();
    assert_eq!(srv.loads, vec!["a.png", "b.png", "c.png"]);
}

#[test]
fn missing_asset_server_is_a_resolution_failure() {
    let mut world =
        EntityStore::new(Resources { asset_server: None, button_callbacks: None });
    let mut payload = image("a.png");
    assert!(payload.load_sub_assets(&mut world));
    // The reference is left untouched.
    assert_eq!(payload.texture, HandlePrefab::File(String::from("a.png")));
}

fn text_with_font(path: &str) -> TextBundlePrefab {
    TextBundlePrefab {
        text: TextPrefab {
            sections: vec![TextSectionPrefab {
                text: String::from("hello"),
                style: TextStylePrefab { font: Some(HandlePrefab::File(String::from(path))) },
            }],
            default_font: None,
        },
        visibility: VisibilityPrefab::Inherited,
        z_index: ZIndexPrefab::Local(0),
    }
}

#[test]
fn resolving_twice_reports_failure_the_second_time() {
    // The resolution pass runs exactly once; a second pass over the already
    // resolved tree signals protocol misuse for every resolved leaf.
    let mut world = world_with_server();
    let mut tree: Prefab<UiData<()>> = Prefab::from_data(Some(UiData {
        node: None,
        text: Some(text_with_font("font.ttf")),
        image: None,
        button: None,
        callback: None,
        custom: None,
    }));
    tree.add(
        Some(0),
        Some(UiData {
            node: None,
            text: None,
            image: Some(prefab_core::components::ImageBundlePrefab {
                image: image("img.png"),
                visibility: VisibilityPrefab::Inherited,
                z_index: ZIndexPrefab::Local(0),
            }),
            button: None,
            callback: None,
            custom: None,
        }),
    );
    assert!(!tree.prepare_entities(&mut world));
    // The first pass resolved both references.
    let first = tree.entities[0].data.as_ref().unwrap();
    let style = &first.text.as_ref().unwrap().text.sections[0].style;
    assert_eq!(style.font, Some(HandlePrefab::Loaded(1)));
    // The second pass reports failure.
    assert!(tree.prepare_entities(&mut world));
}

#[test]
fn empty_handle_resolves_to_the_default_handle() {
    let mut world = world_with_server();
    let mut payload =
        UiImagePrefab { texture: HandlePrefab::Empty, flip_x: true, flip_y: false };
    assert!(!payload.load_sub_assets(&mut world));
    assert_eq!(payload.texture, HandlePrefab::Loaded(prefab_core::store::DEFAULT_HANDLE));
    // No load request was issued for an absent reference.
    assert!(world.resources.asset_server.as_ref().unwrap().loads.is_empty());
}

#[test]
fn button_without_image_has_nothing_to_load() {
    let mut world =
        EntityStore::new(Resources { asset_server: None, button_callbacks: None });
    let mut payload = ButtonBundlePrefab {
        image: None,
        visibility: VisibilityPrefab::Inherited,
        z_index: ZIndexPrefab::Local(0),
    };
    // Even without a server: nothing pending, nothing fails.
    assert!(!payload.load_sub_assets(&mut world));
}

#[test]
fn callback_resolution_looks_up_the_registry() {
    let mut registry = UiButtonCallbacks::new();
    assert_eq!(registry.push_callback(String::from("save"), 41), None);
    assert_eq!(registry.push_callback(String::from("save"), 42), Some(41));
    let mut world = EntityStore::new(Resources {
        asset_server: None,
        button_callbacks: Some(registry),
    });
    let mut known = CallbackPrefab::System(String::from("save"));
    assert!(!known.load_sub_assets(&mut world));
    match known {
        CallbackPrefab::LoadedSystem(id) => assert_eq!(id, 42),
        _ => panic!("callback should have resolved"),
    }
    let mut unknown = CallbackPrefab::System(String::from("quit"));
    assert!(unknown.load_sub_assets(&mut world));
    let mut event = CallbackPrefab::Event { name: String::from("pressed") };
    assert!(!event.load_sub_assets(&mut world));
}

#[test]
fn resolving_a_bound_callback_again_reports_misuse() {
    // A callback already bound to its system id reports failure when asked
    // to resolve a second time, like any other already-resolved leaf.
    let mut registry = UiButtonCallbacks::new();
    registry.push_callback(String::from("save"), 42);
    let mut world = EntityStore::new(Resources {
        asset_server: None,
        button_callbacks: Some(registry),
    });
    let mut cb = CallbackPrefab::System(String::from("save"));
    assert!(!cb.load_sub_assets(&mut world));
    assert!(matches!(cb, CallbackPrefab::LoadedSystem(42)));
    assert!(cb.load_sub_assets(&mut world));
    assert!(matches!(cb, CallbackPrefab::LoadedSystem(42)));
}

#[test]
fn second_pass_fails_for_a_tree_of_resolved_callbacks() {
    // Idempotence detection also holds when the only resolved leaves are
    // callbacks: the driver's second pass reports failure.
    let mut registry = UiButtonCallbacks::new();
    registry.push_callback(String::from("go"), 7);
    let mut world = EntityStore::new(Resources {
        asset_server: None,
        button_callbacks: Some(registry),
    });
    let mut tree: Prefab<UiData<()>> = Prefab::from_data(Some(UiData {
        node: None,
        text: None,
        image: None,
        button: None,
        callback: Some(CallbackPrefab::System(String::from("go"))),
        custom: None,
    }));
    assert!(!tree.prepare_entities(&mut world));
    assert!(tree.prepare_entities(&mut world));
}

#[test]
fn callback_resolution_without_registry_fails() {
    let mut world =
        EntityStore::new(Resources { asset_server: None, button_callbacks: None });
    let mut cb = CallbackPrefab::System(String::from("save"));
    assert!(cb.load_sub_assets(&mut world));
}

#[test]
fn callback_registry_roundtrip() {
    let mut registry = UiButtonCallbacks::new();
    registry.push_callback(String::from("a"), 1);
    registry.push_callback(String::from("b"), 2);
    assert_eq!(registry.get_system(&String::from("a")), Some(1));
    assert_eq!(registry.get_system(&String::from("c")), None);
    assert_eq!(registry.remove_callback(String::from("a")), Some(1));
    assert_eq!(registry.get_system(&String::from("a")), None);
    assert_eq!(registry.remove_callback(String::from("a")), None);
    let again = UiButtonCallbacks::new_with_hash(vec![(String::from("x"), 7)]);
    assert_eq!(again.get_system(&String::from("x")), Some(7));
}
