use prefab_core::components::{
    HandlePrefab, IntoComponent, LabelPrefab, TextPrefab, TextSectionPrefab, TextStylePrefab,
    UiImagePrefab, Visibility, VisibilityPrefab, ZIndex, ZIndexPrefab,
};
use prefab_core::store::DEFAULT_HANDLE;
use prefab_core::ui::PressedButtonEvent;

#[test]
fn visibility_converts_variant_for_variant() {
    assert_eq!(VisibilityPrefab::Inherited.into_visibility(), Visibility::Inherited);
    assert_eq!(VisibilityPrefab::Hidden.into_visibility(), Visibility::Hidden);
    assert_eq!(VisibilityPrefab::Visible.into_component(), Visibility::Visible);
}

#[test]
fn z_index_converts_variant_for_variant() {
    assert_eq!(ZIndexPrefab::Local(-3).into_component(), ZIndex::Local(-3));
    assert_eq!(ZIndexPrefab::Global(8).into_component(), ZIndex::Global(8));
}

#[test]
fn label_is_a_marker() {
    let _ = LabelPrefab.into_component();
}

#[test]
fn into_handle_distinguishes_the_three_states() {
    assert_eq!(HandlePrefab::File(String::from("a.png")).into_handle(), None);
    assert_eq!(HandlePrefab::Loaded(5).into_handle(), Some(5));
    assert_eq!(HandlePrefab::Empty.into_handle(), Some(DEFAULT_HANDLE));
}

#[test]
fn text_style_falls_back_to_the_default_font() {
    let own = TextStylePrefab { font: Some(HandlePrefab::Loaded(3)) };
    let style = own.into_text_style(Some(HandlePrefab::Loaded(9))).unwrap();
    assert_eq!(style.font, 3);

    let borrowed = TextStylePrefab { font: None };
    let style = borrowed.into_text_style(Some(HandlePrefab::Loaded(9))).unwrap();
    assert_eq!(style.font, 9);

    let hopeless = TextStylePrefab { font: None };
    assert!(hopeless.into_text_style(None).is_none());

    let pending = TextStylePrefab { font: Some(HandlePrefab::File(String::from("f.ttf"))) };
    assert!(pending.into_text_style(None).is_none());
}

#[test]
fn into_text_drops_sections_without_a_font() {
    let text = TextPrefab {
        sections: vec![
            TextSectionPrefab {
                text: String::from("kept"),
                style: TextStylePrefab { font: Some(HandlePrefab::Loaded(1)) },
            },
            TextSectionPrefab {
                text: String::from("dropped"),
                style: TextStylePrefab { font: Some(HandlePrefab::File(String::from("x"))) },
            },
            TextSectionPrefab {
                text: String::from("by default"),
                style: TextStylePrefab { font: None },
            },
        ],
        default_font: Some(HandlePrefab::Loaded(7)),
    };
    let live = text.into_text();
    assert_eq!(live.sections.len(), 2);
    assert_eq!(live.sections[0].value, "kept");
    assert_eq!(live.sections[0].style.font, 1);
    assert_eq!(live.sections[1].value, "by default");
    assert_eq!(live.sections[1].style.font, 7);
}

#[test]
fn into_image_requires_a_resolved_texture() {
    let pending = UiImagePrefab {
        texture: HandlePrefab::File(String::from("i.png")),
        flip_x: true,
        flip_y: false,
    };
    assert!(pending.into_image().is_none());
    let done = UiImagePrefab { texture: HandlePrefab::Loaded(4), flip_x: true, flip_y: false };
    let img = done.into_image().unwrap();
    assert_eq!(img.texture, 4);
    assert!(img.flip_x);
    assert!(!img.flip_y);
}

#[test]
fn pressed_button_event_compares_name_and_entity() {
    let e = PressedButtonEvent::new(String::from("ok"), 12);
    assert!(e.is_name(String::from("ok")));
    assert!(!e.is_name(String::from("cancel")));
    assert!(e.is_entity(12));
    assert!(!e.is_entity(13));
}
