use prefab_core::components::{
    ButtonBundlePrefab, HandlePrefab, NodeBundlePrefab, TextBundlePrefab, TextPrefab,
    TextSectionPrefab, TextStylePrefab, VisibilityPrefab, ZIndexPrefab,
};
use prefab_core::prefab::Prefab;
use prefab_core::ui::{
    empty_vec, index_suffix, ui_tree, usize_to_decimal, NoCustomWidget, RepeatWidget, Ui, UiData,
};

fn node() -> NodeBundlePrefab {
    NodeBundlePrefab { visibility: VisibilityPrefab::Inherited, z_index: ZIndexPrefab::Local(0) }
}

fn plain_text(s: &str) -> TextBundlePrefab {
    TextBundlePrefab {
        text: TextPrefab {
            sections: vec![TextSectionPrefab {
                text: String::from(s),
                style: TextStylePrefab { font: Some(HandlePrefab::Empty) },
            }],
            default_font: None,
        },
        visibility: VisibilityPrefab::Inherited,
        z_index: ZIndexPrefab::Local(0),
    }
}

type PlainUi = Ui<NoCustomWidget, ()>;

#[test]
fn preorder_flattening_assigns_depth_first_indices() {
    // A root with two children, each carrying one grandchild, flattens to
    // root=0, child1=1, grandchild1=2, child2=3, grandchild2=4.
    let description: PlainUi = Ui::Container {
        node: node(),
        children: vec![
            Ui::Container {
                node: node(),
                children: vec![Ui::Text { text_data: plain_text("g1"), custom_data: None }],
                custom_data: None,
            },
            Ui::Container {
                node: node(),
                children: vec![Ui::Text { text_data: plain_text("g2"), custom_data: None }],
                custom_data: None,
            },
        ],
        custom_data: None,
    };
    let mut prefab: Prefab<UiData<()>> = Prefab::new();
    ui_tree(description, 0, &mut prefab);
    assert_eq!(prefab.entities.len(), 5);
    assert_eq!(prefab.entities[0].parent, None);
    assert_eq!(prefab.entities[1].parent, Some(0));
    assert_eq!(prefab.entities[2].parent, Some(1));
    assert_eq!(prefab.entities[3].parent, Some(0));
    assert_eq!(prefab.entities[4].parent, Some(3));
    assert!(prefab.entities[0].data.as_ref().unwrap().node.is_some());
    assert!(prefab.entities[1].data.as_ref().unwrap().node.is_some());
    let g1 = prefab.entities[2].data.as_ref().unwrap().text.as_ref().unwrap();
    assert_eq!(g1.text.sections[0].text, "g1");
    let g2 = prefab.entities[4].data.as_ref().unwrap().text.as_ref().unwrap();
    assert_eq!(g2.text.sections[0].text, "g2");
}

#[test]
fn button_with_label_synthesizes_one_child() {
    let description: PlainUi = Ui::Button {
        button: ButtonBundlePrefab {
            image: None,
            visibility: VisibilityPrefab::Inherited,
            z_index: ZIndexPrefab::Local(0),
        },
        label: Some(plain_text("press me")),
        callback: None,
        custom_data: None,
    };
    let mut prefab: Prefab<UiData<()>> = Prefab::new();
    ui_tree(description, 0, &mut prefab);
    assert_eq!(prefab.entities.len(), 2);
    assert!(prefab.entities[0].data.as_ref().unwrap().button.is_some());
    assert_eq!(prefab.entities[1].parent, Some(0));
    let label = prefab.entities[1].data.as_ref().unwrap().text.as_ref().unwrap();
    assert_eq!(label.text.sections[0].text, "press me");
}

#[test]
fn repeating_a_template_numbers_each_copy() {
    // Repeating a text template 3 times with starting offset 0 yields three
    // structurally identical text widgets whose texts read "Item 0",
    // "Item 1", "Item 2".
    let widget = RepeatWidget { template: plain_text("Item"), count: 3, start: 0 };
    let description: Ui<RepeatWidget, ()> = Ui::Custom(Box::new(widget));
    let mut prefab: Prefab<UiData<()>> = Prefab::new();
    ui_tree(description, 0, &mut prefab);
    assert_eq!(prefab.entities.len(), 4);
    assert!(prefab.entities[0].data.as_ref().unwrap().node.is_some());
    for k in 0..3usize {
        let slot = &prefab.entities[k + 1];
        assert_eq!(slot.parent, Some(0));
        let text = slot.data.as_ref().unwrap().text.as_ref().unwrap();
        assert_eq!(text.text.sections[0].text, format!("Item {}", k));
    }
}

#[test]
fn repeating_respects_the_declared_starting_offset() {
    let widget = RepeatWidget { template: plain_text("Row"), count: 2, start: 5 };
    let description: Ui<RepeatWidget, ()> = Ui::Custom(Box::new(widget));
    let mut prefab: Prefab<UiData<()>> = Prefab::new();
    ui_tree(description, 0, &mut prefab);
    assert_eq!(prefab.entities.len(), 3);
    let t1 = prefab.entities[1].data.as_ref().unwrap().text.as_ref().unwrap();
    let t2 = prefab.entities[2].data.as_ref().unwrap().text.as_ref().unwrap();
    assert_eq!(t1.text.sections[0].text, "Row 5");
    assert_eq!(t2.text.sections[0].text, "Row 6");
}

#[test]
fn decimal_rendering_matches_expected_digits() {
    assert_eq!(usize_to_decimal(0), "0");
    assert_eq!(usize_to_decimal(7), "7");
    assert_eq!(usize_to_decimal(42), "42");
    assert_eq!(usize_to_decimal(1000), "1000");
    assert_eq!(index_suffix(12), " 12");
}

#[test]
fn empty_vec_is_empty() {
    let v: Vec<u8> = empty_vec();
    assert!(v.is_empty());
}
