//! Structs, unions and impl blocks are not modules: the items they contain
//! are publicly visible but not importable. Enum variants are the
//! exception.

use importables::Crate;
use importables::IndexedCrate;
use importables::Item;
use importables::ItemKind;
use importables::Visibility;

fn module(id: u64, name: &str, vis: Visibility, children: Vec<u64>) -> Item {
    Item {
        id,
        crate_id: 0,
        name: Some(name.to_string()),
        visibility: vis,
        kind: ItemKind::Module { children },
    }
}

fn function(id: u64, name: &str) -> Item {
    Item {
        id,
        crate_id: 0,
        name: Some(name.to_string()),
        visibility: Visibility::Public,
        kind: ItemKind::Function,
    }
}

fn constant(id: u64, name: &str) -> Item {
    Item {
        id,
        crate_id: 0,
        name: Some(name.to_string()),
        visibility: Visibility::Public,
        kind: ItemKind::Constant,
    }
}

fn field(id: u64, name: &str) -> Item {
    Item {
        id,
        crate_id: 0,
        name: Some(name.to_string()),
        visibility: Visibility::Public,
        kind: ItemKind::StructField,
    }
}

fn strukt(id: u64, name: &str, fields: Vec<u64>, impls: Vec<u64>) -> Item {
    Item {
        id,
        crate_id: 0,
        name: Some(name.to_string()),
        visibility: Visibility::Public,
        kind: ItemKind::Struct { fields, impls, generics: vec![] },
    }
}

fn union_item(id: u64, name: &str, fields: Vec<u64>, impls: Vec<u64>) -> Item {
    Item {
        id,
        crate_id: 0,
        name: Some(name.to_string()),
        visibility: Visibility::Public,
        kind: ItemKind::Union { fields, impls, generics: vec![] },
    }
}

fn enum_item(id: u64, name: &str, variants: Vec<u64>, impls: Vec<u64>) -> Item {
    Item {
        id,
        crate_id: 0,
        name: Some(name.to_string()),
        visibility: Visibility::Public,
        kind: ItemKind::Enum { variants, impls, generics: vec![] },
    }
}

fn variant(id: u64, name: &str) -> Item {
    Item {
        id,
        crate_id: 0,
        name: Some(name.to_string()),
        visibility: Visibility::DefaultVisibility,
        kind: ItemKind::Variant,
    }
}

fn inherent_impl(id: u64, items: Vec<u64>) -> Item {
    Item {
        id,
        crate_id: 0,
        name: None,
        visibility: Visibility::DefaultVisibility,
        kind: ItemKind::Impl { items, trait_ref: None, provided_methods: vec![] },
    }
}

fn krate(root: u64, items: Vec<Item>) -> Crate {
    Crate { root, items, summaries: vec![] }
}

fn path(components: &[&str]) -> Vec<String> {
    components.iter().map(|s| s.to_string()).collect()
}

#[test]
fn structs_are_not_modules() {
    let c = krate(
        0,
        vec![
            module(0, "structs_are_not_modules", Visibility::Public, vec![1, 2]),
            function(1, "top_level_function"),
            strukt(2, "TheStruct", vec![3], vec![4]),
            field(3, "field"),
            inherent_impl(4, vec![5, 6, 7]),
            function(5, "method"),
            function(6, "associated_fn"),
            constant(7, "THE_ANSWER"),
        ],
    );
    let indexed_crate = IndexedCrate::new(c);

    let top_level_function = 1;
    let method = 5;
    let associated_fn = 6;
    let field_id = 3;
    let const_item = 7;

    // All the items are public.
    assert!(indexed_crate.forest_contains(top_level_function));
    assert!(indexed_crate.forest_contains(method));
    assert!(indexed_crate.forest_contains(associated_fn));
    assert!(indexed_crate.forest_contains(field_id));
    assert!(indexed_crate.forest_contains(const_item));

    // But only `top_level_function` is importable.
    assert_eq!(
        vec![path(&["structs_are_not_modules", "top_level_function"])],
        indexed_crate.publicly_importable_names(top_level_function)
    );
    assert_eq!(
        Vec::<Vec<String>>::new(),
        indexed_crate.publicly_importable_names(method)
    );
    assert_eq!(
        Vec::<Vec<String>>::new(),
        indexed_crate.publicly_importable_names(associated_fn)
    );
    assert_eq!(
        Vec::<Vec<String>>::new(),
        indexed_crate.publicly_importable_names(field_id)
    );
    assert_eq!(
        Vec::<Vec<String>>::new(),
        indexed_crate.publicly_importable_names(const_item)
    );
}

#[test]
fn enums_are_not_modules() {
    let c = krate(
        0,
        vec![
            module(0, "enums_are_not_modules", Visibility::Public, vec![1, 2]),
            function(1, "top_level_function"),
            enum_item(2, "Foo", vec![3], vec![4]),
            variant(3, "Variant"),
            inherent_impl(4, vec![5, 6, 7]),
            function(5, "method"),
            function(6, "associated_fn"),
            constant(7, "THE_ANSWER"),
        ],
    );
    let indexed_crate = IndexedCrate::new(c);

    let top_level_function = 1;
    let variant_id = 3;
    let method = 5;
    let associated_fn = 6;
    let const_item = 7;

    // All the items are public.
    assert!(indexed_crate.forest_contains(top_level_function));
    assert!(indexed_crate.forest_contains(variant_id));
    assert!(indexed_crate.forest_contains(method));
    assert!(indexed_crate.forest_contains(associated_fn));
    assert!(indexed_crate.forest_contains(const_item));

    // But only `top_level_function` and `Foo::Variant` is importable.
    assert_eq!(
        vec![path(&["enums_are_not_modules", "top_level_function"])],
        indexed_crate.publicly_importable_names(top_level_function)
    );
    assert_eq!(
        vec![path(&["enums_are_not_modules", "Foo", "Variant"])],
        indexed_crate.publicly_importable_names(variant_id)
    );
    assert_eq!(
        Vec::<Vec<String>>::new(),
        indexed_crate.publicly_importable_names(method)
    );
    assert_eq!(
        Vec::<Vec<String>>::new(),
        indexed_crate.publicly_importable_names(associated_fn)
    );
    assert_eq!(
        Vec::<Vec<String>>::new(),
        indexed_crate.publicly_importable_names(const_item)
    );
}

#[test]
fn unions_are_not_modules() {
    let c = krate(
        0,
        vec![
            module(0, "unions_are_not_modules", Visibility::Public, vec![1, 2]),
            function(1, "top_level_function"),
            union_item(2, "TheUnion", vec![3, 8], vec![4]),
            field(3, "left"),
            field(8, "right"),
            inherent_impl(4, vec![5, 6, 7]),
            function(5, "method"),
            function(6, "associated_fn"),
            constant(7, "THE_ANSWER"),
        ],
    );
    let indexed_crate = IndexedCrate::new(c);

    let top_level_function = 1;
    let method = 5;
    let associated_fn = 6;
    let left_field = 3;
    let right_field = 8;
    let const_item = 7;

    // All the items are public.
    assert!(indexed_crate.forest_contains(top_level_function));
    assert!(indexed_crate.forest_contains(method));
    assert!(indexed_crate.forest_contains(associated_fn));
    assert!(indexed_crate.forest_contains(left_field));
    assert!(indexed_crate.forest_contains(right_field));
    assert!(indexed_crate.forest_contains(const_item));

    // But only `top_level_function` is importable.
    assert_eq!(
        vec![path(&["unions_are_not_modules", "top_level_function"])],
        indexed_crate.publicly_importable_names(top_level_function)
    );
    assert_eq!(
        Vec::<Vec<String>>::new(),
        indexed_crate.publicly_importable_names(method)
    );
    assert_eq!(
        Vec::<Vec<String>>::new(),
        indexed_crate.publicly_importable_names(associated_fn)
    );
    assert_eq!(
        Vec::<Vec<String>>::new(),
        indexed_crate.publicly_importable_names(left_field)
    );
    assert_eq!(
        Vec::<Vec<String>>::new(),
        indexed_crate.publicly_importable_names(right_field)
    );
    assert_eq!(
        Vec::<Vec<String>>::new(),
        indexed_crate.publicly_importable_names(const_item)
    );
}

/// A struct with a private field and a public method: neither is
/// importable, while the struct itself is importable under its module.
#[test]
fn private_field_public_method_struct() {
    let private_field = Item {
        id: 3,
        crate_id: 0,
        name: Some("hidden".to_string()),
        visibility: Visibility::Restricted,
        kind: ItemKind::StructField,
    };
    let c = krate(
        0,
        vec![
            module(0, "m", Visibility::Public, vec![2]),
            strukt(2, "StructName", vec![3], vec![4]),
            private_field,
            inherent_impl(4, vec![5]),
            function(5, "a_method"),
        ],
    );
    let indexed_crate = IndexedCrate::new(c);

    assert_eq!(
        Vec::<Vec<String>>::new(),
        indexed_crate.publicly_importable_names(5)
    );
    assert_eq!(
        Vec::<Vec<String>>::new(),
        indexed_crate.publicly_importable_names(3)
    );
    assert!(!indexed_crate.forest_contains(3));
    assert_eq!(
        vec![path(&["m", "StructName"])],
        indexed_crate.publicly_importable_names(2)
    );
}

/// A missing or unknown id presents as an empty result, not an error.
#[test]
fn unknown_id_yields_no_paths() {
    let c = krate(
        0,
        vec![module(0, "tiny", Visibility::Public, vec![1]), function(1, "f")],
    );
    let indexed_crate = IndexedCrate::new(c);
    assert_eq!(
        Vec::<Vec<String>>::new(),
        indexed_crate.publicly_importable_names(999)
    );
    assert!(!indexed_crate.forest_contains(999));
}

/// A non-public crate root produces an empty forest.
#[test]
fn private_root_yields_empty_forest() {
    let c = krate(
        0,
        vec![
            module(0, "hidden_root", Visibility::CrateVisible, vec![1]),
            function(1, "f"),
        ],
    );
    let indexed_crate = IndexedCrate::new(c);
    assert!(!indexed_crate.forest_contains(0));
    assert!(!indexed_crate.forest_contains(1));
    assert_eq!(
        Vec::<Vec<String>>::new(),
        indexed_crate.publicly_importable_names(1)
    );
}
