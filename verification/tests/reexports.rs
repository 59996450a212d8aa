//! Re-exports: plain, renaming, glob, and cyclic. Each test builds the item
//! graph of one small crate and checks every importable path of the items
//! of interest.

use importables::Crate;
use importables::IndexedCrate;
use importables::Item;
use importables::ItemKind;
use importables::Visibility;

fn module(id: u64, name: &str, vis: Visibility, children: Vec<u64>) -> Item {
    Item {
        id,
        crate_id: 0,
        name: Some(name.to_string()),
        visibility: vis,
        kind: ItemKind::Module { children },
    }
}

fn function(id: u64, name: &str) -> Item {
    Item {
        id,
        crate_id: 0,
        name: Some(name.to_string()),
        visibility: Visibility::Public,
        kind: ItemKind::Function,
    }
}

fn strukt(id: u64, name: &str) -> Item {
    Item {
        id,
        crate_id: 0,
        name: Some(name.to_string()),
        visibility: Visibility::Public,
        kind: ItemKind::Struct { fields: vec![], impls: vec![], generics: vec![] },
    }
}

fn enum_item(id: u64, name: &str, variants: Vec<u64>, vis: Visibility) -> Item {
    Item {
        id,
        crate_id: 0,
        name: Some(name.to_string()),
        visibility: vis,
        kind: ItemKind::Enum { variants, impls: vec![], generics: vec![] },
    }
}

fn variant(id: u64, name: &str) -> Item {
    Item {
        id,
        crate_id: 0,
        name: Some(name.to_string()),
        visibility: Visibility::DefaultVisibility,
        kind: ItemKind::Variant,
    }
}

fn import(id: u64, name: &str, target: u64, glob: bool) -> Item {
    Item {
        id,
        crate_id: 0,
        name: Some(name.to_string()),
        visibility: Visibility::Public,
        kind: ItemKind::Import { name: name.to_string(), target: Some(target), is_glob: glob },
    }
}

fn krate(root: u64, items: Vec<Item>) -> Crate {
    Crate { root, items, summaries: vec![] }
}

/// Every importable path of `id`, joined with `::`, sorted; duplicates are
/// a failure.
fn assert_paths(indexed_crate: &IndexedCrate, id: u64, expected: &[&str]) {
    let paths = indexed_crate.publicly_importable_names(id);
    let mut actual: Vec<String> = paths
        .iter()
        .map(|components| components.join("::"))
        .collect();
    actual.sort();
    let mut deduplicated = actual.clone();
    deduplicated.dedup();
    assert_eq!(actual.len(), deduplicated.len(), "duplicates found: {:?}", actual);
    let mut wanted: Vec<String> = expected.iter().map(|s| s.to_string()).collect();
    wanted.sort();
    assert_eq!(wanted, actual);
}

#[test]
fn pub_inside_pub_crate_mod() {
    let c = krate(
        0,
        vec![
            module(0, "pub_inside_pub_crate_mod", Visibility::Public, vec![1, 4]),
            module(1, "inside", Visibility::CrateVisible, vec![2, 3]),
            strukt(2, "Foo"),
            strukt(3, "Bar"),
            import(4, "Bar", 3, false),
        ],
    );
    let indexed_crate = IndexedCrate::new(c);
    assert_paths(&indexed_crate, 2, &[]);
    assert_paths(&indexed_crate, 3, &["pub_inside_pub_crate_mod::Bar"]);
}

#[test]
fn reexport() {
    let c = krate(
        0,
        vec![
            module(0, "reexport", Visibility::Public, vec![1, 3]),
            module(1, "inner", Visibility::Public, vec![2]),
            function(2, "foo"),
            import(3, "foo", 2, false),
        ],
    );
    let indexed_crate = IndexedCrate::new(c);
    assert_paths(&indexed_crate, 2, &["reexport::foo", "reexport::inner::foo"]);
}

#[test]
fn reexport_from_private_module() {
    let c = krate(
        0,
        vec![
            module(
                0,
                "reexport_from_private_module",
                Visibility::Public,
                vec![1, 5, 6, 7, 8],
            ),
            module(1, "inner", Visibility::Restricted, vec![2, 3, 4, 10]),
            function(2, "foo"),
            strukt(3, "Bar"),
            module(4, "nested", Visibility::Public, vec![9]),
            strukt(9, "Baz"),
            function(10, "quux"),
            import(5, "foo", 2, false),
            import(6, "Bar", 3, false),
            import(7, "nested", 4, false),
            import(8, "quux", 10, false),
        ],
    );
    let indexed_crate = IndexedCrate::new(c);
    assert_paths(&indexed_crate, 2, &["reexport_from_private_module::foo"]);
    assert_paths(&indexed_crate, 3, &["reexport_from_private_module::Bar"]);
    assert_paths(&indexed_crate, 9, &["reexport_from_private_module::nested::Baz"]);
    assert_paths(&indexed_crate, 10, &["reexport_from_private_module::quux"]);
}

#[test]
fn renaming_reexport() {
    let c = krate(
        0,
        vec![
            module(0, "renaming_reexport", Visibility::Public, vec![1, 3]),
            module(1, "inner", Visibility::Public, vec![2]),
            function(2, "foo"),
            import(3, "bar", 2, false),
        ],
    );
    let indexed_crate = IndexedCrate::new(c);
    assert_paths(
        &indexed_crate,
        2,
        &["renaming_reexport::bar", "renaming_reexport::inner::foo"],
    );
}

#[test]
fn renaming_reexport_of_reexport() {
    let c = krate(
        0,
        vec![
            module(0, "renaming_reexport_of_reexport", Visibility::Public, vec![1, 3, 4]),
            module(1, "inner", Visibility::Public, vec![2]),
            function(2, "foo"),
            import(3, "foo", 2, false),
            import(4, "bar", 3, false),
        ],
    );
    let indexed_crate = IndexedCrate::new(c);
    assert_paths(
        &indexed_crate,
        2,
        &[
            "renaming_reexport_of_reexport::bar",
            "renaming_reexport_of_reexport::foo",
            "renaming_reexport_of_reexport::inner::foo",
        ],
    );
}

#[test]
fn renaming_mod_reexport() {
    let c = krate(
        0,
        vec![
            module(0, "renaming_mod_reexport", Visibility::Public, vec![1, 5]),
            module(1, "inner", Visibility::Public, vec![2, 4]),
            module(2, "a", Visibility::Public, vec![3]),
            function(3, "foo"),
            import(4, "b", 2, false),
            import(5, "direct", 2, false),
        ],
    );
    let indexed_crate = IndexedCrate::new(c);
    assert_paths(
        &indexed_crate,
        3,
        &[
            "renaming_mod_reexport::inner::a::foo",
            "renaming_mod_reexport::inner::b::foo",
            "renaming_mod_reexport::direct::foo",
        ],
    );
}

#[test]
fn glob_reexport() {
    let c = krate(
        0,
        vec![
            module(0, "glob_reexport", Visibility::Public, vec![1, 4, 5, 6, 9]),
            module(1, "inner", Visibility::Public, vec![2, 3]),
            function(2, "foo"),
            strukt(3, "Bar"),
            import(4, "inner", 1, true),
            module(5, "nested", Visibility::Public, vec![]),
            enum_item(6, "Baz", vec![7, 8], Visibility::Public),
            variant(7, "First"),
            variant(8, "Second"),
            import(9, "Baz", 6, true),
        ],
    );
    let indexed_crate = IndexedCrate::new(c);
    assert_paths(&indexed_crate, 2, &["glob_reexport::foo", "glob_reexport::inner::foo"]);
    assert_paths(&indexed_crate, 3, &["glob_reexport::Bar", "glob_reexport::inner::Bar"]);
    assert_paths(&indexed_crate, 5, &["glob_reexport::nested"]);
    assert_paths(&indexed_crate, 6, &["glob_reexport::Baz"]);
    assert_paths(
        &indexed_crate,
        7,
        &["glob_reexport::First", "glob_reexport::Baz::First"],
    );
    assert_paths(
        &indexed_crate,
        8,
        &["glob_reexport::Second", "glob_reexport::Baz::Second"],
    );
}

#[test]
fn glob_of_glob_reexport() {
    let c = krate(
        0,
        vec![
            module(0, "glob_of_glob_reexport", Visibility::Public, vec![1, 5]),
            module(1, "inner", Visibility::Restricted, vec![2, 4]),
            module(2, "nested", Visibility::Restricted, vec![6, 7, 8]),
            function(6, "foo"),
            strukt(7, "Bar"),
            strukt(8, "Baz"),
            import(4, "nested", 2, true),
            import(5, "inner", 1, true),
        ],
    );
    let indexed_crate = IndexedCrate::new(c);
    assert_paths(&indexed_crate, 6, &["glob_of_glob_reexport::foo"]);
    assert_paths(&indexed_crate, 7, &["glob_of_glob_reexport::Bar"]);
    assert_paths(&indexed_crate, 8, &["glob_of_glob_reexport::Baz"]);
}

#[test]
fn glob_of_renamed_reexport() {
    let c = krate(
        0,
        vec![
            module(0, "glob_of_renamed_reexport", Visibility::Public, vec![1, 9]),
            module(1, "inner", Visibility::Restricted, vec![2, 6, 7, 8]),
            module(2, "nested", Visibility::Restricted, vec![3, 4, 10]),
            function(3, "foo"),
            strukt(4, "Bar"),
            enum_item(10, "B", vec![5], Visibility::Public),
            variant(5, "First"),
            import(6, "renamed_foo", 3, false),
            import(7, "RenamedBar", 4, false),
            import(8, "RenamedFirst", 5, false),
            import(9, "inner", 1, true),
        ],
    );
    let indexed_crate = IndexedCrate::new(c);
    assert_paths(&indexed_crate, 3, &["glob_of_renamed_reexport::renamed_foo"]);
    assert_paths(&indexed_crate, 4, &["glob_of_renamed_reexport::RenamedBar"]);
    assert_paths(&indexed_crate, 5, &["glob_of_renamed_reexport::RenamedFirst"]);
}

#[test]
fn glob_reexport_enum_variants() {
    let c = krate(
        0,
        vec![
            module(0, "glob_reexport_enum_variants", Visibility::Public, vec![1, 4]),
            enum_item(1, "Foo", vec![2, 3], Visibility::Restricted),
            variant(2, "First"),
            variant(3, "Second"),
            import(4, "Foo", 1, true),
        ],
    );
    let indexed_crate = IndexedCrate::new(c);
    assert_paths(&indexed_crate, 2, &["glob_reexport_enum_variants::First"]);
    assert_paths(&indexed_crate, 3, &["glob_reexport_enum_variants::Second"]);
}

#[test]
fn glob_reexport_cycle() {
    let c = krate(
        0,
        vec![
            module(0, "glob_reexport_cycle", Visibility::Public, vec![1, 2]),
            module(1, "first", Visibility::Public, vec![3, 4, 5]),
            module(2, "second", Visibility::Public, vec![6]),
            function(3, "foo"),
            strukt(4, "Bar"),
            import(5, "second", 2, true),
            import(6, "first", 1, true),
        ],
    );
    let indexed_crate = IndexedCrate::new(c);
    assert_paths(
        &indexed_crate,
        3,
        &["glob_reexport_cycle::first::foo", "glob_reexport_cycle::second::foo"],
    );
    assert_paths(
        &indexed_crate,
        4,
        &["glob_reexport_cycle::first::Bar", "glob_reexport_cycle::second::Bar"],
    );
}

#[test]
fn infinite_recursive_reexport() {
    let c = krate(
        0,
        vec![
            module(0, "infinite_recursive_reexport", Visibility::Public, vec![1, 4]),
            module(1, "inner", Visibility::Public, vec![2, 3]),
            function(2, "foo"),
            import(3, "inner", 1, false),
            import(4, "foo", 2, false),
        ],
    );
    let indexed_crate = IndexedCrate::new(c);
    // We don't want to expand all infinitely-many names here.
    // We only return cycle-free paths, which are the following:
    assert_paths(
        &indexed_crate,
        2,
        &["infinite_recursive_reexport::foo", "infinite_recursive_reexport::inner::foo"],
    );
}

#[test]
fn infinite_indirect_recursive_reexport() {
    let c = krate(
        0,
        vec![
            module(
                0,
                "infinite_indirect_recursive_reexport",
                Visibility::Public,
                vec![1, 4, 5],
            ),
            module(1, "nested", Visibility::Public, vec![2, 3]),
            function(2, "foo"),
            import(3, "nested", 6, false),
            import(4, "foo", 2, false),
            module(5, "hidden", Visibility::Restricted, vec![6]),
            import(6, "nested", 1, false),
        ],
    );
    let indexed_crate = IndexedCrate::new(c);
    // We don't want to expand all infinitely-many names here.
    // We only return cycle-free paths, which are the following:
    assert_paths(
        &indexed_crate,
        2,
        &[
            "infinite_indirect_recursive_reexport::foo",
            "infinite_indirect_recursive_reexport::nested::foo",
        ],
    );
}

#[test]
fn infinite_corecursive_reexport() {
    let c = krate(
        0,
        vec![
            module(0, "infinite_corecursive_reexport", Visibility::Public, vec![1, 2]),
            module(1, "a", Visibility::Public, vec![3, 4]),
            module(2, "b", Visibility::Public, vec![5]),
            function(3, "foo"),
            import(4, "b", 2, false),
            import(5, "a", 1, false),
        ],
    );
    let indexed_crate = IndexedCrate::new(c);
    // We don't want to expand all infinitely-many names here.
    // We only return cycle-free paths, which are the following:
    assert_paths(
        &indexed_crate,
        3,
        &[
            "infinite_corecursive_reexport::a::foo",
            "infinite_corecursive_reexport::b::a::foo",
        ],
    );
}

#[test]
fn type_and_value_with_matching_names() {
    let c = krate(
        0,
        vec![
            module(0, "type_and_value_with_matching_names", Visibility::Public, vec![1, 6]),
            module(1, "nested", Visibility::Public, vec![2, 3, 4, 5]),
            strukt(2, "Foo"),
            function(3, "Foo"),
            strukt(4, "Bar"),
            function(5, "Bar"),
            import(6, "nested", 1, true),
        ],
    );
    let indexed_crate = IndexedCrate::new(c);
    for id in [2u64, 3] {
        assert_paths(
            &indexed_crate,
            id,
            &[
                "type_and_value_with_matching_names::Foo",
                "type_and_value_with_matching_names::nested::Foo",
            ],
        );
    }
    for id in [4u64, 5] {
        assert_paths(
            &indexed_crate,
            id,
            &[
                "type_and_value_with_matching_names::Bar",
                "type_and_value_with_matching_names::nested::Bar",
            ],
        );
    }
}

#[test]
fn explicit_reexport_of_matching_names() {
    let c = krate(
        0,
        vec![
            module(
                0,
                "explicit_reexport_of_matching_names",
                Visibility::Public,
                vec![1, 6, 7, 8, 9],
            ),
            module(1, "nested", Visibility::Public, vec![2, 3]),
            strukt(2, "Foo"),
            function(3, "Foo"),
            import(6, "Foo", 2, false),
            import(7, "Foo", 3, false),
            import(8, "Bar", 2, false),
            import(9, "Bar", 3, false),
        ],
    );
    let indexed_crate = IndexedCrate::new(c);
    for id in [2u64, 3] {
        assert_paths(
            &indexed_crate,
            id,
            &[
                "explicit_reexport_of_matching_names::Bar",
                "explicit_reexport_of_matching_names::Foo",
                "explicit_reexport_of_matching_names::nested::Foo",
            ],
        );
    }
}
