//! The indexed snapshot: the item graph together with its visibility
//! forest, an import-path index, an owner-and-member impl index, and the
//! synthesized placeholder traits. Everything is computed once, eagerly, at
//! construction; lookups are read-only. Construction never fails: dangling
//! or unresolved ids are skipped silently, presenting as absent results.

use vstd::prelude::*;

use crate::builtin::builtin_descs;
use crate::builtin::matches_desc;
use crate::builtin::synthesize_builtin_traits;
use crate::forest::Forest;
use crate::forest::compute_parent_ids;
use crate::forest::forest_spec;
use crate::forest::sort_forest;
use crate::forest::sorted_forest_rel;
use crate::model::Crate;
use crate::model::Item;
use crate::model::ItemKind;
use crate::model::item_of;
use crate::paths::collect_paths;
use crate::paths::collect_spec;
use crate::paths::importable_paths_spec;

verus! {

/// An importable path: ordered name components, root-first.
pub struct ImportablePath {
    pub components: Vec<String>,
}

impl ImportablePath {
    /// Wrap the given components.
    pub fn new(components: Vec<String>) -> (r: ImportablePath)
        ensures
            r.components == components,
    {
        ImportablePath { components }
    }
}

/// Key of the impl index: the id of the struct, enum, or union that owns the
/// member, and the member's name in one of the owner's impl blocks.
pub struct ImplEntry {
    pub data: (u64, String),
}

impl ImplEntry {
    /// Pair an owner id with a member name.
    pub fn new(owner_id: u64, item_name: String) -> (r: ImplEntry)
        ensures
            r.data.0 == owner_id,
            r.data.1 == item_name,
    {
        ImplEntry { data: (owner_id, item_name) }
    }

    /// The id of the owning type.
    pub fn owner_id(&self) -> (r: u64)
        ensures
            r == self.data.0,
    {
        self.data.0
    }

    /// The member's name.
    pub fn item_name(&self) -> (r: &String)
        ensures
            r == self.data.1,
    {
        &self.data.1
    }
}

/// The item kinds the import index covers.
pub open spec fn is_indexed_kind(k: ItemKind) -> bool {
    ||| k is Struct
    ||| k is StructField
    ||| k is Enum
    ||| k is Variant
    ||| k is Function
    ||| k is Impl
    ||| k is Trait
}

/// The importable paths of one id over forest `f`, from a fresh walk.
pub open spec fn item_paths(c: Crate, f: Map<u64, Seq<u64>>, id: u64) -> Seq<Seq<Seq<char>>> {
    collect_spec(c, f, c.root, id, Set::empty(), Seq::empty())
}

/// The import index, flattened: every (path, item id) pair the index holds,
/// in construction order — covered items in graph order, each item's paths
/// in enumeration order.
pub open spec fn pairs_of_item(c: Crate, f: Map<u64, Seq<u64>>, it: Item) -> Seq<
    (Seq<Seq<char>>, u64),
> {
    if is_indexed_kind(it.kind) {
        item_paths(c, f, it.id).map(|i: int, p: Seq<Seq<char>>| (p, it.id))
    } else {
        Seq::empty()
    }
}

proof fn lemma_pairs_of_item_indexed(c: Crate, f: Map<u64, Seq<u64>>, it: Item)
    requires
        is_indexed_kind(it.kind),
    ensures
        pairs_of_item(c, f, it) == pair_seq(item_paths(c, f, it.id), it.id),
{
    assert(pairs_of_item(c, f, it) =~= pair_seq(item_paths(c, f, it.id), it.id));
}

pub open spec fn import_pairs_rec(c: Crate, f: Map<u64, Seq<u64>>, items: Seq<Item>) -> Seq<
    (Seq<Seq<char>>, u64),
>
    decreases items.len(),
{
    if items.len() == 0 {
        Seq::empty()
    } else {
        pairs_of_item(c, f, items[0]) + import_pairs_rec(c, f, items.drop_first())
    }
}

/// All (path, item id) pairs of the import index.
pub open spec fn import_pairs(c: Crate, f: Map<u64, Seq<u64>>) -> Seq<(Seq<Seq<char>>, u64)> {
    import_pairs_rec(c, f, c.items@)
}

/// The ids filed under one exact path, in index order.
pub open spec fn import_lookup_spec(pairs: Seq<(Seq<Seq<char>>, u64)>, path: Seq<Seq<char>>) -> Seq<
    u64,
>
    decreases pairs.len(),
{
    if pairs.len() == 0 {
        Seq::empty()
    } else {
        (if pairs[0].0 == path {
            seq![pairs[0].1]
        } else {
            Seq::empty()
        }) + import_lookup_spec(pairs.drop_first(), path)
    }
}

/// Whether a provided-method name list holds a name, by contents.
pub open spec fn name_in(names: Seq<String>, n: Seq<char>) -> bool {
    exists|j: int| 0 <= j < names.len() && names[j]@ == n
}

/// The impl-index pairs contributed by the members written in one impl
/// block: one (owner, member name, impl id, member id) entry per named
/// member.
pub open spec fn impl_pairs_members(
    c: Crate,
    owner_id: u64,
    impl_id: u64,
    members: Seq<u64>,
) -> Seq<(u64, Seq<char>, u64, u64)>
    decreases members.len(),
{
    if members.len() == 0 {
        Seq::empty()
    } else {
        let head = match item_of(c, members[0]) {
            Some(ci) => match ci.name {
                Some(n) => seq![(owner_id, n@, impl_id, members[0])],
                None => Seq::empty(),
            },
            None => Seq::empty(),
        };
        head + impl_pairs_members(c, owner_id, impl_id, members.drop_first())
    }
}

/// The impl-index pairs a trait impl inherits: the trait's items whose names
/// the block lists as provided (default-bodied and not overridden), resolved
/// from the trait declaration.
pub open spec fn impl_pairs_provided(
    c: Crate,
    owner_id: u64,
    impl_id: u64,
    titems: Seq<u64>,
    provided: Seq<String>,
) -> Seq<(u64, Seq<char>, u64, u64)>
    decreases titems.len(),
{
    if titems.len() == 0 {
        Seq::empty()
    } else {
        let head = match item_of(c, titems[0]) {
            Some(pi) => match pi.name {
                Some(n) => if name_in(provided, n@) {
                    seq![(owner_id, n@, impl_id, titems[0])]
                } else {
                    Seq::empty()
                },
                None => Seq::empty(),
            },
            None => Seq::empty(),
        };
        head + impl_pairs_provided(c, owner_id, impl_id, titems.drop_first(), provided)
    }
}

/// The impl-index pairs of one attached impl block: inherited trait
/// defaults first, then the members written in the block.
pub open spec fn impl_pairs_for_impl(c: Crate, owner_id: u64, impl_id: u64) -> Seq<
    (u64, Seq<char>, u64, u64),
> {
    match item_of(c, impl_id) {
        Some(ii) => match ii.kind {
            ItemKind::Impl { items: members, trait_ref, provided_methods } => {
                let provided_part = match trait_ref {
                    Some(tr) => match item_of(c, tr.id) {
                        Some(ti) => match ti.kind {
                            ItemKind::Trait { items: titems, .. } => impl_pairs_provided(
                                c,
                                owner_id,
                                impl_id,
                                titems@,
                                provided_methods@,
                            ),
                            _ => Seq::empty(),
                        },
                        None => Seq::empty(),
                    },
                    None => Seq::empty(),
                };
                provided_part + impl_pairs_members(c, owner_id, impl_id, members@)
            },
            _ => Seq::empty(),
        },
        None => Seq::empty(),
    }
}

pub open spec fn impl_pairs_for_impls(c: Crate, owner_id: u64, impls: Seq<u64>) -> Seq<
    (u64, Seq<char>, u64, u64),
>
    decreases impls.len(),
{
    if impls.len() == 0 {
        Seq::empty()
    } else {
        impl_pairs_for_impl(c, owner_id, impls[0]) + impl_pairs_for_impls(
            c,
            owner_id,
            impls.drop_first(),
        )
    }
}

pub open spec fn impl_pairs_rec(c: Crate, items: Seq<Item>) -> Seq<(u64, Seq<char>, u64, u64)>
    decreases items.len(),
{
    if items.len() == 0 {
        Seq::empty()
    } else {
        let head = match items[0].kind {
            ItemKind::Struct { impls, .. } => impl_pairs_for_impls(c, items[0].id, impls@),
            ItemKind::Enum { impls, .. } => impl_pairs_for_impls(c, items[0].id, impls@),
            ItemKind::Union { impls, .. } => impl_pairs_for_impls(c, items[0].id, impls@),
            _ => Seq::empty(),
        };
        head + impl_pairs_rec(c, items.drop_first())
    }
}

/// The impl index, flattened: every (owner id, member name, impl id, member
/// id) entry, explicit or trait-default-inherited, in construction order.
pub open spec fn impl_pairs(c: Crate) -> Seq<(u64, Seq<char>, u64, u64)> {
    impl_pairs_rec(c, c.items@)
}

/// The flattened import index a vector of entries denotes.
pub open spec fn import_pairs_view(entries: Seq<(ImportablePath, u64)>) -> Seq<
    (Seq<Seq<char>>, u64),
> {
    entries.map(|i: int, e: (ImportablePath, u64)| (e.0.components.deep_view(), e.1))
}

/// The flattened impl index a vector of entries denotes.
pub open spec fn impl_pairs_view(entries: Seq<(ImplEntry, u64, u64)>) -> Seq<
    (u64, Seq<char>, u64, u64),
> {
    entries.map(|i: int, e: (ImplEntry, u64, u64)| (e.0.data.0, e.0.data.1@, e.1, e.2))
}

/// One item's paths, each paired with the item's id.
pub open spec fn pair_seq(paths: Seq<Seq<Seq<char>>>, id: u64) -> Seq<(Seq<Seq<char>>, u64)> {
    paths.map(|i: int, p: Seq<Seq<char>>| (p, id))
}

/// The (impl id, member id) pairs filed under one owner and member name, in
/// index order.
pub open spec fn impl_lookup_spec(
    pairs: Seq<(u64, Seq<char>, u64, u64)>,
    owner: u64,
    name: Seq<char>,
) -> Seq<(u64, u64)>
    decreases pairs.len(),
{
    if pairs.len() == 0 {
        Seq::empty()
    } else {
        (if pairs[0].0 == owner && pairs[0].1 == name {
            seq![(pairs[0].2, pairs[0].3)]
        } else {
            Seq::empty()
        }) + impl_lookup_spec(pairs.drop_first(), owner, name)
    }
}

fn append_import_pairs(
    imports_index: &mut Vec<(ImportablePath, u64)>,
    paths: Vec<Vec<String>>,
    id: u64,
)
    ensures
        import_pairs_view(final(imports_index)@) == import_pairs_view(old(imports_index)@)
            + pair_seq(paths.deep_view(), id),
{
    let ghost full = paths.deep_view();
    let mut rest = paths;
    proof {
        assert(import_pairs_view(imports_index@) + pair_seq(rest.deep_view(), id) =~=
            import_pairs_view(old(imports_index)@) + pair_seq(full, id));
    }
    while rest.len() > 0
        invariant
            import_pairs_view(imports_index@) + pair_seq(rest.deep_view(), id)
                == import_pairs_view(old(imports_index)@) + pair_seq(full, id),
        decreases rest.len(),
    {
        let ghost pre_rest = rest.deep_view();
        let ghost pre_view = import_pairs_view(imports_index@);
        let p = rest.remove(0);
        imports_index.push((ImportablePath::new(p), id));
        proof {
            assert(rest.deep_view() =~= pre_rest.drop_first());
            assert(import_pairs_view(imports_index@) =~= pre_view.push((pre_rest[0], id)));
            assert(pair_seq(pre_rest, id) =~= seq![(pre_rest[0], id)] + pair_seq(
                pre_rest.drop_first(),
                id,
            ));
            assert(pre_view + pair_seq(pre_rest, id) =~= import_pairs_view(imports_index@)
                + pair_seq(rest.deep_view(), id));
        }
    }
    proof {
        assert(pair_seq(rest.deep_view(), id) =~= Seq::<(Seq<Seq<char>>, u64)>::empty());
        assert(import_pairs_view(imports_index@) + pair_seq(rest.deep_view(), id) =~=
            import_pairs_view(imports_index@));
    }
}

fn contains_string(names: &Vec<String>, n: &String) -> (r: bool)
    ensures
        r == name_in(names@, n@),
{
    let m = names.len();
    for j in 0..m
        invariant
            m == names@.len(),
            forall|k: int| 0 <= k < j ==> names@[k]@ != n@,
    {
        let nj = &names[j];
        if *nj == *n {
            return true;
        }
    }
    proof {
        if name_in(names@, n@) {
            let k = choose|k: int| 0 <= k < names@.len() && names@[k]@ == n@;
        }
    }
    false
}

fn append_member_pairs(
    impl_index: &mut Vec<(ImplEntry, u64, u64)>,
    c: &Crate,
    owner_id: u64,
    impl_id: u64,
    members: &Vec<u64>,
)
    ensures
        impl_pairs_view(final(impl_index)@) == impl_pairs_view(old(impl_index)@)
            + impl_pairs_members(*c, owner_id, impl_id, members@),
{
    let n = members.len();
    proof {
        assert(members@.skip(0) =~= members@);
        assert(impl_pairs_view(impl_index@) + impl_pairs_members(*c, owner_id, impl_id,
            members@.skip(0)) =~= impl_pairs_view(old(impl_index)@) + impl_pairs_members(*c,
            owner_id, impl_id, members@));
    }
    for i in 0..n
        invariant
            n == members@.len(),
            impl_pairs_view(impl_index@) + impl_pairs_members(*c, owner_id, impl_id,
                members@.skip(i as int)) == impl_pairs_view(old(impl_index)@)
                + impl_pairs_members(*c, owner_id, impl_id, members@),
    {
        let ghost rest = members@.skip(i as int);
        let ghost pre_view = impl_pairs_view(impl_index@);
        proof {
            assert(rest[0] == members@[i as int]);
            assert(rest.drop_first() =~= members@.skip(i + 1));
        }
        let mid = members[i];
        match c.item_by_id(mid) {
            Some(ci) => {
                match &ci.name {
                    Some(nm) => {
                        impl_index.push((ImplEntry::new(owner_id, nm.clone()), impl_id, mid));
                        proof {
                            assert(impl_pairs_view(impl_index@) =~= pre_view.push(
                                (owner_id, nm@, impl_id, mid),
                            ));
                            assert(pre_view.push((owner_id, nm@, impl_id, mid)) =~= pre_view
                                + seq![(owner_id, nm@, impl_id, mid)]);
                        }
                    },
                    None => {},
                }
            },
            None => {},
        }
        proof {
            assert(impl_pairs_view(impl_index@) + impl_pairs_members(*c, owner_id, impl_id,
                rest.drop_first()) =~= pre_view + impl_pairs_members(*c, owner_id, impl_id,
                rest));
        }
    }
    proof {
        assert(members@.skip(n as int) =~= Seq::<u64>::empty());
        assert(impl_pairs_view(impl_index@) + impl_pairs_members(*c, owner_id, impl_id,
            members@.skip(n as int)) =~= impl_pairs_view(impl_index@));
    }
}

fn append_provided_pairs(
    impl_index: &mut Vec<(ImplEntry, u64, u64)>,
    c: &Crate,
    owner_id: u64,
    impl_id: u64,
    titems: &Vec<u64>,
    provided: &Vec<String>,
)
    ensures
        impl_pairs_view(final(impl_index)@) == impl_pairs_view(old(impl_index)@)
            + impl_pairs_provided(*c, owner_id, impl_id, titems@, provided@),
{
    let n = titems.len();
    proof {
        assert(titems@.skip(0) =~= titems@);
        assert(impl_pairs_view(impl_index@) + impl_pairs_provided(*c, owner_id, impl_id,
            titems@.skip(0), provided@) =~= impl_pairs_view(old(impl_index)@)
            + impl_pairs_provided(*c, owner_id, impl_id, titems@, provided@));
    }
    for i in 0..n
        invariant
            n == titems@.len(),
            impl_pairs_view(impl_index@) + impl_pairs_provided(*c, owner_id, impl_id,
                titems@.skip(i as int), provided@) == impl_pairs_view(old(impl_index)@)
                + impl_pairs_provided(*c, owner_id, impl_id, titems@, provided@),
    {
        let ghost rest = titems@.skip(i as int);
        let ghost pre_view = impl_pairs_view(impl_index@);
        proof {
            assert(rest[0] == titems@[i as int]);
            assert(rest.drop_first() =~= titems@.skip(i + 1));
        }
        let tid = titems[i];
        match c.item_by_id(tid) {
            Some(pi) => {
                match &pi.name {
                    Some(nm) => {
                        if contains_string(provided, nm) {
                            impl_index.push((ImplEntry::new(owner_id, nm.clone()), impl_id, tid));
                            proof {
                                assert(impl_pairs_view(impl_index@) =~= pre_view.push(
                                    (owner_id, nm@, impl_id, tid),
                                ));
                                assert(pre_view.push((owner_id, nm@, impl_id, tid)) =~= pre_view
                                    + seq![(owner_id, nm@, impl_id, tid)]);
                            }
                        }
                    },
                    None => {},
                }
            },
            None => {},
        }
        proof {
            assert(impl_pairs_view(impl_index@) + impl_pairs_provided(*c, owner_id, impl_id,
                rest.drop_first(), provided@) =~= pre_view + impl_pairs_provided(*c, owner_id,
                impl_id, rest, provided@));
        }
    }
    proof {
        assert(titems@.skip(n as int) =~= Seq::<u64>::empty());
        assert(impl_pairs_view(impl_index@) + impl_pairs_provided(*c, owner_id, impl_id,
            titems@.skip(n as int), provided@) =~= impl_pairs_view(impl_index@));
    }
}

fn append_impl_pairs(impl_index: &mut Vec<(ImplEntry, u64, u64)>, c: &Crate, owner_id: u64, impl_id: u64)
    ensures
        impl_pairs_view(final(impl_index)@) == impl_pairs_view(old(impl_index)@)
            + impl_pairs_for_impl(*c, owner_id, impl_id),
{
    let ghost base = impl_pairs_view(impl_index@);
    match c.item_by_id(impl_id) {
        None => {
            proof {
                assert(impl_pairs_view(impl_index@) =~= base + impl_pairs_for_impl(*c, owner_id,
                    impl_id));
            }
        },
        Some(ii) => {
            match &ii.kind {
                ItemKind::Impl { items: members, trait_ref, provided_methods } => {
                    match trait_ref {
                        Some(tr) => {
                            match c.item_by_id(tr.id) {
                                Some(ti) => {
                                    match &ti.kind {
                                        ItemKind::Trait { items: titems, .. } => {
                                            append_provided_pairs(
                                                impl_index,
                                                c,
                                                owner_id,
                                                impl_id,
                                                titems,
                                                provided_methods,
                                            );
                                        },
                                        _ => {},
                                    }
                                },
                                None => {},
                            }
                        },
                        None => {},
                    }
                    append_member_pairs(impl_index, c, owner_id, impl_id, members);
                    proof {
                        assert(impl_pairs_view(impl_index@) =~= base + impl_pairs_for_impl(
                            *c,
                            owner_id,
                            impl_id,
                        ));
                    }
                },
                _ => {
                    proof {
                        assert(impl_pairs_view(impl_index@) =~= base + impl_pairs_for_impl(*c,
                            owner_id, impl_id));
                    }
                },
            }
        },
    }
}

fn append_impls_pairs(
    impl_index: &mut Vec<(ImplEntry, u64, u64)>,
    c: &Crate,
    owner_id: u64,
    impls: &Vec<u64>,
)
    ensures
        impl_pairs_view(final(impl_index)@) == impl_pairs_view(old(impl_index)@)
            + impl_pairs_for_impls(*c, owner_id, impls@),
{
    let n = impls.len();
    proof {
        assert(impls@.skip(0) =~= impls@);
        assert(impl_pairs_view(impl_index@) + impl_pairs_for_impls(*c, owner_id, impls@.skip(0))
            =~= impl_pairs_view(old(impl_index)@) + impl_pairs_for_impls(*c, owner_id, impls@));
    }
    for i in 0..n
        invariant
            n == impls@.len(),
            impl_pairs_view(impl_index@) + impl_pairs_for_impls(*c, owner_id, impls@.skip(
                i as int,
            )) == impl_pairs_view(old(impl_index)@) + impl_pairs_for_impls(*c, owner_id, impls@),
    {
        let ghost rest = impls@.skip(i as int);
        let ghost pre_view = impl_pairs_view(impl_index@);
        proof {
            assert(rest[0] == impls@[i as int]);
            assert(rest.drop_first() =~= impls@.skip(i + 1));
        }
        append_impl_pairs(impl_index, c, owner_id, impls[i]);
        proof {
            assert(impl_pairs_view(impl_index@) + impl_pairs_for_impls(*c, owner_id,
                rest.drop_first()) =~= pre_view + impl_pairs_for_impls(*c, owner_id, rest));
        }
    }
    proof {
        assert(impls@.skip(n as int) =~= Seq::<u64>::empty());
        assert(impl_pairs_view(impl_index@) + impl_pairs_for_impls(*c, owner_id, impls@.skip(
            n as int,
        )) =~= impl_pairs_view(impl_index@));
    }
}

fn paths_equal(a: &Vec<String>, b: &Vec<String>) -> (r: bool)
    ensures
        r == (a.deep_view() == b.deep_view()),
{
    let n = a.len();
    if b.len() != n {
        proof {
            assert(a.deep_view().len() == n);
            assert(b.deep_view().len() == b@.len());
        }
        return false;
    }
    for i in 0..n
        invariant
            n == a@.len(),
            n == b@.len(),
            forall|k: int| 0 <= k < i ==> a@[k]@ == b@[k]@,
    {
        let ai = &a[i];
        let bi = &b[i];
        if !(*ai == *bi) {
            proof {
                assert(a.deep_view()[i as int] == a@[i as int]@);
                assert(b.deep_view()[i as int] == b@[i as int]@);
            }
            return false;
        }
    }
    proof {
        assert(a.deep_view() =~= b.deep_view());
    }
    true
}

/// The indexed snapshot: graph, forest, indices, and synthesized traits,
/// built once and read-only thereafter.
pub struct IndexedCrate {
    inner: Crate,
    visibility_forest: Forest,
    imports_index: Vec<(ImportablePath, u64)>,
    impl_index: Vec<(ImplEntry, u64, u64)>,
    manually_inlined_builtin_traits: Vec<(u64, Item)>,
}

impl IndexedCrate {
    /// The snapshot this index was built from.
    pub closed spec fn spec_inner(self) -> Crate {
        self.inner
    }

    /// The visibility forest, as an id-to-sorted-parents map.
    pub closed spec fn spec_forest(self) -> Map<u64, Seq<u64>> {
        self.visibility_forest@
    }

    /// The flattened import index.
    pub closed spec fn spec_import_pairs(self) -> Seq<(Seq<Seq<char>>, u64)> {
        import_pairs_view(self.imports_index@)
    }

    /// The flattened impl index.
    pub closed spec fn spec_impl_pairs(self) -> Seq<(u64, Seq<char>, u64, u64)> {
        impl_pairs_view(self.impl_index@)
    }

    /// The synthesized placeholder traits, keyed by id.
    pub closed spec fn spec_builtin_traits(self) -> Seq<(u64, Item)> {
        self.manually_inlined_builtin_traits@
    }

    /// Build every index eagerly: the forest from the root walk with each
    /// parent list sorted ascending, the placeholder traits, the import
    /// index over all covered items, and the impl index with inherited
    /// trait defaults.
    pub fn new(inner: Crate) -> (r: IndexedCrate)
        ensures
            r.spec_inner() == inner,
            sorted_forest_rel(r.spec_forest(), forest_spec(inner)),
            r.spec_import_pairs() == import_pairs(inner, r.spec_forest()),
            r.spec_impl_pairs() == impl_pairs(inner),
            r.spec_builtin_traits().len() == builtin_descs(inner).len(),
            forall|i: int|
                0 <= i < builtin_descs(inner).len() ==> (#[trigger] r.spec_builtin_traits()[i]).0
                    == builtin_descs(inner)[i].id && matches_desc(
                    r.spec_builtin_traits()[i].1,
                    builtin_descs(inner)[i],
                ),
    {
        let forest_raw = compute_parent_ids(&inner);
        let visibility_forest = sort_forest(&forest_raw);
        let manually_inlined_builtin_traits = synthesize_builtin_traits(&inner);
        let ghost fview = visibility_forest@;

        // import index
        let mut imports_index: Vec<(ImportablePath, u64)> = Vec::new();
        let n = inner.items.len();
        proof {
            assert(inner.items@.skip(0) =~= inner.items@);
            assert(import_pairs_view(imports_index@) =~= Seq::<(Seq<Seq<char>>, u64)>::empty());
            assert(import_pairs_view(imports_index@) + import_pairs_rec(inner, fview,
                inner.items@.skip(0)) =~= import_pairs(inner, fview));
        }
        for i in 0..n
            invariant
                n == inner.items@.len(),
                fview == visibility_forest@,
                import_pairs_view(imports_index@) + import_pairs_rec(inner, fview,
                    inner.items@.skip(i as int)) == import_pairs(inner, fview),
        {
            let ghost rest = inner.items@.skip(i as int);
            let ghost pre_view = import_pairs_view(imports_index@);
            proof {
                assert(rest[0] == inner.items@[i as int]);
                assert(rest.drop_first() =~= inner.items@.skip(i + 1));
            }
            let indexed = match &inner.items[i].kind {
                ItemKind::Struct { .. } => true,
                ItemKind::StructField => true,
                ItemKind::Enum { .. } => true,
                ItemKind::Variant => true,
                ItemKind::Function => true,
                ItemKind::Impl { .. } => true,
                ItemKind::Trait { .. } => true,
                _ => false,
            };
            if indexed {
                let item_id = inner.items[i].id;
                let mut result: Vec<Vec<String>> = Vec::new();
                let mut visited: Vec<u64> = Vec::new();
                let mut stack: Vec<String> = Vec::new();
                proof {
                    assert(visited@.to_set() =~= Set::<u64>::empty());
                    assert(stack.deep_view() =~= Seq::<Seq<char>>::empty());
                    assert(result.deep_view() =~= Seq::<Seq<Seq<char>>>::empty());
                }
                collect_paths(
                    &inner,
                    &visibility_forest,
                    inner.root,
                    item_id,
                    &mut visited,
                    &mut stack,
                    &mut result,
                );
                proof {
                    assert(result.deep_view() =~= item_paths(inner, fview, item_id));
                }
                append_import_pairs(&mut imports_index, result, item_id);
                proof {
                    lemma_pairs_of_item_indexed(inner, fview, inner.items@[i as int]);
                    assert(import_pairs_view(imports_index@) =~= pre_view + pairs_of_item(
                        inner,
                        fview,
                        rest[0],
                    ));
                }
            } else {
                proof {
                    assert(pairs_of_item(inner, fview, rest[0]) =~= Seq::<
                        (Seq<Seq<char>>, u64),
                    >::empty());
                }
            }
            proof {
                assert(import_pairs_view(imports_index@) + import_pairs_rec(inner, fview,
                    rest.drop_first()) =~= pre_view + import_pairs_rec(inner, fview, rest));
            }
        }
        proof {
            assert(inner.items@.skip(n as int) =~= Seq::<Item>::empty());
            assert(import_pairs_view(imports_index@) + import_pairs_rec(inner, fview,
                inner.items@.skip(n as int)) =~= import_pairs_view(imports_index@));
        }

        // impl index
        let mut impl_index: Vec<(ImplEntry, u64, u64)> = Vec::new();
        proof {
            assert(impl_pairs_view(impl_index@) =~= Seq::<(u64, Seq<char>, u64, u64)>::empty());
            assert(impl_pairs_view(impl_index@) + impl_pairs_rec(inner, inner.items@.skip(0)) =~=
                impl_pairs(inner));
        }
        for i in 0..n
            invariant
                n == inner.items@.len(),
                impl_pairs_view(impl_index@) + impl_pairs_rec(inner, inner.items@.skip(i as int))
                    == impl_pairs(inner),
        {
            let ghost rest = inner.items@.skip(i as int);
            let ghost pre_view = impl_pairs_view(impl_index@);
            proof {
                assert(rest[0] == inner.items@[i as int]);
                assert(rest.drop_first() =~= inner.items@.skip(i + 1));
            }
            let owner_id = inner.items[i].id;
            match &inner.items[i].kind {
                ItemKind::Struct { impls, .. } => {
                    append_impls_pairs(&mut impl_index, &inner, owner_id, impls);
                },
                ItemKind::Enum { impls, .. } => {
                    append_impls_pairs(&mut impl_index, &inner, owner_id, impls);
                },
                ItemKind::Union { impls, .. } => {
                    append_impls_pairs(&mut impl_index, &inner, owner_id, impls);
                },
                _ => {},
            }
            proof {
                assert(impl_pairs_view(impl_index@) + impl_pairs_rec(inner, rest.drop_first())
                    =~= pre_view + impl_pairs_rec(inner, rest));
            }
        }
        proof {
            assert(impl_pairs_view(impl_index@) + impl_pairs_rec(inner, inner.items@.skip(
                n as int,
            )) =~= impl_pairs_view(impl_index@));
        }

        IndexedCrate {
            inner,
            visibility_forest,
            imports_index,
            impl_index,
            manually_inlined_builtin_traits,
        }
    }

    /// Every path with which the given item can be imported, root-first,
    /// exactly `importable_paths_spec` over this index's snapshot and
    /// forest. Identical queries against the same index observe identical
    /// results, in one deterministic order.
    pub fn publicly_importable_names(&self, id: u64) -> (r: Vec<Vec<String>>)
        ensures
            r.deep_view() == importable_paths_spec(self.spec_inner(), self.spec_forest(), id),
    {
        let mut result: Vec<Vec<String>> = Vec::new();
        match self.inner.item_by_id(id) {
            Some(_) => {
                let mut visited: Vec<u64> = Vec::new();
                let mut stack: Vec<String> = Vec::new();
                proof {
                    assert(visited@.to_set() =~= Set::<u64>::empty());
                    assert(stack.deep_view() =~= Seq::<Seq<char>>::empty());
                    assert(result.deep_view() =~= Seq::<Seq<Seq<char>>>::empty());
                }
                collect_paths(
                    &self.inner,
                    &self.visibility_forest,
                    self.inner.root,
                    id,
                    &mut visited,
                    &mut stack,
                    &mut result,
                );
                proof {
                    assert(result.deep_view() =~= importable_paths_spec(
                        self.spec_inner(),
                        self.spec_forest(),
                        id,
                    ));
                }
            },
            None => {
                proof {
                    assert(result.deep_view() =~= importable_paths_spec(
                        self.spec_inner(),
                        self.spec_forest(),
                        id,
                    ));
                }
            },
        }
        result
    }

    /// Whether the item has a visibility-forest entry: reachable from the
    /// root through public visibility and re-exports.
    pub fn forest_contains(&self, id: u64) -> (r: bool)
        ensures
            r == self.spec_forest().contains_key(id),
    {
        self.visibility_forest.contains(id)
    }

    /// The recorded reachability parents of an item, ascending; `None` when
    /// the item is not publicly reachable.
    pub fn forest_parents(&self, id: u64) -> (r: Option<&Vec<u64>>)
        ensures
            match r {
                Some(v) => self.spec_forest().contains_key(id) && self.spec_forest()[id] == v@,
                None => !self.spec_forest().contains_key(id),
            },
    {
        self.visibility_forest.get_parents(id)
    }

    /// The items filed under one exact import path, in index order.
    pub fn imports_lookup(&self, path: &Vec<String>) -> (r: Vec<u64>)
        ensures
            r@ == import_lookup_spec(self.spec_import_pairs(), path.deep_view()),
    {
        let mut r: Vec<u64> = Vec::new();
        let n = self.imports_index.len();
        let ghost pairs = import_pairs_view(self.imports_index@);
        proof {
            assert(pairs.skip(0) =~= pairs);
            assert(r@ + import_lookup_spec(pairs.skip(0), path.deep_view()) =~=
                import_lookup_spec(pairs, path.deep_view()));
        }
        for i in 0..n
            invariant
                n == self.imports_index@.len(),
                n == pairs.len(),
                pairs == import_pairs_view(self.imports_index@),
                r@ + import_lookup_spec(pairs.skip(i as int), path.deep_view())
                    == import_lookup_spec(pairs, path.deep_view()),
        {
            let ghost rest = pairs.skip(i as int);
            let ghost pre = r@;
            proof {
                assert(rest[0] == pairs[i as int]);
                assert(rest.drop_first() =~= pairs.skip(i + 1));
            }
            if paths_equal(&self.imports_index[i].0.components, path) {
                r.push(self.imports_index[i].1);
            }
            proof {
                assert(r@ + import_lookup_spec(rest.drop_first(), path.deep_view()) =~= pre
                    + import_lookup_spec(rest, path.deep_view()));
            }
        }
        proof {
            assert(pairs.skip(n as int) =~= Seq::<(Seq<Seq<char>>, u64)>::empty());
            assert(r@ + import_lookup_spec(pairs.skip(n as int), path.deep_view()) =~= r@);
        }
        r
    }

    /// The (impl block, member) id pairs providing `name` on the owner, in
    /// index order — written explicitly or inherited from a trait default.
    pub fn impl_lookup(&self, owner_id: u64, name: &String) -> (r: Vec<(u64, u64)>)
        ensures
            r@ == impl_lookup_spec(self.spec_impl_pairs(), owner_id, name@),
    {
        let mut r: Vec<(u64, u64)> = Vec::new();
        let n = self.impl_index.len();
        let ghost pairs = impl_pairs_view(self.impl_index@);
        proof {
            assert(pairs.skip(0) =~= pairs);
            assert(r@ + impl_lookup_spec(pairs.skip(0), owner_id, name@) =~= impl_lookup_spec(
                pairs,
                owner_id,
                name@,
            ));
        }
        for i in 0..n
            invariant
                n == self.impl_index@.len(),
                n == pairs.len(),
                pairs == impl_pairs_view(self.impl_index@),
                r@ + impl_lookup_spec(pairs.skip(i as int), owner_id, name@) == impl_lookup_spec(
                    pairs,
                    owner_id,
                    name@,
                ),
        {
            let ghost rest = pairs.skip(i as int);
            let ghost pre = r@;
            proof {
                assert(rest[0] == pairs[i as int]);
                assert(rest.drop_first() =~= pairs.skip(i + 1));
            }
            let entry = &self.impl_index[i];
            if entry.0.data.0 == owner_id && entry.0.data.1 == *name {
                r.push((entry.1, entry.2));
            }
            proof {
                assert(r@ + impl_lookup_spec(rest.drop_first(), owner_id, name@) =~= pre
                    + impl_lookup_spec(rest, owner_id, name@));
            }
        }
        proof {
            assert(pairs.skip(n as int) =~= Seq::<(u64, Seq<char>, u64, u64)>::empty());
            assert(r@ + impl_lookup_spec(pairs.skip(n as int), owner_id, name@) =~= r@);
        }
        r
    }

    /// The synthesized placeholder trait registered under an id, if any.
    pub fn manually_inlined_builtin_trait(&self, id: u64) -> (r: Option<&Item>)
        ensures
            match r {
                Some(it) => exists|j: int|
                    0 <= j < self.spec_builtin_traits().len() && (
                    #[trigger] self.spec_builtin_traits()[j]).0 == id
                        && self.spec_builtin_traits()[j].1 == *it,
                None => forall|j: int|
                    0 <= j < self.spec_builtin_traits().len() ==> (
                    #[trigger] self.spec_builtin_traits()[j]).0 != id,
            },
    {
        let n = self.manually_inlined_builtin_traits.len();
        for i in 0..n
            invariant
                n == self.manually_inlined_builtin_traits@.len(),
                forall|j: int|
                    0 <= j < i ==> (#[trigger] self.manually_inlined_builtin_traits@[j]).0 != id,
        {
            if self.manually_inlined_builtin_traits[i].0 == id {
                proof {
                    assert((self.spec_builtin_traits()[i as int]).0 == id);
                }
                return Some(&self.manually_inlined_builtin_traits[i].1);
            }
        }
        None
    }
}

/// An item has importable paths only if it has a visibility-forest entry or
/// is the root: a non-empty `publicly_importable_names` result implies
/// `forest_contains` answers true, unless the queried id is the root id.
pub proof fn lemma_importable_names_need_reachability(ic: IndexedCrate, id: u64)
    requires
        importable_paths_spec(ic.spec_inner(), ic.spec_forest(), id).len() > 0,
    ensures
        ic.spec_forest().contains_key(id) || id == ic.spec_inner().root,
{
    crate::paths::lemma_paths_need_reachability(ic.spec_inner(), ic.spec_forest(), id);
}

/// Path enumeration is a function of the index and the queried id alone:
/// repeated calls of `publicly_importable_names` with identical input state
/// observe identical results.
pub proof fn lemma_importable_names_deterministic(
    ic: IndexedCrate,
    id: u64,
    r1: Seq<Seq<Seq<char>>>,
    r2: Seq<Seq<Seq<char>>>,
)
    requires
        r1 == importable_paths_spec(ic.spec_inner(), ic.spec_forest(), id),
        r2 == importable_paths_spec(ic.spec_inner(), ic.spec_forest(), id),
    ensures
        r1 == r2,
{
}

/// Every path `publicly_importable_names` returns is finite: at most one
/// name longer than the snapshot's item count, even on cyclic graphs.
pub proof fn lemma_importable_names_finite(ic: IndexedCrate, id: u64, i: int)
    requires
        0 <= i < importable_paths_spec(ic.spec_inner(), ic.spec_forest(), id).len(),
    ensures
        importable_paths_spec(ic.spec_inner(), ic.spec_forest(), id)[i].len() <= ic.spec_inner().items@.len() + 1,
{
    crate::paths::lemma_paths_finite(ic.spec_inner(), ic.spec_forest(), id, i);
}

} // verus!
