//! The snapshot model: one declared entity per item, identified by a numeric
//! id, with a visibility tag and a kind-specific payload. A `Crate` is the
//! root id, the full item list, and a summary list recognizing ids that are
//! owned by other artifacts.

use vstd::prelude::*;

verus! {

/// Visibility tag of one item.
#[derive(Clone, Debug)]
pub enum Visibility {
    /// Declared `pub`.
    Public,
    /// Visible to the declaring artifact only.
    CrateVisible,
    /// Restricted to some narrower scope.
    Restricted,
    /// No explicit tag: effective visibility follows the enclosing item.
    DefaultVisibility,
}

/// One generic argument supplied on a named-path type reference.
#[derive(Clone, Debug)]
pub enum GenericArg {
    /// A lifetime argument, by name.
    Lifetime { name: String },
    /// A type argument that is itself a bare generic parameter name.
    NamedType { name: String },
    /// Any other type expression.
    OtherTypeArg,
    /// A const argument; the expression is kept as text.
    ConstArg { expr: String },
    /// An inferred (`_`) argument.
    InferArg,
}

/// The kind of one declared generic parameter.
#[derive(Clone, Debug)]
pub enum GenericParamKind {
    Lifetime,
    /// A type parameter; its default value, if any, is kept as canonical text.
    TypeParam { default_text: Option<String> },
    /// A const parameter: its declared type and optional default, as text.
    ConstParam { type_text: String, default_text: Option<String> },
}

/// One declared generic parameter.
#[derive(Clone, Debug)]
pub struct GenericParam {
    pub name: String,
    pub kind: GenericParamKind,
}

/// Arguments attached to a named-path type reference.
#[derive(Clone, Debug)]
pub enum PathArgs {
    /// `<...>` arguments; `has_bindings` records whether any associated-type
    /// binding is fixed on the path.
    AngleBracketed { args: Vec<GenericArg>, has_bindings: bool },
    /// `(...) -> ...` sugar.
    Parenthesized,
}

/// The aliased type of a type alias.
#[derive(Clone, Debug)]
pub enum TypeExpr {
    /// A resolved named-path reference to another item.
    ResolvedPath { id: u64, args: Option<PathArgs> },
    /// Any other shape of type.
    OtherType,
}

/// A named reference to a trait, as it appears on an impl block.
#[derive(Clone, Debug)]
pub struct TraitRef {
    pub name: String,
    pub id: u64,
}

/// Kind-specific payload of one item.
#[derive(Clone, Debug)]
pub enum ItemKind {
    Module { children: Vec<u64> },
    /// A `use` item. `name` is the name under which the target is brought in
    /// (possibly a rename); `target` is the resolved target item, if known.
    Import { name: String, target: Option<u64>, is_glob: bool },
    Struct { fields: Vec<u64>, impls: Vec<u64>, generics: Vec<GenericParam> },
    Enum { variants: Vec<u64>, impls: Vec<u64>, generics: Vec<GenericParam> },
    Union { fields: Vec<u64>, impls: Vec<u64>, generics: Vec<GenericParam> },
    Trait { items: Vec<u64>, generics: Vec<GenericParam>, is_auto: bool, is_unsafe: bool },
    Impl { items: Vec<u64>, trait_ref: Option<TraitRef>, provided_methods: Vec<String> },
    Typedef { target: TypeExpr, generics: Vec<GenericParam> },
    Function,
    StructField,
    Variant,
    Constant,
    Other,
}

/// One graph node.
#[derive(Clone, Debug)]
pub struct Item {
    pub id: u64,
    /// The artifact the item comes from; zero for the current one.
    pub crate_id: u32,
    pub name: Option<String>,
    pub visibility: Visibility,
    pub kind: ItemKind,
}

/// Summary entry for an id whose full item lives in another artifact.
#[derive(Clone, Debug)]
pub struct ItemSummary {
    pub id: u64,
    pub crate_id: u32,
}

/// A fully parsed snapshot: root id, item graph, and external summaries.
#[derive(Clone, Debug)]
pub struct Crate {
    pub root: u64,
    pub items: Vec<Item>,
    pub summaries: Vec<ItemSummary>,
}

/// The first item with the given id, if any.
pub open spec fn find_item(items: Seq<Item>, id: u64) -> Option<Item>
    decreases items.len(),
{
    if items.len() == 0 {
        None
    } else if items[0].id == id {
        Some(items[0])
    } else {
        find_item(items.drop_first(), id)
    }
}

/// The item the snapshot holds under the given id, if any.
pub open spec fn item_of(c: Crate, id: u64) -> Option<Item> {
    find_item(c.items@, id)
}

/// The first external summary with the given id, if any.
pub open spec fn find_summary(s: Seq<ItemSummary>, id: u64) -> Option<ItemSummary>
    decreases s.len(),
{
    if s.len() == 0 {
        None
    } else if s[0].id == id {
        Some(s[0])
    } else {
        find_summary(s.drop_first(), id)
    }
}

/// The set of ids the snapshot holds an item for.
pub open spec fn snapshot_ids(c: Crate) -> Set<u64> {
    c.items@.map(|i: int, it: Item| it.id).to_set()
}

/// An id has an item exactly when it is among the snapshot's ids.
pub proof fn lemma_find_item_ids(items: Seq<Item>, id: u64)
    ensures
        find_item(items, id) is Some <==> items.map(|i: int, it: Item| it.id).to_set().contains(
            id,
        ),
    decreases items.len(),
{
    let ids = items.map(|i: int, it: Item| it.id);
    if items.len() == 0 {
        assert(!ids.to_set().contains(id)) by {
            if ids.to_set().contains(id) {
                let i = choose|i: int| 0 <= i < ids.len() && ids[i] == id;
            }
        }
    } else {
        lemma_find_item_ids(items.drop_first(), id);
        let rest_ids = items.drop_first().map(|i: int, it: Item| it.id);
        assert(rest_ids =~= ids.drop_first());
        if items[0].id == id {
            assert(ids[0] == id);
            assert(ids.to_set().contains(id));
        } else {
            if ids.to_set().contains(id) {
                let i = choose|i: int| 0 <= i < ids.len() && ids[i] == id;
                assert(i != 0);
                assert(ids.drop_first()[i - 1] == id);
                assert(rest_ids.to_set().contains(id));
            }
            if rest_ids.to_set().contains(id) {
                let i = choose|i: int| 0 <= i < rest_ids.len() && rest_ids[i] == id;
                assert(ids[i + 1] == id);
                assert(ids.to_set().contains(id));
            }
        }
    }
}

/// The snapshot has no more distinct ids than items.
pub proof fn lemma_snapshot_ids_len(c: Crate)
    ensures
        snapshot_ids(c).finite(),
        snapshot_ids(c).len() <= c.items@.len(),
{
    let ids = c.items@.map(|i: int, it: Item| it.id);
    ids.lemma_cardinality_of_set();
}

/// Whether a vector of ids holds the given id.
pub fn contains_id(v: &Vec<u64>, x: u64) -> (r: bool)
    ensures
        r == v@.contains(x),
{
    let n = v.len();
    for i in 0..n
        invariant
            n == v@.len(),
            forall|j: int| 0 <= j < i ==> v@[j] != x,
    {
        if v[i] == x {
            return true;
        }
    }
    false
}

impl Crate {
    /// Look an item up by id: the first graph entry carrying it, if any.
    pub fn item_by_id(&self, id: u64) -> (r: Option<&Item>)
        ensures
            match r {
                Some(it) => item_of(*self, id) == Some(*it),
                None => item_of(*self, id) is None,
            },
    {
        let n = self.items.len();
        proof {
            assert(self.items@.skip(0) =~= self.items@);
        }
        for i in 0..n
            invariant
                n == self.items@.len(),
                find_item(self.items@, id) == find_item(self.items@.skip(i as int), id),
                forall|j: int| 0 <= j < i ==> self.items@[j].id != id,
        {
            proof {
                assert(self.items@.skip(i as int)[0] == self.items@[i as int]);
                assert(self.items@.skip(i as int).drop_first() =~= self.items@.skip(i + 1));
            }
            if self.items[i].id == id {
                return Some(&self.items[i]);
            }
        }
        proof {
            assert(self.items@.skip(n as int) =~= Seq::<Item>::empty());
        }
        None
    }

    /// Whether the external summaries hold the given id, and with which
    /// artifact number.
    pub fn summary_by_id(&self, id: u64) -> (r: Option<&ItemSummary>)
        ensures
            match r {
                Some(s) => find_summary(self.summaries@, id) == Some(*s),
                None => find_summary(self.summaries@, id) is None,
            },
    {
        let n = self.summaries.len();
        proof {
            assert(self.summaries@.skip(0) =~= self.summaries@);
        }
        for i in 0..n
            invariant
                n == self.summaries@.len(),
                find_summary(self.summaries@, id) == find_summary(
                    self.summaries@.skip(i as int),
                    id,
                ),
        {
            proof {
                assert(self.summaries@.skip(i as int)[0] == self.summaries@[i as int]);
                assert(self.summaries@.skip(i as int).drop_first() =~= self.summaries@.skip(
                    i + 1,
                ));
            }
            if self.summaries[i].id == id {
                return Some(&self.summaries[i]);
            }
        }
        proof {
            assert(self.summaries@.skip(n as int) =~= Seq::<ItemSummary>::empty());
        }
        None
    }
}

} // verus!
