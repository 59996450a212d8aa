//! The visibility forest: for every publicly reachable item, the ordered,
//! deduplicated set of its reachability parents. Entries exist exactly for
//! the items a depth-first walk from the root reaches through public
//! visibility, re-exports, and alias-as-re-export typedefs; an item may have
//! several parents when several re-export chains reach it.

use vstd::prelude::*;
use vstd::set_lib::lemma_len_subset;

use crate::model::Crate;
use crate::model::Item;
use crate::model::ItemKind;
use crate::model::Visibility;
use crate::model::contains_id;
use crate::model::item_of;
use crate::model::lemma_find_item_ids;
use crate::model::lemma_snapshot_ids_len;
use crate::model::snapshot_ids;
use crate::typedef_equiv::typedef_equivalent_target;
use crate::typedef_equiv::typedef_target_spec;

verus! {

/// First-match lookup in an association list of id-to-parents entries.
pub open spec fn assoc_get(entries: Seq<(u64, Vec<u64>)>, id: u64) -> Option<Seq<u64>>
    decreases entries.len(),
{
    if entries.len() == 0 {
        None
    } else if entries[0].0 == id {
        Some(entries[0].1@)
    } else {
        assoc_get(entries.drop_first(), id)
    }
}

/// Id-to-parent-list map, stored as an association vector whose keys are
/// distinct and whose parent lists are duplicate-free.
pub struct Forest {
    pub entries: Vec<(u64, Vec<u64>)>,
}

impl Forest {
    /// The keys, in storage order.
    pub open spec fn keys_seq(self) -> Seq<u64> {
        self.entries@.map(|i: int, e: (u64, Vec<u64>)| e.0)
    }

    /// Distinct keys; duplicate-free parent lists.
    pub open spec fn wf(self) -> bool {
        &&& self.keys_seq().no_duplicates()
        &&& forall|i: int| 0 <= i < self.entries@.len() ==> self.entries@[i].1@.no_duplicates()
    }
}

impl View for Forest {
    type V = Map<u64, Seq<u64>>;

    open spec fn view(&self) -> Map<u64, Seq<u64>> {
        Map::new(
            |id: u64| assoc_get(self.entries@, id) is Some,
            |id: u64| assoc_get(self.entries@, id).unwrap(),
        )
    }
}

/// How one recorded edge changes the forest: the child's entry comes into
/// being if absent, and the parent (when there is one) is appended to the
/// child's list unless already present.
pub open spec fn add_edge_spec(
    m: Map<u64, Seq<u64>>,
    id: u64,
    parent: Option<u64>,
) -> Map<u64, Seq<u64>> {
    let cur = if m.contains_key(id) {
        m[id]
    } else {
        Seq::empty()
    };
    let updated = match parent {
        None => cur,
        Some(p) => if cur.contains(p) {
            cur
        } else {
            cur.push(p)
        },
    };
    m.insert(id, updated)
}

proof fn lemma_assoc_get_push(s: Seq<(u64, Vec<u64>)>, e: (u64, Vec<u64>), k: u64)
    ensures
        assoc_get(s.push(e), k) == if assoc_get(s, k) is Some {
            assoc_get(s, k)
        } else if e.0 == k {
            Some(e.1@)
        } else {
            None
        },
    decreases s.len(),
{
    if s.len() == 0 {
        assert(s.push(e).len() == 1);
        assert(s.push(e)[0] == e);
        assert(s.push(e).drop_first() =~= Seq::<(u64, Vec<u64>)>::empty());
        assert(assoc_get(s, k) is None);
        if e.0 == k {
            assert(assoc_get(s.push(e), k) == Some(e.1@));
        } else {
            assert(assoc_get(s.push(e), k) == assoc_get(s.push(e).drop_first(), k));
            assert(assoc_get(s.push(e), k) is None);
        }
    } else {
        assert(s.push(e)[0] == s[0]);
        assert(s.push(e).drop_first() =~= s.drop_first().push(e));
        lemma_assoc_get_push(s.drop_first(), e, k);
        assert(assoc_get(s.push(e), k) == (if s[0].0 == k {
            Some(s[0].1@)
        } else {
            assoc_get(s.drop_first().push(e), k)
        }));
    }
}

proof fn lemma_assoc_get_remove(s: Seq<(u64, Vec<u64>)>, i: int, k: u64)
    requires
        0 <= i < s.len(),
        s[i].0 != k,
    ensures
        assoc_get(s.remove(i), k) == assoc_get(s, k),
    decreases s.len(),
{
    if i == 0 {
        assert(s.remove(0) =~= s.drop_first());
    } else {
        assert(s.remove(i)[0] == s[0]);
        assert(s.remove(i).drop_first() =~= s.drop_first().remove(i - 1));
        lemma_assoc_get_remove(s.drop_first(), i - 1, k);
    }
}

proof fn lemma_assoc_get_absent(s: Seq<(u64, Vec<u64>)>, k: u64)
    requires
        forall|j: int| 0 <= j < s.len() ==> s[j].0 != k,
    ensures
        assoc_get(s, k) is None,
    decreases s.len(),
{
    if s.len() > 0 {
        assert(forall|j: int|
            0 <= j < s.drop_first().len() ==> s.drop_first()[j] == s[j + 1]);
        lemma_assoc_get_absent(s.drop_first(), k);
    }
}

/// With distinct keys, lookup of the key at index `i` yields that entry.
proof fn lemma_assoc_get_index(s: Seq<(u64, Vec<u64>)>, i: int)
    requires
        0 <= i < s.len(),
        s.map(|j: int, e: (u64, Vec<u64>)| e.0).no_duplicates(),
    ensures
        assoc_get(s, s[i].0) == Some(s[i].1@),
    decreases i,
{
    let keys = s.map(|j: int, e: (u64, Vec<u64>)| e.0);
    if i == 0 {
    } else {
        assert(keys[0] == s[0].0 && keys[i] == s[i].0);
        assert(s[0].0 != s[i].0);
        let rest = s.drop_first();
        assert(rest.map(|j: int, e: (u64, Vec<u64>)| e.0) =~= keys.drop_first());
        assert(keys.drop_first().no_duplicates());
        assert(rest[i - 1] == s[i]);
        lemma_assoc_get_index(rest, i - 1);
    }
}

impl Forest {
    /// The empty forest.
    pub fn new() -> (r: Forest)
        ensures
            r.wf(),
            r@ == Map::<u64, Seq<u64>>::empty(),
    {
        let r = Forest { entries: Vec::new() };
        proof {
            assert(r@ =~= Map::<u64, Seq<u64>>::empty());
        }
        r
    }

    /// The recorded parents of an item, if the item is reachable at all.
    pub fn get_parents(&self, id: u64) -> (r: Option<&Vec<u64>>)
        ensures
            match r {
                Some(v) => self@.contains_key(id) && self@[id] == v@,
                None => !self@.contains_key(id),
            },
    {
        let n = self.entries.len();
        proof {
            assert(self.entries@.skip(0) =~= self.entries@);
        }
        for i in 0..n
            invariant
                n == self.entries@.len(),
                assoc_get(self.entries@, id) == assoc_get(self.entries@.skip(i as int), id),
        {
            proof {
                assert(self.entries@.skip(i as int)[0] == self.entries@[i as int]);
                assert(self.entries@.skip(i as int).drop_first() =~= self.entries@.skip(i + 1));
            }
            if self.entries[i].0 == id {
                return Some(&self.entries[i].1);
            }
        }
        proof {
            assert(self.entries@.skip(n as int) =~= Seq::<(u64, Vec<u64>)>::empty());
        }
        None
    }

    /// Whether an item has a forest entry.
    pub fn contains(&self, id: u64) -> (r: bool)
        ensures
            r == self@.contains_key(id),
    {
        match self.get_parents(id) {
            Some(_) => true,
            None => false,
        }
    }

    fn find_key(&self, id: u64) -> (r: Option<usize>)
        ensures
            match r {
                Some(i) => i < self.entries@.len() && self.entries@[i as int].0 == id,
                None => forall|j: int| 0 <= j < self.entries@.len() ==> self.entries@[j].0 != id,
            },
    {
        let n = self.entries.len();
        for i in 0..n
            invariant
                n == self.entries@.len(),
                forall|j: int| 0 <= j < i ==> self.entries@[j].0 != id,
        {
            if self.entries[i].0 == id {
                return Some(i);
            }
        }
        None
    }

    /// Record one reachability edge.
    pub fn add_edge(&mut self, id: u64, parent: Option<u64>)
        requires
            old(self).wf(),
        ensures
            final(self).wf(),
            final(self)@ == add_edge_spec(old(self)@, id, parent),
    {
        let ghost old_entries = self.entries@;
        match self.find_key(id) {
            Some(i) => {
                let mut e = self.entries.remove(i);
                let ghost removed = old_entries.remove(i as int);
                let ghost old_list = e.1@;
                proof {
                    lemma_assoc_get_index(old_entries, i as int);
                    assert(old(self)@.contains_key(id));
                    assert(old(self)@[id] == e.1@);
                }
                match parent {
                    Some(p) => {
                        if !contains_id(&e.1, p) {
                            e.1.push(p);
                        }
                    },
                    None => {},
                }
                let ghost new_list = e.1@;
                let ghost e2 = e;
                self.entries.push(e);
                proof {
                    let keys = old_entries.map(|j: int, q: (u64, Vec<u64>)| q.0);
                    let rkeys = removed.map(|j: int, q: (u64, Vec<u64>)| q.0);
                    let new_entries = self.entries@;
                    let nkeys = new_entries.map(|j: int, q: (u64, Vec<u64>)| q.0);
                    assert(forall|j: int|
                        0 <= j < removed.len() ==> removed[j] == (if j < i as int {
                            old_entries[j]
                        } else {
                            old_entries[j + 1]
                        }));
                    assert(keys[i as int] == old_entries[i as int].0 == id);
                    assert(new_entries =~= removed.push(e2));
                    assert forall|j: int| 0 <= j < rkeys.len() implies #[trigger] rkeys[j] == (
                    if j < i as int {
                        keys[j]
                    } else {
                        keys[j + 1]
                    }) by {
                        assert(rkeys[j] == removed[j].0);
                    }
                    assert(nkeys =~= rkeys.push(id));
                    assert(forall|j: int| 0 <= j < rkeys.len() ==> rkeys[j] != id);
                    assert forall|j: int| 0 <= j < removed.len() implies removed[j].0 != id by {
                        assert(rkeys[j] == removed[j].0);
                    }
                    assert(rkeys.no_duplicates());
                    assert(nkeys.no_duplicates()) by {
                        assert(forall|j: int| 0 <= j < nkeys.len() - 1 ==> nkeys[j] == rkeys[j]);
                        assert(nkeys[nkeys.len() - 1] == id);
                    }
                    // the parent list stays duplicate-free
                    assert(new_list.no_duplicates()) by {
                        if parent is Some && !old_list.contains(parent.unwrap()) {
                            assert(forall|a: int, b: int|
                                0 <= a < b < new_list.len() ==> new_list[a] != new_list[b]);
                        }
                    }
                    assert(self.wf());
                    // view equality, pointwise
                    assert forall|k: u64| true implies #[trigger] assoc_get(new_entries, k) == (
                    if k == id {
                        Some(new_list)
                    } else {
                        assoc_get(old_entries, k)
                    }) by {
                        lemma_assoc_get_push(removed, e2, k);
                        if k == id {
                            lemma_assoc_get_absent(removed, id);
                        } else {
                            lemma_assoc_get_remove(old_entries, i as int, k);
                        }
                    }
                    assert(new_list == (match parent {
                        None => old_list,
                        Some(p) => if old_list.contains(p) {
                            old_list
                        } else {
                            old_list.push(p)
                        },
                    }));
                    assert(self@ =~= add_edge_spec(old(self)@, id, parent));
                }
            },
            None => {
                let mut pv: Vec<u64> = Vec::new();
                match parent {
                    Some(p) => {
                        pv.push(p);
                    },
                    None => {},
                }
                let ghost pvv = pv@;
                let ghost pushed: (u64, Vec<u64>) = (id, pv);
                self.entries.push((id, pv));
                proof {
                    let new_entries = self.entries@;
                    let keys = old_entries.map(|j: int, q: (u64, Vec<u64>)| q.0);
                    let nkeys = new_entries.map(|j: int, q: (u64, Vec<u64>)| q.0);
                    assert(new_entries == old_entries.push(pushed));
                    assert(forall|j: int| 0 <= j < keys.len() ==> keys[j] != id);
                    assert(nkeys =~= keys.push(id));
                    assert(nkeys.no_duplicates());
                    assert(pvv.no_duplicates());
                    assert(self.wf());
                    lemma_assoc_get_absent(old_entries, id);
                    assert(!old(self)@.contains_key(id));
                    assert forall|k: u64| true implies #[trigger] assoc_get(new_entries, k) == (
                    if k == id {
                        Some(pvv)
                    } else {
                        assoc_get(old_entries, k)
                    }) by {
                        lemma_assoc_get_push(old_entries, pushed, k);
                    }
                    assert(pvv =~= match parent {
                        None => Seq::<u64>::empty(),
                        Some(p) => Seq::<u64>::empty().push(p),
                    });
                    assert(self@ =~= add_edge_spec(old(self)@, id, parent));
                }
            },
        }
    }
}

/// Whether the walk keeps an item: public and default-visibility items stay;
/// restricted and crate-visible ones are skipped, except that a crate-visible
/// impl block is treated as public (some older snapshot producers mis-tagged
/// impl visibility that way).
pub open spec fn keeps_item(item: Item) -> bool {
    match item.visibility {
        Visibility::Public => true,
        Visibility::DefaultVisibility => true,
        Visibility::CrateVisible => item.kind is Impl,
        Visibility::Restricted => false,
    }
}

/// One step of the reachability walk: how visiting `id` with the given
/// depth-first parent transforms the forest `m`. `active` holds the ids on
/// the current walk path; hitting one again ends the branch, so cycles are
/// harmless. Each child is visited with the same path set extended by `id`,
/// which makes the set path-local: an item may be revisited later along an
/// unrelated path.
pub open spec fn visit_spec(
    c: Crate,
    id: u64,
    parent: Option<u64>,
    m: Map<u64, Seq<u64>>,
    active: Set<u64>,
) -> Map<u64, Seq<u64>>
    decreases c.items@.len() - active.len(), 0int,
        when active.finite() && active.subset_of(snapshot_ids(c))
        via visit_spec_decreases
{
    match item_of(c, id) {
        None => m,
        Some(item) => {
            if !keeps_item(item) {
                m
            } else {
                let m1 = add_edge_spec(m, id, parent);
                if active.contains(id) {
                    m1
                } else {
                    let active1 = active.insert(id);
                    match item.kind {
                        ItemKind::Module { children } => visit_list_spec(
                            c,
                            children@,
                            Some(id),
                            m1,
                            active1,
                        ),
                        ItemKind::Import { name: _, target, is_glob } => match target {
                            None => m1,
                            Some(tid) => if is_glob {
                                match item_of(c, tid) {
                                    None => m1,
                                    Some(titem) => match titem.kind {
                                        ItemKind::Module { children } => visit_list_spec(
                                            c,
                                            children@,
                                            parent,
                                            m1,
                                            active1,
                                        ),
                                        ItemKind::Enum { variants, .. } => visit_list_spec(
                                            c,
                                            variants@,
                                            parent,
                                            m1,
                                            active1,
                                        ),
                                        _ => m1,
                                    },
                                }
                            } else {
                                visit_spec(c, tid, Some(id), m1, active1)
                            },
                        },
                        ItemKind::Struct { fields, impls, .. } => visit_list_spec(
                            c,
                            impls@,
                            Some(id),
                            visit_list_spec(c, fields@, Some(id), m1, active1),
                            active1,
                        ),
                        ItemKind::Enum { variants, impls, .. } => visit_list_spec(
                            c,
                            impls@,
                            Some(id),
                            visit_list_spec(c, variants@, Some(id), m1, active1),
                            active1,
                        ),
                        ItemKind::Union { fields, impls, .. } => visit_list_spec(
                            c,
                            impls@,
                            Some(id),
                            visit_list_spec(c, fields@, Some(id), m1, active1),
                            active1,
                        ),
                        ItemKind::Trait { items, .. } => visit_list_spec(
                            c,
                            items@,
                            Some(id),
                            m1,
                            active1,
                        ),
                        ItemKind::Impl { items, .. } => visit_list_spec(
                            c,
                            items@,
                            Some(id),
                            m1,
                            active1,
                        ),
                        ItemKind::Typedef { target, generics } => match typedef_target_spec(
                            c,
                            target,
                            generics@,
                        ) {
                            None => m1,
                            Some(tid) => visit_spec(c, tid, Some(id), m1, active1),
                        },
                        _ => m1,
                    }
                }
            }
        },
    }
}

#[via_fn]
proof fn visit_spec_decreases(
    c: Crate,
    id: u64,
    parent: Option<u64>,
    m: Map<u64, Seq<u64>>,
    active: Set<u64>,
) {
    lemma_snapshot_ids_len(c);
    lemma_find_item_ids(c.items@, id);
    if item_of(c, id) is Some && !active.contains(id) {
        lemma_len_subset(active.insert(id), snapshot_ids(c));
    }
}

/// The reachability walk over a list of child ids, in order, each visited
/// with the same parent and path set, threading the forest through.
pub open spec fn visit_list_spec(
    c: Crate,
    ids: Seq<u64>,
    parent: Option<u64>,
    m: Map<u64, Seq<u64>>,
    active: Set<u64>,
) -> Map<u64, Seq<u64>>
    decreases c.items@.len() - active.len(), 1int, ids.len(),
{
    if ids.len() == 0 {
        m
    } else {
        let m1 = visit_spec(c, ids[0], parent, m, active);
        visit_list_spec(c, ids.drop_first(), parent, m1, active)
    }
}

/// The whole visibility forest of a snapshot: the walk from the root, when
/// the root exists and is public; empty otherwise.
pub open spec fn forest_spec(c: Crate) -> Map<u64, Seq<u64>> {
    match item_of(c, c.root) {
        None => Map::empty(),
        Some(root_item) => if root_item.visibility is Public {
            visit_spec(c, c.root, None, Map::empty(), Set::empty())
        } else {
            Map::empty()
        },
    }
}

/// Pushing one id extends the id set by exactly that id.
pub(crate) proof fn lemma_push_to_set(s: Seq<u64>, x: u64)
    ensures
        s.push(x).to_set() == s.to_set().insert(x),
{
    assert forall|y: u64| #[trigger] s.push(x).contains(y) implies s.to_set().insert(x).contains(
        y,
    ) by {
        let i = choose|i: int| 0 <= i < s.push(x).len() && s.push(x)[i] == y;
        if i < s.len() {
            assert(s[i] == y);
        }
    }
    assert forall|y: u64| s.to_set().insert(x).contains(y) implies #[trigger] s.push(x).contains(
        y,
    ) by {
        if y == x {
            assert(s.push(x)[s.len() as int] == y);
        } else {
            let i = choose|i: int| 0 <= i < s.len() && s[i] == y;
            assert(s.push(x)[i] == y);
        }
    }
    assert(s.push(x).to_set() =~= s.to_set().insert(x));
}

/// Facts letting the walk's termination measure make sense for the current
/// path list: its id set is finite, within the snapshot, and no larger than
/// the item count.
pub(crate) proof fn lemma_active_facts(s: Seq<u64>, c: Crate)
    requires
        s.no_duplicates(),
        forall|k: u64| s.contains(k) ==> snapshot_ids(c).contains(k),
    ensures
        s.to_set().finite(),
        s.to_set().subset_of(snapshot_ids(c)),
        s.to_set().len() == s.len(),
        s.len() <= c.items@.len(),
{
    vstd::seq_lib::seq_to_set_is_finite(s);
    s.unique_seq_to_set();
    lemma_snapshot_ids_len(c);
    lemma_len_subset(s.to_set(), snapshot_ids(c));
}

/// One step of the reachability walk, mirroring `visit_spec` exactly. The
/// path list `active` is restored before returning.
pub fn visit(c: &Crate, id: u64, parent: Option<u64>, forest: &mut Forest, active: &mut Vec<u64>)
    requires
        old(forest).wf(),
        old(active)@.no_duplicates(),
        forall|k: u64| old(active)@.contains(k) ==> snapshot_ids(*c).contains(k),
    ensures
        final(forest).wf(),
        final(active)@ == old(active)@,
        final(forest)@ == visit_spec(*c, id, parent, old(forest)@, old(active)@.to_set()),
    decreases c.items@.len() - old(active)@.len(), 0int,
{
    proof {
        lemma_active_facts(old(active)@, *c);
    }
    let item = match c.item_by_id(id) {
        None => {
            return ;
        },
        Some(it) => it,
    };
    let keep = match item.visibility {
        Visibility::Public => true,
        Visibility::DefaultVisibility => true,
        Visibility::CrateVisible => match &item.kind {
            ItemKind::Impl { .. } => true,
            _ => false,
        },
        Visibility::Restricted => false,
    };
    if !keep {
        return ;
    }
    forest.add_edge(id, parent);
    if contains_id(active, id) {
        proof {
            assert(old(active)@.to_set().contains(id));
        }
        return ;
    }
    proof {
        assert(!old(active)@.to_set().contains(id));
        lemma_find_item_ids(c.items@, id);
        assert(snapshot_ids(*c).contains(id));
    }
    active.push(id);
    let ghost mid_active = active@;
    proof {
        assert(mid_active == old(active)@.push(id));
        assert(mid_active.no_duplicates());
        assert(forall|k: u64| mid_active.contains(k) ==> snapshot_ids(*c).contains(k)) by {
            assert(forall|k: u64| #[trigger] mid_active.contains(k) ==> old(active)@.contains(k)
                || k == id) by {
                assert forall|k: u64| #[trigger] mid_active.contains(k) implies old(
                    active,
                )@.contains(k) || k == id by {
                    let i = choose|i: int| 0 <= i < mid_active.len() && mid_active[i] == k;
                    if i < old(active)@.len() {
                        assert(old(active)@[i] == k);
                    }
                }
            }
        }
        lemma_active_facts(mid_active, *c);
        lemma_push_to_set(old(active)@, id);
        assert(mid_active.to_set() == old(active)@.to_set().insert(id));
    }
    match &item.kind {
        ItemKind::Module { children } => {
            visit_list(c, children, Some(id), forest, active);
        },
        ItemKind::Import { name: _, target, is_glob } => {
            match target {
                Some(tid) => {
                    if *is_glob {
                        match c.item_by_id(*tid) {
                            Some(titem) => {
                                match &titem.kind {
                                    ItemKind::Module { children } => {
                                        visit_list(c, children, parent, forest, active);
                                    },
                                    ItemKind::Enum { variants, .. } => {
                                        visit_list(c, variants, parent, forest, active);
                                    },
                                    _ => {},
                                }
                            },
                            None => {},
                        }
                    } else {
                        visit(c, *tid, Some(id), forest, active);
                    }
                },
                None => {},
            }
        },
        ItemKind::Struct { fields, impls, .. } => {
            visit_list(c, fields, Some(id), forest, active);
            visit_list(c, impls, Some(id), forest, active);
        },
        ItemKind::Enum { variants, impls, .. } => {
            visit_list(c, variants, Some(id), forest, active);
            visit_list(c, impls, Some(id), forest, active);
        },
        ItemKind::Union { fields, impls, .. } => {
            visit_list(c, fields, Some(id), forest, active);
            visit_list(c, impls, Some(id), forest, active);
        },
        ItemKind::Trait { items, .. } => {
            visit_list(c, items, Some(id), forest, active);
        },
        ItemKind::Impl { items, .. } => {
            visit_list(c, items, Some(id), forest, active);
        },
        ItemKind::Typedef { target, generics } => {
            match typedef_equivalent_target(c, target, generics) {
                Some(tid) => {
                    visit(c, tid, Some(id), forest, active);
                },
                None => {},
            }
        },
        _ => {},
    }
    let popped = active.pop();
    proof {
        assert(active@ == old(active)@);
    }
}

/// The reachability walk over a list of child ids, mirroring
/// `visit_list_spec`.
pub fn visit_list(
    c: &Crate,
    ids: &Vec<u64>,
    parent: Option<u64>,
    forest: &mut Forest,
    active: &mut Vec<u64>,
)
    requires
        old(forest).wf(),
        old(active)@.no_duplicates(),
        forall|k: u64| old(active)@.contains(k) ==> snapshot_ids(*c).contains(k),
    ensures
        final(forest).wf(),
        final(active)@ == old(active)@,
        final(forest)@ == visit_list_spec(*c, ids@, parent, old(forest)@, old(active)@.to_set()),
    decreases c.items@.len() - old(active)@.len(), 1int,
{
    let n = ids.len();
    proof {
        assert(ids@.skip(0) =~= ids@);
    }
    for i in 0..n
        invariant
            forest.wf(),
            active@ == old(active)@,
            old(active)@.no_duplicates(),
            forall|k: u64| old(active)@.contains(k) ==> snapshot_ids(*c).contains(k),
            n == ids@.len(),
            visit_list_spec(*c, ids@.skip(i as int), parent, forest@, old(active)@.to_set())
                == visit_list_spec(*c, ids@, parent, old(forest)@, old(active)@.to_set()),
    {
        let ghost pre = forest@;
        visit(c, ids[i], parent, forest, active);
        proof {
            assert(ids@.skip(i as int)[0] == ids@[i as int]);
            assert(ids@.skip(i as int).drop_first() =~= ids@.skip(i + 1));
            assert(forest@ == visit_spec(*c, ids@[i as int], parent, pre, old(active)@.to_set()));
        }
    }
    proof {
        assert(ids@.skip(n as int) =~= Seq::<u64>::empty());
    }
}

/// Ascending order.
pub open spec fn sorted_ids(s: Seq<u64>) -> bool {
    forall|i: int, j: int| 0 <= i < j < s.len() ==> s[i] <= s[j]
}

/// `a` is `b` rearranged into ascending order: same id set, no duplicates,
/// sorted.
pub open spec fn sorted_version_of(a: Seq<u64>, b: Seq<u64>) -> bool {
    &&& sorted_ids(a)
    &&& a.no_duplicates()
    &&& a.to_set() == b.to_set()
}

/// `f2` is `f1` with every parent list rearranged into ascending order.
pub open spec fn sorted_forest_rel(f2: Map<u64, Seq<u64>>, f1: Map<u64, Seq<u64>>) -> bool {
    &&& f2.dom() == f1.dom()
    &&& forall|id: u64| f1.contains_key(id) ==> sorted_version_of(f2[id], f1[id])
}

fn insert_sorted(out: &mut Vec<u64>, x: u64)
    requires
        sorted_ids(old(out)@),
        old(out)@.no_duplicates(),
        !old(out)@.contains(x),
    ensures
        sorted_ids(final(out)@),
        final(out)@.no_duplicates(),
        final(out)@.to_set() == old(out)@.to_set().insert(x),
{
    let n = out.len();
    let mut j: usize = 0;
    while j < n && out[j] < x
        invariant
            j <= n,
            n == out@.len(),
            out@ == old(out)@,
            forall|k: int| 0 <= k < j ==> out@[k] < x,
        decreases n - j,
    {
        j = j + 1;
    }
    let ghost before = out@;
    out.insert(j, x);
    proof {
        let after = out@;
        assert(after == before.insert(j as int, x));
        assert(forall|k: int| 0 <= k < j ==> after[k] == before[k]);
        assert(after[j as int] == x);
        assert(forall|k: int| j < k < after.len() ==> after[k] == before[k - 1]);
        assert(forall|k: int| j <= k < before.len() ==> before[k] != x && before[k] >= x) by {
            assert(forall|k: int| 0 <= k < before.len() ==> before[k] != x);
        }
        assert(sorted_ids(after));
        assert(after.no_duplicates());
        assert(after.to_set() =~= before.to_set().insert(x)) by {
            assert forall|y: u64| #[trigger] after.to_set().contains(y) implies
                before.to_set().insert(x).contains(y) by {
                let k = choose|k: int| 0 <= k < after.len() && after[k] == y;
                if k != j as int {
                    let k0 = if k < j as int {
                        k
                    } else {
                        k - 1
                    };
                    assert(before[k0] == y);
                }
            }
            assert forall|y: u64| before.to_set().insert(x).contains(y) implies
                #[trigger] after.to_set().contains(y) by {
                if y == x {
                    assert(after[j as int] == y);
                } else {
                    let k = choose|k: int| 0 <= k < before.len() && before[k] == y;
                    let k1 = if k < j as int {
                        k
                    } else {
                        k + 1
                    };
                    assert(after[k1] == y);
                }
            }
        }
    }
}

/// The ids of `v`, rearranged into ascending order.
fn sort_ids(v: &Vec<u64>) -> (r: Vec<u64>)
    requires
        v@.no_duplicates(),
    ensures
        sorted_version_of(r@, v@),
{
    let mut out: Vec<u64> = Vec::new();
    let n = v.len();
    proof {
        assert(v@.take(0).to_set() =~= Set::<u64>::empty());
        assert(out@.to_set() =~= Set::<u64>::empty());
    }
    for i in 0..n
        invariant
            n == v@.len(),
            v@.no_duplicates(),
            sorted_ids(out@),
            out@.no_duplicates(),
            out@.to_set() == v@.take(i as int).to_set(),
    {
        proof {
            assert(!v@.take(i as int).contains(v@[i as int])) by {
                if v@.take(i as int).contains(v@[i as int]) {
                    let k = choose|k: int|
                        0 <= k < i && v@.take(i as int)[k] == v@[i as int];
                    assert(v@[k] == v@[i as int]);
                }
            }
            assert(out@.to_set().contains(v@[i as int]) == out@.contains(v@[i as int]));
            assert(v@.take(i as int).to_set().contains(v@[i as int]) == v@.take(
                i as int,
            ).contains(v@[i as int]));
            assert(!out@.contains(v@[i as int]));
        }
        insert_sorted(&mut out, v[i]);
        proof {
            assert(v@.take(i + 1) =~= v@.take(i as int).push(v@[i as int]));
            lemma_push_to_set(v@.take(i as int), v@[i as int]);
        }
    }
    proof {
        assert(v@.take(n as int) =~= v@);
    }
    out
}

/// The forest with every parent list rearranged into ascending order, so
/// that queries observe one consistent order.
pub fn sort_forest(f: &Forest) -> (r: Forest)
    requires
        f.wf(),
    ensures
        r.wf(),
        sorted_forest_rel(r@, f@),
{
    let n = f.entries.len();
    let mut entries: Vec<(u64, Vec<u64>)> = Vec::new();
    for i in 0..n
        invariant
            n == f.entries@.len(),
            f.wf(),
            entries@.len() == i,
            forall|j: int|
                0 <= j < i ==> (#[trigger] entries@[j]).0 == f.entries@[j].0 && sorted_version_of(
                    entries@[j].1@,
                    f.entries@[j].1@,
                ),
    {
        let sorted = sort_ids(&f.entries[i].1);
        entries.push((f.entries[i].0, sorted));
    }
    let r = Forest { entries };
    proof {
        assert(r.keys_seq() =~= f.keys_seq());
        assert(r.wf());
        lemma_same_keys_forest_rel(r, *f);
    }
    r
}

proof fn lemma_assoc_get_some_iff(s: Seq<(u64, Vec<u64>)>, k: u64)
    ensures
        assoc_get(s, k) is Some <==> s.map(|j: int, e: (u64, Vec<u64>)| e.0).contains(k),
    decreases s.len(),
{
    let keys = s.map(|j: int, e: (u64, Vec<u64>)| e.0);
    if s.len() == 0 {
        assert(!keys.contains(k)) by {
            if keys.contains(k) {
                let i = choose|i: int| 0 <= i < keys.len() && keys[i] == k;
            }
        }
    } else {
        lemma_assoc_get_some_iff(s.drop_first(), k);
        let rest_keys = s.drop_first().map(|j: int, e: (u64, Vec<u64>)| e.0);
        assert(rest_keys =~= keys.drop_first());
        if s[0].0 == k {
            assert(keys[0] == k);
            assert(keys.contains(k));
        } else {
            if keys.contains(k) {
                let i = choose|i: int| 0 <= i < keys.len() && keys[i] == k;
                assert(i != 0);
                assert(keys.drop_first()[i - 1] == k);
                assert(rest_keys.contains(k));
            }
            if rest_keys.contains(k) {
                let i = choose|i: int| 0 <= i < rest_keys.len() && rest_keys[i] == k;
                assert(keys[i + 1] == k);
            }
        }
    }
}

proof fn lemma_same_keys_forest_rel(r: Forest, f: Forest)
    requires
        r.wf(),
        f.wf(),
        r.keys_seq() == f.keys_seq(),
        r.entries@.len() == f.entries@.len(),
        forall|j: int|
            0 <= j < f.entries@.len() ==> (#[trigger] r.entries@[j]).0 == f.entries@[j].0
                && sorted_version_of(r.entries@[j].1@, f.entries@[j].1@),
    ensures
        sorted_forest_rel(r@, f@),
{
    let keys = f.keys_seq();
    assert forall|k: u64| true implies (r@.contains_key(k) <==> f@.contains_key(k)) by {
        lemma_assoc_get_some_iff(r.entries@, k);
        lemma_assoc_get_some_iff(f.entries@, k);
        assert(r.keys_seq() == keys);
    }
    assert(r@.dom() =~= f@.dom());
    assert forall|k: u64| f@.contains_key(k) implies sorted_version_of(r@[k], f@[k]) by {
        lemma_assoc_get_some_iff(f.entries@, k);
        let i = choose|i: int| 0 <= i < keys.len() && keys[i] == k;
        assert(f.entries@[i].0 == k);
        assert(r.entries@[i].0 == k);
        lemma_assoc_get_index(f.entries@, i);
        lemma_assoc_get_index(r.entries@, i);
        assert(f@[k] == f.entries@[i].1@);
        assert(r@[k] == r.entries@[i].1@);
    }
}

/// All public items reachable from the crate root, each with its recorded
/// reachability parents, as `forest_spec` states.
pub fn compute_parent_ids(c: &Crate) -> (r: Forest)
    ensures
        r.wf(),
        r@ == forest_spec(*c),
{
    let mut forest = Forest::new();
    match c.item_by_id(c.root) {
        Some(root_item) => {
            let is_public = match root_item.visibility {
                Visibility::Public => true,
                _ => false,
            };
            if is_public {
                let mut active: Vec<u64> = Vec::new();
                visit(c, c.root, None, &mut forest, &mut active);
                proof {
                    assert(Seq::<u64>::empty().to_set() =~= Set::<u64>::empty());
                }
            }
        },
        None => {},
    }
    forest
}

} // verus!
