//! Path enumeration: walking the visibility forest from a target item toward
//! the root, reconstructing every importable path as a root-first name
//! sequence. A name stack is threaded along the walk; a path-local visited
//! set truncates re-export cycles, so only the finitely many cycle-free
//! paths are produced.

use vstd::prelude::*;

use crate::forest::Forest;
use crate::model::Crate;
use crate::model::Item;
use crate::model::ItemKind;
use crate::model::contains_id;
use crate::model::item_of;
use crate::model::lemma_find_item_ids;
use crate::model::lemma_snapshot_ids_len;
use crate::model::snapshot_ids;
use vstd::set_lib::lemma_len_subset;

verus! {

/// How one item transforms the name stack on the way up, or `None` when the
/// branch ends here. A non-glob import replaces the name pushed for its
/// target with its own (possibly renaming) name, and makes no sense with an
/// empty stack; a glob import contributes no segment; a typedef replaces the
/// underlying name (if one was pushed) with its own; every other item pushes
/// its own name, if it has one.
pub open spec fn stack_after(item: Item, stack: Seq<Seq<char>>) -> Option<Seq<Seq<char>>> {
    match item.kind {
        ItemKind::Import { name, target: _, is_glob } => {
            if is_glob {
                Some(stack)
            } else if stack.len() == 0 {
                None
            } else {
                Some(stack.drop_last().push(name@))
            }
        },
        ItemKind::Typedef { .. } => match item.name {
            None => None,
            Some(n) => if stack.len() == 0 {
                Some(stack.push(n@))
            } else {
                Some(stack.drop_last().push(n@))
            },
        },
        _ => match item.name {
            None => Some(stack),
            Some(n) => Some(stack.push(n@)),
        },
    }
}

/// Whether an item is a container that is not a module-like scope: nothing
/// nested below it (besides the container itself) is importable. Enums are
/// deliberately not here, since their variants are importable.
pub open spec fn prunes_nested(item: Item) -> bool {
    item.kind is Impl || item.kind is Struct || item.kind is Union
}

/// The importable paths found by walking up from `id`. `visited` holds the
/// ids already on this walk's path: meeting one again ends the branch, which
/// truncates recursive re-export cycles to their cycle-free subset. `stack`
/// holds the names collected so far, target-first; reaching the root emits
/// its reversal as one complete root-first path.
pub open spec fn collect_spec(
    c: Crate,
    f: Map<u64, Seq<u64>>,
    root: u64,
    id: u64,
    visited: Set<u64>,
    stack: Seq<Seq<char>>,
) -> Seq<Seq<Seq<char>>>
    decreases c.items@.len() - visited.len(), 0int, 0int,
        when visited.finite() && visited.subset_of(snapshot_ids(c))
        via collect_spec_decreases
{
    if visited.contains(id) {
        Seq::empty()
    } else {
        match item_of(c, id) {
            None => Seq::empty(),
            Some(item) => {
                if stack.len() > 0 && prunes_nested(item) {
                    Seq::empty()
                } else {
                    match stack_after(item, stack) {
                        None => Seq::empty(),
                        Some(stack1) => {
                            if id == root {
                                seq![stack1.reverse()]
                            } else if !f.contains_key(id) {
                                Seq::empty()
                            } else {
                                collect_list_spec(c, f, root, f[id], visited.insert(id), stack1)
                            }
                        },
                    }
                }
            },
        }
    }
}

#[via_fn]
proof fn collect_spec_decreases(
    c: Crate,
    f: Map<u64, Seq<u64>>,
    root: u64,
    id: u64,
    visited: Set<u64>,
    stack: Seq<Seq<char>>,
) {
    lemma_snapshot_ids_len(c);
    lemma_find_item_ids(c.items@, id);
    if item_of(c, id) is Some && !visited.contains(id) {
        lemma_len_subset(visited.insert(id), snapshot_ids(c));
    }
}

/// The concatenated importable paths found through each forest parent, in
/// order.
pub open spec fn collect_list_spec(
    c: Crate,
    f: Map<u64, Seq<u64>>,
    root: u64,
    parents: Seq<u64>,
    visited: Set<u64>,
    stack: Seq<Seq<char>>,
) -> Seq<Seq<Seq<char>>>
    decreases c.items@.len() - visited.len(), 1int, parents.len(),
{
    if parents.len() == 0 {
        Seq::empty()
    } else {
        collect_spec(c, f, root, parents[0], visited, stack) + collect_list_spec(
            c,
            f,
            root,
            parents.drop_first(),
            visited,
            stack,
        )
    }
}

/// All importable paths of `id` over forest `f`, from a fresh walk: empty
/// for an id the snapshot does not hold.
pub open spec fn importable_paths_spec(
    c: Crate,
    f: Map<u64, Seq<u64>>,
    id: u64,
) -> Seq<Seq<Seq<char>>> {
    if item_of(c, id) is Some {
        collect_spec(c, f, c.root, id, Set::empty(), Seq::empty())
    } else {
        Seq::empty()
    }
}

/// The stack's names, in reverse order: the emitted root-first path.
fn reversed_strings(v: &Vec<String>) -> (r: Vec<String>)
    ensures
        r.deep_view() == v.deep_view().reverse(),
{
    let n = v.len();
    let mut r: Vec<String> = Vec::new();
    let mut i: usize = n;
    while i > 0
        invariant
            i <= n,
            n == v@.len(),
            r@.len() == n - i,
            forall|k: int| 0 <= k < r@.len() ==> r@[k] == v@[n - 1 - k],
        decreases i,
    {
        i = i - 1;
        r.push(v[i].clone());
    }
    proof {
        assert(r.deep_view() =~= v.deep_view().reverse());
    }
    r
}

/// The walk up from `id`, mirroring `collect_spec`: found paths are appended
/// to `out`; `visited` and `stack` are restored before returning.
pub fn collect_paths(
    c: &Crate,
    f: &Forest,
    root: u64,
    id: u64,
    visited: &mut Vec<u64>,
    stack: &mut Vec<String>,
    out: &mut Vec<Vec<String>>,
)
    requires
        old(visited)@.no_duplicates(),
        forall|k: u64| old(visited)@.contains(k) ==> snapshot_ids(*c).contains(k),
    ensures
        final(visited)@ == old(visited)@,
        final(stack)@ == old(stack)@,
        final(out).deep_view() == old(out).deep_view() + collect_spec(
            *c,
            f@,
            root,
            id,
            old(visited)@.to_set(),
            old(stack).deep_view(),
        ),
    decreases c.items@.len() - old(visited)@.len(),
{
    proof {
        crate::forest::lemma_active_facts(old(visited)@, *c);
    }
    let ghost out0 = out.deep_view();
    let ghost stack0 = stack@;
    let ghost stack0_dv = stack.deep_view();
    let ghost spec_result = collect_spec(*c, f@, root, id, old(visited)@.to_set(), stack0_dv);
    if contains_id(visited, id) {
        proof {
            assert(old(visited)@.to_set().contains(id));
            assert(out.deep_view() =~= out0 + spec_result);
        }
        return ;
    }
    proof {
        assert(!old(visited)@.to_set().contains(id));
    }
    let item = match c.item_by_id(id) {
        None => {
            proof {
                assert(out.deep_view() =~= out0 + spec_result);
            }
            return ;
        },
        Some(it) => it,
    };
    if stack.len() > 0 {
        let nested_in_closed = match &item.kind {
            ItemKind::Impl { .. } => true,
            ItemKind::Struct { .. } => true,
            ItemKind::Union { .. } => true,
            _ => false,
        };
        if nested_in_closed {
            proof {
                assert(out.deep_view() =~= out0 + spec_result);
            }
            return ;
        }
    }
    // apply this item's stack step
    let mut pushed_own = false;
    let mut popped: Option<String> = None;
    match &item.kind {
        ItemKind::Import { name, target: _, is_glob } => {
            if !*is_glob {
                if stack.len() == 0 {
                    proof {
                        assert(out.deep_view() =~= out0 + spec_result);
                    }
                    return ;
                }
                popped = stack.pop();
                stack.push(name.clone());
                pushed_own = true;
                proof {
                    assert(stack@.drop_last() =~= stack0.drop_last());
                    assert(unstep(stack@, pushed_own, popped) =~= stack0);
                    assert(stack.deep_view() =~= stack0_dv.drop_last().push(name@));
                    assert(stack_after(*item, stack0_dv) == Some(stack.deep_view()));
                }
            } else {
                proof {
                    assert(unstep(stack@, pushed_own, popped) =~= stack0);
                    assert(stack.deep_view() =~= stack0_dv);
                    assert(stack_after(*item, stack0_dv) == Some(stack.deep_view()));
                }
            }
        },
        ItemKind::Typedef { .. } => {
            match &item.name {
                None => {
                    proof {
                        assert(out.deep_view() =~= out0 + spec_result);
                    }
                    return ;
                },
                Some(n) => {
                    popped = stack.pop();
                    stack.push(n.clone());
                    pushed_own = true;
                    proof {
                        if stack0.len() == 0 {
                            assert(stack@.drop_last() =~= stack0);
                            assert(unstep(stack@, pushed_own, popped) =~= stack0);
                            assert(stack.deep_view() =~= stack0_dv.push(n@));
                        } else {
                            assert(stack@.drop_last() =~= stack0.drop_last());
                            assert(unstep(stack@, pushed_own, popped) =~= stack0);
                            assert(stack.deep_view() =~= stack0_dv.drop_last().push(n@));
                        }
                        assert(stack_after(*item, stack0_dv) == Some(stack.deep_view()));
                    }
                },
            }
        },
        _ => {
            match &item.name {
                None => {
                    proof {
                        assert(unstep(stack@, pushed_own, popped) =~= stack0);
                        assert(stack.deep_view() =~= stack0_dv);
                        assert(stack_after(*item, stack0_dv) == Some(stack.deep_view()));
                    }
                },
                Some(n) => {
                    stack.push(n.clone());
                    pushed_own = true;
                    proof {
                        assert(stack@.drop_last() =~= stack0);
                        assert(unstep(stack@, pushed_own, popped) =~= stack0);
                        assert(stack.deep_view() =~= stack0_dv.push(n@));
                        assert(stack_after(*item, stack0_dv) == Some(stack.deep_view()));
                    }
                },
            }
        },
    }
    let ghost stack1 = stack@;
    let ghost stack1_dv = stack.deep_view();
    proof {
        assert(unstep(stack1, pushed_own, popped) == stack0);
        assert(stack_after(*item, stack0_dv) == Some(stack1_dv));
    }
    if id == root {
        let rev = reversed_strings(stack);
        out.push(rev);
        proof {
            assert(out.deep_view() =~= out0 + seq![stack1_dv.reverse()]);
        }
    } else {
        match f.get_parents(id) {
            None => {
                proof {
                    assert(!f@.contains_key(id));
                    assert(out.deep_view() =~= out0 + Seq::<Seq<Seq<char>>>::empty());
                }
            },
            Some(parents) => {
                visited.push(id);
                let ghost visited1 = visited@;
                proof {
                    lemma_find_item_ids(c.items@, id);
                    assert(visited1 == old(visited)@.push(id));
                    assert(visited1.no_duplicates());
                    assert forall|k: u64| #[trigger] visited1.contains(k) implies snapshot_ids(
                        *c,
                    ).contains(k) by {
                        let i = choose|i: int| 0 <= i < visited1.len() && visited1[i] == k;
                        if i < old(visited)@.len() {
                            assert(old(visited)@[i] == k);
                        }
                    }
                    crate::forest::lemma_active_facts(visited1, *c);
                    crate::forest::lemma_push_to_set(old(visited)@, id);
                }
                let ghost vset1 = visited1.to_set();
                let ghost mid_out = out.deep_view();
                let n = parents.len();
                proof {
                    assert(parents@.skip(0) =~= parents@);
                    assert(out.deep_view() + collect_list_spec(*c, f@, root, parents@.skip(0),
                        vset1, stack1_dv) =~= mid_out + collect_list_spec(*c, f@, root, parents@,
                        vset1, stack1_dv));
                }
                for i in 0..n
                    invariant
                        n == parents@.len(),
                        visited@ == visited1,
                        visited1.no_duplicates(),
                        forall|k: u64| visited1.contains(k) ==> snapshot_ids(*c).contains(k),
                        visited1 == old(visited)@.push(id),
                        vset1 == visited1.to_set(),
                        stack@ == stack1,
                        stack1_dv == stack.deep_view(),
                        out.deep_view() + collect_list_spec(*c, f@, root, parents@.skip(i as int),
                            vset1, stack1_dv) == mid_out + collect_list_spec(*c, f@, root,
                            parents@, vset1, stack1_dv),
                {
                    let ghost pre_out = out.deep_view();
                    proof {
                        crate::forest::lemma_active_facts(visited1, *c);
                        assert(visited1.len() == old(visited)@.len() + 1);
                    }
                    collect_paths(c, f, root, parents[i], visited, stack, out);
                    proof {
                        let rest = parents@.skip(i as int);
                        assert(rest[0] == parents@[i as int]);
                        assert(rest.drop_first() =~= parents@.skip(i + 1));
                        let head = collect_spec(*c, f@, root, parents@[i as int], vset1,
                            stack1_dv);
                        let tail = collect_list_spec(*c, f@, root, parents@.skip(i + 1), vset1,
                            stack1_dv);
                        assert(collect_list_spec(*c, f@, root, rest, vset1, stack1_dv) == head
                            + tail);
                        assert(out.deep_view() == pre_out + head);
                        assert((pre_out + head) + tail =~= pre_out + (head + tail));
                    }
                }
                proof {
                    assert(parents@.skip(n as int) =~= Seq::<u64>::empty());
                    assert(out.deep_view() + Seq::<Seq<Seq<char>>>::empty() =~= out.deep_view());
                    assert(f@[id] == parents@);
                }
                let _ = visited.pop();
                proof {
                    assert(visited@ =~= old(visited)@);
                }
            },
        }
    }
    // undo this item's stack step
    if pushed_own {
        let _ = stack.pop();
        proof {
            assert(stack@ =~= stack1.drop_last());
        }
    }
    match popped {
        Some(p) => {
            stack.push(p);
        },
        None => {},
    }
    proof {
        assert(stack@ == unstep(stack1, pushed_own, popped));
        assert(stack@ == stack0);
    }
}

/// An item has importable paths only if it is reachable: a non-empty result
/// needs a visibility-forest entry for the id, or the id must be the root
/// itself.
pub proof fn lemma_paths_need_reachability(c: Crate, f: Map<u64, Seq<u64>>, id: u64)
    requires
        importable_paths_spec(c, f, id).len() > 0,
    ensures
        f.contains_key(id) || id == c.root,
{
    assert(Set::<u64>::empty().subset_of(snapshot_ids(c)));
    if id != c.root && !f.contains_key(id) {
        assert(importable_paths_spec(c, f, id).len() == 0);
    }
}

/// Whatever step an item takes, the stack grows by at most one name.
proof fn lemma_stack_after_len(item: Item, stack: Seq<Seq<char>>)
    ensures
        match stack_after(item, stack) {
            Some(stack1) => stack1.len() <= stack.len() + 1,
            None => true,
        },
{
}

proof fn lemma_collect_bounded(
    c: Crate,
    f: Map<u64, Seq<u64>>,
    root: u64,
    id: u64,
    visited: Set<u64>,
    stack: Seq<Seq<char>>,
    i: int,
)
    requires
        visited.finite(),
        visited.subset_of(snapshot_ids(c)),
        0 <= i < collect_spec(c, f, root, id, visited, stack).len(),
    ensures
        collect_spec(c, f, root, id, visited, stack)[i].len() <= stack.len() + 1 + (c.items@.len()
            - visited.len()),
    decreases c.items@.len() - visited.len(), 0int, 0int,
{
    lemma_snapshot_ids_len(c);
    lemma_len_subset(visited, snapshot_ids(c));
    let r = collect_spec(c, f, root, id, visited, stack);
    if !visited.contains(id) {
        match item_of(c, id) {
            None => {},
            Some(item) => {
                if !(stack.len() > 0 && prunes_nested(item)) {
                    match stack_after(item, stack) {
                        None => {},
                        Some(stack1) => {
                            lemma_stack_after_len(item, stack);
                            if id == root {
                                assert(r[0] == stack1.reverse());
                                assert(stack1.reverse().len() == stack1.len());
                            } else if f.contains_key(id) {
                                lemma_find_item_ids(c.items@, id);
                                lemma_len_subset(visited.insert(id), snapshot_ids(c));
                                lemma_collect_list_bounded(
                                    c,
                                    f,
                                    root,
                                    f[id],
                                    visited.insert(id),
                                    stack1,
                                    i,
                                );
                            }
                        },
                    }
                }
            },
        }
    }
}

proof fn lemma_collect_list_bounded(
    c: Crate,
    f: Map<u64, Seq<u64>>,
    root: u64,
    parents: Seq<u64>,
    visited: Set<u64>,
    stack: Seq<Seq<char>>,
    i: int,
)
    requires
        visited.finite(),
        visited.subset_of(snapshot_ids(c)),
        0 <= i < collect_list_spec(c, f, root, parents, visited, stack).len(),
    ensures
        collect_list_spec(c, f, root, parents, visited, stack)[i].len() <= stack.len() + 1 + (
        c.items@.len() - visited.len()),
    decreases c.items@.len() - visited.len(), 1int, parents.len(),
{
    if parents.len() > 0 {
        let head = collect_spec(c, f, root, parents[0], visited, stack);
        if i < head.len() {
            lemma_collect_bounded(c, f, root, parents[0], visited, stack, i);
        } else {
            lemma_collect_list_bounded(
                c,
                f,
                root,
                parents.drop_first(),
                visited,
                stack,
                i - head.len(),
            );
        }
    }
}

/// Every returned path is finite — at most one name longer than the item
/// count — even when the graph holds recursive or mutually co-recursive
/// re-export cycles: the path-local visited set truncates them.
pub proof fn lemma_paths_finite(c: Crate, f: Map<u64, Seq<u64>>, id: u64, i: int)
    requires
        0 <= i < importable_paths_spec(c, f, id).len(),
    ensures
        importable_paths_spec(c, f, id)[i].len() <= c.items@.len() + 1,
{
    assert(Set::<u64>::empty().subset_of(snapshot_ids(c)));
    lemma_collect_bounded(c, f, c.root, id, Set::empty(), Seq::empty(), i);
}

/// Reverses one stack step: drops the name the step pushed and restores the
/// one it popped.
pub open spec fn unstep(stack1: Seq<String>, pushed_own: bool, popped: Option<String>) -> Seq<
    String,
> {
    let base = if pushed_own {
        stack1.drop_last()
    } else {
        stack1
    };
    match popped {
        Some(p) => base.push(p),
        None => base,
    }
}

} // verus!
