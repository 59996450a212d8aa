//! Synthesized placeholder traits. A snapshot does not carry trait items
//! defined by other artifacts, even when the snapshot's own types implement
//! them; for a small fixed set of well-known foreign trait names, a minimal
//! public trait item is fabricated under the referenced id, so lookups do
//! not dangle. The placeholders have no members, so default-method lookups
//! against them resolve to nothing — an accepted cost.

use vstd::prelude::*;
use vstd::string::StringExecFns;

use crate::model::Crate;
use crate::model::Item;
use crate::model::ItemKind;
use crate::model::Visibility;
use crate::model::find_summary;

verus! {

/// The auto/unsafe flags of a well-known foreign trait, by name; `None` for
/// any name outside the fixed set.
pub open spec fn builtin_flags(name: Seq<char>) -> Option<(bool, bool)> {
    if name == "Send"@ || name == "Sync"@ {
        Some((true, true))
    } else if name == "Unpin"@ || name == "RefUnwindSafe"@ || name == "UnwindSafe"@ {
        Some((true, false))
    } else if name == "Debug"@ || name == "Clone"@ || name == "Copy"@ || name == "PartialOrd"@
        || name == "Ord"@ || name == "PartialEq"@ || name == "Eq"@ || name == "Hash"@ || name
        == "Sized"@ {
        Some((false, false))
    } else {
        None
    }
}

/// What one synthesized entry must hold: the referenced id, the owning
/// artifact from the external summary, the trait's name and flags.
pub struct BuiltinDesc {
    pub id: u64,
    pub name: Seq<char>,
    pub crate_id: u32,
    pub is_auto: bool,
    pub is_unsafe: bool,
}

/// Whether the descriptor list already covers an id.
pub open spec fn descs_have_id(acc: Seq<BuiltinDesc>, id: u64) -> bool {
    exists|j: int| 0 <= j < acc.len() && acc[j].id == id
}

/// The descriptors gathered by scanning `items` in order, extending `acc`:
/// one per distinct trait id that some impl references by a well-known name
/// and that the external summaries recognize.
pub open spec fn builtin_descs_rec(c: Crate, items: Seq<Item>, acc: Seq<BuiltinDesc>) -> Seq<
    BuiltinDesc,
>
    decreases items.len(),
{
    if items.len() == 0 {
        acc
    } else {
        let acc1 = match items[0].kind {
            ItemKind::Impl { trait_ref, .. } => match trait_ref {
                Some(tr) => match builtin_flags(tr.name@) {
                    Some(flags) => match find_summary(c.summaries@, tr.id) {
                        Some(s) => if descs_have_id(acc, tr.id) {
                            acc
                        } else {
                            acc.push(
                                BuiltinDesc {
                                    id: tr.id,
                                    name: tr.name@,
                                    crate_id: s.crate_id,
                                    is_auto: flags.0,
                                    is_unsafe: flags.1,
                                },
                            )
                        },
                        None => acc,
                    },
                    None => acc,
                },
                None => acc,
            },
            _ => acc,
        };
        builtin_descs_rec(c, items.drop_first(), acc1)
    }
}

/// All synthesized-trait descriptors of a snapshot, in discovery order.
pub open spec fn builtin_descs(c: Crate) -> Seq<BuiltinDesc> {
    builtin_descs_rec(c, c.items@, Seq::empty())
}

/// Whether a fabricated item is the minimal public trait a descriptor
/// calls for: right id, artifact and name, public, a trait with no members,
/// no generics, and the tabled auto/unsafe flags.
pub open spec fn matches_desc(it: Item, d: BuiltinDesc) -> bool {
    &&& it.id == d.id
    &&& it.crate_id == d.crate_id
    &&& it.name matches Some(n) && n@ == d.name
    &&& it.visibility is Public
    &&& match it.kind {
        ItemKind::Trait { items, generics, is_auto, is_unsafe } => items@.len() == 0
            && generics@.len() == 0 && is_auto == d.is_auto && is_unsafe == d.is_unsafe,
        _ => false,
    }
}

fn string_is(lit: &str, s: &String) -> (r: bool)
    ensures
        r == (s@ == lit@),
{
    let t = String::from_str(lit);
    t == *s
}

fn builtin_flags_check(name: &String) -> (r: Option<(bool, bool)>)
    ensures
        r == builtin_flags(name@),
{
    if string_is("Send", name) || string_is("Sync", name) {
        Some((true, true))
    } else if string_is("Unpin", name) || string_is("RefUnwindSafe", name) || string_is(
        "UnwindSafe",
        name,
    ) {
        Some((true, false))
    } else if string_is("Debug", name) || string_is("Clone", name) || string_is("Copy", name)
        || string_is("PartialOrd", name) || string_is("Ord", name) || string_is("PartialEq", name)
        || string_is("Eq", name) || string_is("Hash", name) || string_is("Sized", name) {
        Some((false, false))
    } else {
        None
    }
}

fn traits_have_id(r: &Vec<(u64, Item)>, id: u64) -> (b: bool)
    ensures
        b == exists|j: int| 0 <= j < r@.len() && (#[trigger] r@[j]).0 == id,
{
    let n = r.len();
    for i in 0..n
        invariant
            n == r@.len(),
            forall|j: int| 0 <= j < i ==> (#[trigger] r@[j]).0 != id,
    {
        if r[i].0 == id {
            return true;
        }
    }
    false
}

/// Fabricate the placeholder trait items: one entry per descriptor of
/// `builtin_descs`, in the same order, each the minimal public trait that
/// its descriptor states.
pub fn synthesize_builtin_traits(c: &Crate) -> (r: Vec<(u64, Item)>)
    ensures
        r@.len() == builtin_descs(*c).len(),
        forall|i: int|
            0 <= i < r@.len() ==> (#[trigger] r@[i]).0 == builtin_descs(*c)[i].id && matches_desc(
                r@[i].1,
                builtin_descs(*c)[i],
            ),
{
    let mut r: Vec<(u64, Item)> = Vec::new();
    let ghost mut acc: Seq<BuiltinDesc> = Seq::empty();
    let n = c.items.len();
    proof {
        assert(c.items@.skip(0) =~= c.items@);
    }
    for i in 0..n
        invariant
            n == c.items@.len(),
            r@.len() == acc.len(),
            forall|j: int|
                0 <= j < r@.len() ==> (#[trigger] r@[j]).0 == acc[j].id && matches_desc(
                    r@[j].1,
                    acc[j],
                ),
            builtin_descs_rec(*c, c.items@.skip(i as int), acc) == builtin_descs(*c),
    {
        proof {
            assert(c.items@.skip(i as int)[0] == c.items@[i as int]);
            assert(c.items@.skip(i as int).drop_first() =~= c.items@.skip(i + 1));
        }
        let item = &c.items[i];
        match &item.kind {
            ItemKind::Impl { trait_ref, .. } => {
                match trait_ref {
                    Some(tr) => {
                        match builtin_flags_check(&tr.name) {
                            Some(flags) => {
                                match c.summary_by_id(tr.id) {
                                    Some(s) => {
                                        if !traits_have_id(&r, tr.id) {
                                            proof {
                                                assert(!descs_have_id(acc, tr.id)) by {
                                                    if descs_have_id(acc, tr.id) {
                                                        let j = choose|j: int|
                                                            0 <= j < acc.len() && acc[j].id
                                                                == tr.id;
                                                        assert(r@[j].0 == acc[j].id);
                                                    }
                                                }
                                            }
                                            let crate_id = s.crate_id;
                                            let synth = Item {
                                                id: tr.id,
                                                crate_id,
                                                name: Some(tr.name.clone()),
                                                visibility: Visibility::Public,
                                                kind: ItemKind::Trait {
                                                    items: Vec::new(),
                                                    generics: Vec::new(),
                                                    is_auto: flags.0,
                                                    is_unsafe: flags.1,
                                                },
                                            };
                                            let ghost d = BuiltinDesc {
                                                id: tr.id,
                                                name: tr.name@,
                                                crate_id: s.crate_id,
                                                is_auto: flags.0,
                                                is_unsafe: flags.1,
                                            };
                                            r.push((tr.id, synth));
                                            proof {
                                                acc = acc.push(d);
                                            }
                                        } else {
                                            proof {
                                                assert(descs_have_id(acc, tr.id));
                                            }
                                        }
                                    },
                                    None => {},
                                }
                            },
                            None => {},
                        }
                    },
                    None => {},
                }
            },
            _ => {},
        }
    }
    proof {
        assert(c.items@.skip(n as int) =~= Seq::<Item>::empty());
        assert(acc == builtin_descs(*c));
    }
    r
}

} // verus!
