//! Decides whether a type alias is indistinguishable, for import purposes,
//! from a plain re-export of its target: the aliased type must be a resolved
//! named path, no associated-type binding may be fixed on it, and the alias
//! must pass each of the target's generic parameters through unchanged — same
//! name at the same position, same kind, same default, and for const
//! parameters the same declared type. Any renaming, reordering, partial
//! instantiation, wildcard, or non-trivial const expression disqualifies it.

use vstd::prelude::*;

use crate::model::Crate;
use crate::model::GenericArg;
use crate::model::GenericParam;
use crate::model::GenericParamKind;
use crate::model::ItemKind;
use crate::model::PathArgs;
use crate::model::TypeExpr;
use crate::model::item_of;

verus! {

/// Whether two optional default texts agree, by contents.
pub open spec fn opt_text_eq(a: Option<String>, b: Option<String>) -> bool {
    match a {
        Option::None => b is None,
        Option::Some(x) => match b {
            Option::Some(y) => x@ == y@,
            Option::None => false,
        },
    }
}

/// The bare name a generic argument supplies, if it is a bare name at all.
/// For a const argument this is the argument expression's text: only when
/// that text is literally the parameter name does the alias pass the
/// parameter through (constant expressions are not evaluated; anything else
/// is conservatively judged non-equivalent).
pub open spec fn arg_name(a: GenericArg) -> Option<Seq<char>> {
    match a {
        GenericArg::Lifetime { name } => Some(name@),
        GenericArg::NamedType { name } => Some(name@),
        GenericArg::ConstArg { expr } => Some(expr@),
        GenericArg::OtherTypeArg => None,
        GenericArg::InferArg => None,
    }
}

/// Whether an alias parameter kind and a target parameter kind agree: the
/// same kind of parameter, with identical defaults, and for const parameters
/// identical declared types.
pub open spec fn kinds_match(tk: GenericParamKind, uk: GenericParamKind) -> bool {
    match (tk, uk) {
        (GenericParamKind::Lifetime, GenericParamKind::Lifetime) => true,
        (
            GenericParamKind::TypeParam { default_text: d1 },
            GenericParamKind::TypeParam { default_text: d2 },
        ) => opt_text_eq(d1, d2),
        (
            GenericParamKind::ConstParam { type_text: t1, default_text: d1 },
            GenericParamKind::ConstParam { type_text: t2, default_text: d2 },
        ) => t1@ == t2@ && opt_text_eq(d1, d2),
        _ => false,
    }
}

/// Whether, at one position, the alias parameter `tp` is passed through
/// unchanged to the target parameter `up` by the argument `arg`.
pub open spec fn param_matches(tp: GenericParam, up: GenericParam, arg: GenericArg) -> bool {
    arg_name(arg) == Some(tp.name@) && kinds_match(tp.kind, up.kind)
}

/// The generic parameter list an item kind declares, for the kinds that can
/// stand behind an alias.
pub open spec fn generics_of(k: ItemKind) -> Option<Seq<GenericParam>> {
    match k {
        ItemKind::Struct { generics, .. } => Some(generics@),
        ItemKind::Enum { generics, .. } => Some(generics@),
        ItemKind::Trait { generics, .. } => Some(generics@),
        ItemKind::Union { generics, .. } => Some(generics@),
        ItemKind::Typedef { generics, .. } => Some(generics@),
        _ => None,
    }
}

/// Whether the alias's parameter list forwards every supplied argument to
/// the target's parameter list unchanged: same count on both sides, and a
/// positionwise match.
pub open spec fn forwards_all(
    ty_params: Seq<GenericParam>,
    ups: Seq<GenericParam>,
    supplied: Seq<GenericArg>,
) -> bool {
    &&& ty_params.len() == supplied.len()
    &&& ups.len() == supplied.len()
    &&& forall|i: int| 0 <= i < supplied.len() ==> param_matches(ty_params[i], ups[i], supplied[i])
}

/// The target item id when an alias declaring `ty_params` and aliasing
/// `target` behaves exactly like a re-export of the target; `None` otherwise.
pub open spec fn typedef_target_spec(
    c: Crate,
    target: TypeExpr,
    ty_params: Seq<GenericParam>,
) -> Option<u64> {
    match target {
        TypeExpr::OtherType => None,
        TypeExpr::ResolvedPath { id, args } => match item_of(c, id) {
            None => None,
            Some(underlying) => match args {
                None => Some(id),
                Some(PathArgs::Parenthesized) => Some(id),
                Some(PathArgs::AngleBracketed { args: supplied, has_bindings }) => if has_bindings {
                    None
                } else {
                    match generics_of(underlying.kind) {
                        None => None,
                        Some(ups) => if forwards_all(ty_params, ups, supplied@) {
                            Some(id)
                        } else {
                            None
                        },
                    }
                },
            },
        },
    }
}

fn opt_text_eq_check(a: &Option<String>, b: &Option<String>) -> (r: bool)
    ensures
        r == opt_text_eq(*a, *b),
{
    match a {
        Option::None => match b {
            Option::None => true,
            Option::Some(_) => false,
        },
        Option::Some(x) => match b {
            Option::Some(y) => *x == *y,
            Option::None => false,
        },
    }
}

fn param_matches_check(tp: &GenericParam, up: &GenericParam, arg: &GenericArg) -> (r: bool)
    ensures
        r == param_matches(*tp, *up, *arg),
{
    let name_ok = match arg {
        GenericArg::Lifetime { name } => *name == tp.name,
        GenericArg::NamedType { name } => *name == tp.name,
        GenericArg::ConstArg { expr } => *expr == tp.name,
        GenericArg::OtherTypeArg => false,
        GenericArg::InferArg => false,
    };
    if !name_ok {
        return false;
    }
    match (&tp.kind, &up.kind) {
        (GenericParamKind::Lifetime, GenericParamKind::Lifetime) => true,
        (
            GenericParamKind::TypeParam { default_text: d1 },
            GenericParamKind::TypeParam { default_text: d2 },
        ) => opt_text_eq_check(d1, d2),
        (
            GenericParamKind::ConstParam { type_text: t1, default_text: d1 },
            GenericParamKind::ConstParam { type_text: t2, default_text: d2 },
        ) => *t1 == *t2 && opt_text_eq_check(d1, d2),
        _ => false,
    }
}

fn forwards_all_check(
    ty_params: &Vec<GenericParam>,
    ups: &Vec<GenericParam>,
    supplied: &Vec<GenericArg>,
) -> (r: bool)
    ensures
        r == forwards_all(ty_params@, ups@, supplied@),
{
    let n = supplied.len();
    if ty_params.len() != n {
        return false;
    }
    if ups.len() != n {
        return false;
    }
    for i in 0..n
        invariant
            n == supplied@.len(),
            n == ty_params@.len(),
            n == ups@.len(),
            forall|j: int| 0 <= j < i ==> param_matches(ty_params@[j], ups@[j], supplied@[j]),
    {
        if !param_matches_check(&ty_params[i], &ups[i], &supplied[i]) {
            return false;
        }
    }
    true
}

/// The alias-as-re-export check: returns the target item id exactly when the
/// alias forwards every generic parameter unchanged, as `typedef_target_spec`
/// states.
pub fn typedef_equivalent_target(
    c: &Crate,
    target: &TypeExpr,
    ty_params: &Vec<GenericParam>,
) -> (r: Option<u64>)
    ensures
        r == typedef_target_spec(*c, *target, ty_params@),
{
    match target {
        TypeExpr::OtherType => None,
        TypeExpr::ResolvedPath { id, args } => {
            match c.item_by_id(*id) {
                None => None,
                Some(underlying) => {
                    match args {
                        None => Some(*id),
                        Some(PathArgs::Parenthesized) => Some(*id),
                        Some(PathArgs::AngleBracketed { args: supplied, has_bindings }) => {
                            if *has_bindings {
                                None
                            } else {
                                match &underlying.kind {
                                    ItemKind::Struct { generics, .. } => {
                                        if forwards_all_check(ty_params, generics, supplied) {
                                            Some(*id)
                                        } else {
                                            None
                                        }
                                    },
                                    ItemKind::Enum { generics, .. } => {
                                        if forwards_all_check(ty_params, generics, supplied) {
                                            Some(*id)
                                        } else {
                                            None
                                        }
                                    },
                                    ItemKind::Trait { generics, .. } => {
                                        if forwards_all_check(ty_params, generics, supplied) {
                                            Some(*id)
                                        } else {
                                            None
                                        }
                                    },
                                    ItemKind::Union { generics, .. } => {
                                        if forwards_all_check(ty_params, generics, supplied) {
                                            Some(*id)
                                        } else {
                                            None
                                        }
                                    },
                                    ItemKind::Typedef { generics, .. } => {
                                        if forwards_all_check(ty_params, generics, supplied) {
                                            Some(*id)
                                        } else {
                                            None
                                        }
                                    },
                                    _ => None,
                                }
                            }
                        },
                    }
                },
            }
        },
    }
}

} // verus!
