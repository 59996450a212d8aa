//! Public-API name resolution over a fully parsed documentation snapshot.
//!
//! Given an immutable item graph (ids, names, visibility tags, kind-specific
//! child lists), this crate determines every syntactically valid path by which
//! external code could import each declared entity, honoring visibility rules,
//! re-exports (renaming and glob forms), and type aliases that behave like
//! re-exports. From those paths it builds two read-only lookup indices.

pub mod builtin;
pub mod forest;
pub mod indexed_crate;
pub mod model;
pub mod paths;
pub mod typedef_equiv;

pub use indexed_crate::ImplEntry;
pub use indexed_crate::ImportablePath;
pub use indexed_crate::IndexedCrate;
pub use model::Crate;
pub use model::GenericArg;
pub use model::GenericParam;
pub use model::GenericParamKind;
pub use model::Item;
pub use model::ItemKind;
pub use model::ItemSummary;
pub use model::PathArgs;
pub use model::TraitRef;
pub use model::TypeExpr;
pub use model::Visibility;
