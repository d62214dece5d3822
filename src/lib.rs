//! A relationship-model compiler for table-row entities. An entity's
//! `many_to_one`, `one_to_many` and `many_to_many` annotations are turned into
//! plans for three coherent artifacts: an eager aggregate type, an
//! incrementally filled lazy type, and an implementation block whose grouped
//! queries fold flat joined rows back into one record per parent.
//!
//! `grouping` holds the run-time semantics of those grouped queries and
//! `laws` what is proved of them; `entity` is the driver that feeds one
//! entity definition to the builders of `eager_entity`, `lazy_entity` and
//! `entity_implementation`.
use vstd::prelude::*;

pub mod text;
pub mod grouping;
pub mod laws;
pub mod types;
pub mod naming;
pub mod eager_entity;
pub mod lazy_entity;
pub mod entity_implementation;
pub mod entity;
pub mod annotation;

verus! {

} // verus!
