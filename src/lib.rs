//! A static-site template engine: `[[name]]` placeholders resolved from variable scopes,
//! `key={{value}}` declarations, `<md src="...">` fragment inclusion, and named template tags
//! expanded recursively until a fixpoint, each expansion in a scope of its own. The base scope
//! of a site is seeded from its most recent article and an index of all articles.
use vstd::prelude::*;

pub mod text;
pub mod scope;
pub mod declarations;
pub mod placeholders;
pub mod fragments;
pub mod transcribe;
pub mod dates;
pub mod articles;
pub mod preload;
pub mod laws;
pub mod output;

verus! {

} // verus!
