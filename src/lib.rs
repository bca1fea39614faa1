use vstd::prelude::*;

pub mod cache;
pub mod inbox;
pub mod keyed;
pub mod manager;
pub mod reconcile;
pub mod session;
pub mod subject_url;
pub mod text;
pub mod timeline;
pub mod types;

verus! {

} // verus!
