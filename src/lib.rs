//! A chain-following indexer's core: reducers that turn blocks into
//! CRDT-shaped store commands, the stage that frames each block, the
//! document-store sink's update rules and cursor, and the source's choice
//! of where to resume.
use vstd::prelude::*;

pub mod text;
pub mod model;
pub mod filters;
pub mod address_by_asset;
pub mod supply_by_asset;
pub mod transaction_size_by_script;
pub mod pipeline;
pub mod queue;
pub mod mongo;
pub mod store;
pub mod intersect;

verus! {

} // verus!
