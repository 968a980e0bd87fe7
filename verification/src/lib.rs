//! Verified core of the clogbox audio toolkit: strongly-typed enum indexing,
//! enum-keyed maps, sorted event buffers, audio graph editing and the small
//! pieces of bookkeeping that the processing engine relies on.
use vstd::prelude::*;

pub mod text;
pub mod enums;
pub mod enum_map;
pub mod graph;
pub mod module;
pub mod filters;
pub mod note_target;

verus! {

} // verus!
