//! Client-side access layer for a hierarchical JSON document store served over HTTPS.
//!
//! References to locations in the store are immutable values: deriving a child path,
//! attaching query parameters or preparing a request never changes the value it
//! started from.
use vstd::prelude::*;

pub mod util;
pub mod address;
pub mod request;
pub mod firebase;
pub mod laws;

verus! {

} // verus!
