//! A minimal media-ingestion indexer.
//!
//! Given the listings of a directory tree, the library classifies each
//! entry as an image or not by its file name, records the image paths in
//! a persistent path store, and reports the number of distinct paths
//! stored. Listing directories and printing are left to the caller; the
//! classification, the ingestion steps and the store's bookkeeping are
//! verified here.

pub mod classify;
pub mod command;
pub mod ingest;
pub mod store;

use vstd::prelude::*;

verus! {

} // verus!
