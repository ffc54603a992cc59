//! A playlist as the catalog layer lists it, before its songs are loaded.

use vstd::prelude::*;

verus! {

/// One playlist of the catalog.
#[derive(Debug, Clone)]
pub struct Playlist {
    pub id: u64,
    pub name: String,
    pub cover_url: String,
    pub creator: String,
}

} // verus!
