//! Multi-resolution cover-art loading pipeline for a desktop music client.
//!
//! The heart of the crate is an asynchronous image cache: a render loop asks
//! for cover art at a logical resolution tier, the pipeline serves the best
//! variant already decoded (possibly a blurrier placeholder), and schedules a
//! deduplicated background fetch for the exact tier when it is missing.
//! Downloaded bytes are persisted in a content-addressed store so later runs
//! skip the network.

pub mod cards;
pub mod disk_store;
pub mod fetch_queue;
pub mod image_size;
pub mod in_flight;
pub mod mask;
pub mod pages;
pub mod pipeline;
pub mod playlist;
pub mod song;
pub mod song_sort;
pub mod sorting;
pub mod text;
pub mod url;
pub mod variant_cache;
