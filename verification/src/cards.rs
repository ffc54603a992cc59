//! The plain data behind the playlist and song cards, and the text
//! truncation the cards apply to long names. Widget construction belongs to
//! the embedding application.

use vstd::prelude::*;
use vstd::string::*;

use crate::playlist::Playlist;

verus! {

/// How a cover image fills its card.
#[derive(Debug, Clone, Copy, PartialEq, Eq, Structural)]
pub enum ImageFit {
    /// Fill the container, cropping what overflows.
    Cover,
    /// Show the whole image, leaving margins.
    Contain,
    /// Stretch to the container.
    Fill,
}

/// What a playlist card shows.
#[derive(Debug, Clone)]
pub struct PlaylistCardData {
    pub id: u64,
    pub name: String,
    pub cover_url: String,
    pub creator: String,
}

/// What a song row shows.
#[derive(Debug, Clone)]
pub struct SongCardData {
    pub index: usize,
    pub id: u64,
    pub name: String,
    pub artists: String,
    pub album: String,
    pub duration: String,
    pub cover_url: String,
}

/// What a song row reports back.
#[derive(Debug, Clone, Copy, PartialEq, Eq, Structural)]
pub enum SongCardMessage {
    Clicked(usize),
    Hovered(usize),
}

impl From<&Playlist> for PlaylistCardData {
    /// A card shows the playlist's own fields.
    fn from(playlist: &Playlist) -> (r: Self) {
        PlaylistCardData {
            id: playlist.id,
            name: playlist.name.clone(),
            cover_url: playlist.cover_url.clone(),
            creator: playlist.creator.clone(),
        }
    }
}

impl vstd::std_specs::convert::FromSpecImpl<&Playlist> for PlaylistCardData {
    open spec fn obeys_from_spec() -> bool {
        true
    }

    open spec fn from_spec(playlist: &Playlist) -> Self {
        PlaylistCardData {
            id: playlist.id,
            name: playlist.name,
            cover_url: playlist.cover_url,
            creator: playlist.creator,
        }
    }
}

/// `s` cut to at most `max_chars` characters: unchanged when it fits, else
/// its first `max_chars - 3` characters with a three-dot ellipsis (the
/// ellipsis alone when even that does not fit).
pub open spec fn spec_truncate(s: Seq<char>, max_chars: nat) -> Seq<char> {
    if s.len() <= max_chars {
        s
    } else {
        let end: nat = if max_chars >= 3 {
            (max_chars - 3) as nat
        } else {
            0
        };
        s.subrange(0, end as int) + "..."@
    }
}

/// Cuts `text` to at most `max_chars` characters, adding `"..."` when it
/// had to cut.
pub fn truncate_text(text: &str, max_chars: usize) -> (r: String)
    ensures
        r@ == spec_truncate(text@, max_chars as nat),
{
    let char_count = text.unicode_len();
    if char_count <= max_chars {
        return text.to_owned();
    }
    let end: usize = if max_chars > 3 {
        max_chars - 3
    } else {
        0
    };
    let mut s = text.substring_char(0, end).to_owned();
    s.append("...");
    s
}

} // verus!
