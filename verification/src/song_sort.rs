//! Local sorting of a song list by a chosen field and direction.
//!
//! Titles, artists and albums order lexicographically by code point (the
//! order byte-wise string comparison gives on UTF-8), durations and sizes
//! numerically, and "create time" falls back to the song id. Sorting keeps
//! exactly the songs it was given, and the default field or order leaves
//! the list untouched.

use vstd::prelude::*;
use vstd::seq_lib::group_to_multiset_ensures;
use vstd::string::*;

use crate::song::Artist;
use crate::song::PlaylistDetail;
use crate::song::Song;
use crate::song::spec_join_names;
use crate::sorting::SortField;
use crate::sorting::SortOrder;
use crate::text::lemma_seq_le_total;
use crate::text::seq_le;
use crate::text::str_le;

verus! {

/// A song's size for ordering: zero when the catalog reported none.
pub open spec fn spec_size_or_zero(s: Song) -> u64 {
    match s.size {
        Some(v) => v,
        None => 0,
    }
}

/// Whether `a` sorts at or before `b` under `field`, ascending.
pub open spec fn spec_song_le(field: SortField, a: Song, b: Song) -> bool {
    match field {
        SortField::Default => true,
        SortField::Title => seq_le(a.name@, b.name@),
        SortField::Artist => seq_le(
            spec_join_names(a.artists@.map_values(|x: Artist| x.name@)),
            spec_join_names(b.artists@.map_values(|x: Artist| x.name@)),
        ),
        SortField::Album => seq_le(a.album.name@, b.album.name@),
        SortField::Duration => a.duration <= b.duration,
        SortField::Size => spec_size_or_zero(a) <= spec_size_or_zero(b),
        SortField::CreateTime => a.id <= b.id,
    }
}

/// Whether `a` may stand directly before `b` in the requested order.
pub open spec fn spec_ordered(field: SortField, order: SortOrder, a: Song, b: Song) -> bool {
    match order {
        SortOrder::Default => true,
        SortOrder::Asc => spec_song_le(field, a, b),
        SortOrder::Desc => spec_song_le(field, b, a),
    }
}

/// Every neighbouring pair stands in the requested order.
pub open spec fn spec_sorted_by(songs: Seq<Song>, field: SortField, order: SortOrder) -> bool {
    forall|i: int|
        0 <= i < songs.len() - 1 ==> spec_ordered(field, order, #[trigger] songs[i], songs[i + 1])
}

/// Any two songs are comparable in any order: the sort never gets stuck.
pub proof fn lemma_ordered_total(field: SortField, order: SortOrder, a: Song, b: Song)
    ensures
        spec_ordered(field, order, a, b) || spec_ordered(field, order, b, a),
{
    match field {
        SortField::Title => {
            lemma_seq_le_total(a.name@, b.name@);
        },
        SortField::Artist => {
            lemma_seq_le_total(
                spec_join_names(a.artists@.map_values(|x: Artist| x.name@)),
                spec_join_names(b.artists@.map_values(|x: Artist| x.name@)),
            );
        },
        SortField::Album => {
            lemma_seq_le_total(a.album.name@, b.album.name@);
        },
        _ => {},
    }
}

/// Whether `a` sorts at or before `b` under `field`, ascending.
fn song_le(field: SortField, a: &Song, b: &Song) -> (r: bool)
    ensures
        r == spec_song_le(field, *a, *b),
{
    match field {
        SortField::Default => true,
        SortField::Title => str_le(a.name.as_str(), b.name.as_str()),
        SortField::Artist => {
            let an = a.artists_string();
            let bn = b.artists_string();
            str_le(an.as_str(), bn.as_str())
        },
        SortField::Album => str_le(a.album.name.as_str(), b.album.name.as_str()),
        SortField::Duration => a.duration <= b.duration,
        SortField::Size => {
            let asize = match a.size {
                Some(v) => v,
                None => 0,
            };
            let bsize = match b.size {
                Some(v) => v,
                None => 0,
            };
            asize <= bsize
        },
        SortField::CreateTime => a.id <= b.id,
    }
}

/// Whether `a` may stand directly before `b` in the requested order.
fn ordered(field: SortField, order: SortOrder, a: &Song, b: &Song) -> (r: bool)
    ensures
        r == spec_ordered(field, order, *a, *b),
{
    match order {
        SortOrder::Default => true,
        SortOrder::Asc => song_le(field, a, b),
        SortOrder::Desc => song_le(field, b, a),
    }
}

/// The first position in `songs[..end]` whose song may no longer stand
/// before `x`.
fn insertion_point(songs: &Vec<Song>, x: &Song, end: usize, field: SortField, order: SortOrder) -> (pos:
    usize)
    requires
        end <= songs@.len(),
    ensures
        pos <= end,
        forall|k: int| 0 <= k < pos ==> spec_ordered(field, order, #[trigger] songs@[k], *x),
        pos < end ==> !spec_ordered(field, order, songs@[pos as int], *x),
{
    let mut pos: usize = 0;
    while pos < end
        invariant
            pos <= end,
            end <= songs@.len(),
            forall|k: int| 0 <= k < pos ==> spec_ordered(field, order, #[trigger] songs@[k], *x),
        decreases end - pos,
    {
        if !ordered(field, order, &songs[pos], x) {
            return pos;
        }
        pos += 1;
    }
    pos
}

/// Sorts the songs in place by `field` in `order`. The default field or
/// order means "keep the catalog's order" and changes nothing; otherwise
/// the same songs come back with every neighbouring pair in order.
///
/// Among songs whose keys compare equal the contract leaves the resulting
/// order unspecified. (The implementation inserts each song after the
/// equal-keyed ones already placed, so it happens to keep their given
/// order, but callers may not rely on that.)
pub fn sort_songs(songs: &mut Vec<Song>, field: SortField, order: SortOrder)
    ensures
        (field == SortField::Default || order == SortOrder::Default) ==> final(songs)@ == old(
            songs,
        )@,
        spec_sorted_by(final(songs)@, field, order),
        final(songs)@.to_multiset() == old(songs)@.to_multiset(),
{
    broadcast use group_to_multiset_ensures, vstd::multiset::group_multiset_axioms;

    if matches!(field, SortField::Default) || matches!(order, SortOrder::Default) {
        return ;
    }
    let n = songs.len();
    if n <= 1 {
        return ;
    }
    let mut i: usize = 1;
    while i < n
        invariant
            1 <= i <= n,
            n == songs@.len(),
            songs@.len() == old(songs)@.len(),
            songs@.to_multiset() == old(songs)@.to_multiset(),
            spec_sorted_by(songs@.subrange(0, i as int), field, order),
        decreases n - i,
    {
        let ghost before = songs@;
        let x = songs.remove(i);
        let ghost mid = songs@;
        proof {
            assert(forall|k: int| 0 <= k < i ==> mid[k] == before[k]);
        }
        let pos = insertion_point(songs, &x, i, field, order);
        songs.insert(pos, x);
        proof {
            broadcast use vstd::multiset::group_multiset_axioms;

            let after = songs@;
            // The list still holds exactly the same songs.
            vstd::seq_lib::to_multiset_remove::<Song>(before, i as int);
            vstd::seq_lib::to_multiset_insert::<Song>(mid, pos as int, x);
            assert(x == before[i as int]);
            assert(before.to_multiset().count(x) > 0) by {
                vstd::seq_lib::to_multiset_contains::<Song>(before, x);
                assert(before.contains(before[i as int]));
            }
            assert(after.to_multiset() =~= before.to_multiset());
            // And the grown prefix is in order.
            assert forall|k: int| 0 <= k < i as int implies spec_ordered(
                field,
                order,
                #[trigger] after[k],
                after[k + 1],
            ) by {
                let sorted_prefix = before.subrange(0, i as int);
                if k + 1 < pos as int {
                    assert(after[k] == mid[k] && after[k + 1] == mid[k + 1]);
                    assert(spec_ordered(field, order, sorted_prefix[k], sorted_prefix[k + 1]));
                } else if k + 1 == pos as int {
                    assert(after[k] == mid[k] && after[k + 1] == x);
                } else if k == pos as int {
                    assert(after[k] == x && after[k + 1] == mid[k]);
                    assert(!spec_ordered(field, order, mid[k], x));
                    lemma_ordered_total(field, order, mid[k], x);
                } else {
                    assert(after[k] == mid[k - 1] && after[k + 1] == mid[k]);
                    assert(spec_ordered(field, order, sorted_prefix[k - 1], sorted_prefix[k]));
                }
            }
            assert(spec_sorted_by(after.subrange(0, i as int + 1), field, order)) by {
                assert(forall|k: int|
                    0 <= k < i as int ==> #[trigger] after.subrange(0, i as int + 1)[k] == after[k]);
            }
        }
        i += 1;
    }
    proof {
        if n > 0 {
            assert(songs@.subrange(0, n as int) =~= songs@);
        }
    }
}

/// Sorts a playlist's songs, returning the detail record with the same
/// songs in order and everything else untouched.
pub fn sort_playlist_detail(detail: PlaylistDetail, field: SortField, order: SortOrder) -> (r:
    PlaylistDetail)
    ensures
        r.id == detail.id,
        r.name == detail.name,
        r.cover_url == detail.cover_url,
        r.description == detail.description,
        spec_sorted_by(r.songs@, field, order),
        r.songs@.to_multiset() == detail.songs@.to_multiset(),
{
    let mut sorted_detail = detail;
    sort_songs(&mut sorted_detail.songs, field, order);
    sorted_detail
}

} // verus!
