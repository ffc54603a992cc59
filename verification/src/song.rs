//! Song, artist and album records as the catalog layer hands them over,
//! with the display formatting the song lists use.
//!
//! The formatting is exact: artists join with a fixed separator, durations
//! print as zero-padded minutes and seconds, and file sizes print with one
//! decimal digit, rounded half-to-even on the exact value.

use vstd::prelude::*;
use vstd::string::*;

use crate::text::dec_digit;
use crate::text::spec_dec;
use crate::text::u64_to_dec;

verus! {

/// One song of a playlist.
#[derive(Debug, Clone)]
pub struct Song {
    pub id: u64,
    pub name: String,
    pub artists: Vec<Artist>,
    pub album: Album,
    /// Playing time in milliseconds.
    pub duration: u64,
    /// File size in bytes, when the catalog reports one.
    pub size: Option<u64>,
    pub copyright_id: u64,
    pub cover_url: String,
}

/// A performing artist.
#[derive(Debug, Clone)]
pub struct Artist {
    pub id: u64,
    pub name: String,
}

/// The album a song belongs to.
#[derive(Debug, Clone)]
pub struct Album {
    pub id: u64,
    pub name: String,
}

/// A playlist with its full song list.
#[derive(Debug, Clone)]
pub struct PlaylistDetail {
    pub id: u64,
    pub name: String,
    pub cover_url: String,
    pub description: String,
    pub songs: Vec<Song>,
}

/// `names` joined with `" / "` between neighbours.
pub open spec fn spec_join_names(names: Seq<Seq<char>>) -> Seq<char>
    decreases names.len(),
{
    if names.len() == 0 {
        Seq::empty()
    } else if names.len() == 1 {
        names[0]
    } else {
        spec_join_names(names.drop_last()) + " / "@ + names.last()
    }
}

/// `n` in decimal, padded with one leading zero to at least two digits.
pub open spec fn spec_pad2(n: nat) -> Seq<char> {
    if n < 10 {
        seq!['0'] + spec_dec(n)
    } else {
        spec_dec(n)
    }
}

/// A duration in milliseconds as `mm:ss` (more digits for the minutes when
/// they need them).
pub open spec fn spec_duration_string(ms: u64) -> Seq<char> {
    spec_pad2((ms as nat / 1000) / 60) + ":"@ + spec_pad2((ms as nat / 1000) % 60)
}

/// `10 * n / d` rounded to the nearest integer, ties to even — the number
/// of tenths shown when `n / d` prints with one decimal digit.
pub open spec fn spec_tenths(n: nat, d: nat) -> nat {
    let q = (10 * n) / d;
    let rem = (10 * n) % d;
    if 2 * rem > d || (2 * rem == d && q % 2 == 1) {
        q + 1
    } else {
        q
    }
}

/// `n / d` written with exactly one decimal digit.
pub open spec fn spec_one_decimal(n: nat, d: nat) -> Seq<char> {
    spec_dec(spec_tenths(n, d) / 10) + "."@ + seq![dec_digit((spec_tenths(n, d) % 10) as int)]
}

/// A byte count in the most readable unit: plain bytes below one kibibyte,
/// tenths of kibibytes below one mebibyte, tenths of mebibytes above.
pub open spec fn spec_size_string(bytes: u64) -> Seq<char> {
    if bytes < 1024 {
        spec_dec(bytes as nat) + " B"@
    } else if bytes < 1048576 {
        spec_one_decimal(bytes as nat, 1024) + " KB"@
    } else {
        spec_one_decimal(bytes as nat, 1048576) + " MB"@
    }
}

/// `10 * n / d` rounded to nearest, ties to even.
fn tenths_rounded(n: u64, d: u64) -> (r: u64)
    requires
        d == 1024 || d == 1048576,
    ensures
        r == spec_tenths(n as nat, d as nat),
{
    let t: u128 = (n as u128) * 10;
    let d128: u128 = d as u128;
    let q: u128 = t / d128;
    let rem: u128 = t % d128;
    proof {
        assert(q <= t / 1024) by (nonlinear_arith)
            requires
                d128 >= 1024,
                t >= 0,
                q == t / d128,
        {}
    }
    let rounded: u128 = if 2 * rem > d128 || (2 * rem == d128 && q % 2 == 1) {
        q + 1
    } else {
        q
    };
    rounded as u64
}

/// Appends `n` in decimal, zero-padded to at least two digits.
fn append_pad2(s: &mut String, n: u64)
    ensures
        final(s)@ == old(s)@ + spec_pad2(n as nat),
{
    proof {
        reveal_strlit("0");
    }
    if n < 10 {
        s.append("0");
    }
    let digits = u64_to_dec(n);
    s.append(digits.as_str());
    proof {
        if n < 10 {
            assert(final(s)@ =~= old(s)@ + (seq!['0'] + spec_dec(n as nat)));
        }
    }
}

impl Song {
    /// The artist names joined with `" / "`.
    pub fn artists_string(&self) -> (r: String)
        ensures
            r@ == spec_join_names(self.artists@.map_values(|a: Artist| a.name@)),
    {
        let ghost names = self.artists@.map_values(|a: Artist| a.name@);
        let mut s = String::new();
        let n = self.artists.len();
        let mut i: usize = 0;
        while i < n
            invariant
                i <= n,
                n == self.artists@.len(),
                names == self.artists@.map_values(|a: Artist| a.name@),
                s@ == spec_join_names(names.subrange(0, i as int)),
            decreases n - i,
        {
            if i > 0 {
                s.append(" / ");
            }
            s.append(self.artists[i].name.as_str());
            proof {
                let done = names.subrange(0, i as int + 1);
                assert(done.drop_last() =~= names.subrange(0, i as int));
                assert(done.last() == names[i as int]);
                if i == 0 {
                    assert(s@ =~= spec_join_names(done));
                } else {
                    assert(s@ =~= spec_join_names(done));
                }
            }
            i += 1;
        }
        proof {
            assert(names.subrange(0, n as int) =~= names);
        }
        s
    }

    /// The playing time as `mm:ss`.
    pub fn format_duration(&self) -> (r: String)
        ensures
            r@ == spec_duration_string(self.duration),
    {
        let total_seconds = self.duration / 1000;
        let minutes = total_seconds / 60;
        let seconds = total_seconds % 60;
        let mut s = String::new();
        append_pad2(&mut s, minutes);
        s.append(":");
        append_pad2(&mut s, seconds);
        proof {
            assert(s@ =~= spec_duration_string(self.duration));
        }
        s
    }

    /// The file size in the most readable unit, when the catalog reported
    /// one.
    pub fn format_size(&self) -> (r: Option<String>)
        ensures
            r is Some <==> self.size is Some,
            r matches Some(s) ==> (self.size matches Some(b) && s@ == spec_size_string(b)),
    {
        match self.size {
            None => None,
            Some(bytes) => {
                let mut s: String;
                if bytes < 1024 {
                    s = u64_to_dec(bytes);
                    s.append(" B");
                } else if bytes < 1024 * 1024 {
                    s = format_one_decimal(bytes, 1024);
                    s.append(" KB");
                } else {
                    s = format_one_decimal(bytes, 1048576);
                    s.append(" MB");
                }
                Some(s)
            },
        }
    }
}

/// Writes `n / d` with exactly one decimal digit.
fn format_one_decimal(n: u64, d: u64) -> (r: String)
    requires
        d == 1024 || d == 1048576,
    ensures
        r@ == spec_one_decimal(n as nat, d as nat),
{
    let t = tenths_rounded(n, d);
    let mut s = u64_to_dec(t / 10);
    s.append(".");
    let frac = crate::text::digit_str(t % 10);
    s.append(frac.as_str());
    proof {
        assert(s@ =~= spec_one_decimal(n as nat, d as nat));
    }
    s
}

} // verus!
