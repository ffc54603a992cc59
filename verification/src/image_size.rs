//! Logical resolution tiers for cover art, and the URL transformation that
//! requests a tier from the image host.
//!
//! A tier maps to a numeric rank used for ordered cache lookups, to concrete
//! pixel dimensions, and to a `param=<w>x<h>` query parameter appended to a
//! base URL. The parameter value can be parsed back to the tier, so a fully
//! resolved URL alone identifies both the base resource and the tier.

use vstd::prelude::*;
use vstd::string::*;

use crate::text::find_char;
use crate::text::str_eq;

verus! {

/// A logical resolution tier, ordered from coarsest to original quality.
#[derive(Debug, Clone, Copy, PartialEq, Eq, Structural)]
pub enum ImageSize {
    /// Tiny thumbnail (100x100), for list rows.
    Thumbnail,
    /// Small (200x200), for cards.
    Small,
    /// Medium (400x400), for detail pages.
    Medium,
    /// Large (800x800), for full-screen covers.
    Large,
    /// The untouched source image; no size parameter is sent.
    Original,
}

/// The numeric rank of a tier; ranks order tiers from blurriest to sharpest.
pub open spec fn rank_of(t: ImageSize) -> u32 {
    match t {
        ImageSize::Thumbnail => 0,
        ImageSize::Small => 1,
        ImageSize::Medium => 2,
        ImageSize::Large => 3,
        ImageSize::Original => 4,
    }
}

/// The pixel dimensions requested for a tier; `Original` requests none.
pub open spec fn spec_dimensions(t: ImageSize) -> Option<(u32, u32)> {
    match t {
        ImageSize::Thumbnail => Some((100u32, 100u32)),
        ImageSize::Small => Some((200u32, 200u32)),
        ImageSize::Medium => Some((400u32, 400u32)),
        ImageSize::Large => Some((800u32, 800u32)),
        ImageSize::Original => None,
    }
}

/// The `<w>x<h>` value carried by the size query parameter.
pub open spec fn spec_param_string(t: ImageSize) -> Option<Seq<char>> {
    match t {
        ImageSize::Thumbnail => Some("100x100"@),
        ImageSize::Small => Some("200x200"@),
        ImageSize::Medium => Some("400x400"@),
        ImageSize::Large => Some("800x800"@),
        ImageSize::Original => None,
    }
}

/// The tier encoded by a size parameter value; unrecognized input means the
/// original image is wanted.
pub open spec fn spec_from_param(v: Seq<char>) -> ImageSize {
    if v == "100x100"@ {
        ImageSize::Thumbnail
    } else if v == "200x200"@ {
        ImageSize::Small
    } else if v == "400x400"@ {
        ImageSize::Medium
    } else if v == "800x800"@ {
        ImageSize::Large
    } else {
        ImageSize::Original
    }
}

/// The fully resolved URL for `url` at tier `t`: the size parameter is
/// appended with `&` when the base already carries a query, with `?`
/// otherwise, and `Original` leaves the URL untouched.
pub open spec fn spec_apply_to_url(url: Seq<char>, t: ImageSize) -> Seq<char> {
    match spec_param_string(t) {
        None => url,
        Some(p) => if url.contains('?') {
            url + "&param="@ + p
        } else {
            url + "?param="@ + p
        },
    }
}

impl ImageSize {
    /// The rank of this tier.
    pub fn to_rank(&self) -> (r: u32)
        ensures
            r == rank_of(*self),
    {
        match self {
            ImageSize::Thumbnail => 0,
            ImageSize::Small => 1,
            ImageSize::Medium => 2,
            ImageSize::Large => 3,
            ImageSize::Original => 4,
        }
    }

    /// The pixel dimensions this tier requests, if any.
    pub fn dimensions(&self) -> (r: Option<(u32, u32)>)
        ensures
            r == spec_dimensions(*self),
    {
        match self {
            ImageSize::Thumbnail => Some((100, 100)),
            ImageSize::Small => Some((200, 200)),
            ImageSize::Medium => Some((400, 400)),
            ImageSize::Large => Some((800, 800)),
            ImageSize::Original => None,
        }
    }

    /// The `<w>x<h>` size parameter value for this tier, if any.
    pub fn param_string(&self) -> (r: Option<String>)
        ensures
            r is Some <==> spec_param_string(*self) is Some,
            r matches Some(s) ==> Some(s@) == spec_param_string(*self),
    {
        match self {
            ImageSize::Thumbnail => Some("100x100".to_owned()),
            ImageSize::Small => Some("200x200".to_owned()),
            ImageSize::Medium => Some("400x400".to_owned()),
            ImageSize::Large => Some("800x800".to_owned()),
            ImageSize::Original => None,
        }
    }

    /// Appends this tier's size parameter to `url`, using `&` when the URL
    /// already has a query string and `?` when it does not.
    pub fn apply_to_url(&self, url: &str) -> (r: String)
        ensures
            r@ == spec_apply_to_url(url@, *self),
    {
        match self.param_string() {
            None => url.to_owned(),
            Some(p) => {
                let mut s = url.to_owned();
                let has_query = find_char(url, '?').is_some();
                proof {
                    url@.index_of_first_ensures('?');
                }
                if has_query {
                    s.append("&param=");
                } else {
                    s.append("?param=");
                }
                s.append(p.as_str());
                s
            },
        }
    }

    /// Recovers the tier from a size parameter value; anything unrecognized
    /// falls back to `Original`.
    pub fn from_param(v: &str) -> (r: ImageSize)
        ensures
            r == spec_from_param(v@),
    {
        if str_eq(v, "100x100") {
            ImageSize::Thumbnail
        } else if str_eq(v, "200x200") {
            ImageSize::Small
        } else if str_eq(v, "400x400") {
            ImageSize::Medium
        } else if str_eq(v, "800x800") {
            ImageSize::Large
        } else {
            ImageSize::Original
        }
    }
}

/// A size parameter value is seven plain characters: it contains neither a
/// segment separator nor a query introducer, so appending it to a URL can
/// never be mistaken for more query structure than it is.
pub proof fn lemma_param_string_chars(t: ImageSize)
    ensures
        spec_param_string(t) matches Some(p) ==> (p.len() == 7 && !p.contains('&') && !p.contains(
            '?',
        )),
{
    reveal_strlit("100x100");
    reveal_strlit("200x200");
    reveal_strlit("400x400");
    reveal_strlit("800x800");
    match spec_param_string(t) {
        Some(p) => {
            assert forall|j: int| 0 <= j < p.len() implies p[j] != '&' && p[j] != '?' by {
                assert(0 <= j < 7);
            }
            if p.contains('&') {
                let j = choose|j: int| 0 <= j < p.len() && p[j] == '&';
            }
            if p.contains('?') {
                let j = choose|j: int| 0 <= j < p.len() && p[j] == '?';
            }
        },
        None => {},
    }
}

/// Ranks order the tiers exactly: recovering a tier from its own parameter
/// string gives the tier back, so the loader can trust a resolved URL alone.
pub proof fn lemma_param_string_round_trip(t: ImageSize)
    ensures
        spec_param_string(t) matches Some(p) ==> spec_from_param(p) == t,
{
    reveal_strlit("100x100");
    reveal_strlit("200x200");
    reveal_strlit("400x400");
    reveal_strlit("800x800");
    match t {
        ImageSize::Thumbnail => {},
        ImageSize::Small => {
            assert("200x200"@ != "100x100"@) by {
                assert("200x200"@[0] != "100x100"@[0]);
            }
        },
        ImageSize::Medium => {
            assert("400x400"@ != "100x100"@) by {
                assert("400x400"@[0] != "100x100"@[0]);
            }
            assert("400x400"@ != "200x200"@) by {
                assert("400x400"@[0] != "200x200"@[0]);
            }
        },
        ImageSize::Large => {
            assert("800x800"@ != "100x100"@) by {
                assert("800x800"@[0] != "100x100"@[0]);
            }
            assert("800x800"@ != "200x200"@) by {
                assert("800x800"@[0] != "200x200"@[0]);
            }
            assert("800x800"@ != "400x400"@) by {
                assert("800x800"@[0] != "400x400"@[0]);
            }
        },
        ImageSize::Original => {},
    }
}

} // verus!
