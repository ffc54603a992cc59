//! Recovering the base resource and the resolution tier from a fully
//! resolved URL.
//!
//! A resolved URL is the base URL with a `param=<w>x<h>` query parameter
//! appended. The loader receives only the resolved URL back from the network
//! layer, so it re-derives the cache key (the part before the first `?`) and
//! the tier (the value of the first `param=` segment of the query string,
//! `Original` when there is none).

use vstd::prelude::*;
use vstd::string::*;

use crate::image_size::ImageSize;
use crate::image_size::lemma_param_string_chars;
use crate::image_size::lemma_param_string_round_trip;
use crate::image_size::spec_apply_to_url;
use crate::image_size::spec_from_param;
use crate::image_size::spec_param_string;
use crate::text::find_char;
use crate::text::lemma_index_of_first_is;
use crate::text::lemma_index_of_first_none;
use crate::text::str_starts_with;

verus! {

/// The name-and-equals prefix of the size query parameter.
pub open spec fn param_key() -> Seq<char> {
    "param="@
}

/// Whether a query segment is a size parameter assignment.
pub open spec fn is_param_segment(seg: Seq<char>) -> bool {
    seg.len() >= param_key().len() && seg.subrange(0, param_key().len() as int) == param_key()
}

/// The value carried by a size parameter segment.
pub open spec fn param_of(seg: Seq<char>) -> Seq<char> {
    seg.subrange(param_key().len() as int, seg.len() as int)
}

/// The value of the first `param=` segment of a query string whose segments
/// are separated by `&`, if any.
pub open spec fn spec_param_value(q: Seq<char>) -> Option<Seq<char>>
    decreases q.len(),
{
    match q.index_of_first('&') {
        Some(i) => if 0 <= i < q.len() {
            if is_param_segment(q.subrange(0, i)) {
                Some(param_of(q.subrange(0, i)))
            } else {
                spec_param_value(q.subrange(i + 1, q.len() as int))
            }
        } else {
            None
        },
        None => if is_param_segment(q) {
            Some(param_of(q))
        } else {
            None
        },
    }
}

/// The base resource of a resolved URL: everything before the first `?`.
pub open spec fn spec_base_of(full: Seq<char>) -> Seq<char> {
    match full.index_of_first('?') {
        None => full,
        Some(i) => if 0 <= i <= full.len() {
            full.subrange(0, i)
        } else {
            full
        },
    }
}

/// The query string of a resolved URL: the characters between the first `?`
/// and the next `?` or the end.
pub open spec fn spec_query_of(full: Seq<char>) -> Seq<char> {
    match full.index_of_first('?') {
        None => Seq::empty(),
        Some(i) => if 0 <= i < full.len() {
            let rest = full.subrange(i + 1, full.len() as int);
            match rest.index_of_first('?') {
                None => rest,
                Some(j) => if 0 <= j <= rest.len() {
                    rest.subrange(0, j)
                } else {
                    rest
                },
            }
        } else {
            Seq::empty()
        },
    }
}

/// The tier a resolved URL asks for: parsed from its `param=` segment,
/// `Original` when the URL carries none.
pub open spec fn spec_tier_of(full: Seq<char>) -> ImageSize {
    match spec_param_value(spec_query_of(full)) {
        None => ImageSize::Original,
        Some(v) => spec_from_param(v),
    }
}

/// A `param=` segment followed by a separator-free value parses to exactly
/// that value.
proof fn lemma_param_value_of_key_value(p: Seq<char>)
    requires
        !p.contains('&'),
    ensures
        spec_param_value(param_key() + p) == Some(p),
{
    reveal_strlit("param=");
    let q = param_key() + p;
    assert forall|j: int| 0 <= j < q.len() implies q[j] != '&' by {
        if j < param_key().len() {
            assert(q[j] == param_key()[j]);
            assert(0 <= j < 6);
        } else {
            assert(q[j] == p[j - param_key().len()]);
            if q[j] == '&' {
                assert(p.contains('&'));
            }
        }
    }
    lemma_index_of_first_none(q, '&');
    assert(q.subrange(0, param_key().len() as int) =~= param_key());
    assert(is_param_segment(q));
    assert(param_of(q) =~= p);
}

/// Appending `&param=<value>` to a query string that carries no size
/// parameter yet makes `<value>` the parsed parameter value.
proof fn lemma_param_value_append(q: Seq<char>, p: Seq<char>)
    requires
        spec_param_value(q) is None,
        !p.contains('&'),
    ensures
        spec_param_value(q + seq!['&'] + param_key() + p) == Some(p),
    decreases q.len(),
{
    reveal_strlit("param=");
    let w = q + seq!['&'] + param_key() + p;
    assert(w.len() == q.len() + 1 + param_key().len() + p.len());
    assert(forall|j: int| 0 <= j < q.len() ==> w[j] == q[j]);
    assert(w[q.len() as int] == '&');
    q.index_of_first_ensures('&');
    match q.index_of_first('&') {
        None => {
            lemma_index_of_first_is(w, '&', q.len() as int);
            assert(w.subrange(0, q.len() as int) =~= q);
            assert(!is_param_segment(q));
            assert(w.subrange(q.len() as int + 1, w.len() as int) =~= param_key() + p);
            lemma_param_value_of_key_value(p);
        },
        Some(i) => {
            assert(w[i] == '&');
            lemma_index_of_first_is(w, '&', i);
            assert(w.subrange(0, i) =~= q.subrange(0, i));
            assert(!is_param_segment(q.subrange(0, i)));
            let qrest = q.subrange(i + 1, q.len() as int);
            assert(spec_param_value(qrest) is None);
            assert(w.subrange(i + 1, w.len() as int) =~= qrest + seq!['&'] + param_key() + p);
            lemma_param_value_append(qrest, p);
        },
    }
}

/// The resolved-URL encoding round-trips: as long as the base URL has at
/// most one `?` and its own query string carries no `param=` segment,
/// applying a tier and then splitting the result recovers the tier exactly
/// and leaves the base resource unchanged.
#[verifier::rlimit(100)]
pub proof fn lemma_resolved_round_trip(u: Seq<char>, t: ImageSize)
    requires
        spec_param_value(spec_query_of(u)) is None,
        match u.index_of_first('?') {
            Some(i) => !u.subrange(i + 1, u.len() as int).contains('?'),
            None => true,
        },
    ensures
        spec_tier_of(spec_apply_to_url(u, t)) == t,
        spec_base_of(spec_apply_to_url(u, t)) == spec_base_of(u),
{
    reveal_strlit("param=");
    reveal_strlit("?param=");
    reveal_strlit("&param=");
    lemma_param_string_chars(t);
    lemma_param_string_round_trip(t);
    u.index_of_first_ensures('?');
    match spec_param_string(t) {
        None => {
            assert(spec_apply_to_url(u, t) == u);
            assert(spec_tier_of(u) == ImageSize::Original);
        },
        Some(p) => {
            assert(("?param=")@ =~= seq!['?'] + param_key());
            assert(("&param=")@ =~= seq!['&'] + param_key());
            if u.contains('?') {
                let i = u.index_of_first('?')->Some_0;
                let full = u + ("&param=")@ + p;
                assert(spec_apply_to_url(u, t) == full);
                assert(forall|j: int| 0 <= j < u.len() ==> full[j] == u[j]);
                assert(full[i] == '?');
                lemma_index_of_first_is(full, '?', i);
                assert(spec_base_of(full) =~= spec_base_of(u));
                let urest = u.subrange(i + 1, u.len() as int);
                let frest = full.subrange(i + 1, full.len() as int);
                assert(frest =~= urest + seq!['&'] + param_key() + p);
                assert forall|j: int| 0 <= j < frest.len() implies frest[j] != '?' by {
                    if j < urest.len() {
                        assert(frest[j] == urest[j]);
                        if frest[j] == '?' {
                            assert(urest.contains('?'));
                        }
                    } else if j == urest.len() {
                        assert(frest[j] == '&');
                    } else if j < urest.len() + 1 + param_key().len() {
                        assert(frest[j] == param_key()[j - urest.len() - 1]);
                        assert(0 <= j - urest.len() - 1 < 6);
                    } else {
                        assert(frest[j] == p[j - urest.len() - 1 - param_key().len()]);
                        if frest[j] == '?' {
                            assert(p.contains('?'));
                        }
                    }
                }
                lemma_index_of_first_none(frest, '?');
                assert(spec_query_of(full) == frest);
                urest.index_of_first_ensures('?');
                assert(spec_query_of(u) == urest);
                lemma_param_value_append(urest, p);
                assert(spec_param_value(frest) == Some(p));
            } else {
                let full = u + ("?param=")@ + p;
                assert(spec_apply_to_url(u, t) == full);
                assert(forall|j: int| 0 <= j < u.len() ==> full[j] == u[j] && full[j] != '?');
                assert(full[u.len() as int] == '?');
                lemma_index_of_first_is(full, '?', u.len() as int);
                assert(spec_base_of(full) =~= u);
                assert(spec_base_of(u) == u);
                let frest = full.subrange(u.len() as int + 1, full.len() as int);
                assert(frest =~= param_key() + p);
                assert forall|j: int| 0 <= j < frest.len() implies frest[j] != '?' by {
                    if j < param_key().len() {
                        assert(frest[j] == param_key()[j]);
                        assert(0 <= j < 6);
                    } else {
                        assert(frest[j] == p[j - param_key().len()]);
                        if frest[j] == '?' {
                            assert(p.contains('?'));
                        }
                    }
                }
                lemma_index_of_first_none(frest, '?');
                assert(spec_query_of(full) == frest);
                lemma_param_value_of_key_value(p);
                assert(spec_param_value(frest) == Some(p));
            }
        },
    }
}

/// Extracts the value of a `param=` query segment.
fn param_of_segment(seg: &str) -> (r: Option<String>)
    ensures
        is_param_segment(seg@) ==> (r matches Some(v) && v@ == param_of(seg@)),
        !is_param_segment(seg@) ==> r is None,
{
    proof {
        reveal_strlit("param=");
    }
    if str_starts_with(seg, "param=") {
        let l = seg.unicode_len();
        Some(seg.substring_char(6, l).to_owned())
    } else {
        None
    }
}

/// Finds the value of the first `param=` segment of a query string.
fn query_param_value(q: &str) -> (r: Option<String>)
    ensures
        r matches Some(v) ==> spec_param_value(q@) == Some(v@),
        r is None ==> spec_param_value(q@) is None,
    decreases q@.len(),
{
    proof {
        q@.index_of_first_ensures('&');
    }
    let qlen = q.unicode_len();
    match find_char(q, '&') {
        None => param_of_segment(q),
        Some(i) => {
            let seg = q.substring_char(0, i);
            match param_of_segment(seg) {
                Some(v) => Some(v),
                None => query_param_value(q.substring_char(i + 1, qlen)),
            }
        },
    }
}

/// Splits a resolved URL into the base resource it belongs to and the tier
/// it was fetched at.
pub fn split_resolved(full: &str) -> (r: (String, ImageSize))
    ensures
        r.0@ == spec_base_of(full@),
        r.1 == spec_tier_of(full@),
{
    proof {
        full@.index_of_first_ensures('?');
    }
    let len = full.unicode_len();
    match find_char(full, '?') {
        None => {
            proof {
                reveal_strlit("param=");
                assert(spec_param_value(Seq::<char>::empty()) is None);
            }
            (full.to_owned(), ImageSize::Original)
        },
        Some(i) => {
            let base = full.substring_char(0, i).to_owned();
            let rest = full.substring_char(i + 1, len);
            proof {
                rest@.index_of_first_ensures('?');
            }
            let query: &str = match find_char(rest, '?') {
                None => rest,
                Some(j) => rest.substring_char(0, j),
            };
            let tier = match query_param_value(query) {
                None => ImageSize::Original,
                Some(v) => ImageSize::from_param(v.as_str()),
            };
            (base, tier)
        },
    }
}

} // verus!
