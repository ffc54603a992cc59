//! The content-addressed byte store that backs the pipeline on disk.
//!
//! Every resolved URL owns one entry: the raw downloaded (and possibly
//! post-processed) bytes, stored under a file name derived from the SHA-256
//! digest of the URL string. Entries never expire — a resolved URL's remote
//! content is assumed immutable for the cache's lifetime — and concurrent
//! writers of the same key race benignly to last-writer-wins. This module
//! verifies the store's mapping semantics and the key derivation; the
//! embedding application realizes each entry as one file in a flat cache
//! directory named [`DiskStore::cache_file_name`].

use vstd::prelude::*;
use vstd::string::*;

use crate::text::str_eq;

verus! {

/// The SHA-256 digest of the UTF-8 bytes of a string. What the digest of a
/// given string is has no short statement; it is a function of the string
/// alone, computed identically on every machine.
pub uninterp spec fn sha256_of(s: Seq<char>) -> Seq<u8>;

/// Relies on sha2's `Sha256` (via the `Digest` trait): hashing the UTF-8
/// bytes of `s` yields a 32-byte digest determined by `s` alone.
#[verifier::external_body]
fn sha256_bytes(s: &str) -> (r: Vec<u8>)
    ensures
        r@ == sha256_of(s@),
        r@.len() == 32,
{
    <sha2::Sha256 as sha2::Digest>::digest(s.as_bytes()).to_vec()
}

/// The lower-case hexadecimal digit for `d` (meaningful for `0 <= d < 16`).
pub open spec fn hex_digit(d: int) -> char {
    if d < 10 {
        crate::text::dec_digit(d)
    } else if d == 10 {
        'a'
    } else if d == 11 {
        'b'
    } else if d == 12 {
        'c'
    } else if d == 13 {
        'd'
    } else if d == 14 {
        'e'
    } else {
        'f'
    }
}

/// Lower-case hexadecimal notation of a byte string: two digits per byte,
/// high nibble first.
pub open spec fn spec_hex(bs: Seq<u8>) -> Seq<char> {
    Seq::new(
        2 * bs.len(),
        |i: int|
            if i % 2 == 0 {
                hex_digit(bs[i / 2] as int / 16)
            } else {
                hex_digit(bs[i / 2] as int % 16)
            },
    )
}

/// The single-character string for a hexadecimal digit.
fn hex_digit_str(d: u8) -> (r: &'static str)
    requires
        d < 16,
    ensures
        r@ == seq![hex_digit(d as int)],
{
    let s: &'static str = if d == 0 {
        "0"
    } else if d == 1 {
        "1"
    } else if d == 2 {
        "2"
    } else if d == 3 {
        "3"
    } else if d == 4 {
        "4"
    } else if d == 5 {
        "5"
    } else if d == 6 {
        "6"
    } else if d == 7 {
        "7"
    } else if d == 8 {
        "8"
    } else if d == 9 {
        "9"
    } else if d == 10 {
        "a"
    } else if d == 11 {
        "b"
    } else if d == 12 {
        "c"
    } else if d == 13 {
        "d"
    } else if d == 14 {
        "e"
    } else {
        "f"
    };
    proof {
        reveal_strlit("0");
        reveal_strlit("1");
        reveal_strlit("2");
        reveal_strlit("3");
        reveal_strlit("4");
        reveal_strlit("5");
        reveal_strlit("6");
        reveal_strlit("7");
        reveal_strlit("8");
        reveal_strlit("9");
        reveal_strlit("a");
        reveal_strlit("b");
        reveal_strlit("c");
        reveal_strlit("d");
        reveal_strlit("e");
        reveal_strlit("f");
        assert(s@ =~= seq![hex_digit(d as int)]);
    }
    s
}

/// Writes a byte string in lower-case hexadecimal.
pub fn bytes_to_hex(bs: &Vec<u8>) -> (r: String)
    ensures
        r@ == spec_hex(bs@),
{
    let n = bs.len();
    let mut s = String::new();
    let mut i: usize = 0;
    while i < n
        invariant
            i <= n,
            n == bs@.len(),
            s@ == spec_hex(bs@.subrange(0, i as int)),
        decreases n - i,
    {
        let b = bs[i];
        s.append(hex_digit_str(b / 16));
        s.append(hex_digit_str(b % 16));
        proof {
            assert(s@ =~= spec_hex(bs@.subrange(0, i as int + 1)));
        }
        i += 1;
    }
    proof {
        assert(bs@.subrange(0, n as int) =~= bs@);
    }
    s
}

struct StoreRow {
    key: String,
    bytes: Vec<u8>,
}

/// The byte store; its view maps each stored key (a resolved URL) to the
/// bytes stored for it.
pub struct DiskStore {
    rows: Vec<StoreRow>,
}

spec fn key_at(rows: Seq<StoreRow>, k: Seq<char>) -> bool {
    exists|i: int| 0 <= i < rows.len() && #[trigger] rows[i].key@ == k
}

impl View for DiskStore {
    type V = Map<Seq<char>, Seq<u8>>;

    closed spec fn view(&self) -> Map<Seq<char>, Seq<u8>> {
        Map::new(|k: Seq<char>| key_at(self.rows@, k), |k: Seq<char>| self.spec_at(k))
    }
}

impl DiskStore {
    /// Each key owns one entry.
    pub closed spec fn wf(self) -> bool {
        forall|i: int, j: int|
            0 <= i < j < self.rows@.len() ==> #[trigger] self.rows@[i].key@ != #[trigger] self.rows@[j].key@
    }

    spec fn spec_at(self, k: Seq<char>) -> Seq<u8> {
        let i = choose|i: int| 0 <= i < self.rows@.len() && #[trigger] self.rows@[i].key@ == k;
        self.rows@[i].bytes@
    }

    proof fn lemma_at_is(self, k: Seq<char>, i: int)
        requires
            self.wf(),
            0 <= i < self.rows@.len(),
            self.rows@[i].key@ == k,
        ensures
            self@.dom().contains(k),
            self@[k] == self.rows@[i].bytes@,
    {
        let j = choose|j: int| 0 <= j < self.rows@.len() && #[trigger] self.rows@[j].key@ == k;
        if i < j {
            assert(self.rows@[i].key@ != self.rows@[j].key@);
        } else if j < i {
            assert(self.rows@[j].key@ != self.rows@[i].key@);
        }
    }

    /// The file name a resolved URL's bytes live under: the 64 hex digits
    /// of the URL's SHA-256 digest with a fixed image extension, 68
    /// characters in all. Deterministic, so every run of the application
    /// finds what earlier runs stored.
    pub fn cache_file_name(url: &str) -> (r: String)
        ensures
            r@ == spec_hex(sha256_of(url@)) + ".jpg"@,
            r@.len() == 68,
    {
        let digest = sha256_bytes(url);
        let mut name = bytes_to_hex(&digest);
        name.append(".jpg");
        proof {
            reveal_strlit(".jpg");
        }
        name
    }

    /// An empty store.
    pub fn new() -> (r: Self)
        ensures
            r.wf(),
            r@ == Map::<Seq<char>, Seq<u8>>::empty(),
    {
        let s = DiskStore { rows: Vec::new() };
        proof {
            assert(s@ =~= Map::<Seq<char>, Seq<u8>>::empty());
        }
        s
    }

    /// Stores `bytes` under `key`, overwriting a previous entry for the
    /// same key (last writer wins) and leaving every other key untouched.
    pub fn store(&mut self, key: &str, bytes: Vec<u8>)
        requires
            old(self).wf(),
        ensures
            final(self).wf(),
            final(self)@ == old(self)@.insert(key@, bytes@),
    {
        let ghost o = self.rows@;
        let ghost bview = bytes@;
        let n = self.rows.len();
        let mut i: usize = 0;
        let mut found: Option<usize> = None;
        while i < n
            invariant
                i <= n,
                n == self.rows@.len(),
                self.rows@ == o,
                match found {
                    Some(j) => j < i && o[j as int].key@ == key@,
                    None => forall|k: int| 0 <= k < i ==> #[trigger] o[k].key@ != key@,
                },
            decreases n - i,
        {
            if found.is_none() && str_eq(self.rows[i].key.as_str(), key) {
                found = Some(i);
            }
            i += 1;
        }
        let row = StoreRow { key: key.to_owned(), bytes };
        let ghost at: int;
        match found {
            Some(j) => {
                self.rows[j] = row;
                proof {
                    at = j as int;
                }
            },
            None => {
                self.rows.push(row);
                proof {
                    at = o.len() as int;
                }
            },
        }
        proof {
            let f = self.rows@;
            assert(f[at].key@ == key@ && f[at].bytes@ == bview);
            assert(forall|k: int| 0 <= k < f.len() && k != at ==> #[trigger] f[k] == o[k]);
            assert forall|k: int| 0 <= k < f.len() && k != at implies #[trigger] f[k].key@ != key@ by {
                match found {
                    Some(j) => {
                        if k < at {
                            assert(o[k].key@ != o[at].key@);
                        } else {
                            assert(o[at].key@ != o[k].key@);
                        }
                    },
                    None => {},
                }
            }
            assert forall|p: int, q: int| 0 <= p < q < f.len() implies #[trigger] f[p].key@
                != #[trigger] f[q].key@ by {
                if p != at && q != at {
                    assert(o[p].key@ != o[q].key@);
                }
            }
            let m0 = old(self)@;
            let m1 = self@;
            let mi = m0.insert(key@, bview);
            assert forall|k: Seq<char>| #[trigger] m1.dom().contains(k) implies mi.dom().contains(k)
                && m1[k] == mi[k] by {
                let i1 = choose|i1: int| 0 <= i1 < f.len() && #[trigger] f[i1].key@ == k;
                self.lemma_at_is(k, i1);
                if k == key@ {
                    self.lemma_at_is(k, at);
                } else {
                    assert(i1 != at);
                    assert(o[i1] == f[i1]);
                    old(self).lemma_at_is(k, i1);
                }
            }
            assert forall|k: Seq<char>| #[trigger] mi.dom().contains(k) implies m1.dom().contains(
                k,
            ) by {
                if k == key@ {
                    assert(f[at].key@ == k);
                } else {
                    let i0 = choose|i0: int| 0 <= i0 < o.len() && #[trigger] o[i0].key@ == k;
                    assert(i0 != at ==> f[i0].key@ == k);
                    match found {
                        Some(j) => {
                            assert(o[at].key@ == key@);
                            assert(i0 != at);
                        },
                        None => {
                            assert(i0 < at);
                        },
                    }
                }
            }
            assert(m1 =~= mi);
        }
    }

    /// The decision step of fetch-and-cache: when `key` already has an
    /// entry the stored bytes win and the freshly downloaded ones are
    /// discarded; otherwise the downloaded bytes are stored. Either way the
    /// returned bytes are exactly what the store holds for `key` afterwards.
    pub fn commit_fetch(&mut self, key: &str, fetched: Vec<u8>) -> (r: Vec<u8>)
        requires
            old(self).wf(),
        ensures
            final(self).wf(),
            old(self)@.dom().contains(key@) ==> (final(self)@ == old(self)@ && r@ == old(
                self,
            )@[key@]),
            !old(self)@.dom().contains(key@) ==> (final(self)@ == old(self)@.insert(key@, fetched@)
                && r@ == fetched@),
            final(self)@.dom().contains(key@),
            r@ == final(self)@[key@],
    {
        let cached: Option<Vec<u8>> = match self.load(key) {
            Some(v) => {
                let out = v.clone();
                proof {
                    assert(out@ =~= v@);
                }
                Some(out)
            },
            None => None,
        };
        match cached {
            Some(out) => out,
            None => {
                let out = fetched.clone();
                proof {
                    assert(out@ =~= fetched@);
                }
                self.store(key, fetched);
                out
            },
        }
    }

    /// Loads the bytes stored under `key`. Absence is an answer, not an
    /// error: `None` means no entry, byte-for-byte what was stored
    /// otherwise.
    pub fn load(&self, key: &str) -> (r: Option<&Vec<u8>>)
        requires
            self.wf(),
        ensures
            match r {
                Some(v) => self@.dom().contains(key@) && v@ == self@[key@],
                None => !self@.dom().contains(key@),
            },
    {
        let n = self.rows.len();
        let mut i: usize = 0;
        while i < n
            invariant
                i <= n,
                self.wf(),
                n == self.rows@.len(),
                forall|k: int| 0 <= k < i ==> #[trigger] self.rows@[k].key@ != key@,
            decreases n - i,
        {
            if str_eq(self.rows[i].key.as_str(), key) {
                proof {
                    self.lemma_at_is(key@, i as int);
                }
                return Some(&self.rows[i].bytes);
            }
            i += 1;
        }
        proof {
            if self@.dom().contains(key@) {
                let k = choose|k: int| 0 <= k < self.rows@.len() && #[trigger] self.rows@[k].key@ == key@;
            }
        }
        None
    }
}

/// Storing then loading round-trips byte-for-byte: after `store(k, b)` the
/// store answers `load(k)` with exactly `b`, and every other key still
/// answers what it answered before.
pub proof fn lemma_store_load_round_trip(m: Map<Seq<char>, Seq<u8>>, k: Seq<char>, b: Seq<u8>)
    ensures
        m.insert(k, b).dom().contains(k),
        m.insert(k, b)[k] == b,
        forall|k2: Seq<char>|
            k2 != k ==> (#[trigger] m.insert(k, b).dom().contains(k2) <==> m.dom().contains(k2)),
        forall|k2: Seq<char>|
            k2 != k && m.dom().contains(k2) ==> #[trigger] m.insert(k, b)[k2] == m[k2],
{
}

} // verus!
