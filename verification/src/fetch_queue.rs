//! The unbounded queue of resolved URLs waiting to be fetched.
//!
//! The render side pushes (it must never block), a worker pool pops;
//! backpressure comes from the bounded worker budget, never from the queue
//! itself. The view is the sequence of queued URL strings, oldest first.

use vstd::prelude::*;
use vstd::string::*;

verus! {

/// A first-in, first-out queue of resolved URLs.
pub struct FetchQueue {
    items: Vec<String>,
}

impl View for FetchQueue {
    type V = Seq<Seq<char>>;

    closed spec fn view(&self) -> Seq<Seq<char>> {
        self.items@.map_values(|s: String| s@)
    }
}

impl FetchQueue {
    /// An empty queue.
    pub fn new() -> (r: Self)
        ensures
            r@ == Seq::<Seq<char>>::empty(),
    {
        let q = FetchQueue { items: Vec::new() };
        proof {
            assert(q@ =~= Seq::<Seq<char>>::empty());
        }
        q
    }

    /// How many fetches are waiting.
    pub fn len(&self) -> (r: usize)
        ensures
            r == self@.len(),
    {
        self.items.len()
    }

    /// Appends a fetch request; the queue is unbounded, so this always
    /// succeeds.
    pub fn push_back(&mut self, url: String)
        ensures
            final(self)@ == old(self)@.push(url@),
    {
        self.items.push(url);
        proof {
            assert(self@ =~= old(self)@.push(url@));
        }
    }

    /// Removes and returns the oldest queued fetch, if any.
    pub fn pop_front(&mut self) -> (r: Option<String>)
        ensures
            old(self)@.len() == 0 ==> r is None && final(self)@ == old(self)@,
            old(self)@.len() > 0 ==> (r matches Some(u) && u@ == old(self)@[0] && final(self)@
                == old(self)@.drop_first()),
    {
        if self.items.len() == 0 {
            None
        } else {
            let u = self.items.remove(0);
            proof {
                assert(self@ =~= old(self)@.drop_first());
            }
            Some(u)
        }
    }
}

} // verus!
