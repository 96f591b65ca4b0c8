//! The source adapter contract: anything that pages through a remote or
//! local history and hands the engine one page of canonical records at a
//! time, in the source's own delivery order (newest first for every
//! source that allows incremental runs). `pages` is the source's full
//! history as the adapter would deliver it; `served` counts the pages
//! already handed out, which is how resume correctness — "the adapter is
//! never asked for a page beyond the boundary" — is stated.

use vstd::prelude::*;

use crate::record::Record;

verus! {

/// A paged source of canonical records.
pub trait Source<R: Record>: Sized {
    /// The full history this source would deliver, one inner sequence per
    /// page, in delivery order.
    spec fn pages(&self) -> Seq<Seq<R>>;

    /// How many pages have been handed out so far.
    spec fn served(&self) -> int;

    /// Adapter-specific well-formedness.
    spec fn inv(&self) -> bool;

    proof fn lemma_inv_served(&self)
        requires
            self.inv(),
        ensures
            0 <= self.served() <= self.pages().len(),
    ;

    /// Hands out the next page, or `None` once history is exhausted.
    fn fetch_page(&mut self) -> (page: Option<Vec<R>>)
        requires
            old(self).inv(),
        ensures
            final(self).inv(),
            final(self).pages() == old(self).pages(),
            old(self).served() < old(self).pages().len() ==> {
                &&& final(self).served() == old(self).served() + 1
                &&& page matches Some(v) && v@ == old(self).pages()[old(self).served()]
            },
            old(self).served() >= old(self).pages().len() ==> {
                &&& final(self).served() == old(self).served()
                &&& page is None
            },
    ;
}

/// A source backed by pages already in memory: local archives and tests.
pub struct VecSource<R> {
    remaining: Vec<Vec<R>>,
    served_count: usize,
    consumed: Ghost<Seq<Seq<R>>>,
}

impl<R: Record> VecSource<R> {
    pub fn new(pages: Vec<Vec<R>>) -> (s: Self)
        ensures
            s.inv(),
            s.served() == 0,
            s.pages() == pages@.map_values(|v: Vec<R>| v@),
    {
        let n = pages.len();
        let s = VecSource { remaining: pages, served_count: 0, consumed: Ghost(Seq::empty()) };
        proof {
            assert(s.remaining@.len() == n as int);
            assert(s.pages() =~= s.remaining@.map_values(|v: Vec<R>| v@));
        }
        s
    }

    /// How many pages this source has handed out.
    pub fn pages_served(&self) -> (n: usize)
        requires
            self.inv(),
        ensures
            n as int == self.served(),
    {
        self.served_count
    }
}

impl<R: Record> Source<R> for VecSource<R> {
    closed spec fn pages(&self) -> Seq<Seq<R>> {
        self.consumed@ + self.remaining@.map_values(|v: Vec<R>| v@)
    }

    closed spec fn served(&self) -> int {
        self.consumed@.len() as int
    }

    closed spec fn inv(&self) -> bool {
        &&& self.served_count as int == self.consumed@.len()
        &&& self.consumed@.len() + self.remaining@.len() <= usize::MAX
    }

    proof fn lemma_inv_served(&self) {
    }

    fn fetch_page(&mut self) -> (page: Option<Vec<R>>) {
        if self.remaining.len() > 0 {
            let ghost c = self.consumed@;
            let ghost m = self.remaining@.map_values(|v: Vec<R>| v@);
            let v = self.remaining.remove(0);
            let ghost vv = v@;
            self.served_count = self.served_count + 1;
            proof {
                self.consumed@ = c.push(vv);
                assert(self.remaining@.map_values(|w: Vec<R>| w@) =~= m.drop_first());
                assert(self.pages() =~= c + m);
            }
            Some(v)
        } else {
            None
        }
    }
}

} // verus!
