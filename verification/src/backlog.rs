//! The backlog: pages the application has finished reading, in the order in
//! which they were given back, waiting to be returned to the transport with
//! the next receive.

use std::collections::VecDeque;
use vstd::prelude::*;

verus! {

/// What `drain(n)` takes from a backlog holding `pages`: its first `n`
/// entries, or all of them where it holds fewer.
pub open spec fn drained(pages: Seq<u32>, n: nat) -> Seq<u32> {
    if n <= pages.len() {
        pages.take(n as int)
    } else {
        pages
    }
}

/// What `drain(n)` leaves behind.
pub open spec fn undrained(pages: Seq<u32>, n: nat) -> Seq<u32> {
    if n <= pages.len() {
        pages.skip(n as int)
    } else {
        Seq::empty()
    }
}

/// Whether `reclaim(page)` takes the page: only a page that is not waiting
/// already.
pub open spec fn reclaimable(pages: Seq<u32>, page: u32) -> bool {
    !pages.contains(page)
}

/// The backlog after `reclaim(page)`.
pub open spec fn reclaimed(pages: Seq<u32>, page: u32) -> Seq<u32> {
    if reclaimable(pages, page) {
        pages.push(page)
    } else {
        pages
    }
}

/// A first-in, first-out queue of page identifiers in which no identifier
/// waits twice.
pub struct Backlog {
    queue: VecDeque<u32>,
}

impl View for Backlog {
    type V = Seq<u32>;

    /// The waiting pages, oldest first.
    closed spec fn view(&self) -> Seq<u32> {
        self.queue@
    }
}

impl Backlog {
    /// No page waits twice.
    pub open spec fn wf(&self) -> bool {
        self@.no_duplicates()
    }

    /// An empty backlog.
    pub fn new() -> (backlog: Self)
        ensures
            backlog@ == Seq::<u32>::empty(),
            backlog.wf(),
    {
        Backlog { queue: VecDeque::new() }
    }

    /// How many pages wait.
    pub fn len(&self) -> (n: usize)
        ensures
            n == self@.len(),
    {
        self.queue.len()
    }

    /// Whether no page waits.
    pub fn is_empty(&self) -> (empty: bool)
        ensures
            empty == (self@.len() == 0),
    {
        self.queue.len() == 0
    }

    /// The page at place `index`, counted from the oldest.
    pub fn get(&self, index: usize) -> (page: Option<u32>)
        ensures
            page == if index < self@.len() {
                Some(self@[index as int])
            } else {
                None
            },
    {
        if index < self.queue.len() {
            Some(self.queue[index])
        } else {
            None
        }
    }

    /// Whether `page` waits at place `from` or later.
    pub fn contains_from(&self, from: usize, page: u32) -> (found: bool)
        ensures
            found == undrained(self@, from as nat).contains(page),
    {
        let len = self.queue.len();
        let mut i: usize = from;
        while i < len
            invariant
                len == self.queue@.len(),
                from <= i,
                forall|j: int| from <= j < i && j < len ==> self.queue@[j] != page,
            decreases len - i,
        {
            if self.queue[i] == page {
                assert(undrained(self@, from as nat)[i - from] == page);
                return true;
            }
            i += 1;
        }
        false
    }

    /// Whether `page` waits.
    pub fn contains(&self, page: u32) -> (found: bool)
        ensures
            found == self@.contains(page),
    {
        assert(undrained(self@, 0) =~= self@);
        self.contains_from(0, page)
    }

    /// Removes up to `n` pages, oldest first, and returns them in that order.
    /// Fewer come out where fewer wait.
    pub fn drain(&mut self, n: usize) -> (pages: Vec<u32>)
        ensures
            pages@ == drained(old(self)@, n as nat),
            final(self)@ == undrained(old(self)@, n as nat),
            old(self).wf() ==> final(self).wf(),
    {
        let len = self.queue.len();
        let count = if n <= len {
            n
        } else {
            len
        };
        let mut pages: Vec<u32> = Vec::new();
        let mut i: usize = 0;
        while i < count
            invariant
                i <= count <= old(self)@.len(),
                self.queue@ == old(self)@.skip(i as int),
                pages@ == old(self)@.take(i as int),
            decreases count - i,
        {
            match self.queue.pop_front() {
                Some(page) => {
                    pages.push(page);
                },
                None => {},
            }
            i += 1;
            assert(self.queue@ =~= old(self)@.skip(i as int));
            assert(pages@ =~= old(self)@.take(i as int));
        }
        proof {
            assert(old(self)@.take(old(self)@.len() as int) =~= old(self)@);
            assert(old(self)@.skip(old(self)@.len() as int) =~= Seq::<u32>::empty());
            if old(self).wf() {
                drain_splits_backlog(old(self)@, n as nat);
            }
        }
        pages
    }

    /// Appends `page` behind the pages that wait, unless it waits already:
    /// then nothing changes and the answer is `false`.
    pub fn reclaim(&mut self, page: u32) -> (accepted: bool)
        ensures
            accepted == reclaimable(old(self)@, page),
            final(self)@ == reclaimed(old(self)@, page),
            old(self).wf() ==> final(self).wf(),
    {
        if self.contains(page) {
            false
        } else {
            self.queue.push_back(page);
            proof {
                if old(self).wf() {
                    reclaimed_has_no_duplicates(old(self)@, page);
                }
            }
            true
        }
    }
}

/// A drain splits a backlog without duplicates in two: what comes out in
/// front of what stays, neither part with a duplicate, and no page in both.
pub proof fn drain_splits_backlog(pages: Seq<u32>, n: nat)
    requires
        pages.no_duplicates(),
    ensures
        undrained(pages, n).no_duplicates(),
        drained(pages, n).no_duplicates(),
        drained(pages, n) + undrained(pages, n) == pages,
        forall|page: u32| #[trigger]
            drained(pages, n).contains(page) ==> !undrained(pages, n).contains(page),
{
    let front = drained(pages, n);
    let rest = undrained(pages, n);
    assert(front + rest =~= pages);
    assert forall|page: u32| #[trigger] front.contains(page) implies !rest.contains(page) by {
        if rest.contains(page) {
            let i = choose|i: int| 0 <= i < front.len() && front[i] == page;
            let j = choose|j: int| 0 <= j < rest.len() && rest[j] == page;
            assert(pages[i] == page);
            assert(pages[front.len() + j] == page);
        }
    }
}

/// Reclaiming keeps the backlog free of duplicates.
pub proof fn reclaimed_has_no_duplicates(pages: Seq<u32>, page: u32)
    requires
        pages.no_duplicates(),
    ensures
        reclaimed(pages, page).no_duplicates(),
        reclaimed(pages, page).contains(page),
{
    if reclaimable(pages, page) {
        let after = pages.push(page);
        assert(after[pages.len() as int] == page);
        assert forall|i: int, j: int| 0 <= i < after.len() && 0 <= j < after.len() && i != j implies after[i] != after[j] by {
            if i == pages.len() {
                assert(pages[j] == after[j]);
            } else if j == pages.len() {
                assert(pages[i] == after[i]);
            }
        }
    }
}

/// A page that was reclaimed is refused until it has been drained again: it
/// cannot wait twice.
pub proof fn reclaim_twice_is_refused(pages: Seq<u32>, page: u32)
    ensures
        !reclaimable(reclaimed(pages, page), page),
        reclaimed(reclaimed(pages, page), page) == reclaimed(pages, page),
{
    if reclaimable(pages, page) {
        assert(pages.push(page)[pages.len() as int] == page);
    }
}

/// Once a drain has taken a page out, the page can be reclaimed again.
pub proof fn drained_page_is_reclaimable(pages: Seq<u32>, n: nat, page: u32)
    requires
        pages.no_duplicates(),
        drained(pages, n).contains(page),
    ensures
        reclaimable(undrained(pages, n), page),
{
    drain_splits_backlog(pages, n);
}

} // verus!
