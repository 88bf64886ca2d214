//! Who holds which page. Every page of the arena is in exactly one place: it
//! waits in the backlog, the transport has it, or the caller is reading it.

use vstd::prelude::*;
use vstd::set_lib::{lemma_int_range, lemma_map_size, lemma_set_difference_len, set_int_range};
use crate::arena::is_page;
use crate::consts::HOMA_BPAGE_SIZE;
use crate::recv::{backlog_after, pages_within, taken_backlog_is_sound, RecvReply};

verus! {

/// The offsets of all pages of an arena of `page_count` pages.
pub open spec fn arena_pages(page_count: nat) -> Set<int> {
    Set::new(|offset: int| is_page(offset, page_count * HOMA_BPAGE_SIZE))
}

/// The pages that wait in the backlog.
pub open spec fn free_pages(waiting: Seq<u32>) -> Set<int> {
    waiting.map_values(|page: u32| page as int).to_set()
}

/// The pages the transport holds: all that do not wait in the backlog. A new
/// arena is wholly the transport's.
pub open spec fn pending_pages(page_count: nat, waiting: Seq<u32>) -> Set<int> {
    arena_pages(page_count).difference(free_pages(waiting))
}

/// The pages the caller holds between two calls. A receive copies the message
/// out and gives its pages back before it returns, so there are none.
pub open spec fn borrowed_pages() -> Set<int> {
    Set::empty()
}

/// An arena of `page_count` pages has that many pages.
pub proof fn arena_pages_count(page_count: nat)
    ensures
        arena_pages(page_count).finite(),
        arena_pages(page_count).len() == page_count,
{
    let indices = set_int_range(0, page_count as int);
    let offset_of = |index: int| index * HOMA_BPAGE_SIZE;
    lemma_int_range(0, page_count as int);
    assert forall|offset: int| arena_pages(page_count).contains(offset) implies indices.map(
        offset_of,
    ).contains(offset) by {
        let index = offset / (HOMA_BPAGE_SIZE as int);
        assert(indices.contains(index));
        assert(offset_of(index) == offset);
    }
    assert(indices.map(offset_of) =~= arena_pages(page_count));
    lemma_map_size(indices, arena_pages(page_count), offset_of);
}

/// A backlog without duplicates has as many free pages as entries.
pub proof fn free_pages_count(waiting: Seq<u32>)
    requires
        waiting.no_duplicates(),
    ensures
        free_pages(waiting).finite(),
        free_pages(waiting).len() == waiting.len(),
{
    let widen = |page: u32| page as int;
    let offsets = waiting.map_values(widen);
    assert forall|i: int, j: int| 0 <= i < offsets.len() && 0 <= j < offsets.len() && i
        != j implies offsets[i] != offsets[j] by {
        assert(offsets[i] == waiting[i] as int && offsets[j] == waiting[j] as int);
    }
    offsets.unique_seq_to_set();
    vstd::seq_lib::seq_to_set_is_finite(offsets);
}

/// Conservation: the pages in the backlog, with the transport and with the
/// caller are all the pages of the arena, no page is in two of these places,
/// and their numbers add up to the arena's page count.
pub proof fn pages_are_conserved(page_count: nat, waiting: Seq<u32>)
    requires
        waiting.no_duplicates(),
        pages_within(waiting, page_count * HOMA_BPAGE_SIZE),
    ensures
        free_pages(waiting).len() == waiting.len(),
        free_pages(waiting).len() + pending_pages(page_count, waiting).len()
            + borrowed_pages().len() == page_count,
        free_pages(waiting).union(pending_pages(page_count, waiting)).union(borrowed_pages())
            == arena_pages(page_count),
        free_pages(waiting).disjoint(pending_pages(page_count, waiting)),
        free_pages(waiting).disjoint(borrowed_pages()),
        pending_pages(page_count, waiting).disjoint(borrowed_pages()),
{
    let all = arena_pages(page_count);
    let free = free_pages(waiting);
    let offsets = waiting.map_values(|page: u32| page as int);
    arena_pages_count(page_count);
    free_pages_count(waiting);
    assert forall|offset: int| free.contains(offset) implies all.contains(offset) by {
        let i = choose|i: int| 0 <= i < offsets.len() && offsets[i] == offset;
        assert(is_page(waiting[i] as int, page_count * HOMA_BPAGE_SIZE));
    }
    assert(all.intersect(free) =~= free);
    lemma_set_difference_len(all, free);
    assert(free.union(all.difference(free)).union(borrowed_pages()) =~= all);
}

/// The backlog of a socket after a run of receives. Each entry of `receives`
/// is one receive: the length of the caller's buffer and what came back from
/// the transport.
pub open spec fn backlog_after_all(
    waiting: Seq<u32>,
    region_len: int,
    receives: Seq<(int, RecvReply)>,
) -> Seq<u32>
    decreases receives.len(),
{
    if receives.len() == 0 {
        waiting
    } else {
        backlog_after(
            backlog_after_all(waiting, region_len, receives.drop_last()),
            region_len,
            receives.last().0,
            receives.last().1,
        )
    }
}

/// One receive, however it ends, leaves the backlog free of duplicates and
/// within the arena.
pub proof fn receive_keeps_backlog_sound(
    waiting: Seq<u32>,
    region_len: int,
    buf_len: int,
    reply: RecvReply,
)
    requires
        waiting.no_duplicates(),
        pages_within(waiting, region_len),
    ensures
        backlog_after(waiting, region_len, buf_len, reply).no_duplicates(),
        pages_within(backlog_after(waiting, region_len, buf_len, reply), region_len),
{
    if reply.result >= 0 && crate::recv::reply_consistent(
        waiting,
        region_len,
        reply.args,
        reply.result as int,
    ) {
        taken_backlog_is_sound(waiting, region_len, reply.args, reply.result as int);
    }
}

/// Conservation over time: from a new socket on, whose backlog is empty, and
/// after any run of receives, whatever the transport answered to each, the
/// pages in the backlog, with the transport and with the caller add up to the
/// arena's page count. Sends and control calls touch no page.
pub proof fn pages_are_conserved_over_time(page_count: nat, receives: Seq<(int, RecvReply)>)
    ensures
        ({
            let waiting = backlog_after_all(
                Seq::empty(),
                page_count * HOMA_BPAGE_SIZE,
                receives,
            );
            &&& waiting.no_duplicates()
            &&& pages_within(waiting, page_count * HOMA_BPAGE_SIZE)
            &&& free_pages(waiting).len() + pending_pages(page_count, waiting).len()
                + borrowed_pages().len() == page_count
        }),
    decreases receives.len(),
{
    let region_len = page_count * HOMA_BPAGE_SIZE;
    if receives.len() > 0 {
        pages_are_conserved_over_time(page_count, receives.drop_last());
        receive_keeps_backlog_sound(
            backlog_after_all(Seq::empty(), region_len, receives.drop_last()),
            region_len,
            receives.last().0,
            receives.last().1,
        );
    }
    pages_are_conserved(page_count, backlog_after_all(Seq::empty(), region_len, receives));
}

} // verus!
