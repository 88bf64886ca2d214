//! The receive path: which pages go back to the transport with a receive,
//! whether the transport's answer can be believed, and how the pages it
//! names are put together into one message.

use socket2::SockAddr;
use vstd::prelude::*;
use crate::arena::is_page;
use crate::backlog::{drained, undrained, Backlog};
use crate::consts::{HomaRecvmsgFlags, EAGAIN, HOMA_BPAGE_SIZE, HOMA_MAX_BPAGES};
use crate::error::HomaError;
use crate::types::homa_recvmsg_args;

verus! {

/// socket2's socket address. A receive carries the sender's address through
/// without looking inside.
#[verifier::external_type_specification]
#[verifier::external_body]
pub struct ExSockAddr(SockAddr);

/// What came back from one receive-message call.
pub struct RecvReply {
    /// The call's own result: the length of the message in bytes, or a
    /// negative number where the call failed.
    pub result: isize,
    /// The operating system's error code; read only where `result` is negative.
    pub errno: i32,
    /// The control data as the transport left it.
    pub args: homa_recvmsg_args,
    /// The sender's address as the transport reported it.
    pub source: SockAddr,
}

/// How many pages a message of `length` bytes occupies: the least number of
/// pages that hold it. A message without bytes occupies no page.
pub open spec fn pages_needed(length: int) -> int {
    length / (HOMA_BPAGE_SIZE as int) + if length % (HOMA_BPAGE_SIZE as int) == 0 {
        0int
    } else {
        1int
    }
}

/// How many bytes of a message of `length` bytes lie in the page at place
/// `index` of the `num_pages` pages that hold it: a whole page, except for
/// the last, which holds what is left.
pub open spec fn contribution(length: int, num_pages: int, index: int) -> int {
    if index < num_pages - 1 {
        HOMA_BPAGE_SIZE as int
    } else {
        length - HOMA_BPAGE_SIZE * (num_pages - 1)
    }
}

/// The bytes the first `upto` pages contribute, added up.
pub open spec fn total_contribution(length: int, num_pages: int, upto: nat) -> int
    decreases upto,
{
    if upto == 0 {
        0
    } else {
        total_contribution(length, num_pages, (upto - 1) as nat) + contribution(
            length,
            num_pages,
            upto - 1,
        )
    }
}

/// The pages offered to the transport with the next receive: the oldest of
/// the backlog, as many as one descriptor holds.
pub open spec fn budget(waiting: Seq<u32>) -> Seq<u32> {
    drained(waiting, HOMA_MAX_BPAGES as nat)
}

/// The pages that stay in the backlog when the budget has left it.
pub open spec fn beyond_budget(waiting: Seq<u32>) -> Seq<u32> {
    undrained(waiting, HOMA_MAX_BPAGES as nat)
}

/// The pages that a descriptor names: the first `num_bpages` of its offsets.
pub open spec fn named_pages(args: homa_recvmsg_args) -> Seq<u32> {
    args.bpage_offsets@.take(args.num_bpages as int)
}

/// Every identifier in `pages` names a page of a region of `region_len` bytes.
pub open spec fn pages_within(pages: Seq<u32>, region_len: int) -> bool {
    forall|i: int| 0 <= i < pages.len() ==> is_page(#[trigger] pages[i] as int, region_len)
}

/// Whether the transport's answer to a successful receive can be believed:
/// the page count fits the descriptor and is the one the length calls for,
/// every named page is a page of the region, no page is named twice, and no
/// named page is still waiting in the backlog.
pub open spec fn reply_consistent(
    waiting: Seq<u32>,
    region_len: int,
    args: homa_recvmsg_args,
    length: int,
) -> bool {
    &&& args.num_bpages <= HOMA_MAX_BPAGES
    &&& args.num_bpages == pages_needed(length)
    &&& pages_within(named_pages(args), region_len)
    &&& named_pages(args).no_duplicates()
    &&& forall|i: int|
        0 <= i < named_pages(args).len() ==> !beyond_budget(waiting).contains(
            #[trigger] named_pages(args)[i],
        )
}

/// The error a receive ends with, or `None` where it delivers the message.
pub open spec fn recv_failure(
    waiting: Seq<u32>,
    region_len: int,
    buf_len: int,
    reply: RecvReply,
) -> Option<HomaError> {
    if reply.result < 0 {
        if reply.errno == EAGAIN {
            Some(HomaError::WouldBlock)
        } else {
            Some(HomaError::TransportError(reply.errno))
        }
    } else if !reply_consistent(waiting, region_len, reply.args, reply.result as int) {
        Some(HomaError::ProtocolViolation)
    } else if buf_len < reply.result {
        Some(HomaError::BufferTooSmall)
    } else {
        None
    }
}

/// Whether a receive that ends this way took the message from the transport:
/// it did where the message was delivered, and where it arrived but the
/// caller's buffer could not hold it.
pub open spec fn message_taken(failure: Option<HomaError>) -> bool {
    failure is None || failure == Some(HomaError::BufferTooSmall)
}

/// The backlog after a receive. Where the message was taken, the budget has
/// gone to the transport and the message's pages wait behind what was left;
/// otherwise the backlog is as it was.
pub open spec fn backlog_after(
    waiting: Seq<u32>,
    region_len: int,
    buf_len: int,
    reply: RecvReply,
) -> Seq<u32> {
    if message_taken(recv_failure(waiting, region_len, buf_len, reply)) {
        beyond_budget(waiting) + named_pages(reply.args)
    } else {
        waiting
    }
}

/// The message of `length` bytes that lies in `pages` of `region`: its byte
/// `k` is byte `k % HOMA_BPAGE_SIZE` of the page at place `k / HOMA_BPAGE_SIZE`.
pub open spec fn message(region: Seq<u8>, pages: Seq<u32>, length: int) -> Seq<u8> {
    Seq::new(
        length as nat,
        |k: int| region[pages[k / (HOMA_BPAGE_SIZE as int)] + k % (HOMA_BPAGE_SIZE as int)],
    )
}

/// The share of a message of `length` bytes that lies in the page at place
/// `index`: as many bytes as the page contributes, from the page's first.
pub open spec fn page_share(region: Seq<u8>, pages: Seq<u32>, length: int, index: int) -> Seq<u8> {
    region.subrange(
        pages[index] as int,
        pages[index] + contribution(length, pages.len() as int, index),
    )
}

/// The shares of the first `upto` pages, one behind the other.
pub open spec fn shares_upto(region: Seq<u8>, pages: Seq<u32>, length: int, upto: nat) -> Seq<u8>
    decreases upto,
{
    if upto == 0 {
        Seq::empty()
    } else {
        shares_upto(region, pages, length, (upto - 1) as nat) + page_share(
            region,
            pages,
            length,
            upto - 1,
        )
    }
}

/// The caller's buffer after a receive: the message in front of what the
/// buffer held beyond it, or the buffer as it was where no message is
/// delivered.
pub open spec fn buffer_after(
    waiting: Seq<u32>,
    region: Seq<u8>,
    buf: Seq<u8>,
    reply: RecvReply,
) -> Seq<u8> {
    if recv_failure(waiting, region.len() as int, buf.len() as int, reply) is None {
        message(region, named_pages(reply.args), reply.result as int) + buf.skip(
            reply.result as int,
        )
    } else {
        buf
    }
}

/// What a receive hands to its caller: the error, or the message's length,
/// the sender's address, the message's identifier and the completion cookie.
pub open spec fn recv_result(
    waiting: Seq<u32>,
    region_len: int,
    buf_len: int,
    reply: RecvReply,
) -> Result<(usize, SockAddr, u64, u64), HomaError> {
    match recv_failure(waiting, region_len, buf_len, reply) {
        Some(error) => Err(error),
        None => Ok(
            (reply.result as usize, reply.source, reply.args.id, reply.args.completion_cookie),
        ),
    }
}

/// How many pages a message of `length` bytes occupies.
pub fn pages_for(length: usize) -> (pages: usize)
    ensures
        pages == pages_needed(length as int),
{
    if length % HOMA_BPAGE_SIZE == 0 {
        length / HOMA_BPAGE_SIZE
    } else {
        length / HOMA_BPAGE_SIZE + 1
    }
}

/// How many bytes the page at place `index` contributes to a message of
/// `length` bytes held in `num_pages` pages.
pub fn page_contribution(length: usize, num_pages: usize, index: usize) -> (bytes: usize)
    requires
        num_pages == pages_needed(length as int),
        index < num_pages,
    ensures
        bytes == contribution(length as int, num_pages as int, index as int),
        0 < bytes <= HOMA_BPAGE_SIZE,
        index * HOMA_BPAGE_SIZE + bytes <= length,
{
    if index != num_pages - 1 {
        HOMA_BPAGE_SIZE
    } else {
        length - HOMA_BPAGE_SIZE * (num_pages - 1)
    }
}

/// Forms the control data of the next receive: the message to wait for, the
/// flags, and the budget, which is the oldest pages of the backlog. The
/// backlog itself stays as it is until the receive has been answered.
pub fn form_request(backlog: &Backlog, flags: HomaRecvmsgFlags, id: u64) -> (args:
    homa_recvmsg_args)
    ensures
        args.id == id,
        args.completion_cookie == 0,
        args.flags == flags.bits(),
        args.pad@ == seq![0u32, 0u32],
        args.num_bpages == budget(backlog@).len(),
        named_pages(args) == budget(backlog@),
        forall|i: int| args.num_bpages <= i < HOMA_MAX_BPAGES ==> args.bpage_offsets@[i] == 0,
{
    let waiting = backlog.len();
    let count: usize = if waiting <= HOMA_MAX_BPAGES {
        waiting
    } else {
        HOMA_MAX_BPAGES
    };
    let mut offsets = [0u32; HOMA_MAX_BPAGES];
    let mut i: usize = 0;
    while i < count
        invariant
            i <= count <= HOMA_MAX_BPAGES,
            count <= backlog@.len(),
            forall|j: int| 0 <= j < i ==> offsets@[j] == backlog@[j],
            forall|j: int| i <= j < HOMA_MAX_BPAGES ==> offsets@[j] == 0,
        decreases count - i,
    {
        match backlog.get(i) {
            Some(page) => {
                offsets[i] = page;
            },
            None => {},
        }
        i += 1;
    }
    let args = homa_recvmsg_args {
        id,
        completion_cookie: 0,
        flags: flags.bits(),
        num_bpages: count as u32,
        pad: [0u32; 2],
        bpage_offsets: offsets,
    };
    assert(args.pad@ =~= seq![0u32, 0u32]);
    assert(named_pages(args) =~= budget(backlog@));
    args
}

/// Decides whether the transport's answer to a successful receive can be
/// believed, against the backlog as it was when the receive was issued.
pub fn is_consistent(
    backlog: &Backlog,
    region_len: usize,
    args: &homa_recvmsg_args,
    length: usize,
) -> (consistent: bool)
    ensures
        consistent == reply_consistent(backlog@, region_len as int, *args, length as int),
{
    let num = args.num_bpages as usize;
    if num > HOMA_MAX_BPAGES || num != pages_for(length) {
        return false;
    }
    let ghost named = named_pages(*args);
    let mut i: usize = 0;
    while i < num
        invariant
            i <= num <= HOMA_MAX_BPAGES,
            num == args.num_bpages,
            named == named_pages(*args),
            forall|a: int| 0 <= a < i ==> is_page(#[trigger] named[a] as int, region_len as int),
            forall|a: int| 0 <= a < i ==> !beyond_budget(backlog@).contains(#[trigger] named[a]),
            forall|a: int, b: int| 0 <= a < b < i ==> named[a] != named[b],
        decreases num - i,
    {
        let page = args.bpage_offsets[i];
        assert(page == named[i as int]);
        let aligned = page as usize % HOMA_BPAGE_SIZE == 0;
        let inside = region_len >= HOMA_BPAGE_SIZE && page as usize <= region_len
            - HOMA_BPAGE_SIZE;
        if !aligned || !inside {
            assert(!is_page(named[i as int] as int, region_len as int));
            return false;
        }
        if backlog.contains_from(HOMA_MAX_BPAGES, page) {
            return false;
        }
        let mut j: usize = 0;
        while j < i
            invariant
                j <= i < num <= HOMA_MAX_BPAGES,
                num == args.num_bpages,
                named == named_pages(*args),
                page == named[i as int],
                forall|a: int| 0 <= a < j ==> named[a] != page,
            decreases i - j,
        {
            if args.bpage_offsets[j] == page {
                assert(named[j as int] == named[i as int]);
                return false;
            }
            j += 1;
        }
        i += 1;
    }
    true
}

/// Copies a message of `length` bytes out of the pages that `args` names into
/// the front of `buf`: a whole page from each but the last, and from the
/// last what is left. What `buf` holds beyond the message stays.
pub fn reassemble(region: &[u8], args: &homa_recvmsg_args, length: usize, buf: &mut [u8])
    requires
        args.num_bpages <= HOMA_MAX_BPAGES,
        args.num_bpages == pages_needed(length as int),
        pages_within(named_pages(*args), region@.len() as int),
        length <= old(buf)@.len(),
    ensures
        final(buf)@ == message(region@, named_pages(*args), length as int) + old(buf)@.skip(
            length as int,
        ),
{
    let num = args.num_bpages as usize;
    let region_len = region.len();
    let ghost named = named_pages(*args);
    let ghost whole = message(region@, named, length as int);
    let mut i: usize = 0;
    let mut copied: usize = 0;
    while i < num
        invariant
            i <= num <= HOMA_MAX_BPAGES,
            region_len == region@.len(),
            num == args.num_bpages,
            num == pages_needed(length as int),
            named == named_pages(*args),
            pages_within(named, region@.len() as int),
            whole == message(region@, named, length as int),
            length <= old(buf)@.len(),
            buf@.len() == old(buf)@.len(),
            copied == if i < num {
                i * HOMA_BPAGE_SIZE
            } else {
                length as int
            },
            copied <= length,
            forall|k: int| 0 <= k < copied ==> buf@[k] == whole[k],
            forall|k: int| copied <= k < buf@.len() ==> buf@[k] == old(buf)@[k],
        decreases num - i,
    {
        let page = args.bpage_offsets[i] as usize;
        assert(is_page(named[i as int] as int, region@.len() as int));
        let bytes = page_contribution(length, num, i);
        let mut j: usize = 0;
        while j < bytes
            invariant
                j <= bytes <= HOMA_BPAGE_SIZE,
                i < num == args.num_bpages,
                named == named_pages(*args),
                region_len == region@.len(),
                copied == i * HOMA_BPAGE_SIZE,
                copied + bytes <= length <= old(buf)@.len(),
                buf@.len() == old(buf)@.len(),
                page == named[i as int],
                page + HOMA_BPAGE_SIZE <= region@.len(),
                whole == message(region@, named, length as int),
                forall|k: int| 0 <= k < copied + j ==> buf@[k] == whole[k],
                forall|k: int| copied + j <= k < buf@.len() ==> buf@[k] == old(buf)@[k],
            decreases bytes - j,
        {
            let byte = region[page + j];
            proof {
                let k = copied + j;
                assert(k / (HOMA_BPAGE_SIZE as int) == i && k % (HOMA_BPAGE_SIZE as int) == j);
                assert(whole[k] == byte);
            }
            buf[copied + j] = byte;
            j += 1;
        }
        copied = copied + bytes;
        i += 1;
    }
    assert(buf@ =~= whole + old(buf)@.skip(length as int));
}

/// Completes a receive with what came back from the transport.
///
/// A negative result is the transport's failure: `WouldBlock` where the error
/// code is `EAGAIN`, `TransportError` with the code otherwise. An answer that
/// `reply_consistent` refuses is a `ProtocolViolation`. In all three cases the
/// backlog and `buf` stay as they were.
///
/// Otherwise the message has left the transport: the budget is taken off the
/// backlog and the message's pages are put behind what is left, whether or
/// not the message can be delivered. It is delivered where `buf` holds it:
/// its bytes stand at the front of `buf`, and the result is its length, the
/// sender's address, its identifier and the completion cookie. Where `buf`
/// is too short the error is `BufferTooSmall` and `buf` stays as it was.
pub fn complete(backlog: &mut Backlog, region: &[u8], buf: &mut [u8], reply: RecvReply) -> (result:
    Result<(usize, SockAddr, u64, u64), HomaError>)
    ensures
        result == recv_result(
            old(backlog)@,
            region@.len() as int,
            old(buf)@.len() as int,
            reply,
        ),
        final(backlog)@ == backlog_after(
            old(backlog)@,
            region@.len() as int,
            old(buf)@.len() as int,
            reply,
        ),
        final(buf)@ == buffer_after(old(backlog)@, region@, old(buf)@, reply),
        old(backlog).wf() ==> final(backlog).wf(),
        pages_within(old(backlog)@, region@.len() as int) ==> pages_within(
            final(backlog)@,
            region@.len() as int,
        ),
{
    if reply.result < 0 {
        if reply.errno == EAGAIN {
            return Err(HomaError::WouldBlock);
        }
        return Err(HomaError::TransportError(reply.errno));
    }
    let length = reply.result as usize;
    if !is_consistent(backlog, region.len(), &reply.args, length) {
        return Err(HomaError::ProtocolViolation);
    }
    let num = reply.args.num_bpages as usize;
    let ghost named = named_pages(reply.args);
    let ghost rest = beyond_budget(old(backlog)@);
    let _ = backlog.drain(HOMA_MAX_BPAGES);
    let mut i: usize = 0;
    while i < num
        invariant
            i <= num <= HOMA_MAX_BPAGES,
            num == reply.args.num_bpages,
            named == named_pages(reply.args),
            rest == beyond_budget(old(backlog)@),
            named.no_duplicates(),
            forall|a: int| 0 <= a < named.len() ==> !rest.contains(#[trigger] named[a]),
            backlog@ == rest + named.take(i as int),
        decreases num - i,
    {
        let page = reply.args.bpage_offsets[i];
        proof {
            let sofar = rest + named.take(i as int);
            assert(page == named[i as int]);
            if sofar.contains(page) {
                let at = choose|at: int| 0 <= at < sofar.len() && sofar[at] == page;
                if at < rest.len() {
                    assert(rest[at] == page);
                } else {
                    assert(named[at - rest.len()] == page);
                }
            }
            assert(sofar.push(page) =~= rest + named.take(i + 1));
        }
        backlog.reclaim(page);
        i += 1;
    }
    proof {
        assert(named.take(num as int) =~= named);
        taken_backlog_is_sound(old(backlog)@, region@.len() as int, reply.args, length as int);
    }
    if buf.len() < length {
        return Err(HomaError::BufferTooSmall);
    }
    reassemble(region, &reply.args, length, buf);
    Ok((length, reply.source, reply.args.id, reply.args.completion_cookie))
}

/// After a message was taken, the backlog is again free of duplicates and
/// holds only pages of the region, provided it was so before.
pub proof fn taken_backlog_is_sound(
    waiting: Seq<u32>,
    region_len: int,
    args: homa_recvmsg_args,
    length: int,
)
    requires
        reply_consistent(waiting, region_len, args, length),
    ensures
        waiting.no_duplicates() ==> (beyond_budget(waiting) + named_pages(args)).no_duplicates(),
        pages_within(waiting, region_len) ==> pages_within(
            beyond_budget(waiting) + named_pages(args),
            region_len,
        ),
{
    let rest = beyond_budget(waiting);
    let named = named_pages(args);
    let after = rest + named;
    if waiting.no_duplicates() {
        crate::backlog::drain_splits_backlog(waiting, HOMA_MAX_BPAGES as nat);
        assert forall|a: int, b: int| 0 <= a < after.len() && 0 <= b < after.len() && a
            != b implies after[a] != after[b] by {
            if a < rest.len() && b >= rest.len() {
                assert(rest[a] == after[a]);
                assert(named[b - rest.len()] == after[b]);
            } else if b < rest.len() && a >= rest.len() {
                assert(rest[b] == after[b]);
                assert(named[a - rest.len()] == after[a]);
            } else if a < rest.len() {
                assert(rest[a] == after[a] && rest[b] == after[b]);
            } else {
                assert(named[a - rest.len()] == after[a] && named[b - rest.len()] == after[b]);
            }
        }
    }
    if pages_within(waiting, region_len) {
        assert forall|a: int| 0 <= a < after.len() implies is_page(
            #[trigger] after[a] as int,
            region_len,
        ) by {
            if a < rest.len() {
                assert(rest[a] == waiting[a + HOMA_MAX_BPAGES]);
            } else {
                assert(named[a - rest.len()] == after[a]);
            }
        }
    }
}

/// The number of pages a message occupies is the ceiling of its length over
/// the page size; a message without bytes occupies none.
pub proof fn pages_needed_is_ceiling(length: int)
    requires
        0 <= length,
    ensures
        pages_needed(0) == 0,
        pages_needed(length) * HOMA_BPAGE_SIZE >= length,
        length > 0 ==> (pages_needed(length) - 1) * HOMA_BPAGE_SIZE < length,
        pages_needed(length) >= 0,
{
}

/// One descriptor names enough pages for the longest message, and no message
/// within the limit needs more.
pub proof fn longest_message_fits_descriptor(length: int)
    requires
        0 <= length <= crate::consts::HOMA_MAX_MESSAGE_LENGTH,
    ensures
        pages_needed(length) <= HOMA_MAX_BPAGES,
        pages_needed(crate::consts::HOMA_MAX_MESSAGE_LENGTH as int) == HOMA_MAX_BPAGES,
{
}

/// All pages before the last contribute a whole page each.
proof fn whole_pages_add_up(length: int, num_pages: int, upto: nat)
    requires
        upto < num_pages,
    ensures
        total_contribution(length, num_pages, upto) == upto * HOMA_BPAGE_SIZE,
    decreases upto,
{
    if upto > 0 {
        whole_pages_add_up(length, num_pages, (upto - 1) as nat);
    }
}

/// Page accounting: what the pages of a message contribute adds up to the
/// message's length, and every page contributes at least one byte and at most
/// a page.
pub proof fn contributions_add_up(length: int)
    requires
        0 <= length,
    ensures
        total_contribution(length, pages_needed(length), pages_needed(length) as nat) == length,
        forall|i: int|
            0 <= i < pages_needed(length) ==> 0 < #[trigger] contribution(
                length,
                pages_needed(length),
                i,
            ) <= HOMA_BPAGE_SIZE,
{
    let num = pages_needed(length);
    if num > 0 {
        whole_pages_add_up(length, num, (num - 1) as nat);
    }
}

/// The shares of the first `upto` pages are as long as those pages'
/// contributions together, and hold the message's bytes up to there.
proof fn shares_are_message_prefix(region: Seq<u8>, pages: Seq<u32>, length: int, upto: nat)
    requires
        0 <= length,
        pages.len() == pages_needed(length),
        pages_within(pages, region.len() as int),
        upto <= pages.len(),
    ensures
        shares_upto(region, pages, length, upto).len() == total_contribution(
            length,
            pages.len() as int,
            upto,
        ),
        total_contribution(length, pages.len() as int, upto) <= length,
        forall|k: int|
            0 <= k < shares_upto(region, pages, length, upto).len() ==> shares_upto(
                region,
                pages,
                length,
                upto,
            )[k] == #[trigger] message(region, pages, length)[k],
    decreases upto,
{
    let num = pages.len() as int;
    if upto > 0 {
        let before = (upto - 1) as nat;
        shares_are_message_prefix(region, pages, length, before);
        whole_pages_add_up(length, num, before);
        contributions_add_up(length);
        let front = shares_upto(region, pages, length, before);
        let share = page_share(region, pages, length, before as int);
        let all = shares_upto(region, pages, length, upto);
        assert(is_page(pages[before as int] as int, region.len() as int));
        assert(0 < contribution(length, num, before as int) <= HOMA_BPAGE_SIZE);
        assert(front.len() == before * HOMA_BPAGE_SIZE);
        assert forall|k: int| 0 <= k < all.len() implies all[k] == #[trigger] message(
            region,
            pages,
            length,
        )[k] by {
            if k >= front.len() {
                let j = k - front.len();
                assert(all[k] == share[j]);
                assert(k / (HOMA_BPAGE_SIZE as int) == before && k % (HOMA_BPAGE_SIZE as int)
                    == j);
            }
        }
    }
}

/// Reassembly: the message is the shares of its pages in the order in which
/// the transport named them, a whole page from each but the last.
pub proof fn message_is_shares_in_order(region: Seq<u8>, pages: Seq<u32>, length: int)
    requires
        0 <= length,
        pages.len() == pages_needed(length),
        pages_within(pages, region.len() as int),
    ensures
        message(region, pages, length) == shares_upto(region, pages, length, pages.len()),
{
    shares_are_message_prefix(region, pages, length, pages.len());
    contributions_add_up(length);
    assert(message(region, pages, length) =~= shares_upto(region, pages, length, pages.len()));
}

/// Page accounting of a delivered message: the page count the transport
/// reported is the ceiling of the reported length over the page size, the
/// contributions of those pages add up to the reported length, and that many
/// bytes are delivered.
pub proof fn delivered_pages_account_for_length(
    waiting: Seq<u32>,
    region: Seq<u8>,
    buf: Seq<u8>,
    reply: RecvReply,
)
    requires
        recv_failure(waiting, region.len() as int, buf.len() as int, reply) is None,
    ensures
        reply.args.num_bpages == pages_needed(reply.result as int),
        total_contribution(
            reply.result as int,
            reply.args.num_bpages as int,
            reply.args.num_bpages as nat,
        ) == reply.result,
        message(region, named_pages(reply.args), reply.result as int).len() == reply.result,
        recv_result(waiting, region.len() as int, buf.len() as int, reply) matches Ok(delivered)
            && delivered.0 == reply.result,
{
    contributions_add_up(reply.result as int);
}

/// A receive that the transport fails changes nothing: the backlog and the
/// caller's buffer are as before. This holds of a non-blocking receive that
/// found no message, which ends with `WouldBlock`, and of every other error
/// code, which ends with `TransportError`.
pub proof fn failed_transfer_changes_nothing(
    waiting: Seq<u32>,
    region: Seq<u8>,
    buf: Seq<u8>,
    reply: RecvReply,
)
    requires
        reply.result < 0,
    ensures
        reply.errno == EAGAIN ==> recv_result(
            waiting,
            region.len() as int,
            buf.len() as int,
            reply,
        ) == Err::<(usize, SockAddr, u64, u64), HomaError>(HomaError::WouldBlock),
        reply.errno != EAGAIN ==> recv_result(
            waiting,
            region.len() as int,
            buf.len() as int,
            reply,
        ) == Err::<(usize, SockAddr, u64, u64), HomaError>(
            HomaError::TransportError(reply.errno),
        ),
        backlog_after(waiting, region.len() as int, buf.len() as int, reply) == waiting,
        buffer_after(waiting, region, buf, reply) == buf,
{
}

/// An answer that cannot be believed changes nothing either.
pub proof fn refused_answer_changes_nothing(
    waiting: Seq<u32>,
    region: Seq<u8>,
    buf: Seq<u8>,
    reply: RecvReply,
)
    requires
        reply.result >= 0,
        !reply_consistent(waiting, region.len() as int, reply.args, reply.result as int),
    ensures
        recv_result(waiting, region.len() as int, buf.len() as int, reply) == Err::<
            (usize, SockAddr, u64, u64),
            HomaError,
        >(HomaError::ProtocolViolation),
        backlog_after(waiting, region.len() as int, buf.len() as int, reply) == waiting,
        buffer_after(waiting, region, buf, reply) == buf,
{
}

/// A message that the caller's buffer cannot hold is lost to the caller, but
/// its pages are not: they wait in the backlog as those of a delivered
/// message would, and the buffer is untouched.
pub proof fn short_buffer_leaks_no_page(
    waiting: Seq<u32>,
    region: Seq<u8>,
    buf: Seq<u8>,
    reply: RecvReply,
)
    requires
        reply.result >= 0,
        reply_consistent(waiting, region.len() as int, reply.args, reply.result as int),
        buf.len() < reply.result,
    ensures
        recv_result(waiting, region.len() as int, buf.len() as int, reply) == Err::<
            (usize, SockAddr, u64, u64),
            HomaError,
        >(HomaError::BufferTooSmall),
        backlog_after(waiting, region.len() as int, buf.len() as int, reply) == beyond_budget(
            waiting,
        ) + named_pages(reply.args),
        buffer_after(waiting, region, buf, reply) == buf,
{
}

/// Whether `region` holds `payload` in `pages`: as many pages as the payload
/// needs, each holding its share of the payload from its first byte on.
pub open spec fn deposited(region: Seq<u8>, pages: Seq<u32>, payload: Seq<u8>) -> bool {
    &&& pages.len() == pages_needed(payload.len() as int)
    &&& forall|i: int, j: int|
        0 <= i < pages.len() && 0 <= j < contribution(
            payload.len() as int,
            pages.len() as int,
            i,
        ) ==> #[trigger] region[pages[i] + j] == payload[i * HOMA_BPAGE_SIZE + j]
}

/// Round trip: a payload of one byte up to the longest message that the
/// transport has deposited in the pages it names, and reports with its length,
/// comes out of a receive byte for byte and with that length, whenever the
/// answer is consistent and the caller's buffer can hold the payload.
pub proof fn deposited_payload_is_delivered(
    waiting: Seq<u32>,
    region: Seq<u8>,
    buf: Seq<u8>,
    reply: RecvReply,
    payload: Seq<u8>,
)
    requires
        1 <= payload.len() <= crate::consts::HOMA_MAX_MESSAGE_LENGTH,
        reply.result == payload.len(),
        reply_consistent(waiting, region.len() as int, reply.args, reply.result as int),
        deposited(region, named_pages(reply.args), payload),
        payload.len() <= buf.len(),
    ensures
        recv_result(waiting, region.len() as int, buf.len() as int, reply) matches Ok(delivered)
            && delivered.0 == payload.len(),
        buffer_after(waiting, region, buf, reply).take(payload.len() as int) == payload,
        buffer_after(waiting, region, buf, reply).skip(payload.len() as int) == buf.skip(
            payload.len() as int,
        ),
{
    let length = payload.len() as int;
    let pages = named_pages(reply.args);
    let whole = message(region, pages, length);
    let after = buffer_after(waiting, region, buf, reply);
    assert forall|k: int| 0 <= k < length implies whole[k] == payload[k] by {
        let i = k / (HOMA_BPAGE_SIZE as int);
        let j = k % (HOMA_BPAGE_SIZE as int);
        assert(0 <= i < pages.len());
        assert(0 <= j < contribution(length, pages.len() as int, i));
        assert(region[pages[i] + j] == payload[i * HOMA_BPAGE_SIZE + j]);
    }
    assert(after.take(length) =~= payload);
    assert(after.skip(length) =~= buf.skip(length));
}

} // verus!
