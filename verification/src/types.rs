//! The control structures exchanged with the transport. The fields stand in
//! the order, and have the widths, of the transport's own declarations; laid
//! out without gaps they are what the transport reads and writes.

use vstd::prelude::*;
use vstd::std_specs::convert::FromSpecImpl;
use crate::arena::PageArena;
use crate::consts::HOMA_MAX_BPAGES;

verus! {

/// The arena as the transport is told of it: the address of its first byte
/// and its length in bytes, each as wide as an address.
#[allow(non_camel_case_types)]
#[derive(Clone, Copy, Debug)]
pub struct homa_set_buf_args {
    pub start: usize,
    pub length: usize,
}

impl From<&PageArena> for homa_set_buf_args {
    fn from(value: &PageArena) -> (args: Self) {
        homa_set_buf_args { start: value.base(), length: value.len() }
    }
}

impl FromSpecImpl<&PageArena> for homa_set_buf_args {
    open spec fn obeys_from_spec() -> bool {
        true
    }

    open spec fn from_spec(value: &PageArena) -> Self {
        homa_set_buf_args { start: value.base(), length: value.len() }
    }
}

/// The socket option that registers an arena with the transport. It is set
/// once, at level `IPPROTO_HOMA` under the name `SO_HOMA_SET_BUF`.
#[derive(Clone, Copy, Debug)]
pub struct HomaBuf;

impl HomaBuf {
    /// The value the option is set to for `val`: the whole arena.
    pub fn set(&self, val: &PageArena) -> (args: homa_set_buf_args)
        ensures
            args.start == val.base(),
            args.length == val.len(),
    {
        homa_set_buf_args::from(val)
    }
}

/// Control data of a send: which message the payload belongs to. Sixteen
/// bytes: two 64-bit numbers.
#[allow(non_camel_case_types)]
#[derive(Clone, Copy, Debug)]
pub struct homa_sendmsg_args {
    /// Zero for a new request, in which case the transport assigns an
    /// identifier; otherwise the request being answered.
    pub id: u64,
    /// Handed back, untouched, with the response to a request.
    pub completion_cookie: u64,
}

/// Control data of a receive, read and then filled in by the transport. Two
/// 64-bit numbers, the 32-bit flags and page count, two 32-bit words of
/// padding, and one 32-bit offset for each page of the longest message.
#[allow(non_camel_case_types)]
#[derive(Clone, Copy, Debug)]
pub struct homa_recvmsg_args {
    /// In: the message to wait for, or zero for any. Out: the message received.
    pub id: u64,
    /// Out: the cookie given when the request was sent, for a response.
    pub completion_cookie: u64,
    /// In: the bits of a `HomaRecvmsgFlags`.
    pub flags: i32,
    /// In: how many pages are handed back. Out: how many pages hold the message.
    pub num_bpages: u32,
    pub pad: [u32; 2],
    /// In: the pages handed back. Out: the pages holding the message, in order.
    pub bpage_offsets: [u32; HOMA_MAX_BPAGES],
}

/// Control data of an abort. Thirty-two bytes: the 64-bit identifier, the
/// 32-bit error, and padding of 32 and twice 64 bits.
#[allow(non_camel_case_types)]
#[derive(Clone, Copy, Debug)]
pub struct homa_abort_args {
    /// The message to abort.
    pub id: u64,
    /// The error its waiter is to see.
    pub error: i32,
    pub pad1: i32,
    pub pad2: [u64; 2],
}

impl homa_abort_args {
    /// An abort of message `id` with `error`, padding zeroed.
    pub fn new(id: u64, error: i32) -> (args: Self)
        ensures
            args.id == id,
            args.error == error,
            args.pad1 == 0,
            args.pad2@ == seq![0u64, 0u64],
    {
        let args = homa_abort_args { id, error, pad1: 0, pad2: [0u64; 2] };
        assert(args.pad2@ =~= seq![0u64, 0u64]);
        args
    }
}

} // verus!
