//! Userspace bookkeeping for a Homa socket: the page arena shared with the
//! transport, the backlog of pages waiting to be handed back, and the
//! descriptors that carry one message in or out.
//!
//! The socket calls themselves are made by the program that uses this
//! library. For each of them the library says what to hand to the transport
//! and what to make of the answer.

use socket2::SockAddr;
use vstd::prelude::*;
use crate::arena::PageArena;
use crate::backlog::Backlog;
use crate::consts::{HomaRecvmsgFlags, HOMA_MAX_BPAGES};
use crate::error::HomaError;
use crate::ledger::{borrowed_pages, free_pages, pages_are_conserved, pending_pages};
use crate::recv::{
    backlog_after, budget, buffer_after, named_pages, pages_within, recv_result, RecvReply,
};
use crate::types::{homa_recvmsg_args, homa_sendmsg_args};

pub mod arena;
pub mod backlog;
pub mod consts;
pub mod error;
pub mod ledger;
pub mod recv;
pub mod types;

verus! {

/// What came back from one send-message call.
pub struct SendReply {
    /// The call's own result; negative where the call failed.
    pub result: isize,
    /// The operating system's error code; read only where `result` is negative.
    pub errno: i32,
    /// The control data as the transport left it.
    pub args: homa_sendmsg_args,
}

/// What a send hands to its caller: the identifier of the message sent, which
/// is the caller's own where it gave one and the transport's choice where it
/// gave zero.
pub open spec fn send_result(id: u64, reply: SendReply) -> Result<u64, HomaError> {
    if reply.result < 0 {
        Err(HomaError::TransportError(reply.errno))
    } else if id != 0 {
        Ok(id)
    } else {
        Ok(reply.args.id)
    }
}

/// What a control call hands to its caller: the transport's own result, or
/// the error code where the result is negative.
pub open spec fn control_result(result: i32, errno: i32) -> Result<i32, HomaError> {
    if result < 0 {
        Err(HomaError::TransportError(errno))
    } else {
        Ok(result)
    }
}

/// The state of one Homa socket on this side of the transport: the arena
/// registered with it and the pages waiting to go back.
pub struct HomaSocket {
    arena: PageArena,
    backlog: Backlog,
}

impl HomaSocket {
    pub closed spec fn spec_arena(&self) -> &PageArena {
        &self.arena
    }

    /// The backlog, oldest page first.
    pub closed spec fn waiting(&self) -> Seq<u32> {
        self.backlog@
    }

    /// The arena is sound, no page waits twice, and every waiting page is a
    /// page of the arena.
    pub open spec fn wf(&self) -> bool {
        &&& self.spec_arena().wf()
        &&& self.waiting().no_duplicates()
        &&& pages_within(self.waiting(), self.spec_arena().len() as int)
    }

    /// The socket state for `arena`, once the transport has been asked to
    /// register it and `registered` says whether it agreed.
    ///
    /// Fails with `RegistrationError` where it refused. A new socket has an
    /// empty backlog: every page is the transport's.
    pub fn new(arena: PageArena, registered: bool) -> (socket: Result<HomaSocket, HomaError>)
        requires
            arena.wf(),
        ensures
            !registered ==> socket == Err::<HomaSocket, HomaError>(HomaError::RegistrationError),
            registered ==> socket is Ok,
            socket matches Ok(s) ==> s.wf() && *s.arena() == arena && s.waiting()
                == Seq::<u32>::empty(),
    {
        if registered {
            Ok(HomaSocket { arena, backlog: Backlog::new() })
        } else {
            Err(HomaError::RegistrationError)
        }
    }

    #[verifier::when_used_as_spec(spec_arena)]
    pub fn arena(&self) -> (arena: &PageArena)
        ensures
            arena == self.spec_arena(),
    {
        &self.arena
    }

    /// The backlog.
    pub fn backlog(&self) -> (backlog: &Backlog)
        ensures
            backlog@ == self.waiting(),
    {
        &self.backlog
    }

    /// The control data of a send: the message's identifier, zero for a new
    /// request, and the completion cookie. The payload travels beside it, by
    /// reference.
    pub fn send_request(&self, id: u64, completion_cookie: u64) -> (args: homa_sendmsg_args)
        ensures
            args.id == id,
            args.completion_cookie == completion_cookie,
    {
        homa_sendmsg_args { id, completion_cookie }
    }

    /// Completes a send of message `id` with what came back from the
    /// transport.
    ///
    /// Any negative result is a `TransportError` with the error code.
    /// Otherwise the answer is the message's identifier: `id` itself, or the
    /// one the transport assigned where `id` is zero.
    pub fn send(&self, id: u64, reply: SendReply) -> (sent: Result<u64, HomaError>)
        ensures
            sent == send_result(id, reply),
    {
        if reply.result < 0 {
            Err(HomaError::TransportError(reply.errno))
        } else if id != 0 {
            Ok(id)
        } else {
            Ok(reply.args.id)
        }
    }

    /// The control data of the next receive of message `id`, or of any
    /// message where `id` is zero. It offers the transport the oldest pages
    /// of the backlog, which stays as it is until `recv` has the answer.
    pub fn recv_request(&self, flags: HomaRecvmsgFlags, id: u64) -> (args: homa_recvmsg_args)
        ensures
            args.id == id,
            args.completion_cookie == 0,
            args.flags == flags.bits(),
            args.pad@ == seq![0u32, 0u32],
            args.num_bpages == budget(self.waiting()).len(),
            named_pages(args) == budget(self.waiting()),
            forall|i: int| args.num_bpages <= i < HOMA_MAX_BPAGES ==> args.bpage_offsets@[i] == 0,
    {
        crate::recv::form_request(&self.backlog, flags, id)
    }

    /// Completes a receive with what came back from the transport, copying
    /// the message out of the arena into `buf`.
    ///
    /// This is `recv::complete` on the socket's backlog and on the arena's
    /// bytes as they are when the call is made. What the arena holds is the
    /// transport's doing, so of the bytes copied the contract says only that
    /// they are the message as some region of the arena's length holds it;
    /// everything else is determined. The sender's address is handed on as
    /// the transport reported it, for requests and responses alike.
    pub fn recv(&mut self, buf: &mut [u8], reply: RecvReply) -> (received: Result<
        (usize, SockAddr, u64, u64),
        HomaError,
    >)
        requires
            old(self).wf(),
        ensures
            final(self).wf(),
            final(self).arena() == old(self).arena(),
            received == recv_result(
                old(self).waiting(),
                old(self).arena().len() as int,
                old(buf)@.len() as int,
                reply,
            ),
            final(self).waiting() == backlog_after(
                old(self).waiting(),
                old(self).arena().len() as int,
                old(buf)@.len() as int,
                reply,
            ),
            exists|region: Seq<u8>|
                region.len() == old(self).arena().len() && final(buf)@
                    == #[trigger] buffer_after(old(self).waiting(), region, old(buf)@, reply),
    {
        let region = self.arena.bytes();
        let received = crate::recv::complete(&mut self.backlog, region, buf, reply);
        assert(final(buf)@ == buffer_after(old(self).waiting(), region@, old(buf)@, reply));
        received
    }

    /// Conservation: whatever has been sent and received, the pages in the
    /// backlog, with the transport and with the caller add up to the pages
    /// of the arena.
    pub proof fn pages_conserved(&self)
        requires
            self.wf(),
        ensures
            free_pages(self.waiting()).len() == self.waiting().len(),
            free_pages(self.waiting()).len() + pending_pages(
                self.arena().page_count() as nat,
                self.waiting(),
            ).len() + borrowed_pages().len() == self.arena().page_count(),
    {
        pages_are_conserved(self.arena().page_count() as nat, self.waiting());
    }

    /// Completes an abort with the result of the control call.
    ///
    /// A negative result is a `TransportError` with the error code; any other
    /// result is handed on.
    pub fn abort(&self, result: i32, errno: i32) -> (aborted: Result<i32, HomaError>)
        ensures
            aborted == control_result(result, errno),
    {
        if result < 0 {
            Err(HomaError::TransportError(errno))
        } else {
            Ok(result)
        }
    }

    /// Completes a freeze with the result of the control call, as `abort`
    /// does.
    pub fn freeze(&self, result: i32, errno: i32) -> (frozen: Result<i32, HomaError>)
        ensures
            frozen == control_result(result, errno),
    {
        if result < 0 {
            Err(HomaError::TransportError(errno))
        } else {
            Ok(result)
        }
    }
}

} // verus!
