//! Protocol constants of the transport and the flag set of a receive.

use vstd::prelude::*;

verus! {

/// The number under which Homa sockets are opened. No registry has assigned
/// it to Homa.
pub const IPPROTO_HOMA: i32 = 0xFD;

/// The longest payload, in bytes, that one request or one response carries.
pub const HOMA_MAX_MESSAGE_LENGTH: usize = 1000000;

/// The size of a page of the arena in bytes: two to the sixteenth.
pub const HOMA_BPAGE_SIZE: usize = 65536;

/// How many pages the longest message occupies, which is also how many page
/// offsets one receive descriptor holds.
pub const HOMA_MAX_BPAGES: usize = (HOMA_MAX_MESSAGE_LENGTH + HOMA_BPAGE_SIZE - 1)
    / HOMA_BPAGE_SIZE;

/// Flag bit: the receive takes requests.
pub const HOMA_RECVMSG_REQUEST: i32 = 0x01;

/// Flag bit: the receive takes responses.
pub const HOMA_RECVMSG_RESPONSE: i32 = 0x02;

/// Flag bit: the receive returns at once where no message waits.
pub const HOMA_RECVMSG_NONBLOCKING: i32 = 0x04;

/// All the flag bits the transport knows.
pub const HOMA_RECVMSG_VALID_FLAGS: i32 = 0x07;

/// The socket option under which an arena is registered.
pub const SO_HOMA_SET_BUF: i32 = 10;

/// The error number with which the transport, on the Linux hosts it runs on,
/// answers a non-blocking receive that found no message waiting.
pub const EAGAIN: i32 = 11;

/// The page size is a power of two and sixteen pages hold the longest message.
pub proof fn page_geometry()
    ensures
        HOMA_BPAGE_SIZE == 1usize << 16,
        HOMA_MAX_BPAGES == 16,
        (HOMA_MAX_BPAGES - 1) * HOMA_BPAGE_SIZE < HOMA_MAX_MESSAGE_LENGTH <= HOMA_MAX_BPAGES
            * HOMA_BPAGE_SIZE,
{
    assert(65536usize == 1usize << 16) by (bit_vector);
}

/// Which kind of message a receive waits for.
#[derive(Clone, Copy, Debug, PartialEq, Eq, Structural)]
pub enum Direction {
    /// Incoming requests only.
    Request,
    /// Responses to requests this socket sent.
    Response,
}

/// The flags of one receive: exactly one direction, and whether the call may
/// return before a message is there.
///
/// A flag word that names both directions or neither cannot be built.
#[derive(Clone, Copy, Debug, PartialEq, Eq, Structural)]
pub struct HomaRecvmsgFlags {
    direction: Direction,
    nonblocking: bool,
}

/// The flag words a receive accepts: no bit beyond the three the transport
/// knows, and exactly one of the two direction bits.
pub open spec fn valid_flag_bits(bits: i32) -> bool {
    &&& bits & !HOMA_RECVMSG_VALID_FLAGS == 0
    &&& (bits & HOMA_RECVMSG_REQUEST != 0) != (bits & HOMA_RECVMSG_RESPONSE != 0)
}

impl HomaRecvmsgFlags {
    pub closed spec fn spec_direction(&self) -> Direction {
        self.direction
    }

    pub closed spec fn spec_is_nonblocking(&self) -> bool {
        self.nonblocking
    }

    /// The flag word handed to the transport.
    pub open spec fn spec_bits(&self) -> i32 {
        let direction: i32 = match self.spec_direction() {
            Direction::Request => HOMA_RECVMSG_REQUEST,
            Direction::Response => HOMA_RECVMSG_RESPONSE,
        };
        if self.spec_is_nonblocking() {
            (direction + HOMA_RECVMSG_NONBLOCKING) as i32
        } else {
            direction
        }
    }

    /// Flags for a receive in `direction`, blocking unless `nonblocking`.
    pub fn new(direction: Direction, nonblocking: bool) -> (flags: Self)
        ensures
            flags.direction() == direction,
            flags.is_nonblocking() == nonblocking,
    {
        HomaRecvmsgFlags { direction, nonblocking }
    }

    /// Reads a flag word; `None` for a word that `valid_flag_bits` refuses.
    pub fn from_bits(bits: i32) -> (flags: Option<Self>)
        ensures
            flags is Some <==> valid_flag_bits(bits),
            flags matches Some(f) ==> f.bits() == bits,
    {
        proof {
            flag_words(bits);
        }
        if bits == HOMA_RECVMSG_REQUEST {
            Some(HomaRecvmsgFlags { direction: Direction::Request, nonblocking: false })
        } else if bits == HOMA_RECVMSG_RESPONSE {
            Some(HomaRecvmsgFlags { direction: Direction::Response, nonblocking: false })
        } else if bits == HOMA_RECVMSG_REQUEST + HOMA_RECVMSG_NONBLOCKING {
            Some(HomaRecvmsgFlags { direction: Direction::Request, nonblocking: true })
        } else if bits == HOMA_RECVMSG_RESPONSE + HOMA_RECVMSG_NONBLOCKING {
            Some(HomaRecvmsgFlags { direction: Direction::Response, nonblocking: true })
        } else {
            None
        }
    }

    #[verifier::when_used_as_spec(spec_direction)]
    pub fn direction(&self) -> (direction: Direction)
        ensures
            direction == self.spec_direction(),
    {
        self.direction
    }

    #[verifier::when_used_as_spec(spec_is_nonblocking)]
    pub fn is_nonblocking(&self) -> (nonblocking: bool)
        ensures
            nonblocking == self.spec_is_nonblocking(),
    {
        self.nonblocking
    }

    #[verifier::when_used_as_spec(spec_bits)]
    pub fn bits(&self) -> (bits: i32)
        ensures
            bits == self.spec_bits(),
            valid_flag_bits(bits),
            (bits & HOMA_RECVMSG_REQUEST != 0) <==> self.direction() == Direction::Request,
            (bits & HOMA_RECVMSG_RESPONSE != 0) <==> self.direction() == Direction::Response,
            (bits & HOMA_RECVMSG_NONBLOCKING != 0) <==> self.is_nonblocking(),
    {
        let direction: i32 = match self.direction {
            Direction::Request => HOMA_RECVMSG_REQUEST,
            Direction::Response => HOMA_RECVMSG_RESPONSE,
        };
        let bits: i32 = if self.nonblocking {
            direction + HOMA_RECVMSG_NONBLOCKING
        } else {
            direction
        };
        proof {
            flag_words(bits);
            flag_word_bits();
        }
        bits
    }
}

/// The valid flag words are 1, 2, 5 and 6.
proof fn flag_words(bits: i32)
    ensures
        valid_flag_bits(bits) <==> (bits == 1 || bits == 2 || bits == 5 || bits == 6),
{
    assert((bits & !0x07i32 == 0 && ((bits & 0x01i32 != 0) != (bits & 0x02i32 != 0))) <==> (bits
        == 1 || bits == 2 || bits == 5 || bits == 6)) by (bit_vector);
}

/// Which of the three bits each valid flag word holds.
proof fn flag_word_bits()
    ensures
        1i32 & 0x01i32 != 0 && 1i32 & 0x02i32 == 0 && 1i32 & 0x04i32 == 0,
        2i32 & 0x01i32 == 0 && 2i32 & 0x02i32 != 0 && 2i32 & 0x04i32 == 0,
        5i32 & 0x01i32 != 0 && 5i32 & 0x02i32 == 0 && 5i32 & 0x04i32 != 0,
        6i32 & 0x01i32 == 0 && 6i32 & 0x02i32 != 0 && 6i32 & 0x04i32 != 0,
{
    assert(1i32 & 0x01i32 != 0 && 1i32 & 0x02i32 == 0 && 1i32 & 0x04i32 == 0) by (bit_vector);
    assert(2i32 & 0x01i32 == 0 && 2i32 & 0x02i32 != 0 && 2i32 & 0x04i32 == 0) by (bit_vector);
    assert(5i32 & 0x01i32 != 0 && 5i32 & 0x02i32 == 0 && 5i32 & 0x04i32 != 0) by (bit_vector);
    assert(6i32 & 0x01i32 == 0 && 6i32 & 0x02i32 != 0 && 6i32 & 0x04i32 != 0) by (bit_vector);
}

} // verus!
