//! The page arena: one anonymous mapping, cut into pages of
//! `HOMA_BPAGE_SIZE` bytes, into which the transport deposits incoming
//! messages.

use memmap2::MmapMut;
use vstd::prelude::*;
use crate::consts::HOMA_BPAGE_SIZE;
use crate::error::HomaError;

verus! {

/// memmap2's handle on a writable memory mapping. Nothing inside it is
/// visible here; an arena owns one and reads its bytes through the functions
/// below.
#[verifier::external_type_specification]
#[verifier::external_body]
pub struct ExMmapMut(MmapMut);

/// The number of bytes a mapping spans: the length it was created with.
pub uninterp spec fn mapped_len(mapping: MmapMut) -> nat;

/// Calls `MmapMut::map_anon`. The operating system decides whether the
/// mapping is made; where it is, the mapping spans exactly `len` bytes.
#[verifier::external_body]
fn map_anonymous(len: usize) -> (mapping: Option<MmapMut>)
    ensures
        mapping matches Some(m) ==> mapped_len(m) == len,
{
    MmapMut::map_anon(len).ok()
}

/// Calls `MmapMut::as_ref`, which borrows the mapped bytes. The slice is as
/// long as the mapping; what it holds is whatever was last written there, by
/// this process or by the transport.
#[verifier::external_body]
fn mapped_bytes(mapping: &MmapMut) -> (bytes: &[u8])
    ensures
        bytes@.len() == mapped_len(*mapping),
{
    mapping.as_ref()
}

/// Calls `as_ptr` on the mapped bytes and gives the address as a number.
/// Where the operating system places a mapping is its own choice, so nothing
/// is promised of the number.
#[verifier::external_body]
fn mapped_base(mapping: &MmapMut) -> (base: usize) {
    mapping.as_ptr() as usize
}

/// Whether `offset` names a page of a region of `region_len` bytes: a
/// multiple of the page size with a whole page behind it.
pub open spec fn is_page(offset: int, region_len: int) -> bool {
    &&& 0 <= offset
    &&& offset % (HOMA_BPAGE_SIZE as int) == 0
    &&& offset + HOMA_BPAGE_SIZE <= region_len
}

/// The region registered with the transport, and where it lies.
pub struct PageArena {
    region: MmapMut,
    base: usize,
    len: usize,
    page_count: usize,
}

impl PageArena {
    /// The address of the arena's first byte.
    pub closed spec fn spec_base(&self) -> usize {
        self.base
    }

    /// The arena's length in bytes.
    pub closed spec fn spec_len(&self) -> usize {
        self.len
    }

    /// How many pages the arena holds.
    pub closed spec fn spec_page_count(&self) -> usize {
        self.page_count
    }

    /// The mapping behind the arena is as long as the arena.
    pub closed spec fn mapped(&self) -> bool {
        mapped_len(self.region) == self.len
    }

    /// The arena is its pages and nothing else, the mapping spans it, and
    /// every byte of it has an address.
    pub open spec fn wf(&self) -> bool {
        &&& self.spec_len() == self.spec_page_count() * HOMA_BPAGE_SIZE
        &&& self.spec_base() + self.spec_len() <= usize::MAX
        &&& self.mapped()
    }

    /// Whether `offset` names one of the arena's pages.
    pub open spec fn has_page(&self, offset: int) -> bool {
        is_page(offset, self.spec_len() as int)
    }

    /// Whether `address` lies inside the arena.
    pub open spec fn holds_address(&self, address: int) -> bool {
        self.spec_base() <= address < self.spec_base() + self.spec_len()
    }

    /// Maps `page_count` pages of anonymous memory.
    ///
    /// Fails with `AllocationError`, and in no other way. It does so where
    /// the pages together are longer than an address can express; beyond
    /// that the operating system decides whether the mapping is made.
    pub fn create(page_count: usize) -> (arena: Result<PageArena, HomaError>)
        ensures
            arena matches Ok(a) ==> a.wf() && a.page_count() == page_count,
            arena matches Err(e) ==> e == HomaError::AllocationError,
            page_count * HOMA_BPAGE_SIZE > usize::MAX ==> arena is Err,
    {
        match page_count.checked_mul(HOMA_BPAGE_SIZE) {
            None => Err(HomaError::AllocationError),
            Some(len) => {
                match map_anonymous(len) {
                    None => Err(HomaError::AllocationError),
                    Some(region) => {
                        let base = mapped_base(&region);
                        PageArena::adopt(region, base, page_count)
                    },
                }
            },
        }
    }

    /// Makes an arena of `page_count` pages from a mapping that, as the
    /// caller says, starts at `base`.
    ///
    /// Fails with `AllocationError` where the mapping does not span exactly
    /// `page_count` pages, or where its last byte would lie beyond the
    /// address space.
    pub fn adopt(region: MmapMut, base: usize, page_count: usize) -> (arena: Result<
        PageArena,
        HomaError,
    >)
        ensures
            arena is Ok <==> (mapped_len(region) == page_count * HOMA_BPAGE_SIZE && base
                + page_count * HOMA_BPAGE_SIZE <= usize::MAX),
            arena matches Ok(a) ==> a.wf() && a.page_count() == page_count && a.base() == base,
            arena matches Err(e) ==> e == HomaError::AllocationError,
    {
        let mapped = mapped_bytes(&region).len();
        match page_count.checked_mul(HOMA_BPAGE_SIZE) {
            None => Err(HomaError::AllocationError),
            Some(len) => {
                if mapped != len {
                    Err(HomaError::AllocationError)
                } else {
                    match base.checked_add(len) {
                        None => Err(HomaError::AllocationError),
                        Some(_) => Ok(PageArena { region, base, len, page_count }),
                    }
                }
            },
        }
    }

    #[verifier::when_used_as_spec(spec_base)]
    pub fn base(&self) -> (base: usize)
        ensures
            base == self.spec_base(),
    {
        self.base
    }

    #[verifier::when_used_as_spec(spec_len)]
    pub fn len(&self) -> (len: usize)
        ensures
            len == self.spec_len(),
    {
        self.len
    }

    #[verifier::when_used_as_spec(spec_page_count)]
    pub fn page_count(&self) -> (count: usize)
        ensures
            count == self.spec_page_count(),
    {
        self.page_count
    }

    /// The address of the byte at `offset`. The offset must lie inside the
    /// arena.
    pub fn pointer_at(&self, offset: usize) -> (address: usize)
        requires
            self.wf(),
            offset < self.len(),
        ensures
            address == self.base() + offset,
            self.holds_address(address as int),
    {
        self.base + offset
    }

    /// The offset of the byte at `address`. The address must lie inside the
    /// arena.
    pub fn offset_of(&self, address: usize) -> (offset: usize)
        requires
            self.wf(),
            self.holds_address(address as int),
        ensures
            offset == address - self.base(),
            offset < self.len(),
    {
        address - self.base
    }

    /// Whether `offset` names one of the arena's pages.
    pub fn contains_page(&self, offset: u32) -> (found: bool)
        requires
            self.wf(),
        ensures
            found == self.has_page(offset as int),
    {
        let offset = offset as usize;
        offset % HOMA_BPAGE_SIZE == 0 && offset < self.len
    }

    /// The arena's bytes as they are now.
    pub fn bytes(&self) -> (bytes: &[u8])
        requires
            self.wf(),
        ensures
            bytes@.len() == self.len(),
    {
        mapped_bytes(&self.region)
    }
}

/// Going from an offset to its address and back, or from an address to its
/// offset and back, ends where it began.
pub proof fn address_round_trip(arena: PageArena, offset: int, address: int)
    requires
        arena.wf(),
    ensures
        0 <= offset < arena.len() ==> arena.holds_address(arena.base() + offset) && (arena.base()
            + offset) - arena.base() == offset,
        arena.holds_address(address) ==> 0 <= address - arena.base() < arena.len() && arena.base()
            + (address - arena.base()) == address,
{
}

} // verus!
