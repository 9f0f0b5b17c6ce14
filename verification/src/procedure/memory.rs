//! The bookkeeping of the memory that modules ask for.
use std::collections::HashMap;

use vstd::prelude::*;

use crate::procedure::codes::MgpError;

verus! {

broadcast use vstd::std_specs::hash::group_hash_axioms;

/// A block of memory: how large it is, and the alignment that it stands on.
#[derive(Clone, Copy, Debug, PartialEq, Eq, Structural)]
pub struct Block {
    pub size: usize,
    pub align: usize,
}

/// The memory that is in use: the blocks by their addresses, and the number of bytes in all.
#[derive(Debug)]
pub struct AllocTracker {
    blocks: HashMap<usize, Block>,
    bytes_used: usize,
}

/// The mathematical model of the bookkeeping.
pub struct Books {
    pub blocks: Map<usize, Block>,
    pub bytes: usize,
}

impl View for AllocTracker {
    type V = Books;

    closed spec fn view(&self) -> Books {
        Books { blocks: self.blocks@, bytes: self.bytes_used }
    }
}

/// Whether a block of a size can be laid out on an alignment: the alignment is a power of two, and
/// the size, rounded up to it, is addressable.
pub open spec fn can_lay_out(size: usize, align: usize) -> bool {
    is_power_of_two(align) && align <= isize::MAX && size <= isize::MAX - (align - 1)
}

/// Whether a number is a power of two.
pub open spec fn is_power_of_two(n: usize) -> bool {
    exists|k: nat| n == #[trigger] vstd::arithmetic::power2::pow2(k)
}

/// Whether a block should be asked for: not where nothing is wanted, nor where it cannot be laid
/// out.
pub open spec fn is_wanted(size: usize, align: usize) -> bool {
    size != 0 && can_lay_out(size, align)
}

/// Tells whether a block should be asked for.
pub fn should_allocate(size: usize, align: usize) -> (r: bool)
    ensures
        r == is_wanted(size, align),
{
    let mut p: usize = 1;
    let ghost mut k: nat = 0;
    proof {
        vstd::arithmetic::power2::lemma2_to64();
    }
    while p < align && p <= usize::MAX / 2
        invariant
            p == vstd::arithmetic::power2::pow2(k),
            forall|j: nat| j < k ==> #[trigger] vstd::arithmetic::power2::pow2(j) < align,
            p > 0,
        decreases usize::MAX - p,
    {
        proof {
            vstd::arithmetic::power2::lemma_pow2_unfold(k + 1);
            k = k + 1;
        }
        p = p * 2;
    }
    proof {
        assert forall|j: nat| align == #[trigger] vstd::arithmetic::power2::pow2(j) implies p == align by {
            if k < j {
                vstd::arithmetic::power2::lemma_pow2_unfold(k + 1);
                if k + 1 < j {
                    vstd::arithmetic::power2::lemma_pow2_strictly_increases(k + 1, j);
                }
                vstd::arithmetic::power2::lemma_pow2_strictly_increases(k, j);
            }
        }
        if p == align {
            assert(align == vstd::arithmetic::power2::pow2(k));
        }
    }
    size != 0 && p == align && align <= isize::MAX as usize && size <= isize::MAX as usize - (align - 1)
}

/// The books once a block was handed out at an address.
pub open spec fn with_block(books: Books, address: usize, block: Block) -> Books {
    Books { blocks: books.blocks.insert(address, block), bytes: (books.bytes + block.size) as usize }
}

/// The books once the block at an address, if there is one, was given back.
pub open spec fn without_block(books: Books, address: usize) -> Books {
    if books.blocks.contains_key(address) {
        let size = books.blocks[address].size;
        Books {
            blocks: books.blocks.remove(address),
            bytes: if size <= books.bytes {
                (books.bytes - size) as usize
            } else {
                0
            },
        }
    } else {
        books
    }
}

/// Giving a block back that was just handed out leaves the books as they were.
pub proof fn freeing_undoes_allocating(before: Books, address: usize, block: Block)
    requires
        !before.blocks.contains_key(address),
        before.bytes + block.size <= usize::MAX,
    ensures
        without_block(with_block(before, address, block), address) == before,
{
    assert(before.blocks.insert(address, block).remove(address) =~= before.blocks);
}

/// The sizes of all blocks together.
pub open spec fn total_size(blocks: Map<usize, Block>) -> nat
    decreases blocks.dom().len(),
        when blocks.dom().finite()
{
    if blocks.dom().len() == 0 {
        0
    } else {
        let address = blocks.dom().choose();
        blocks[address].size as nat + total_size(blocks.remove(address))
    }
}

proof fn lemma_total_size_without(blocks: Map<usize, Block>, address: usize)
    requires
        blocks.dom().finite(),
        blocks.contains_key(address),
    ensures
        total_size(blocks) == blocks[address].size + total_size(blocks.remove(address)),
    decreases blocks.dom().len(),
{
    let first = blocks.dom().choose();
    assert(blocks.dom().contains(address));
    assert(blocks.dom().len() > 0);
    assert(blocks.dom().contains(first));
    if first != address {
        let rest = blocks.remove(first);
        assert(rest.dom() =~= blocks.dom().remove(first));
        lemma_total_size_without(rest, address);
        let other = blocks.remove(address);
        assert(other.dom() =~= blocks.dom().remove(address));
        lemma_total_size_without(other, first);
        assert(rest.remove(address) =~= other.remove(first));
    }
}

/// What can happen to the books: a block is handed out at an address, or an address is given back.
pub enum Entry {
    HandedOut(usize, Block),
    GivenBack(usize),
}

/// The books after some entries, from books on which nothing stands.
pub open spec fn books_after(entries: Seq<Entry>) -> Books
    decreases entries.len(),
{
    if entries.len() == 0 {
        Books { blocks: Map::empty(), bytes: 0 }
    } else {
        let before = books_after(entries.drop_last());
        match entries.last() {
            Entry::HandedOut(address, block) => with_block(before, address, block),
            Entry::GivenBack(address) => without_block(before, address),
        }
    }
}

/// The sizes of the blocks that were handed out, together.
pub open spec fn handed_out(entries: Seq<Entry>) -> nat
    decreases entries.len(),
{
    if entries.len() == 0 {
        0
    } else {
        handed_out(entries.drop_last()) + match entries.last() {
            Entry::HandedOut(_, block) => block.size as nat,
            Entry::GivenBack(_) => 0,
        }
    }
}

/// The sizes of the blocks that were given back, together. An address at which no block stands gives
/// nothing back.
pub open spec fn given_back(entries: Seq<Entry>) -> nat
    decreases entries.len(),
{
    if entries.len() == 0 {
        0
    } else {
        let before = books_after(entries.drop_last());
        given_back(entries.drop_last()) + match entries.last() {
            Entry::HandedOut(_, _) => 0,
            Entry::GivenBack(address) => if before.blocks.contains_key(address) {
                before.blocks[address].size as nat
            } else {
                0
            },
        }
    }
}

/// Whether the bytes in use can be counted at each entry.
pub open spec fn bytes_fit(entries: Seq<Entry>) -> bool
    decreases entries.len(),
{
    entries.len() > 0 ==> {
        &&& bytes_fit(entries.drop_last())
        &&& (entries.last() matches Entry::HandedOut(_, block) ==> books_after(entries.drop_last()).bytes + block.size <= usize::MAX)
    }
}

/// Whatever was handed out and given back, the bytes in use are those that were handed out and not given
/// back, and none of the blocks that stand on the books is left out.
pub proof fn bytes_are_those_not_given_back(entries: Seq<Entry>)
    requires
        bytes_fit(entries),
    ensures
        books_after(entries).bytes + given_back(entries) == handed_out(entries),
        books_after(entries).blocks.dom().finite(),
        total_size(books_after(entries).blocks) <= books_after(entries).bytes,
    decreases entries.len(),
{
    if entries.len() > 0 {
        bytes_are_those_not_given_back(entries.drop_last());
        let before = books_after(entries.drop_last());
        match entries.last() {
            Entry::HandedOut(address, block) => {
                let after = before.blocks.insert(address, block);
                assert(after.dom() =~= before.blocks.dom().insert(address));
                lemma_total_size_without(after, address);
                if before.blocks.contains_key(address) {
                    lemma_total_size_without(before.blocks, address);
                    assert(after.remove(address) =~= before.blocks.remove(address));
                } else {
                    assert(after.remove(address) =~= before.blocks);
                }
            },
            Entry::GivenBack(address) => {
                if before.blocks.contains_key(address) {
                    lemma_total_size_without(before.blocks, address);
                    assert(before.blocks.remove(address).dom() =~= before.blocks.dom().remove(address));
                }
            },
        }
    }
}

/// Whether no address is handed out while a block stands there, and the bytes can be counted.
pub open spec fn entries_agree(entries: Seq<Entry>) -> bool
    decreases entries.len(),
{
    entries.len() > 0 ==> {
        let before = books_after(entries.drop_last());
        &&& entries_agree(entries.drop_last())
        &&& (entries.last() matches Entry::HandedOut(address, block) ==> !before.blocks.contains_key(address) && before.bytes
            + block.size <= usize::MAX)
    }
}

/// Where no address is handed out twice before it is given back, the bytes in use are those of the blocks
/// on the books.
pub proof fn bytes_are_those_of_blocks(entries: Seq<Entry>)
    requires
        entries_agree(entries),
    ensures
        books_after(entries).blocks.dom().finite(),
        books_after(entries).bytes == total_size(books_after(entries).blocks),
    decreases entries.len(),
{
    if entries.len() > 0 {
        bytes_are_those_of_blocks(entries.drop_last());
        let before = books_after(entries.drop_last());
        match entries.last() {
            Entry::HandedOut(address, block) => {
                let after = before.blocks.insert(address, block);
                assert(after.dom() =~= before.blocks.dom().insert(address));
                lemma_total_size_without(after, address);
                assert(after.remove(address) =~= before.blocks);
            },
            Entry::GivenBack(address) => {
                if before.blocks.contains_key(address) {
                    lemma_total_size_without(before.blocks, address);
                    assert(before.blocks.remove(address).dom() =~= before.blocks.dom().remove(address));
                }
            },
        }
    }
}

/// Whether a block, and the books, are what an allocation leads to: nothing where no block is wanted,
/// and else what the machine hands out.
pub open spec fn was_allocated<R: FnOnce(Block) -> Option<usize>>(
    request: R,
    size: usize,
    align: usize,
    before: Books,
    after: Books,
    found: Option<usize>,
) -> bool {
    if is_wanted(size, align) {
        call_ensures(request, (Block { size, align },), found) && match found {
            Some(address) => after == with_block(before, address, Block { size, align }),
            None => after == before,
        }
    } else {
        found is None && after == before
    }
}

impl AllocTracker {
    /// Nothing in use.
    pub fn new() -> (r: Self)
        ensures
            r@ == (Books { blocks: Map::empty(), bytes: 0 }),
    {
        let r = AllocTracker { blocks: HashMap::new(), bytes_used: 0 };
        assert(r@.blocks =~= Map::empty());
        r
    }

    /// The number of bytes in use.
    pub fn bytes(&self) -> (r: usize)
        ensures
            r == self@.bytes,
    {
        self.bytes_used
    }

    /// Asks for a block and notes down where it is. `request` hands out a block, or tells that there
    /// is none.
    pub fn allocate<R: FnOnce(Block) -> Option<usize>>(&mut self, size: usize, align: usize, request: R) -> (r: Option<usize>)
        requires
            is_wanted(size, align) ==> call_requires(request, (Block { size, align },)),
            old(self)@.bytes + size <= usize::MAX,
        ensures
            was_allocated(request, size, align, old(self)@, final(self)@, r),
    {
        if !should_allocate(size, align) {
            return None;
        }
        let block = Block { size, align };
        let found = request(block);
        match found {
            Some(address) => {
                self.blocks.insert(address, block);
                self.bytes_used = self.bytes_used + size;
            },
            None => {},
        }
        found
    }

    /// Gives a block back and takes it off the books; nothing is done for an address that was not
    /// handed out. `release` takes the block.
    pub fn free<R: FnOnce(usize, Block)>(&mut self, address: usize, release: R)
        requires
            old(self)@.blocks.contains_key(address) ==> call_requires(release, (address, old(self)@.blocks[address])),
        ensures
            final(self)@ == without_block(old(self)@, address),
            old(self)@.blocks.contains_key(address) ==> call_ensures(release, (address, old(self)@.blocks[address]), ()),
    {
        match self.blocks.remove(&address) {
            Some(block) => {
                self.bytes_used = if block.size <= self.bytes_used {
                    self.bytes_used - block.size
                } else {
                    0
                };
                release(address, block);
            },
            None => {
                assert(self.blocks@ =~= old(self).blocks@);
            },
        }
    }
}

/// The memory of a call: its own books, or those of the whole process.
#[derive(Debug)]
pub struct mgp_memory {
    pub tracker: Option<AllocTracker>,
}

/// What an allocation answers, once it is known whether a block was handed out.
pub open spec fn alloc_error(size: usize, found: Option<usize>) -> MgpError {
    if found is None && size != 0 {
        MgpError::UnableToAllocate
    } else {
        MgpError::NoError
    }
}

/// The books that an allocation of a call goes to.
pub open spec fn books_of(memory: Option<&mut mgp_memory>, process: Books) -> Books {
    match memory {
        Some(m) => match m.tracker {
            Some(t) => t@,
            None => process,
        },
        None => process,
    }
}

fn allocate_from<R: FnOnce(Block) -> Option<usize>>(
    books: &mut AllocTracker,
    size: usize,
    align: usize,
    request: R,
    result: &mut Option<usize>,
) -> (e: MgpError)
    requires
        is_wanted(size, align) ==> call_requires(request, (Block { size, align },)),
        old(books)@.bytes + size <= usize::MAX,
    ensures
        exists|found: Option<usize>|
            {
                &&& #[trigger] was_allocated(request, size, align, old(books)@, final(books)@, found)
                &&& e == alloc_error(size, found)
                &&& *final(result) == if e is NoError {
                    found
                } else {
                    *old(result)
                }
            },
{
    let found = books.allocate(size, align, request);
    assert(was_allocated(request, size, align, old(books)@, books@, found));
    if found.is_none() && size != 0 {
        MgpError::UnableToAllocate
    } else {
        *result = found;
        MgpError::NoError
    }
}

/// Asks for a block on an alignment, from the memory of the whole process.
pub fn mgp_global_aligned_alloc<R: FnOnce(Block) -> Option<usize>>(
    process: &mut AllocTracker,
    size: usize,
    alignment: usize,
    request: R,
    result: Option<&mut Option<usize>>,
) -> (e: MgpError)
    requires
        result is Some && is_wanted(size, alignment) ==> call_requires(request, (Block { size, align: alignment },)),
        old(process)@.bytes + size <= usize::MAX,
    ensures
        result is None ==> e is InvalidArgument && final(process)@ == old(process)@,
        result matches Some(r) ==> exists|found: Option<usize>|
            {
                &&& #[trigger] was_allocated(request, size, alignment, old(process)@, final(process)@, found)
                &&& e == alloc_error(size, found)
                &&& *final(r) == if e is NoError {
                    found
                } else {
                    *r
                }
            },
{
    match result {
        Some(r) => allocate_from(process, size, alignment, request, r),
        None => MgpError::InvalidArgument,
    }
}

/// Asks for a block, from the memory of the whole process.
pub fn mgp_global_alloc<R: FnOnce(Block) -> Option<usize>>(
    process: &mut AllocTracker,
    size: usize,
    request: R,
    result: Option<&mut Option<usize>>,
) -> (e: MgpError)
    requires
        result is Some && is_wanted(size, 8) ==> call_requires(request, (Block { size, align: 8 },)),
        old(process)@.bytes + size <= usize::MAX,
    ensures
        result is None ==> e is InvalidArgument && final(process)@ == old(process)@,
        result matches Some(r) ==> exists|found: Option<usize>|
            {
                &&& #[trigger] was_allocated(request, size, 8, old(process)@, final(process)@, found)
                &&& e == alloc_error(size, found)
                &&& *final(r) == if e is NoError {
                    found
                } else {
                    *r
                }
            },
{
    mgp_global_aligned_alloc(process, size, 8, request, result)
}

/// Asks for a block on an alignment, from the memory of a call, or of the whole process where the call
/// has none of its own.
pub fn mgp_aligned_alloc<R: FnOnce(Block) -> Option<usize>>(
    memory: Option<&mut mgp_memory>,
    process: &mut AllocTracker,
    size: usize,
    alignment: usize,
    request: R,
    result: Option<&mut Option<usize>>,
) -> (e: MgpError)
    requires
        result is Some && is_wanted(size, alignment) ==> call_requires(request, (Block { size, align: alignment },)),
        books_of(memory, old(process)@).bytes + size <= usize::MAX,
    ensures
        result is None ==> e is InvalidArgument && final(process)@ == old(process)@,
        memory matches Some(m) ==> (m.tracker is None ==> *final(m) == *m) && (result is None ==> *final(m) == *m),
        (memory matches Some(m) && m.tracker is Some) ==> final(process)@ == old(process)@,
        result matches Some(r) ==> exists|found: Option<usize>, after: Books|
            {
                &&& #[trigger] was_allocated(request, size, alignment, books_of(memory, old(process)@), after, found)
                &&& e == alloc_error(size, found)
                &&& *final(r) == if e is NoError {
                    found
                } else {
                    *r
                }
                &&& match memory {
                    Some(m) => match m.tracker {
                        Some(_) => final(m).tracker is Some && final(m).tracker->0@ == after,
                        None => final(process)@ == after,
                    },
                    None => final(process)@ == after,
                }
            },
{
    match result {
        Some(r) => match memory {
            Some(m) => match &mut m.tracker {
                Some(t) => allocate_from(t, size, alignment, request, r),
                None => allocate_from(process, size, alignment, request, r),
            },
            None => allocate_from(process, size, alignment, request, r),
        },
        None => MgpError::InvalidArgument,
    }
}

/// Asks for a block, from the memory of a call, or of the whole process where the call has none of its
/// own.
pub fn mgp_alloc<R: FnOnce(Block) -> Option<usize>>(
    memory: Option<&mut mgp_memory>,
    process: &mut AllocTracker,
    size: usize,
    request: R,
    result: Option<&mut Option<usize>>,
) -> (e: MgpError)
    requires
        result is Some && is_wanted(size, 8) ==> call_requires(request, (Block { size, align: 8 },)),
        books_of(memory, old(process)@).bytes + size <= usize::MAX,
    ensures
        result is None ==> e is InvalidArgument && final(process)@ == old(process)@,
        memory matches Some(m) ==> (m.tracker is None ==> *final(m) == *m) && (result is None ==> *final(m) == *m),
        (memory matches Some(m) && m.tracker is Some) ==> final(process)@ == old(process)@,
        result matches Some(r) ==> exists|found: Option<usize>, after: Books|
            {
                &&& #[trigger] was_allocated(request, size, 8, books_of(memory, old(process)@), after, found)
                &&& e == alloc_error(size, found)
                &&& *final(r) == if e is NoError {
                    found
                } else {
                    *r
                }
                &&& match memory {
                    Some(m) => match m.tracker {
                        Some(_) => final(m).tracker is Some && final(m).tracker->0@ == after,
                        None => final(process)@ == after,
                    },
                    None => final(process)@ == after,
                }
            },
{
    mgp_aligned_alloc(memory, process, size, 8, request, result)
}

/// The books once the block at an address was given back; nothing changes without an address.
pub open spec fn after_free(books: Books, address: Option<usize>) -> Books {
    match address {
        Some(a) => without_block(books, a),
        None => books,
    }
}

/// Gives a block back to the memory of the whole process.
pub fn mgp_global_free<R: FnOnce(usize, Block)>(process: &mut AllocTracker, address: Option<usize>, release: R)
    requires
        address matches Some(a) ==> (old(process)@.blocks.contains_key(a) ==> call_requires(
            release,
            (a, old(process)@.blocks[a]),
        )),
    ensures
        final(process)@ == after_free(old(process)@, address),
        address matches Some(a) ==> (old(process)@.blocks.contains_key(a) ==> call_ensures(
            release,
            (a, old(process)@.blocks[a]),
            (),
        )),
{
    match address {
        Some(a) => {
            process.free(a, release);
        },
        None => {},
    }
}

/// Gives a block back to the memory of a call, or of the whole process where the call has none of its
/// own.
pub fn mgp_free<R: FnOnce(usize, Block)>(
    memory: Option<&mut mgp_memory>,
    process: &mut AllocTracker,
    address: Option<usize>,
    release: R,
)
    requires
        address matches Some(a) ==> (books_of(memory, old(process)@).blocks.contains_key(a) ==> call_requires(
            release,
            (a, books_of(memory, old(process)@).blocks[a]),
        )),
    ensures
        memory matches Some(m) ==> (m.tracker is None ==> *final(m) == *m),
        (memory matches Some(m) && m.tracker is Some) ==> final(process)@ == old(process)@,
        match memory {
            Some(m) => match m.tracker {
                Some(t) => final(m).tracker is Some && final(m).tracker->0@ == after_free(t@, address),
                None => final(process)@ == after_free(old(process)@, address),
            },
            None => final(process)@ == after_free(old(process)@, address),
        },
        address matches Some(a) ==> (books_of(memory, old(process)@).blocks.contains_key(a) ==> call_ensures(
            release,
            (a, books_of(memory, old(process)@).blocks[a]),
            (),
        )),
{
    match memory {
        Some(m) => match &mut m.tracker {
            Some(t) => mgp_global_free(t, address, release),
            None => mgp_global_free(process, address, release),
        },
        None => mgp_global_free(process, address, release),
    }
}

/// Tells how many bytes are in use: by the memory of the call, or by the whole process.
pub fn mgp_memory_tracked_bytes(memory: Option<&mgp_memory>, process: &AllocTracker, result: Option<&mut usize>) -> (e: MgpError)
    ensures
        e == if result is None {
            MgpError::InvalidArgument
        } else {
            MgpError::NoError
        },
        result matches Some(r) ==> *final(r) == match memory {
            Some(m) => match m.tracker {
                Some(t) => t@.bytes,
                None => process@.bytes,
            },
            None => process@.bytes,
        },
{
    match result {
        None => MgpError::InvalidArgument,
        Some(r) => {
            *r = match memory {
                Some(m) => match &m.tracker {
                    Some(t) => t.bytes(),
                    None => process.bytes(),
                },
                None => process.bytes(),
            };
            MgpError::NoError
        },
    }
}

} // verus!
