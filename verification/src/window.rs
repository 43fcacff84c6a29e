//! The sender's window: the DATA datagrams that were sent and not yet
//! acknowledged, oldest first, numbered modulo 2^16.

use std::collections::VecDeque;
use vstd::prelude::*;
use crate::fs::{FileError, OpenedFile};
use crate::messages::{data_datagram, data_header, DATA};

verus! {

/// The block number `steps` after `block`, past 65535 comes 0.
pub open spec fn block_after(block: u16, steps: int) -> u16 {
    ((block as int + steps) % 0x1_0000) as u16
}

/// The block number reached from `block` by adding one `steps` times, each
/// time as a 16-bit number that wraps.
pub open spec fn stepped(block: u16, steps: nat) -> u16
    decreases steps,
{
    if steps == 0 {
        block
    } else {
        let before = stepped(block, (steps - 1) as nat);
        if before == 0xFFFF {
            0u16
        } else {
            (before + 1) as u16
        }
    }
}

/// Counting up one block at a time, through the wrap or not, reaches the
/// block number that the sum gives modulo 2^16.
#[verifier::rlimit(30)]
pub proof fn lemma_stepped(block: u16, steps: nat)
    ensures
        stepped(block, steps) == block_after(block, steps as int),
    decreases steps,
{
    if steps > 0 {
        lemma_stepped(block, (steps - 1) as nat);
        let before = block_after(block, steps - 1);
        assert(before == (block + steps - 1) % 0x1_0000);
        if before == 0xFFFF {
            assert((block + steps) % 0x1_0000 == 0);
        } else {
            assert((block + steps) % 0x1_0000 == before + 1);
        }
    }
}

/// A block that is reached by counting up, through the wrap or not, goes
/// over the wire as the block of the number that the sum gives modulo 2^16.
#[verifier::rlimit(30)]
pub proof fn lemma_wrap_correct(block: u16, steps: nat, payload: Seq<u8>)
    ensures
        data_datagram(stepped(block, steps), payload) == seq![
            0u8,
            3u8,
            (((block + steps) % 0x1_0000) / 256) as u8,
            (((block + steps) % 0x1_0000) % 256) as u8,
        ] + payload,
{
    lemma_stepped(block, steps);
    let number = stepped(block, steps);
    assert(number == (block + steps) % 0x1_0000);
    assert(data_header(number) =~= seq![0u8, 3u8, (number / 256) as u8, (number % 256) as u8]);
}

/// Whether `datagram` is a DATA datagram for `block` with a payload of at
/// most `block_size` bytes.
pub open spec fn is_block(datagram: Seq<u8>, block: u16, block_size: nat) -> bool {
    &&& 4 <= datagram.len() <= 4 + block_size
    &&& datagram.subrange(0, 4) == data_header(block)
}

/// What a window holds.
pub struct WindowModel {
    /// The payload size of a full block.
    pub block_size: nat,
    /// The most datagrams that may be outstanding.
    pub capacity: nat,
    /// The number of the oldest block that is not acknowledged.
    pub base: u16,
    /// The outstanding datagrams: the one at `i` is block `base + i`.
    pub datagrams: Seq<Seq<u8>>,
}

impl WindowModel {
    pub open spec fn outstanding(self) -> nat {
        self.datagrams.len()
    }

    /// The number of the block that was stored last; the block before the
    /// base where none is outstanding.
    pub open spec fn last_read(self) -> u16 {
        block_after(self.base, self.datagrams.len() - 1)
    }

    /// The number of the block that is stored next.
    pub open spec fn next_block(self) -> u16 {
        block_after(self.base, self.datagrams.len() as int)
    }

    /// What always holds of a window: it is never fuller than its capacity,
    /// and the datagram at `i` is the DATA datagram of block `base + i`.
    pub open spec fn well_formed(self) -> bool {
        &&& 1 <= self.capacity <= 0xFFFF
        &&& self.block_size <= 0xFFFF
        &&& self.datagrams.len() <= self.capacity
        &&& forall|i: int|
            0 <= i < self.datagrams.len() ==> is_block(
                #[trigger] self.datagrams[i],
                block_after(self.base, i),
                self.block_size,
            )
    }

    /// The window after one more block with this payload.
    pub open spec fn stored(self, payload: Seq<u8>) -> WindowModel {
        WindowModel {
            datagrams: self.datagrams.push(data_datagram(self.next_block(), payload)),
            ..self
        }
    }

    /// What becomes of a window, and what is said of it, when the file has
    /// answered the request for the next block: `answer` is what the file
    /// told, `filled` what the buffer then held.
    pub open spec fn taken(self, answer: Result<usize, FileError>, filled: Seq<u8>) -> (
        Result<(usize, bool), FileError>,
        WindowModel,
    ) {
        match answer {
            Ok(size) => if size <= filled.len() && size <= self.block_size {
                (Ok((size, size < self.block_size)), self.stored(filled.take(size as int)))
            } else {
                (Err(FileError::ReadError), self)
            },
            Err(error) => (Err(error), self),
        }
    }

    /// How many blocks lie from the base up to and including `block`.
    pub open spec fn reach(self, block: u16) -> int {
        (block as int - self.base as int) % 0x1_0000 + 1
    }

    /// Whether `block` is one of the outstanding blocks.
    pub open spec fn covers(self, block: u16) -> bool {
        self.reach(block) <= self.datagrams.len()
    }

    /// The window after `block` and all before it were acknowledged.
    pub open spec fn released(self, block: u16) -> WindowModel {
        WindowModel {
            base: block_after(block, 1),
            datagrams: self.datagrams.skip(self.reach(block)),
            ..self
        }
    }
}

/// The blocks from the base to the last one read, counted modulo 2^16, are
/// the outstanding ones, and they are never more than the window takes.
pub proof fn lemma_outstanding(window: WindowModel)
    requires
        window.well_formed(),
    ensures
        (window.last_read() - window.base + 1) % 0x1_0000 == window.outstanding(),
        window.outstanding() <= window.capacity,
{
}

/// Storing a block keeps a window well formed while there is room.
pub proof fn lemma_stored_well_formed(window: WindowModel, payload: Seq<u8>)
    requires
        window.well_formed(),
        window.outstanding() < window.capacity,
        payload.len() <= window.block_size,
    ensures
        window.stored(payload).well_formed(),
        window.stored(payload).outstanding() == window.outstanding() + 1,
{
    let after = window.stored(payload);
    let datagram = data_datagram(window.next_block(), payload);
    assert(datagram.subrange(0, 4) =~= data_header(window.next_block()));
    assert forall|i: int| 0 <= i < after.datagrams.len() implies is_block(
        #[trigger] after.datagrams[i],
        block_after(after.base, i),
        after.block_size,
    ) by {
        if i < window.datagrams.len() {
            assert(after.datagrams[i] == window.datagrams[i]);
        }
    }
}

/// Releasing acknowledged blocks keeps a window well formed, and what stays
/// outstanding is what came after the acknowledged block.
#[verifier::rlimit(30)]
pub proof fn lemma_released_well_formed(window: WindowModel, block: u16)
    requires
        window.well_formed(),
        window.covers(block),
    ensures
        window.released(block).well_formed(),
        1 <= window.reach(block) <= window.outstanding(),
        window.released(block).outstanding() == window.outstanding() - window.reach(block),
        block == block_after(window.base, window.reach(block) - 1),
{
    let after = window.released(block);
    let gone = window.reach(block);
    assert forall|i: int| 0 <= i < after.datagrams.len() implies is_block(
        #[trigger] after.datagrams[i],
        block_after(after.base, i),
        after.block_size,
    ) by {
        assert(after.datagrams[i] == window.datagrams[i + gone]);
        assert(block_after(after.base, i) == block_after(window.base, i + gone));
    }
}

fn append_bytes(target: &mut Vec<u8>, data: &[u8])
    ensures
        final(target)@ == old(target)@ + data@,
{
    let mut i: usize = 0;
    while i < data.len()
        invariant
            i <= data@.len(),
            target@ == old(target)@ + data@.subrange(0, i as int),
        decreases data@.len() - i,
    {
        target.push(data[i]);
        assert(target@ =~= old(target)@ + data@.subrange(0, i + 1));
        i = i + 1;
    }
    assert(data@.subrange(0, i as int) =~= data@);
}

/// The sender's window.
pub struct Window {
    block_size: u16,
    capacity: u16,
    base: u16,
    queue: VecDeque<Vec<u8>>,
}

impl View for Window {
    type V = WindowModel;

    closed spec fn view(&self) -> WindowModel {
        WindowModel {
            block_size: self.block_size as nat,
            capacity: self.capacity as nat,
            base: self.base,
            datagrams: Seq::new(self.queue@.len(), |i: int| self.queue@[i]@),
        }
    }
}

impl Window {
    /// An empty window whose first block is block 1.
    pub fn new(block_size: u16, window_size: u16) -> (window: Self)
        requires
            window_size >= 1,
        ensures
            window@ == (WindowModel {
                block_size: block_size as nat,
                capacity: window_size as nat,
                base: 1,
                datagrams: Seq::empty(),
            }),
            window@.well_formed(),
    {
        let window = Self {
            block_size,
            capacity: window_size,
            base: 1,
            queue: VecDeque::with_capacity(window_size as usize),
        };
        assert(window@.datagrams =~= Seq::<Seq<u8>>::empty());
        window
    }

    /// The most datagrams that may be outstanding.
    pub fn size(&self) -> (size: u16)
        ensures
            size == self@.capacity,
    {
        self.capacity
    }

    /// The payload size of a full block.
    pub fn block_size(&self) -> (size: u16)
        ensures
            size == self@.block_size,
    {
        self.block_size
    }

    /// The number of datagrams that are outstanding.
    pub fn outstanding(&self) -> (count: u16)
        requires
            self@.well_formed(),
        ensures
            count == self@.outstanding(),
            count <= self@.capacity,
    {
        self.queue.len() as u16
    }

    /// The number of the oldest block that is not acknowledged.
    pub fn first_block(&self) -> (block: u16)
        ensures
            block == self@.base,
    {
        self.base
    }

    /// The outstanding datagram at `index`, the oldest being at 0.
    pub fn datagram(&self, index: usize) -> (datagram: Option<&[u8]>)
        ensures
            match datagram {
                Some(bytes) => index < self@.outstanding() && bytes@ == self@.datagrams[index as int],
                None => index >= self@.outstanding(),
            },
    {
        if index < self.queue.len() {
            Some(self.queue[index].as_slice())
        } else {
            None
        }
    }

    /// Stores the next block, whose payload is given, and says whether it is
    /// the last of the file: it is when the payload is shorter than a full
    /// block.
    pub fn store_block(&mut self, payload: &[u8]) -> (is_last: bool)
        requires
            old(self)@.well_formed(),
            old(self)@.outstanding() < old(self)@.capacity,
            payload@.len() <= old(self)@.block_size,
        ensures
            final(self)@ == old(self)@.stored(payload@),
            final(self)@.well_formed(),
            is_last == (payload@.len() < old(self)@.block_size),
    {
        let block = self.base.wrapping_add(self.queue.len() as u16);
        let mut datagram: Vec<u8> = Vec::with_capacity(payload.len() + 4);
        datagram.push((DATA / 256) as u8);
        datagram.push((DATA % 256) as u8);
        datagram.push((block / 256) as u8);
        datagram.push((block % 256) as u8);
        assert(datagram@ =~= data_header(block));
        append_bytes(&mut datagram, payload);
        self.queue.push_back(datagram);
        proof {
            assert(self@.datagrams =~= old(self)@.stored(payload@).datagrams);
            lemma_stored_well_formed(old(self)@, payload@);
        }
        payload.len() < self.block_size as usize
    }

    /// Reads the next block from the file and stores it. The file is asked
    /// once, as it stands, to fill a buffer of the size of a full block, and
    /// is left as its answer leaves it. Where it tells a number of bytes that
    /// fits the buffer, the first so many bytes of the buffer are the payload
    /// of the block: the outcome is their number and whether the block is
    /// the last. A file that fails hands its error on; one that claims more
    /// bytes than a block holds is a read error; either leaves the window as
    /// it was.
    pub fn push_block<F: OpenedFile + ?Sized>(&mut self, opened_file: &mut F) -> (outcome: Result<
        (usize, bool),
        FileError,
    >)
        requires
            old(self)@.well_formed(),
            old(self)@.outstanding() < old(self)@.capacity,
        ensures
            final(self)@.well_formed(),
            match outcome {
                Ok((size, is_last)) => {
                    &&& size <= old(self)@.block_size
                    &&& is_last == (size < old(self)@.block_size)
                    &&& final(self)@.outstanding() == old(self)@.outstanding() + 1
                    &&& final(self)@.datagrams.last().len() == 4 + size
                    &&& final(self)@ == old(self)@.stored(final(self)@.datagrams.last().skip(4))
                },
                Err(_) => final(self)@ == old(self)@,
            },
            exists|asked: &mut F, buffer: &mut [u8], answer: Result<usize, FileError>|
                {
                    &&& &*asked == &*old(opened_file)
                    &&& &*final(asked) == &*final(opened_file)
                    &&& buffer@ == Seq::new(old(self)@.block_size, |i: int| 0u8)
                    &&& #[trigger] call_ensures(F::read_to, (asked, buffer), answer)
                    &&& (outcome, final(self)@) == old(self)@.taken(answer, final(buffer)@)
                },
    {
        let mut chunk: Vec<u8> = vec![0u8; self.block_size as usize];
        assert(chunk@ =~= Seq::new(self@.block_size, |i: int| 0u8));
        let answer = opened_file.read_to(chunk.as_mut_slice());
        let ghost filled = chunk@;
        let size = match answer {
            Ok(size) => size,
            Err(error) => {
                return Err(error);
            },
        };
        if size > chunk.len() || size > self.block_size as usize {
            return Err(FileError::ReadError);
        }
        chunk.truncate(size);
        assert(chunk@ =~= filled.take(size as int));
        let is_last = self.store_block(chunk.as_slice());
        proof {
            let stored = data_datagram(old(self)@.next_block(), chunk@);
            assert(self@.datagrams.last() == stored);
            assert(stored.skip(4) =~= chunk@);
        }
        Ok((size, is_last))
    }

    /// Takes an acknowledgement: where `block` is outstanding, it and all
    /// before it leave the window, and the base moves past it. Any other
    /// block changes nothing.
    pub fn acknowledge(&mut self, block: u16) -> (covered: bool)
        requires
            old(self)@.well_formed(),
        ensures
            covered == old(self)@.covers(block),
            covered ==> final(self)@ == old(self)@.released(block),
            !covered ==> final(self)@ == old(self)@,
            final(self)@.well_formed(),
    {
        let offset = block.wrapping_sub(self.base);
        assert(offset as int + 1 == self@.reach(block));
        if offset as usize >= self.queue.len() {
            return false;
        }
        proof {
            lemma_released_well_formed(self@, block);
        }
        let gone: usize = offset as usize + 1;
        let mut i: usize = 0;
        while i < gone
            invariant
                i <= gone,
                gone <= old(self).queue@.len(),
                self.queue@ == old(self).queue@.skip(i as int),
                self.block_size == old(self).block_size,
                self.capacity == old(self).capacity,
                self.base == old(self).base,
            decreases gone - i,
        {
            let _ = self.queue.pop_front();
            assert(self.queue@ =~= old(self).queue@.skip(i + 1));
            i = i + 1;
        }
        self.base = block.wrapping_add(1);
        assert(self@.datagrams =~= old(self)@.released(block).datagrams);
        true
    }
}

} // verus!
