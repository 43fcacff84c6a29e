//! What a transfer amounts to when nothing goes wrong: the file is cut into
//! blocks, the client gets every block once and in order, and what it gets
//! is the file.

use vstd::prelude::*;
use crate::datagram_stream::Endpoint;
use crate::messages::{ack_datagram, data_datagram, lemma_ack_reads_back};
use crate::session::{CommandModel, EventModel, Phase, SessionModel};
use crate::window::{block_after, WindowModel};

verus! {

/// The number of DATA blocks that carry a file of `size` bytes: the full
/// blocks and one shorter block, which is empty where the size is a multiple
/// of the block size.
pub open spec fn block_count(size: nat, block_size: nat) -> nat {
    size / block_size + 1
}

/// The payload of the block at `index`, the first block being at 0.
pub open spec fn chunk(content: Seq<u8>, block_size: nat, index: nat) -> Seq<u8> {
    let start = index * block_size;
    let end = start + block_size;
    if end <= content.len() {
        content.subrange(start as int, end as int)
    } else if start <= content.len() {
        content.subrange(start as int, content.len() as int)
    } else {
        seq![]
    }
}

/// The payloads joined in order.
pub open spec fn joined(payloads: Seq<Seq<u8>>) -> Seq<u8>
    decreases payloads.len(),
{
    if payloads.len() == 0 {
        seq![]
    } else {
        joined(payloads.drop_last()) + payloads.last()
    }
}

/// The number of blocks is the size divided by the block size, rounded up,
/// and one more where the size is a multiple of the block size.
pub proof fn lemma_block_count(size: nat, block_size: nat)
    requires
        block_size > 0,
    ensures
        block_count(size, block_size) == (size + block_size - 1) / (block_size as int) + if size
            % block_size == 0 {
            1int
        } else {
            0int
        },
{
    let q = size / block_size;
    let r = size % block_size;
    assert(size == block_size * q + r && 0 <= r < block_size) by (nonlinear_arith)
        requires
            block_size > 0,
            q == size / block_size,
            r == size % block_size,
    ;
    if r == 0 {
        assert((size + block_size - 1) / (block_size as int) == q) by (nonlinear_arith)
            requires
                block_size > 0,
                size == block_size * q,
        ;
    } else {
        assert((size + block_size - 1) / (block_size as int) == q + 1) by (nonlinear_arith)
            requires
                block_size > 0,
                size == block_size * q + r,
                0 < r < block_size,
        ;
    }
}

/// Every block but the last is full, and the last is shorter than a full
/// block.
pub proof fn lemma_chunk_length(content: Seq<u8>, block_size: nat, index: nat)
    requires
        block_size > 0,
        index < block_count(content.len(), block_size),
    ensures
        index + 1 < block_count(content.len(), block_size) ==> chunk(
            content,
            block_size,
            index,
        ).len() == block_size,
        index + 1 == block_count(content.len(), block_size) ==> chunk(
            content,
            block_size,
            index,
        ).len() == content.len() % block_size,
        content.len() % block_size < block_size,
        index * block_size <= content.len(),
        chunk(content, block_size, index).len() <= block_size,
{
    let size = content.len();
    let q = size / block_size;
    let r = size % block_size;
    assert(size == block_size * q + r && 0 <= r < block_size) by (nonlinear_arith)
        requires
            block_size > 0,
            q == size / block_size,
            r == size % block_size,
    ;
    if index < q {
        assert((index + 1) * block_size <= q * block_size) by (nonlinear_arith)
            requires
                index + 1 <= q,
                block_size > 0,
        ;
        assert(index * block_size + block_size == (index + 1) * block_size) by (nonlinear_arith);
        assert(q * block_size == block_size * q) by (nonlinear_arith);
    } else {
        assert(index == q);
        assert(index * block_size == block_size * q) by (nonlinear_arith)
            requires
                index == q,
        ;
    }
}

/// The blocks of a file, joined, are the file.
#[verifier::rlimit(30)]
pub proof fn lemma_chunks_rebuild(content: Seq<u8>, block_size: nat, count: nat)
    requires
        block_size > 0,
        count <= block_count(content.len(), block_size),
    ensures
        joined(Seq::new(count, |i: int| chunk(content, block_size, i as nat))) == if count
            * block_size <= content.len() {
            content.subrange(0, (count * block_size) as int)
        } else {
            content
        },
    decreases count,
{
    let chunks = Seq::new(count, |i: int| chunk(content, block_size, i as nat));
    if count == 0 {
        assert(0 * block_size == 0) by (nonlinear_arith);
        assert(content.subrange(0, 0) =~= Seq::<u8>::empty());
    } else {
        let before = (count - 1) as nat;
        lemma_chunks_rebuild(content, block_size, before);
        lemma_chunk_length(content, block_size, before);
        assert(chunks.drop_last() =~= Seq::new(before, |i: int| chunk(content, block_size, i as nat)));
        assert(chunks.last() == chunk(content, block_size, before));
        assert(before * block_size + block_size == count * block_size) by (nonlinear_arith)
            requires
                before + 1 == count,
        ;
        assert(before * block_size <= content.len());
        if count * block_size <= content.len() {
            assert(joined(chunks) =~= content.subrange(0, (count * block_size) as int));
        } else {
            assert(joined(chunks) =~= content);
        }
    }
}

/// The blocks that a session reads one after the other from a file that
/// hands over its bytes in order, as many as are asked for while it has
/// them, when `from` blocks were read before.
pub open spec fn faithful_reads(content: Seq<u8>, block_size: nat, from: nat, count: nat) -> Seq<
    Seq<u8>,
> {
    Seq::new(count, |i: int| chunk(content, block_size, (from + i) as nat))
}

/// The number of blocks that a session reads before it sends: as many as
/// the window has room for, or as the file has left.
pub open spec fn round_size(session: SessionModel, content: Seq<u8>, block_size: nat, from: nat) -> nat {
    let total = block_count(content.len(), block_size);
    let room = session.window.capacity - session.window.outstanding();
    if from >= total || room <= 0 {
        0
    } else if total - from < room {
        (total - from) as nat
    } else {
        room as nat
    }
}

/// A transfer in which nothing is lost: the session reads from a file that
/// hands over `content` in order, sends the window, and the client
/// acknowledges the last block of it, round after round. Gives the DATA
/// datagrams that reach the client, in order, and how the session ends.
pub open spec fn cooperative_run(
    session: SessionModel,
    content: Seq<u8>,
    block_size: nat,
    from: nat,
) -> (Seq<Seq<u8>>, CommandModel)
    decreases block_count(content.len(), block_size) - from,
{
    let count = round_size(session, content, block_size, from);
    if count == 0 {
        (seq![], CommandModel::Refill)
    } else {
        let sending = SessionModel {
            phase: Phase::Sending,
            attempt: 1,
            ..session.fed_all(faithful_reads(content, block_size, from, count))
        };
        let last = block_after(sending.window.base, sending.window.outstanding() - 1);
        let (after, command) = sending.next(
            EventModel::Datagram { source: session.peer, payload: ack_datagram(last) },
        );
        if command is Refill {
            let (rest, end) = cooperative_run(after, content, block_size, from + count);
            (sending.window.datagrams + rest, end)
        } else {
            (sending.window.datagrams, command)
        }
    }
}

/// The datagrams that carry the blocks from `from` on, `count` of them.
pub open spec fn block_datagrams(content: Seq<u8>, block_size: nat, from: nat, count: nat) -> Seq<
    Seq<u8>,
> {
    Seq::new(
        count,
        |i: int| data_datagram(block_after(1, from + i), chunk(content, block_size, (from + i) as nat)),
    )
}

/// The bytes of the file that lie in the first `blocks` blocks.
pub open spec fn bytes_in(content: Seq<u8>, block_size: nat, blocks: nat) -> nat {
    if blocks * block_size <= content.len() {
        blocks * block_size
    } else {
        content.len()
    }
}

proof fn lemma_bytes_in_step(content: Seq<u8>, block_size: nat, index: nat)
    requires
        block_size > 0,
        index < block_count(content.len(), block_size),
    ensures
        bytes_in(content, block_size, index + 1) == bytes_in(content, block_size, index) + chunk(
            content,
            block_size,
            index,
        ).len(),
        index + 1 == block_count(content.len(), block_size) ==> bytes_in(
            content,
            block_size,
            index + 1,
        ) == content.len(),
{
    lemma_chunk_length(content, block_size, index);
    assert(index * block_size + block_size == (index + 1) * block_size) by (nonlinear_arith);
    let size = content.len();
    let q = size / block_size;
    let r = size % block_size;
    assert(size == block_size * q + r && 0 <= r < block_size) by (nonlinear_arith)
        requires
            block_size > 0,
            q == size / block_size,
            r == size % block_size,
    ;
    if index == q {
        assert((index + 1) * block_size == block_size * q + block_size) by (nonlinear_arith)
            requires
                index == q,
        ;
    }
}

/// Counting blocks on in two steps is counting on once by their sum.
proof fn lemma_block_after_sum(block: u16, first: int, second: int)
    requires
        first >= 0,
        second >= 0,
    ensures
        block_after(block_after(block, first), second) == block_after(block, first + second),
{
}

/// The block `ahead` after the base lies `ahead + 1` blocks into the window.
proof fn lemma_reach(window: WindowModel, ahead: int)
    requires
        0 <= ahead < 0x1_0000,
    ensures
        window.reach(block_after(window.base, ahead)) == ahead + 1,
{
}

/// What one more block from a faithful file makes of a session.
#[verifier::rlimit(30)]
proof fn lemma_feed_block(
    fed: SessionModel,
    content: Seq<u8>,
    block_size: nat,
    from: nat,
    before: nat,
)
    requires
        block_size > 0,
        content.len() < usize::MAX,
        fed.window.block_size == block_size,
        fed.window.base == block_after(1, from as int),
        fed.window.datagrams == block_datagrams(content, block_size, from, before),
        fed.bytes_sent == bytes_in(content, block_size, from + before),
        fed.blocks_sent == from + before,
        from + before < block_count(content.len(), block_size),
    ensures
        ({
            let next = fed.fed(chunk(content, block_size, from + before));
            &&& next.window.datagrams == block_datagrams(content, block_size, from, before + 1)
            &&& next.window.base == fed.window.base
            &&& next.window.block_size == fed.window.block_size
            &&& next.window.capacity == fed.window.capacity
            &&& next.done == (from + before + 1 == block_count(content.len(), block_size))
            &&& next.bytes_sent == bytes_in(content, block_size, from + before + 1)
            &&& next.blocks_sent == from + before + 1
            &&& next.peer == fed.peer
            &&& next.phase == fed.phase
            &&& next.attempt == fed.attempt
            &&& chunk(content, block_size, from + before).len() <= block_size
        }),
{
    let payload = chunk(content, block_size, from + before);
    let next = fed.fed(payload);
    let total = block_count(content.len(), block_size);
    lemma_chunk_length(content, block_size, from + before);
    lemma_bytes_in_step(content, block_size, from + before);
    assert(fed.window.next_block() == block_after(1, (from + before) as int)) by {
        lemma_block_after_sum(1, from as int, before as int);
    }
    assert(next.window.datagrams =~= block_datagrams(content, block_size, from, before + 1));
    assert(total <= content.len() + 1) by (nonlinear_arith)
        requires
            block_size > 0,
            total == content.len() / block_size + 1,
    {
    }
    assert(bytes_in(content, block_size, from + before + 1) <= content.len());
}

/// What a session is after it read `count` blocks from a faithful file.
#[verifier::rlimit(30)]
proof fn lemma_fed_faithful(
    session: SessionModel,
    content: Seq<u8>,
    block_size: nat,
    from: nat,
    count: nat,
)
    requires
        block_size > 0,
        content.len() < usize::MAX,
        session.window.block_size == block_size,
        session.window.datagrams.len() == 0,
        session.window.base == block_after(1, from as int),
        !session.done,
        session.bytes_sent == bytes_in(content, block_size, from),
        session.blocks_sent == from,
        count <= session.window.capacity,
        from + count <= block_count(content.len(), block_size),
    ensures
        session.feeds(faithful_reads(content, block_size, from, count)),
        session.fed_all(faithful_reads(content, block_size, from, count)) == (SessionModel {
            done: count > 0 && from + count == block_count(content.len(), block_size),
            window: WindowModel {
                datagrams: block_datagrams(content, block_size, from, count),
                ..session.window
            },
            bytes_sent: bytes_in(content, block_size, from + count) as usize,
            blocks_sent: (from + count) as usize,
            ..session
        }),
    decreases count,
{
    let reads = faithful_reads(content, block_size, from, count);
    if count == 0 {
        assert(block_datagrams(content, block_size, from, 0) =~= session.window.datagrams);
    } else {
        let before = (count - 1) as nat;
        let earlier = faithful_reads(content, block_size, from, before);
        lemma_fed_faithful(session, content, block_size, from, before);
        assert(reads.drop_last() =~= earlier);
        assert(reads.last() == chunk(content, block_size, from + before));
        let fed = session.fed_all(earlier);
        lemma_feed_block(fed, content, block_size, from, before);
        assert(fed.wants_block());
    }
}

/// What a session reads in one round from a file that hands over its
/// bytes in order is what it would read block by block, and after it the
/// session reads no more: the window is full or the last block is read.
pub proof fn lemma_faithful_round(
    session: SessionModel,
    content: Seq<u8>,
    block_size: nat,
    from: nat,
)
    requires
        block_size > 0,
        content.len() < usize::MAX,
        session.window.block_size == block_size,
        1 <= session.window.capacity <= 0xFFFF,
        session.window.datagrams.len() == 0,
        session.window.base == block_after(1, from as int),
        !session.done,
        session.bytes_sent == bytes_in(content, block_size, from),
        session.blocks_sent == from,
        from < block_count(content.len(), block_size),
    ensures
        ({
            let count = round_size(session, content, block_size, from);
            let reads = faithful_reads(content, block_size, from, count);
            &&& count >= 1
            &&& session.feeds(reads)
            &&& !session.fed_all(reads).wants_block()
            &&& session.fed_all(reads).window.datagrams == block_datagrams(
                content,
                block_size,
                from,
                count,
            )
        }),
{
    let count = round_size(session, content, block_size, from);
    lemma_fed_faithful(session, content, block_size, from, count);
}

/// What a session would read block by block, it would read as far as any
/// block before.
proof fn lemma_feeds_prefix(session: SessionModel, read: Seq<Seq<u8>>, upto: int)
    requires
        session.feeds(read),
        0 <= upto <= read.len(),
    ensures
        session.feeds(read.take(upto)),
        upto < read.len() ==> session.fed_all(read.take(upto)).wants_block(),
    decreases read.len(),
{
    if upto == read.len() {
        assert(read.take(upto) =~= read);
    } else {
        assert(read.drop_last().take(upto) =~= read.take(upto));
        if upto == read.len() - 1 {
            assert(read.take(upto) =~= read.drop_last());
        } else {
            lemma_feeds_prefix(session, read.drop_last(), upto);
        }
    }
}

/// The first blocks that were read are the file's blocks in order, and
/// there were no more of them than the window takes and the file has.
proof fn lemma_read_is_faithful(
    session: SessionModel,
    content: Seq<u8>,
    block_size: nat,
    from: nat,
    read: Seq<Seq<u8>>,
    upto: nat,
)
    requires
        block_size > 0,
        content.len() < usize::MAX,
        session.window.block_size == block_size,
        1 <= session.window.capacity <= 0xFFFF,
        session.window.datagrams.len() == 0,
        session.window.base == block_after(1, from as int),
        !session.done,
        session.bytes_sent == bytes_in(content, block_size, from),
        session.blocks_sent == from,
        from < block_count(content.len(), block_size),
        session.feeds(read),
        upto <= read.len(),
        forall|k: int| 0 <= k < read.len() ==> read[k] == chunk(content, block_size, (from + k) as nat),
    ensures
        upto <= session.window.capacity,
        from + upto <= block_count(content.len(), block_size),
        read.take(upto as int) == faithful_reads(content, block_size, from, upto),
    decreases upto,
{
    if upto == 0 {
        assert(read.take(0) =~= faithful_reads(content, block_size, from, 0));
    } else {
        let before = (upto - 1) as nat;
        lemma_read_is_faithful(session, content, block_size, from, read, before);
        lemma_feeds_prefix(session, read, before as int);
        lemma_fed_faithful(session, content, block_size, from, before);
        let fed = session.fed_all(read.take(before as int));
        assert(fed.wants_block());
        assert(fed.window.datagrams.len() == before);
        assert(read.take(upto as int) =~= faithful_reads(content, block_size, from, upto));
    }
}

/// Whatever a session read in one round, where it read the file's blocks
/// in order, it read the round of the transfer in which nothing is lost: as
/// many blocks as the window has room for or the file has left.
pub proof fn lemma_round_of_faithful_reads(
    session: SessionModel,
    content: Seq<u8>,
    block_size: nat,
    from: nat,
    read: Seq<Seq<u8>>,
)
    requires
        block_size > 0,
        content.len() < usize::MAX,
        session.window.block_size == block_size,
        1 <= session.window.capacity <= 0xFFFF,
        session.window.datagrams.len() == 0,
        session.window.base == block_after(1, from as int),
        !session.done,
        session.bytes_sent == bytes_in(content, block_size, from),
        session.blocks_sent == from,
        from < block_count(content.len(), block_size),
        session.feeds(read),
        !session.fed_all(read).wants_block(),
        forall|k: int| 0 <= k < read.len() ==> read[k] == chunk(content, block_size, (from + k) as nat),
    ensures
        read.len() == round_size(session, content, block_size, from),
        read == faithful_reads(
            content,
            block_size,
            from,
            round_size(session, content, block_size, from),
        ),
        session.fed_all(read).window.datagrams == block_datagrams(
            content,
            block_size,
            from,
            round_size(session, content, block_size, from),
        ),
{
    lemma_read_is_faithful(session, content, block_size, from, read, read.len());
    assert(read.take(read.len() as int) =~= read);
    lemma_fed_faithful(session, content, block_size, from, read.len());
}

/// What a session that sent a full round makes of the acknowledgement of
/// the round's last block.
#[verifier::rlimit(30)]
proof fn lemma_round_acknowledged(sending: SessionModel)
    requires
        sending.phase is Sending,
        1 <= sending.window.datagrams.len() <= 0xFFFF,
    ensures
        ({
            let last = block_after(sending.window.base, sending.window.outstanding() - 1);
            let event = (EventModel::Datagram {
                source: sending.peer,
                payload: ack_datagram(last),
            });
            let emptied = (WindowModel {
                base: block_after(sending.window.base, sending.window.outstanding() as int),
                datagrams: Seq::empty(),
                ..sending.window
            });
            sending.next(event) == if sending.done {
                (
                    (SessionModel { window: emptied, phase: Phase::Closed, ..sending }),
                    CommandModel::Finished(sending.bytes_sent, sending.blocks_sent),
                )
            } else {
                (
                    (SessionModel {
                        window: emptied,
                        phase: Phase::Filling,
                        attempt: 0,
                        ..sending
                    }),
                    CommandModel::Refill,
                )
            }
        }),
{
    let count = sending.window.outstanding() as int;
    let last = block_after(sending.window.base, count - 1);
    lemma_ack_reads_back(last);
    lemma_reach(sending.window, count - 1);
    lemma_block_after_sum(sending.window.base, count - 1, 1);
    assert(sending.hears(sending.peer, ack_datagram(last)));
    assert(sending.window.covers(last));
    let released = sending.window.released(last);
    assert(released.datagrams =~= Seq::<Seq<u8>>::empty());
}

/// From any round on, a transfer in which nothing is lost delivers the
/// remaining blocks in order and ends as finished.
#[verifier::rlimit(30)]
proof fn lemma_run_from(session: SessionModel, content: Seq<u8>, block_size: nat, from: nat)
    requires
        block_size > 0,
        content.len() < usize::MAX,
        session.window.block_size == block_size,
        1 <= session.window.capacity <= 0xFFFF,
        session.window.datagrams.len() == 0,
        session.window.base == block_after(1, from as int),
        !session.done,
        session.bytes_sent == bytes_in(content, block_size, from),
        session.blocks_sent == from,
        from < block_count(content.len(), block_size),
    ensures
        cooperative_run(session, content, block_size, from) == (
            block_datagrams(
                content,
                block_size,
                from,
                (block_count(content.len(), block_size) - from) as nat,
            ),
            CommandModel::Finished(
                content.len() as usize,
                block_count(content.len(), block_size) as usize,
            ),
        ),
    decreases block_count(content.len(), block_size) - from,
{
    let total = block_count(content.len(), block_size);
    let count = round_size(session, content, block_size, from);
    assert(1 <= count <= total - from && count <= session.window.capacity);
    lemma_fed_faithful(session, content, block_size, from, count);
    let fed = session.fed_all(faithful_reads(content, block_size, from, count));
    let sending = SessionModel { phase: Phase::Sending, attempt: 1, ..fed };
    assert(sending.window.datagrams.len() == count);
    lemma_round_acknowledged(sending);
    let last = block_after(sending.window.base, sending.window.outstanding() - 1);
    let event = EventModel::Datagram { source: session.peer, payload: ack_datagram(last) };
    let (after, command) = sending.next(event);
    if from + count == total {
        lemma_bytes_in_step(content, block_size, (total - 1) as nat);
        assert(total <= content.len() + 1) by (nonlinear_arith)
            requires
                block_size > 0,
                total == content.len() / block_size + 1,
        {
        }
        assert(command == CommandModel::Finished(content.len() as usize, total as usize));
    } else {
        assert(command is Refill);
        assert(after.window.base == block_after(1, (from + count) as int)) by {
            lemma_block_after_sum(1, from as int, count as int);
        }
        lemma_run_from(after, content, block_size, from + count);
        assert(block_datagrams(content, block_size, from, count) + block_datagrams(
            content,
            block_size,
            from + count,
            (total - from - count) as nat,
        ) =~= block_datagrams(content, block_size, from, (total - from) as nat));
    }
}

/// The payloads of datagrams, in order.
pub open spec fn payloads(datagrams: Seq<Seq<u8>>) -> Seq<Seq<u8>> {
    Seq::new(datagrams.len(), |i: int| datagrams[i].skip(4))
}

/// The session that serves a file from its first block: nothing is read,
/// nothing sent.
pub open spec fn opening(peer: Endpoint, block_size: nat, window_size: nat) -> SessionModel {
    SessionModel {
        peer,
        phase: Phase::Filling,
        attempt: 0,
        done: false,
        window: WindowModel {
            block_size,
            capacity: window_size,
            base: 1,
            datagrams: Seq::empty(),
        },
        bytes_sent: 0,
        blocks_sent: 0,
    }
}

/// With any block size and any window size, a client that loses nothing and
/// acknowledges what it gets receives the blocks of the file from block 1
/// on, each once and in order, the last one shorter than a full block; what
/// it receives, joined, is the file; and the session ends as finished, with
/// the size of the file and the number of its blocks.
#[verifier::rlimit(30)]
pub proof fn lemma_cooperative_transfer(
    peer: Endpoint,
    content: Seq<u8>,
    block_size: nat,
    window_size: nat,
)
    requires
        1 <= block_size <= 0xFFFF,
        1 <= window_size <= 0xFFFF,
        content.len() < usize::MAX,
    ensures
        ({
            let total = block_count(content.len(), block_size);
            let (datagrams, end) = cooperative_run(
                opening(peer, block_size, window_size),
                content,
                block_size,
                0,
            );
            &&& datagrams == block_datagrams(content, block_size, 0, total)
            &&& datagrams.len() == total
            &&& joined(payloads(datagrams)) == content
            &&& forall|i: int| 0 <= i < total - 1 ==> (#[trigger] datagrams[i]).len() == 4 + block_size
            &&& datagrams[total - 1].len() < 4 + block_size
            &&& end == CommandModel::Finished(content.len() as usize, total as usize)
        }),
{
    let total = block_count(content.len(), block_size);
    let start = opening(peer, block_size, window_size);
    assert(bytes_in(content, block_size, 0) == 0) by {
        assert(0 * block_size == 0) by (nonlinear_arith);
    }
    lemma_run_from(start, content, block_size, 0);
    let datagrams = block_datagrams(content, block_size, 0, total);
    lemma_chunks_rebuild(content, block_size, total);
    assert(payloads(datagrams) =~= Seq::new(total, |i: int| chunk(content, block_size, i as nat)))
        by {
        assert forall|i: int| 0 <= i < total implies payloads(datagrams)[i] == chunk(
            content,
            block_size,
            i as nat,
        ) by {
            let payload = chunk(content, block_size, i as nat);
            assert(data_datagram(block_after(1, i), payload).skip(4) =~= payload);
        }
    }
    assert(total * block_size > content.len()) by (nonlinear_arith)
        requires
            block_size > 0,
            total == content.len() / block_size + 1,
    {
    }
    assert forall|i: int| 0 <= i < total - 1 implies (#[trigger] datagrams[i]).len() == 4
        + block_size by {
        lemma_chunk_length(content, block_size, i as nat);
    }
    lemma_chunk_length(content, block_size, (total - 1) as nat);
}

/// With the default options, block size 512 and window size 1, a client
/// receives a file of `s` bytes in `s / 512` rounded up, plus one where `s`
/// is a multiple of 512, DATA blocks, and exactly its `s` bytes.
pub proof fn lemma_default_transfer(peer: Endpoint, content: Seq<u8>)
    requires
        content.len() < usize::MAX,
    ensures
        ({
            let (datagrams, end) = cooperative_run(opening(peer, 512, 1), content, 512, 0);
            let blocks = (content.len() + 511) / 512 + if content.len() % 512 == 0 {
                1int
            } else {
                0int
            };
            &&& datagrams.len() == blocks
            &&& joined(payloads(datagrams)) == content
            &&& joined(payloads(datagrams)).len() == content.len()
            &&& end == CommandModel::Finished(content.len() as usize, blocks as usize)
        }),
{
    lemma_cooperative_transfer(peer, content, 512, 1);
    lemma_block_count(content.len(), 512);
}

} // verus!
