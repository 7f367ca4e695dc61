//! The messages that a canister has for its connections, kept for the last
//! blocks only and bound together by one digest.

use std::collections::VecDeque;
use sha2::{Digest, Sha256};
use vstd::prelude::*;
use crate::bytes::{be_bytes, push_be_bytes, push_bytes};

verus! {

/// How many blocks are kept before the oldest is dropped.
pub const MAX_BLOCK_HEIGHT: usize = 32;

/// The number of milliseconds that one block spans.
pub const BLOCK_PERIOD_MILLIS: u64 = 3;

/// The number of bytes of a digest.
pub const DIGEST_LEN: usize = 32;

/// The number of a block.
pub type BlockId = u64;

/// A message as it goes over a connection.
pub type RawMessage = Vec<u8>;

/// The number of a connection.
#[derive(Debug, Clone, Copy, PartialEq, Eq, PartialOrd, Ord, Hash)]
pub struct ConnectionId(u64);

impl View for ConnectionId {
    type V = u64;

    closed spec fn view(&self) -> u64 {
        self.0
    }
}

impl ConnectionId {
    /// The connection with the given number.
    pub fn new(id: u64) -> (c: Self)
        ensures
            c@ == id,
    {
        ConnectionId(id)
    }

    /// The number of the connection.
    pub fn get(&self) -> (id: u64)
        ensures
            id == self@,
    {
        self.0
    }
}

/// The messages of one connection within a block, as plain values.
pub struct StreamView {
    /// The number of the connection.
    pub connection: u64,
    /// The messages, oldest first.
    pub messages: Seq<Seq<u8>>,
}

/// A block as a plain value.
pub struct BlockView {
    /// The number of the block.
    pub id: u64,
    /// The connections that got messages in the block, in the order in
    /// which each got its first.
    pub streams: Seq<StreamView>,
}

/// The SHA-256 digest of the given bytes, as `sha2::Sha256::digest` gives
/// it.
pub uninterp spec fn sha256(data: Seq<u8>) -> Seq<u8>;

/// Hashes the given bytes with `sha2::Sha256::digest`, which hashes all of
/// its input at once and gives 32 bytes.
#[verifier::external_body]
fn sha256_digest(data: &Vec<u8>) -> (digest: Vec<u8>)
    ensures
        digest@ == sha256(data@),
        digest@.len() == DIGEST_LEN,
{
    Sha256::digest(data.as_slice()).to_vec()
}

/// The index of the first stream of the connection.
pub open spec fn find_stream(streams: Seq<StreamView>, connection: u64) -> Option<int>
    decreases streams.len(),
{
    if streams.len() == 0 {
        None
    } else {
        match find_stream(streams.drop_last(), connection) {
            Some(i) => Some(i),
            None => if streams.last().connection == connection {
                Some(streams.len() - 1)
            } else {
                None
            },
        }
    }
}

/// The streams after the connection got one more message: the message
/// goes behind those that the connection has, and a connection without
/// messages gets a stream behind the others.
pub open spec fn delivered(streams: Seq<StreamView>, connection: u64, message: Seq<u8>) -> Seq<
    StreamView,
> {
    match find_stream(streams, connection) {
        Some(i) => streams.update(
            i,
            StreamView { connection, messages: streams[i].messages.push(message) },
        ),
        None => streams.push(StreamView { connection, messages: seq![message] }),
    }
}

/// The streams after the messages were delivered one after the other.
pub open spec fn delivered_all(streams: Seq<StreamView>, messages: Seq<(u64, Seq<u8>)>) -> Seq<
    StreamView,
>
    decreases messages.len(),
{
    if messages.len() == 0 {
        streams
    } else {
        delivered(
            delivered_all(streams, messages.drop_last()),
            messages.last().0,
            messages.last().1,
        )
    }
}

/// The blocks once the block `block_id` is the newest: a new block goes
/// behind the others unless the newest has that number, and the oldest
/// block is dropped to make room for it.
pub open spec fn opened(blocks: Seq<BlockView>, block_id: u64) -> Seq<BlockView> {
    if blocks.len() > 0 && blocks.last().id == block_id {
        blocks
    } else if blocks.len() >= MAX_BLOCK_HEIGHT {
        blocks.subrange(1, blocks.len() as int).push(BlockView { id: block_id, streams: Seq::empty() })
    } else {
        blocks.push(BlockView { id: block_id, streams: Seq::empty() })
    }
}

/// The blocks after the messages were sent in the block `block_id`.
pub open spec fn sent(blocks: Seq<BlockView>, block_id: u64, messages: Seq<(u64, Seq<u8>)>) -> Seq<
    BlockView,
> {
    let ready = opened(blocks, block_id);
    ready.drop_last().push(
        BlockView { id: block_id, streams: delivered_all(ready.last().streams, messages) },
    )
}

/// The streams of the connections that are not among `closed`.
pub open spec fn without(streams: Seq<StreamView>, closed: Seq<u64>) -> Seq<StreamView>
    decreases streams.len(),
{
    if streams.len() == 0 {
        Seq::empty()
    } else if closed.contains(streams.last().connection) {
        without(streams.drop_last(), closed)
    } else {
        without(streams.drop_last(), closed).push(streams.last())
    }
}

/// The blocks after the connections `closed` were closed: their messages
/// are gone from every block.
pub open spec fn closed_in(blocks: Seq<BlockView>, closed: Seq<u64>) -> Seq<BlockView>
    decreases blocks.len(),
{
    if blocks.len() == 0 {
        Seq::empty()
    } else {
        closed_in(blocks.drop_last(), closed).push(
            BlockView { id: blocks.last().id, streams: without(blocks.last().streams, closed) },
        )
    }
}

/// The bytes that stand for the messages of a connection: each message
/// behind its length.
pub open spec fn messages_frame(messages: Seq<Seq<u8>>) -> Seq<u8>
    decreases messages.len(),
{
    if messages.len() == 0 {
        Seq::empty()
    } else {
        messages_frame(messages.drop_last()) + be_bytes(messages.last().len() as u64)
            + messages.last()
    }
}

/// The bytes that stand for the streams of a block: for each the number
/// of the connection, the number of its messages and the messages.
pub open spec fn streams_frame(streams: Seq<StreamView>) -> Seq<u8>
    decreases streams.len(),
{
    if streams.len() == 0 {
        Seq::empty()
    } else {
        streams_frame(streams.drop_last()) + be_bytes(streams.last().connection) + be_bytes(
            streams.last().messages.len() as u64,
        ) + messages_frame(streams.last().messages)
    }
}

/// The digest of a block.
pub open spec fn block_digest(block: BlockView) -> Seq<u8> {
    sha256(streams_frame(block.streams))
}

/// The bytes that stand for the blocks: for each its number and its
/// digest.
pub open spec fn blocks_frame(blocks: Seq<BlockView>) -> Seq<u8>
    decreases blocks.len(),
{
    if blocks.len() == 0 {
        Seq::empty()
    } else {
        blocks_frame(blocks.drop_last()) + be_bytes(blocks.last().id) + block_digest(blocks.last())
    }
}

/// The digest over all the blocks.
pub open spec fn root_digest(blocks: Seq<BlockView>) -> Seq<u8> {
    sha256(blocks_frame(blocks))
}

/// The number of the block that the given time, in nanoseconds, falls in:
/// the time in whole milliseconds, rounded down to the start of its block.
pub fn get_current_block_id(time: u64) -> (id: BlockId)
    ensures
        id == (time / 1_000_000) / BLOCK_PERIOD_MILLIS * BLOCK_PERIOD_MILLIS,
        id <= time / 1_000_000,
{
    let time_millis: u64 = time / 1_000_000;
    (time_millis / BLOCK_PERIOD_MILLIS) * BLOCK_PERIOD_MILLIS
}

/// The bytes of the messages.
pub open spec fn messages_view(messages: Seq<RawMessage>) -> Seq<Seq<u8>> {
    messages.map_values(|m: RawMessage| m@)
}

/// The messages of one connection within a block.
struct Stream {
    connection: u64,
    messages: Vec<RawMessage>,
}

impl View for Stream {
    type V = StreamView;

    closed spec fn view(&self) -> StreamView {
        StreamView { connection: self.connection, messages: messages_view(self.messages@) }
    }
}

/// The messages that were sent while one block lasted.
struct Block {
    id: BlockId,
    streams: Vec<Stream>,
}

/// The streams as plain values.
spec fn streams_view(streams: Seq<Stream>) -> Seq<StreamView> {
    streams.map_values(|s: Stream| s@)
}

impl View for Block {
    type V = BlockView;

    closed spec fn view(&self) -> BlockView {
        BlockView { id: self.id, streams: streams_view(self.streams@) }
    }
}

/// The blocks as plain values.
spec fn blocks_view(blocks: Seq<Block>) -> Seq<BlockView> {
    blocks.map_values(|b: Block| b@)
}

/// The messages of the connections of a canister, block by block and
/// oldest block first, with the digest over all of them.
pub struct WsConnections {
    connections: VecDeque<Block>,
    hash: Vec<u8>,
}

impl View for WsConnections {
    type V = Seq<BlockView>;

    closed spec fn view(&self) -> Seq<BlockView> {
        blocks_view(self.connections@)
    }
}

/// Appends the bytes that stand for the messages of a connection.
fn push_messages_frame(out: &mut Vec<u8>, messages: &Vec<RawMessage>)
    ensures
        final(out)@ == old(out)@ + messages_frame(messages_view(messages@)),
{
    let ghost all = messages_view(messages@);
    let mut i: usize = 0;
    while i < messages.len()
        invariant
            i <= messages@.len(),
            all == messages_view(messages@),
            out@ == old(out)@ + messages_frame(all.take(i as int)),
        decreases messages@.len() - i,
    {
        proof {
            assert(all.take(i + 1).drop_last() =~= all.take(i as int));
            assert(all[i as int] == messages@[i as int]@);
        }
        push_be_bytes(out, messages[i].len() as u64);
        push_bytes(out, &messages[i]);
        proof {
            assert(out@ =~= old(out)@ + messages_frame(all.take(i + 1)));
        }
        i += 1;
    }
    proof {
        assert(all.take(i as int) =~= all);
    }
}

/// Appends the bytes that stand for the streams of a block.
fn push_streams_frame(out: &mut Vec<u8>, streams: &Vec<Stream>)
    ensures
        final(out)@ == old(out)@ + streams_frame(streams_view(streams@)),
{
    let ghost all = streams_view(streams@);
    let mut i: usize = 0;
    while i < streams.len()
        invariant
            i <= streams@.len(),
            all == streams_view(streams@),
            out@ == old(out)@ + streams_frame(all.take(i as int)),
        decreases streams@.len() - i,
    {
        proof {
            assert(all.take(i + 1).drop_last() =~= all.take(i as int));
            assert(all[i as int] == streams@[i as int]@);
        }
        push_be_bytes(out, streams[i].connection);
        push_be_bytes(out, streams[i].messages.len() as u64);
        push_messages_frame(out, &streams[i].messages);
        proof {
            assert(out@ =~= old(out)@ + streams_frame(all.take(i + 1)));
        }
        i += 1;
    }
    proof {
        assert(all.take(i as int) =~= all);
    }
}

/// The digest of a block.
fn digest_of_block(block: &Block) -> (digest: Vec<u8>)
    ensures
        digest@ == block_digest(block@),
{
    let mut frame: Vec<u8> = Vec::new();
    push_streams_frame(&mut frame, &block.streams);
    proof {
        assert(frame@ =~= streams_frame(block@.streams));
    }
    sha256_digest(&frame)
}

/// The digest over the given blocks.
fn digest_of_blocks(blocks: &VecDeque<Block>) -> (digest: Vec<u8>)
    ensures
        digest@ == root_digest(blocks_view(blocks@)),
{
    let ghost all = blocks_view(blocks@);
    let mut frame: Vec<u8> = Vec::new();
    let mut i: usize = 0;
    while i < blocks.len()
        invariant
            i <= blocks@.len(),
            all == blocks_view(blocks@),
            frame@ == blocks_frame(all.take(i as int)),
        decreases blocks@.len() - i,
    {
        proof {
            assert(all.take(i + 1).drop_last() =~= all.take(i as int));
            assert(all[i as int] == blocks@[i as int]@);
        }
        let block = &blocks[i];
        push_be_bytes(&mut frame, block.id);
        let digest = digest_of_block(block);
        push_bytes(&mut frame, &digest);
        proof {
            assert(frame@ =~= blocks_frame(all.take(i + 1)));
        }
        i += 1;
    }
    proof {
        assert(all.take(i as int) =~= all);
    }
    sha256_digest(&frame)
}

impl WsConnections {
    /// No more blocks are kept than the limit allows, and the digest is the
    /// one over the blocks that are kept.
    #[verifier::type_invariant]
    spec fn well_formed(self) -> bool {
        &&& self.connections@.len() <= MAX_BLOCK_HEIGHT
        &&& self.hash@ == root_digest(blocks_view(self.connections@))
    }

    /// Connections without any block.
    pub fn new() -> (ws: Self)
        ensures
            ws@ == Seq::<BlockView>::empty(),
    {
        let connections: VecDeque<Block> = VecDeque::with_capacity(MAX_BLOCK_HEIGHT);
        let hash = digest_of_blocks(&connections);
        let ws = WsConnections { connections, hash };
        proof {
            assert(ws@ =~= Seq::<BlockView>::empty());
        }
        ws
    }

    /// Takes the blocks out, leaving none.
    fn take_blocks(&mut self) -> (blocks: VecDeque<Block>)
        ensures
            blocks_view(blocks@) == old(self)@,
            blocks@.len() <= MAX_BLOCK_HEIGHT,
    {
        let mut taken = WsConnections::new();
        core::mem::swap(self, &mut taken);
        proof {
            use_type_invariant(&taken);
        }
        let WsConnections { connections, hash } = taken;
        connections
    }

    /// Puts the blocks in, with their digest.
    fn put_blocks(&mut self, blocks: VecDeque<Block>)
        requires
            blocks@.len() <= MAX_BLOCK_HEIGHT,
        ensures
            final(self)@ == blocks_view(blocks@),
    {
        let hash = digest_of_blocks(&blocks);
        *self = WsConnections { connections: blocks, hash };
    }

    /// The digest over all the blocks.
    pub fn root_hash(&self) -> (hash: &Vec<u8>)
        ensures
            hash@ == root_digest(self@),
            self@.len() <= MAX_BLOCK_HEIGHT,
    {
        proof {
            use_type_invariant(self);
        }
        &self.hash
    }

    /// The numbers of the blocks that are kept, oldest first.
    pub fn block_ids(&self) -> (ids: Vec<BlockId>)
        ensures
            ids@.len() == self@.len(),
            forall|i: int| 0 <= i < ids@.len() ==> ids@[i] == (#[trigger] self@[i]).id,
    {
        let mut ids: Vec<BlockId> = Vec::new();
        let mut i: usize = 0;
        while i < self.connections.len()
            invariant
                i <= self.connections@.len(),
                ids@.len() == i,
                forall|j: int| 0 <= j < i ==> ids@[j] == (#[trigger] self@[j]).id,
            decreases self.connections@.len() - i,
        {
            ids.push(self.connections[i].id);
            i += 1;
        }
        ids
    }

    /// The messages that the connection got in the block `block_id`, oldest
    /// first; none where the block is not kept or the connection got none.
    pub fn messages(&self, block_id: BlockId, connection: ConnectionId) -> (messages: Vec<RawMessage>)
        ensures
            messages_view(messages@) == messages_in(self@, block_id, connection@),
    {
        let mut i: usize = 0;
        while i < self.connections.len()
            invariant
                i <= self.connections@.len(),
                find_block(self@.take(i as int), block_id) is None,
            decreases self.connections@.len() - i,
        {
            proof {
                assert(self@.take(i + 1).drop_last() =~= self@.take(i as int));
                assert(self@[i as int] == self.connections@[i as int]@);
            }
            let block = &self.connections[i];
            if block.id == block_id {
                proof {
                    lemma_find_block_extends(self@, block_id, i + 1);
                }
                return match find_in(&block.streams, connection.0) {
                    Some(k) => copy_messages(&block.streams[k].messages),
                    None => {
                        let none: Vec<RawMessage> = Vec::new();
                        proof {
                            assert(messages_view(none@) =~= Seq::<Seq<u8>>::empty());
                        }
                        none
                    },
                };
            }
            i += 1;
        }
        proof {
            assert(self@.take(i as int) =~= self@);
        }
        let none: Vec<RawMessage> = Vec::new();
        proof {
            assert(messages_view(none@) =~= Seq::<Seq<u8>>::empty());
        }
        none
    }

    /// Sends the messages in the block `block_id`, each to its connection,
    /// in the order given. The block becomes the newest unless it is
    /// already; with it no more than 32 blocks are kept.
    pub fn send_raw(&mut self, block_id: BlockId, messages: Vec<(ConnectionId, RawMessage)>)
        ensures
            final(self)@ == sent(old(self)@, block_id, pairs_view(messages@)),
            final(self)@.len() <= MAX_BLOCK_HEIGHT,
    {
        let ghost before = self@;
        let mut blocks = self.take_blocks();
        let connections_len = blocks.len();
        proof {
            if connections_len > 0 {
                assert(before[connections_len - 1] == blocks@[connections_len - 1]@);
            }
        }
        // ensure that the last block in the list is the block `block_id`.
        if connections_len == 0 || blocks[connections_len - 1].id != block_id {
            // remove the oldest block to never grow past the capacity.
            if connections_len == MAX_BLOCK_HEIGHT {
                let _ = blocks.pop_front();
            }
            blocks.push_back(Block { id: block_id, streams: Vec::new() });
            proof {
                assert(streams_view(Seq::<Stream>::empty()) =~= Seq::<StreamView>::empty());
            }
        }
        proof {
            assert(blocks_view(blocks@) =~= opened(before, block_id));
        }
        let ghost ready = blocks_view(blocks@);
        let mut current = match blocks.pop_back() {
            Some(block) => block,
            None => vstd::pervasive::unreached(),
        };
        proof {
            assert(blocks_view(blocks@) =~= ready.drop_last());
            assert(current@ == ready.last());
        }
        let ghost pairs = pairs_view(messages@);
        let ghost start = current@.streams;
        let mut i: usize = 0;
        while i < messages.len()
            invariant
                i <= messages@.len(),
                pairs == pairs_view(messages@),
                current.id == block_id,
                current@.streams == delivered_all(start, pairs.take(i as int)),
            decreases messages@.len() - i,
        {
            proof {
                assert(pairs.take(i + 1).drop_last() =~= pairs.take(i as int));
                assert(pairs[i as int] == (messages@[i as int].0@, messages@[i as int].1@));
            }
            let message = messages[i].1.clone();
            proof {
                assert(message@ =~= messages@[i as int].1@);
            }
            deliver(&mut current.streams, messages[i].0.0, message);
            i += 1;
        }
        proof {
            assert(pairs.take(i as int) =~= pairs);
        }
        blocks.push_back(current);
        proof {
            assert(blocks_view(blocks@) =~= sent(before, block_id, pairs));
        }
        self.put_blocks(blocks);
    }

    /// Closes the given connections: their messages go from every block.
    pub fn close_connections(&mut self, connections: Vec<ConnectionId>)
        ensures
            final(self)@ == closed_in(old(self)@, ids_view(connections@)),
            final(self)@.len() == old(self)@.len(),
    {
        let ghost before = self@;
        let ghost gone = ids_view(connections@);
        let mut blocks = self.take_blocks();
        let mut rebuilt: VecDeque<Block> = VecDeque::new();
        let ghost mut done: int = 0;
        proof {
            assert(before.take(0) =~= Seq::<BlockView>::empty());
            assert(blocks_view(rebuilt@) =~= closed_in(before.take(0), gone));
            assert(blocks_view(blocks@) =~= before.skip(0));
        }
        while blocks.len() > 0
            invariant
                0 <= done <= before.len(),
                gone == ids_view(connections@),
                blocks_view(blocks@) == before.skip(done),
                blocks_view(rebuilt@) == closed_in(before.take(done), gone),
                rebuilt@.len() == done,
                before.len() <= MAX_BLOCK_HEIGHT,
            decreases blocks@.len(),
        {
            let ghost rest = blocks@;
            proof {
                assert(blocks_view(rest).len() == rest.len());
            }
            let block = match blocks.pop_front() {
                Some(block) => block,
                None => vstd::pervasive::unreached(),
            };
            proof {
                assert(block@ == blocks_view(rest)[0]);
                assert(block@ == before.skip(done)[0]);
                assert forall|j: int| 0 <= j < blocks@.len() implies blocks_view(blocks@)[j]
                    == before.skip(done + 1)[j] by {
                    assert(blocks@[j] == rest[j + 1]);
                    assert(blocks_view(rest)[j + 1] == before.skip(done)[j + 1]);
                }
                assert(blocks_view(blocks@) =~= before.skip(done + 1));
                assert(before.take(done + 1).drop_last() =~= before.take(done));
            }
            let kept = keep_open(block.streams, &connections);
            rebuilt.push_back(Block { id: block.id, streams: kept });
            proof {
                assert(blocks_view(rebuilt@) =~= closed_in(before.take(done + 1), gone));
                done = done + 1;
            }
        }
        proof {
            assert(before.skip(done).len() == 0);
            assert(before.take(done) =~= before);
            lemma_closed_in_len(before, gone);
        }
        self.put_blocks(rebuilt);
    }
}

/// The connections of the messages, with the bytes of each message.
pub open spec fn pairs_view(messages: Seq<(ConnectionId, RawMessage)>) -> Seq<(u64, Seq<u8>)> {
    messages.map_values(|m: (ConnectionId, RawMessage)| (m.0@, m.1@))
}

/// The numbers of the connections.
pub open spec fn ids_view(connections: Seq<ConnectionId>) -> Seq<u64> {
    connections.map_values(|c: ConnectionId| c@)
}

/// The index of the first block with the number `block_id`.
pub open spec fn find_block(blocks: Seq<BlockView>, block_id: u64) -> Option<int>
    decreases blocks.len(),
{
    if blocks.len() == 0 {
        None
    } else {
        match find_block(blocks.drop_last(), block_id) {
            Some(i) => Some(i),
            None => if blocks.last().id == block_id {
                Some(blocks.len() - 1)
            } else {
                None
            },
        }
    }
}

/// The messages that the connection has in the block `block_id`.
pub open spec fn messages_in(blocks: Seq<BlockView>, block_id: u64, connection: u64) -> Seq<Seq<u8>> {
    match find_block(blocks, block_id) {
        Some(i) => match find_stream(blocks[i].streams, connection) {
            Some(k) => blocks[i].streams[k].messages,
            None => Seq::empty(),
        },
        None => Seq::empty(),
    }
}

/// A block found among the first blocks is the one found among all.
proof fn lemma_find_block_extends(blocks: Seq<BlockView>, block_id: u64, n: int)
    requires
        0 <= n <= blocks.len(),
        find_block(blocks.take(n), block_id) is Some,
    ensures
        find_block(blocks, block_id) == find_block(blocks.take(n), block_id),
    decreases blocks.len() - n,
{
    if n == blocks.len() {
        assert(blocks.take(n) =~= blocks);
    } else {
        assert(blocks.drop_last().take(n) =~= blocks.take(n));
        lemma_find_block_extends(blocks.drop_last(), block_id, n);
    }
}

/// The index that `find_stream` gives is that of a stream of the
/// connection, and no stream before it is.
pub proof fn lemma_find_stream(streams: Seq<StreamView>, connection: u64)
    ensures
        match find_stream(streams, connection) {
            Some(i) => 0 <= i < streams.len() && streams[i].connection == connection && forall|
                j: int,
            |
                0 <= j < i ==> (#[trigger] streams[j]).connection != connection,
            None => forall|j: int|
                0 <= j < streams.len() ==> (#[trigger] streams[j]).connection != connection,
        },
    decreases streams.len(),
{
    if streams.len() > 0 {
        lemma_find_stream(streams.drop_last(), connection);
        assert(forall|j: int|
            0 <= j < streams.len() - 1 ==> streams.drop_last()[j] == #[trigger] streams[j]);
    }
}

/// A stream found among the first streams is the one found among all.
proof fn lemma_find_stream_extends(streams: Seq<StreamView>, connection: u64, n: int)
    requires
        0 <= n <= streams.len(),
        find_stream(streams.take(n), connection) is Some,
    ensures
        find_stream(streams, connection) == find_stream(streams.take(n), connection),
    decreases streams.len() - n,
{
    if n == streams.len() {
        assert(streams.take(n) =~= streams);
    } else {
        assert(streams.drop_last().take(n) =~= streams.take(n));
        lemma_find_stream_extends(streams.drop_last(), connection, n);
    }
}

/// Closing connections keeps every block.
pub proof fn lemma_closed_in_len(blocks: Seq<BlockView>, closed: Seq<u64>)
    ensures
        closed_in(blocks, closed).len() == blocks.len(),
    decreases blocks.len(),
{
    if blocks.len() > 0 {
        lemma_closed_in_len(blocks.drop_last(), closed);
    }
}

/// The index of the first stream of the connection.
fn find_in(streams: &Vec<Stream>, connection: u64) -> (r: Option<usize>)
    ensures
        match r {
            Some(k) => find_stream(streams_view(streams@), connection) == Some(k as int) && k
                < streams@.len(),
            None => find_stream(streams_view(streams@), connection) is None,
        },
{
    let ghost all = streams_view(streams@);
    let mut i: usize = 0;
    while i < streams.len()
        invariant
            i <= streams@.len(),
            all == streams_view(streams@),
            find_stream(all.take(i as int), connection) is None,
        decreases streams@.len() - i,
    {
        proof {
            assert(all.take(i + 1).drop_last() =~= all.take(i as int));
            assert(all[i as int] == streams@[i as int]@);
        }
        if streams[i].connection == connection {
            proof {
                lemma_find_stream_extends(all, connection, i + 1);
            }
            return Some(i);
        }
        i += 1;
    }
    proof {
        assert(all.take(i as int) =~= all);
    }
    None
}

/// Puts the message behind the messages of the connection.
fn deliver(streams: &mut Vec<Stream>, connection: u64, message: RawMessage)
    ensures
        streams_view(final(streams)@) == delivered(streams_view(old(streams)@), connection, message@),
{
    match find_in(streams, connection) {
        Some(k) => {
            let ghost before = messages_view(streams@[k as int].messages@);
            proof {
                lemma_find_stream(streams_view(streams@), connection);
            }
            streams[k].messages.push(message);
            proof {
                assert(messages_view(streams@[k as int].messages@) =~= before.push(message@));
                assert(streams@.len() == old(streams)@.len());
                assert(streams@[k as int].connection == connection);
                assert forall|j: int| 0 <= j < streams@.len() && j != k implies streams@[j]
                    == old(streams)@[j] by {}
                assert(streams_view(streams@) =~= delivered(
                    streams_view(old(streams)@),
                    connection,
                    message@,
                ));
            }
        },
        None => {
            let mut messages: Vec<RawMessage> = Vec::new();
            messages.push(message);
            proof {
                assert(messages_view(messages@) =~= seq![message@]);
            }
            streams.push(Stream { connection, messages });
            proof {
                assert(streams_view(streams@) =~= delivered(
                    streams_view(old(streams)@),
                    connection,
                    message@,
                ));
            }
        },
    }
}

/// A copy of the messages.
fn copy_messages(messages: &Vec<RawMessage>) -> (copy: Vec<RawMessage>)
    ensures
        messages_view(copy@) == messages_view(messages@),
{
    let mut copy: Vec<RawMessage> = Vec::new();
    let mut i: usize = 0;
    while i < messages.len()
        invariant
            i <= messages@.len(),
            messages_view(copy@) == messages_view(messages@).take(i as int),
        decreases messages@.len() - i,
    {
        let message = messages[i].clone();
        let ghost before = messages_view(copy@);
        copy.push(message);
        proof {
            assert(message@ =~= messages@[i as int]@);
            assert(messages_view(copy@) =~= before.push(message@));
            assert(messages_view(messages@).take(i + 1) =~= before.push(message@));
        }
        i += 1;
    }
    proof {
        assert(messages_view(messages@).take(i as int) =~= messages_view(messages@));
    }
    copy
}

/// Whether the connection is among the given ones.
fn is_among(connections: &Vec<ConnectionId>, connection: u64) -> (r: bool)
    ensures
        r == ids_view(connections@).contains(connection),
{
    let mut i: usize = 0;
    while i < connections.len()
        invariant
            i <= connections@.len(),
            forall|j: int| 0 <= j < i ==> ids_view(connections@)[j] != connection,
        decreases connections@.len() - i,
    {
        if connections[i].0 == connection {
            proof {
                assert(ids_view(connections@)[i as int] == connection);
            }
            return true;
        }
        i += 1;
    }
    false
}

/// The streams of the connections that are not among `closed`.
fn keep_open(streams: Vec<Stream>, closed: &Vec<ConnectionId>) -> (kept: Vec<Stream>)
    ensures
        streams_view(kept@) == without(streams_view(streams@), ids_view(closed@)),
{
    let ghost all = streams_view(streams@);
    let ghost gone = ids_view(closed@);
    let mut rest = streams;
    let mut kept: Vec<Stream> = Vec::new();
    let ghost mut done: int = 0;
    proof {
        assert(all.skip(0) =~= all);
        assert(all.take(0) =~= Seq::<StreamView>::empty());
        assert(streams_view(kept@) =~= Seq::<StreamView>::empty());
    }
    while rest.len() > 0
        invariant
            0 <= done <= all.len(),
            gone == ids_view(closed@),
            streams_view(rest@) == all.skip(done),
            streams_view(kept@) == without(all.take(done), gone),
        decreases rest@.len(),
    {
        let ghost before = rest@;
        proof {
            assert(streams_view(rest@).len() == rest@.len());
        }
        let stream = rest.remove(0);
        proof {
            assert(stream@ == streams_view(before)[0]);
            assert(stream@ == all.skip(done)[0]);
            assert forall|j: int| 0 <= j < rest@.len() implies streams_view(rest@)[j] == all.skip(
                done + 1,
            )[j] by {
                assert(rest@[j] == before[j + 1]);
                assert(streams_view(before)[j + 1] == all.skip(done)[j + 1]);
            }
            assert(streams_view(rest@) =~= all.skip(done + 1));
            assert(all.take(done + 1).drop_last() =~= all.take(done));
        }
        if !is_among(closed, stream.connection) {
            let ghost kept_before = streams_view(kept@);
            kept.push(stream);
            proof {
                assert(streams_view(kept@) =~= kept_before.push(stream@));
            }
        }
        proof {
            done = done + 1;
        }
    }
    proof {
        assert(all.skip(done).len() == 0);
        assert(all.take(done) =~= all);
    }
    kept
}

} // verus!
