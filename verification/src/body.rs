//! Request bodies, collected chunk by chunk under a limit.

use bytes::{Bytes, BytesMut};
use vstd::prelude::*;

verus! {

#[verifier::external_type_specification]
#[verifier::external_body]
pub struct ExBytesMut(bytes::BytesMut);

#[verifier::external_type_specification]
#[verifier::external_body]
pub struct ExBytes(bytes::Bytes);

/// What a buffer holds.
pub uninterp spec fn buffer_contents(buffer: BytesMut) -> Seq<u8>;

/// The bytes of a frozen buffer.
pub uninterp spec fn frozen_contents(bytes: Bytes) -> Seq<u8>;

/// The largest capacity that a buffer is given before anything is read, in bytes.
pub const FIRST_CAPACITY: usize = 8 * 1024;

/// A number of bytes that a growing buffer can hold on this machine.
pub open spec fn bufferable(length: nat) -> bool {
    2 * length <= isize::MAX
}

/// `BytesMut::with_capacity`: an empty buffer. It panics on a capacity that no machine has.
#[verifier::external_body]
fn new_buffer(capacity: usize) -> (r: BytesMut)
    requires
        bufferable(capacity as nat),
    ensures
        buffer_contents(r) == Seq::<u8>::empty(),
{
    BytesMut::with_capacity(capacity)
}

/// `BytesMut::len`: the number of bytes in the buffer.
#[verifier::external_body]
fn buffer_len(buffer: &BytesMut) -> (r: usize)
    ensures
        r == buffer_contents(*buffer).len(),
{
    buffer.len()
}

/// `BytesMut::extend_from_slice`: the bytes come behind those of the buffer. It panics where the
/// buffer would outgrow the machine.
#[verifier::external_body]
fn extend_buffer(buffer: &mut BytesMut, chunk: &[u8])
    requires
        bufferable(buffer_contents(*old(buffer)).len() + chunk@.len()),
    ensures
        buffer_contents(*final(buffer)) == buffer_contents(*old(buffer)) + chunk@,
{
    buffer.extend_from_slice(chunk);
}

/// `BytesMut::freeze`: the bytes of the buffer.
#[verifier::external_body]
fn freeze_buffer(buffer: BytesMut) -> (r: Bytes)
    ensures
        frozen_contents(r) == buffer_contents(buffer),
{
    buffer.freeze()
}

/// Why a request body could not be collected.
#[derive(Debug, PartialEq, Eq)]
pub enum BodyCollectError {
    /// A chunk could not be read, for the given reason.
    Io(String),
    /// The body exceeds its limit.
    TooLarge,
}

/// A request body on its way in.
pub struct BodyCollector {
    buffer: BytesMut,
    limit: usize,
}

/// What a [`BodyCollector`] holds.
#[verifier::ext_equal]
pub struct CollectorView {
    pub received: Seq<u8>,
    pub limit: usize,
}

impl View for BodyCollector {
    type V = CollectorView;

    closed spec fn view(&self) -> CollectorView {
        CollectorView { received: buffer_contents(self.buffer), limit: self.limit }
    }
}

impl CollectorView {
    /// Whether the limit leaves room for the chunk.
    pub open spec fn admits(self, chunk: Seq<u8>) -> bool {
        self.received.len() + chunk.len() <= self.limit
    }

    /// What is held once a chunk has been taken in.
    pub open spec fn with(self, chunk: Seq<u8>) -> CollectorView {
        CollectorView { received: self.received + chunk, limit: self.limit }
    }

    /// What is held once chunks have been taken in one after the other, as long as the limit
    /// admits each; `None` once it does not.
    pub open spec fn with_all(self, chunks: Seq<Seq<u8>>) -> Option<CollectorView>
        decreases chunks.len(),
    {
        if chunks.len() == 0 {
            Some(self)
        } else {
            match self.with_all(chunks.drop_last()) {
                Some(before) => if before.admits(chunks.last()) {
                    Some(before.with(chunks.last()))
                } else {
                    None
                },
                None => None,
            }
        }
    }
}

impl BodyCollector {
    /// A collector for a body of at most `limit` bytes.
    pub fn new(limit: usize) -> (r: BodyCollector)
        ensures
            r@ == (CollectorView { received: Seq::empty(), limit }),
    {
        let capacity: usize = if limit < FIRST_CAPACITY {
            limit
        } else {
            FIRST_CAPACITY
        };
        BodyCollector { buffer: new_buffer(capacity), limit }
    }

    /// Whether the machine can hold `more` bytes besides those received, if the limit leaves room
    /// for them at all.
    pub fn can_hold(&self, more: usize) -> (r: bool)
        ensures
            r == (self@.received.len() + more <= self@.limit ==> bufferable(
                self@.received.len() + more as nat,
            )),
    {
        let most: usize = (isize::MAX / 2) as usize;
        let held: usize = buffer_len(&self.buffer);
        let admitted = more <= self.limit && held <= self.limit - more;
        !admitted || (held <= most && more <= most - held)
    }

    /// Takes in the next chunk, or the reason why it could not be read. A chunk that the limit
    /// does not admit is refused, and nothing of it is kept.
    pub fn take_chunk(&mut self, chunk: Result<&[u8], String>) -> (r: Result<(), BodyCollectError>)
        requires
            chunk matches Ok(bytes) ==> old(self)@.admits(bytes@) ==> bufferable(
                old(self)@.received.len() + bytes@.len(),
            ),
        ensures
            match chunk {
                Err(reason) => {
                    &&& r == Err::<(), BodyCollectError>(BodyCollectError::Io(reason))
                    &&& final(self)@ == old(self)@
                },
                Ok(bytes) => if old(self)@.admits(bytes@) {
                    &&& r is Ok
                    &&& final(self)@ == old(self)@.with(bytes@)
                } else {
                    &&& r == Err::<(), BodyCollectError>(BodyCollectError::TooLarge)
                    &&& final(self)@ == old(self)@
                },
            },
    {
        match chunk {
            Err(reason) => Err(BodyCollectError::Io(reason)),
            Ok(bytes) => {
                if bytes.len() > self.limit || buffer_len(&self.buffer) > self.limit - bytes.len() {
                    return Err(BodyCollectError::TooLarge);
                }
                extend_buffer(&mut self.buffer, bytes);
                Ok(())
            },
        }
    }

    /// The body as received.
    pub fn finish(self) -> (r: Bytes)
        ensures
            frozen_contents(r) == self@.received,
    {
        freeze_buffer(self.buffer)
    }
}

/// Chunks one after the other.
pub open spec fn concatenated(chunks: Seq<Seq<u8>>) -> Seq<u8>
    decreases chunks.len(),
{
    if chunks.len() == 0 {
        Seq::empty()
    } else {
        concatenated(chunks.drop_last()) + chunks.last()
    }
}

/// A body is taken in exactly if all of it together keeps to the limit, however it is cut into
/// chunks, and it comes out as it came in.
pub proof fn limit_holds_for_the_whole_body(limit: usize, chunks: Seq<Seq<u8>>)
    ensures
        ({
            let start = CollectorView { received: Seq::empty(), limit };
            start.with_all(chunks) == if concatenated(chunks).len() <= limit {
                Some(CollectorView { received: concatenated(chunks), limit })
            } else {
                None
            }
        }),
    decreases chunks.len(),
{
    if chunks.len() > 0 {
        limit_holds_for_the_whole_body(limit, chunks.drop_last());
    }
}

/// A chunk that is taken in comes in full behind what was received before, and leaves the limit
/// as it is.
pub proof fn chunk_is_kept_in_full(before: CollectorView, chunk: Seq<u8>)
    ensures
        before.with(chunk).limit == before.limit,
        before.with(chunk).received.len() == before.received.len() + chunk.len(),
        forall|i: int|
            0 <= i < before.received.len() ==> #[trigger] before.with(chunk).received[i]
                == before.received[i],
        forall|i: int|
            0 <= i < chunk.len() ==> before.with(chunk).received[before.received.len() + i]
                == #[trigger] chunk[i],
{
}

/// The limit admits a chunk exactly if what is held with it is no longer than the limit: a body
/// of exactly that length is taken, one that is a byte longer is not.
pub proof fn limit_is_the_longest_body(before: CollectorView, chunk: Seq<u8>)
    ensures
        before.admits(chunk) <==> before.with(chunk).received.len() <= before.limit,
        before.received.len() + chunk.len() == before.limit ==> before.admits(chunk),
        before.received.len() + chunk.len() == before.limit + 1 ==> !before.admits(chunk),
{
}

/// Chunks one after the other hold the bytes of the chunks in their order, however they are
/// grouped; one chunk is itself, and none are the empty body.
pub proof fn chunks_follow_one_another(first: Seq<Seq<u8>>, second: Seq<Seq<u8>>, chunk: Seq<u8>)
    ensures
        concatenated(first + second) == concatenated(first) + concatenated(second),
        concatenated(seq![chunk]) == chunk,
        concatenated(Seq::empty()) == Seq::<u8>::empty(),
    decreases second.len(),
{
    reveal_with_fuel(concatenated, 2);
    assert(seq![chunk].drop_last() =~= Seq::<Seq<u8>>::empty());
    assert(Seq::<u8>::empty() + chunk =~= chunk);
    if second.len() > 0 {
        chunks_follow_one_another(first, second.drop_last(), chunk);
        assert((first + second).drop_last() =~= first + second.drop_last());
        assert((first + second).last() == second.last());
        assert(concatenated(first + second) =~= concatenated(first) + concatenated(second));
    } else {
        assert(first + second =~= first);
        assert(concatenated(first) + concatenated(second) =~= concatenated(first));
    }
}

/// A new collector has received nothing and has the limit that it was given.
pub proof fn new_collector_is_empty(limit: usize, collector: BodyCollector)
    requires
        call_ensures(BodyCollector::new, (limit,), collector),
    ensures
        collector@.received.len() == 0,
        collector@.limit == limit,
{
}

/// A chunk is taken in full exactly if the body stays within the limit with it. A chunk that
/// exceeds the limit is refused as too large, and one that could not be read for the reason that
/// it could not; what was received before stays as it is then.
pub proof fn chunk_is_taken_in_full_or_refused(
    collector: &mut BodyCollector,
    chunk: Result<&[u8], String>,
    r: Result<(), BodyCollectError>,
)
    requires
        call_ensures(BodyCollector::take_chunk, (collector, chunk), r),
    ensures
        final(collector)@.limit == old(collector)@.limit,
        chunk is Ok && old(collector)@.received.len() + chunk->Ok_0@.len() <= old(collector)@.limit
            ==> r is Ok && final(collector)@.received == old(collector)@.received + chunk->Ok_0@,
        chunk is Ok && old(collector)@.received.len() + chunk->Ok_0@.len() > old(collector)@.limit
            ==> r == Err::<(), BodyCollectError>(BodyCollectError::TooLarge)
            && final(collector)@.received == old(collector)@.received,
        chunk is Err ==> r == Err::<(), BodyCollectError>(BodyCollectError::Io(chunk->Err_0))
            && final(collector)@.received == old(collector)@.received,
{
}

/// The body that comes out of a collector is what was received, in full.
pub proof fn body_comes_out_as_received(collector: BodyCollector, body: Bytes)
    requires
        call_ensures(BodyCollector::finish, (collector,), body),
    ensures
        frozen_contents(body) == collector@.received,
{
}

} // verus!
