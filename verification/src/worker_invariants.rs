//! What every step of a batched worker preserves. The steps are those that
//! the worker's functions promise; the proofs here rest on those promises
//! alone, not on how the worker is built.

use crate::batched::{RoundEnd, WorkerView};
use crate::digest::blake3_digest;
use crate::runs::{follows, lemma_advance_follows, lemma_digest_of_content, lemma_start_follows};
use vstd::prelude::*;

verus! {

/// The worker hashes what the files hold: each file in flight under an id
/// has followed the content that `contents` gives for that id, and the
/// records so far are, in order, the digests of the contents in `finished`.
pub open spec fn tracks(
    view: WorkerView,
    contents: Map<i32, Seq<u8>>,
    finished: Seq<Seq<u8>>,
) -> bool {
    &&& contents.dom() == view.in_flight.dom()
    &&& forall|fd: i32|
        #[trigger] view.in_flight.contains_key(fd) ==> follows(
            view.in_flight[fd].progress(),
            contents[fd],
        )
    &&& view.results.len() == finished.len()
    &&& forall|i: int|
        0 <= i < finished.len() ==> (#[trigger] view.results[i]).hash@ == blake3_digest(
            finished[i],
        )
}

/// The bytes that the completion with `result` delivered for `fd` are those
/// that `content` holds at the file's offset.
pub open spec fn delivers(view: WorkerView, fd: i32, result: i32, content: Seq<u8>) -> bool {
    view.chunk(fd, result) == content.subrange(
        view.in_flight[fd].offset as int,
        view.in_flight[fd].offset + result,
    )
}

/// Taking in a file keeps the worker bounded.
pub proof fn lemma_starts_bounded(before: WorkerView, after: WorkerView, fd: i32, size: u64)
    requires
        before.bounded(),
        before.starts(after, fd, size),
    ensures
        after.bounded(),
        after.in_flight.len() == before.in_flight.len() + 1,
        after.free_buffers.len() == before.free_buffers.len() - 1,
{
    assert forall|other: i32| #[trigger] after.in_flight.contains_key(other) implies {
        &&& after.in_flight[other].wf()
        &&& after.in_flight[other].buffer@.len() == after.buffer_size
    } by {
        if other != fd {
            assert(before.in_flight.contains_key(other));
            assert(after.in_flight[other] == before.in_flight[other]);
        }
    }
}

/// Filling a buffer, which keeps its length, keeps the worker bounded.
pub proof fn lemma_refills_bounded(before: WorkerView, after: WorkerView, fd: i32, bytes: Seq<u8>)
    requires
        before.bounded(),
        before.refills(after, fd, bytes),
        bytes.len() == before.in_flight[fd].buffer@.len(),
    ensures
        after.bounded(),
        after.in_flight.len() == before.in_flight.len(),
        after.free_buffers.len() == before.free_buffers.len(),
{
    assert forall|other: i32| #[trigger] after.in_flight.contains_key(other) implies {
        &&& after.in_flight[other].wf()
        &&& after.in_flight[other].buffer@.len() == after.buffer_size
    } by {
        assert(before.in_flight.contains_key(other));
        if other != fd {
            assert(after.in_flight[other] == before.in_flight[other]);
        }
    }
}

/// A completion that finishes a file keeps the worker bounded: the table
/// gives up one entry and the pool gains one buffer.
pub proof fn lemma_finishes_bounded(before: WorkerView, after: WorkerView, fd: i32, result: i32)
    requires
        before.bounded(),
        before.finishes(after, fd, result),
    ensures
        after.bounded(),
        after.in_flight.len() == before.in_flight.len() - 1,
        after.free_buffers.len() == before.free_buffers.len() + 1,
{
    assert(before.in_flight.contains_key(fd));
    assert forall|other: i32| #[trigger] after.in_flight.contains_key(other) implies {
        &&& after.in_flight[other].wf()
        &&& after.in_flight[other].buffer@.len() == after.buffer_size
    } by {
        assert(before.in_flight.contains_key(other));
        assert(after.in_flight[other] == before.in_flight[other]);
    }
}

/// A completion that asks for the next read keeps the worker bounded: the
/// table and the pool hold as many as before.
pub proof fn lemma_resubmits_bounded(before: WorkerView, after: WorkerView, fd: i32, result: i32)
    requires
        before.bounded(),
        before.resubmits(after, fd, result),
    ensures
        after.bounded(),
        after.in_flight.len() == before.in_flight.len(),
        after.free_buffers.len() == before.free_buffers.len(),
{
    assert(before.in_flight.contains_key(fd));
    assert(before.chunk(fd, result).len() == result);
    assert forall|other: i32| #[trigger] after.in_flight.contains_key(other) implies {
        &&& after.in_flight[other].wf()
        &&& after.in_flight[other].buffer@.len() == after.buffer_size
    } by {
        assert(before.in_flight.contains_key(other));
        if other != fd {
            assert(after.in_flight[other] == before.in_flight[other]);
        }
    }
}

/// Marking the work source exhausted and starting the count of reads anew
/// keep the worker bounded.
pub proof fn lemma_flags_bounded(before: WorkerView, exhausted: bool, submitted: nat)
    requires
        before.bounded(),
    ensures
        (WorkerView { exhausted, submitted, ..before }).bounded(),
{
}

/// A file taken in is tracked from its start.
pub proof fn lemma_starts_tracks(
    before: WorkerView,
    after: WorkerView,
    fd: i32,
    size: u64,
    contents: Map<i32, Seq<u8>>,
    finished: Seq<Seq<u8>>,
    content: Seq<u8>,
)
    requires
        tracks(before, contents, finished),
        before.starts(after, fd, size),
        content.len() == size,
    ensures
        tracks(after, contents.insert(fd, content), finished),
{
    lemma_start_follows(content);
    let now = contents.insert(fd, content);
    assert(now.dom() =~= after.in_flight.dom());
    assert forall|other: i32| #[trigger] after.in_flight.contains_key(other) implies follows(
        after.in_flight[other].progress(),
        now[other],
    ) by {
        if other != fd {
            assert(before.in_flight.contains_key(other));
            assert(after.in_flight[other] == before.in_flight[other]);
        }
    }
}

/// Filling a buffer changes nothing of what was hashed.
pub proof fn lemma_refills_tracks(
    before: WorkerView,
    after: WorkerView,
    fd: i32,
    bytes: Seq<u8>,
    contents: Map<i32, Seq<u8>>,
    finished: Seq<Seq<u8>>,
)
    requires
        tracks(before, contents, finished),
        before.refills(after, fd, bytes),
    ensures
        tracks(after, contents, finished),
{
    assert forall|other: i32| #[trigger] after.in_flight.contains_key(other) implies follows(
        after.in_flight[other].progress(),
        contents[other],
    ) by {
        assert(before.in_flight.contains_key(other));
        if other != fd {
            assert(after.in_flight[other] == before.in_flight[other]);
        }
    }
}

/// A completion that delivers the bytes of the file's content and asks for
/// the next read leaves the file tracked.
pub proof fn lemma_resubmits_tracks(
    before: WorkerView,
    after: WorkerView,
    fd: i32,
    result: i32,
    contents: Map<i32, Seq<u8>>,
    finished: Seq<Seq<u8>>,
)
    requires
        tracks(before, contents, finished),
        before.resubmits(after, fd, result),
        delivers(before, fd, result, contents[fd]),
    ensures
        tracks(after, contents, finished),
{
    assert(before.in_flight.contains_key(fd));
    assert(before.chunk(fd, result).len() == result);
    lemma_advance_follows(
        before.in_flight[fd].progress(),
        contents[fd],
        before.chunk(fd, result),
    );
    assert forall|other: i32| #[trigger] after.in_flight.contains_key(other) implies follows(
        after.in_flight[other].progress(),
        contents[other],
    ) by {
        assert(before.in_flight.contains_key(other));
        if other != fd {
            assert(after.in_flight[other] == before.in_flight[other]);
        }
    }
}

/// Digest correctness: a completion that delivers the last bytes of the
/// file's content appends the digest of the whole content.
pub proof fn lemma_finishes_tracks(
    before: WorkerView,
    after: WorkerView,
    fd: i32,
    result: i32,
    contents: Map<i32, Seq<u8>>,
    finished: Seq<Seq<u8>>,
)
    requires
        tracks(before, contents, finished),
        before.finishes(after, fd, result),
        delivers(before, fd, result, contents[fd]),
    ensures
        after.results.last().hash@ == blake3_digest(contents[fd]),
        tracks(after, contents.remove(fd), finished.push(contents[fd])),
{
    assert(before.in_flight.contains_key(fd));
    assert(before.chunk(fd, result).len() == result);
    let reached = before.reached(fd, result);
    lemma_advance_follows(
        before.in_flight[fd].progress(),
        contents[fd],
        before.chunk(fd, result),
    );
    lemma_digest_of_content(reached, contents[fd]);
    let now = contents.remove(fd);
    let done = finished.push(contents[fd]);
    assert(now.dom() =~= after.in_flight.dom());
    assert forall|other: i32| #[trigger] after.in_flight.contains_key(other) implies follows(
        after.in_flight[other].progress(),
        now[other],
    ) by {
        assert(before.in_flight.contains_key(other));
        assert(after.in_flight[other] == before.in_flight[other]);
    }
    assert forall|i: int| 0 <= i < done.len() implies (#[trigger] after.results[i]).hash@
        == blake3_digest(done[i]) by {
        if i < finished.len() {
            assert(after.results[i] == after.results.drop_last()[i]);
            assert(before.results[i].hash@ == blake3_digest(finished[i]));
        }
    }
}

/// A round never ends in a deadlock nor in a busy spin: the worker blocks
/// only while a read is outstanding, whose completion wakes it, and a round
/// that asked for no read goes on at once only when the worker is done.
pub proof fn lemma_round_end(view: WorkerView)
    requires
        view.bounded(),
    ensures
        view.round_end() == RoundEnd::Wait ==> view.in_flight.len() > 0,
        view.submitted == 0 && !view.done() ==> view.round_end() != RoundEnd::Proceed,
        view.in_flight.len() == view.ring_capacity && view.ring_capacity > 0 && view.submitted
            == 0 ==> view.round_end() == RoundEnd::Wait,
{
}

/// Completeness and correctness at the end of a run: a worker that is done
/// and has tracked its files has exactly one record for each file that it
/// took in, and the records are, in the order in which the files finished,
/// the digests of the whole contents of those files.
pub proof fn lemma_done_records(
    view: WorkerView,
    contents: Map<i32, Seq<u8>>,
    finished: Seq<Seq<u8>>,
)
    requires
        view.bounded(),
        view.done(),
        tracks(view, contents, finished),
    ensures
        finished.len() == view.admitted,
        view.results.len() == view.admitted,
        view.free_buffers.len() == view.ring_capacity,
        forall|i: int|
            0 <= i < view.results.len() ==> (#[trigger] view.results[i]).hash@ == blake3_digest(
                finished[i],
            ),
{
}

} // verus!
