//! What holds of the whole run of one file through an engine, from its first
//! read to its record.

use crate::digest::blake3_digest;
use crate::in_flight::Progress;
use vstd::prelude::*;

verus! {

/// The number of reads of `buffer_size` bytes that it takes to cover `size`
/// bytes: the quotient, rounded up.
pub open spec fn reads_needed(size: nat, buffer_size: nat) -> nat {
    ((size + buffer_size - 1) / (buffer_size as int)) as nat
}

/// The reads that the batched engine issues for a file of `size` bytes: one
/// when the file is taken in, and one more after each completion that leaves
/// bytes to read. An empty file costs the one read that finds it empty.
pub open spec fn batched_reads(size: nat, buffer_size: nat) -> nat {
    if size == 0 {
        1
    } else {
        reads_needed(size, buffer_size)
    }
}

/// The reads that the single-request engine issues for a file of `size`
/// bytes. An empty file costs none.
pub open spec fn sequential_reads(size: nat, buffer_size: nat) -> nat {
    reads_needed(size, buffer_size)
}

/// The bytes that a read of `buffer_size` bytes at `offset` delivers from a
/// file that holds `content`, when the read is served in full.
pub open spec fn delivered(content: Seq<u8>, offset: nat, buffer_size: nat) -> Seq<u8> {
    if offset >= content.len() {
        Seq::empty()
    } else if offset + buffer_size >= content.len() {
        content.subrange(offset as int, content.len() as int)
    } else {
        content.subrange(offset as int, (offset + buffer_size) as int)
    }
}

/// The progress of a file that holds `content` after `reads` of its reads
/// have completed, each served in full.
pub open spec fn after_reads(content: Seq<u8>, buffer_size: nat, reads: nat) -> Progress
    decreases reads,
{
    if reads == 0 {
        Progress::start(content.len())
    } else {
        let before = after_reads(content, buffer_size, (reads - 1) as nat);
        before.advance(delivered(content, before.offset, buffer_size))
    }
}

/// The progress is that of a file holding `content`: what was folded in so
/// far is the content before the offset.
pub open spec fn follows(progress: Progress, content: Seq<u8>) -> bool {
    &&& progress.target == content.len()
    &&& progress.offset <= content.len()
    &&& progress.absorbed == content.subrange(0, progress.offset as int)
}

/// Hashing follows the content from the start.
pub proof fn lemma_start_follows(content: Seq<u8>)
    ensures
        follows(Progress::start(content.len()), content),
{
    assert(content.subrange(0, 0) =~= Seq::<u8>::empty());
}

/// Hashing keeps following the content through every read that delivers the
/// bytes at the current offset, however many they are.
pub proof fn lemma_advance_follows(progress: Progress, content: Seq<u8>, chunk: Seq<u8>)
    requires
        follows(progress, content),
        progress.offset + chunk.len() <= content.len(),
        chunk == content.subrange(
            progress.offset as int,
            (progress.offset + chunk.len()) as int,
        ),
    ensures
        follows(progress.advance(chunk), content),
{
    assert(progress.absorbed + chunk =~= content.subrange(
        0,
        (progress.offset + chunk.len()) as int,
    ));
}

/// Digest correctness: when hashing that has followed the content reaches the
/// file's length, the digest is that of the whole content hashed in one pass.
pub proof fn lemma_digest_of_content(progress: Progress, content: Seq<u8>)
    requires
        follows(progress, content),
        progress.complete(),
    ensures
        progress.absorbed == content,
        progress.digest() == blake3_digest(content),
{
    assert(content.subrange(0, content.len() as int) =~= content);
}

proof fn lemma_step(reads: nat, buffer_size: nat)
    requires
        reads > 0,
    ensures
        (reads - 1) * buffer_size + buffer_size == reads * buffer_size,
        (reads - 1) * buffer_size <= reads * buffer_size,
        reads * buffer_size >= 0,
{
    assert((reads - 1) * buffer_size + buffer_size == reads * buffer_size) by (nonlinear_arith);
    assert(reads * buffer_size >= 0) by (nonlinear_arith);
}

proof fn lemma_monotone(fewer: nat, more: nat, buffer_size: nat)
    requires
        fewer <= more,
    ensures
        fewer * buffer_size <= more * buffer_size,
{
    assert(fewer * buffer_size <= more * buffer_size) by (nonlinear_arith)
        requires
            fewer <= more,
    ;
}

proof fn lemma_reads_needed(size: nat, buffer_size: nat)
    requires
        size > 0,
        buffer_size > 0,
    ensures
        reads_needed(size, buffer_size) >= 1,
        reads_needed(size, buffer_size) * buffer_size >= size,
        (reads_needed(size, buffer_size) - 1) * buffer_size < size,
{
    let total = size + buffer_size - 1;
    let quotient = total / (buffer_size as int);
    let rest = total % (buffer_size as int);
    assert(total == quotient * buffer_size + rest && 0 <= rest < buffer_size) by (nonlinear_arith)
        requires
            buffer_size > 0,
            total >= 0,
            quotient == total / (buffer_size as int),
            rest == total % (buffer_size as int),
    ;
    assert(quotient >= 1) by (nonlinear_arith)
        requires
            total == quotient * buffer_size + rest,
            0 <= rest < buffer_size,
            total >= buffer_size,
            buffer_size > 0,
    ;
    assert((quotient - 1) * buffer_size == quotient * buffer_size - buffer_size)
        by (nonlinear_arith);
}

/// After any number of reads served in full, hashing has followed the
/// content up to that many buffers, or to the end of the file if that comes
/// first.
pub proof fn lemma_after_reads(content: Seq<u8>, buffer_size: nat, reads: nat)
    ensures
        follows(after_reads(content, buffer_size, reads), content),
        after_reads(content, buffer_size, reads).offset == (if reads * buffer_size
            <= content.len() {
            reads * buffer_size
        } else {
            content.len()
        }),
    decreases reads,
{
    if reads == 0 {
        lemma_start_follows(content);
    } else {
        lemma_after_reads(content, buffer_size, (reads - 1) as nat);
        lemma_step(reads, buffer_size);
        let before = after_reads(content, buffer_size, (reads - 1) as nat);
        let chunk = delivered(content, before.offset, buffer_size);
        if before.offset >= content.len() {
            assert(chunk =~= content.subrange(before.offset as int, before.offset as int));
        }
        lemma_advance_follows(before, content, chunk);
    }
}

/// The read-count law: a file that is not empty, read with a buffer that is
/// not empty and served in full, is finished by the completion of its
/// `reads_needed`-th read and by none before it. Every completion before
/// that one asks for one more read, and it asks for none: the reads issued
/// are `reads_needed`, with no trailing read at the end of the file.
pub proof fn lemma_read_count(content: Seq<u8>, buffer_size: nat)
    requires
        content.len() > 0,
        buffer_size > 0,
    ensures
        batched_reads(content.len(), buffer_size) == reads_needed(content.len(), buffer_size),
        after_reads(content, buffer_size, reads_needed(content.len(), buffer_size)).complete(),
        forall|reads: nat|
            reads < reads_needed(content.len(), buffer_size) ==> !(#[trigger] after_reads(
                content,
                buffer_size,
                reads,
            )).complete(),
        forall|reads: nat|
            reads < reads_needed(content.len(), buffer_size) ==> 0 < delivered(
                content,
                (#[trigger] after_reads(content, buffer_size, reads)).offset,
                buffer_size,
            ).len() <= buffer_size,
{
    let needed = reads_needed(content.len(), buffer_size);
    lemma_reads_needed(content.len(), buffer_size);
    lemma_after_reads(content, buffer_size, needed);
    assert forall|reads: nat| reads < needed implies !(#[trigger] after_reads(
        content,
        buffer_size,
        reads,
    )).complete() by {
        lemma_after_reads(content, buffer_size, reads);
        lemma_monotone(reads, (needed - 1) as nat, buffer_size);
    }
    assert forall|reads: nat| reads < needed implies 0 < delivered(
        content,
        (#[trigger] after_reads(content, buffer_size, reads)).offset,
        buffer_size,
    ).len() <= buffer_size by {
        lemma_after_reads(content, buffer_size, reads);
        lemma_monotone(reads, (needed - 1) as nat, buffer_size);
    }
}

/// An empty file is finished by the completion of the one read that the
/// batched engine issues for it, which delivers nothing.
pub proof fn lemma_empty_file(content: Seq<u8>, buffer_size: nat)
    requires
        content.len() == 0,
    ensures
        batched_reads(content.len(), buffer_size) == 1,
        sequential_reads(content.len(), buffer_size) == 0 || buffer_size == 0,
        after_reads(content, buffer_size, 1).complete(),
        after_reads(content, buffer_size, 1).absorbed == Seq::<u8>::empty(),
        after_reads(content, buffer_size, 1).digest() == blake3_digest(Seq::<u8>::empty()),
{
    lemma_after_reads(content, buffer_size, 1);
    lemma_digest_of_content(after_reads(content, buffer_size, 1), content);
    assert(content =~= Seq::<u8>::empty());
    if buffer_size > 0 {
        assert((buffer_size - 1) / (buffer_size as int) == 0) by (nonlinear_arith)
            requires
                buffer_size > 0,
        ;
    }
}

/// Consistency across engines and buffer sizes: for one content, the digest
/// that the batched engine reaches with one buffer size, the digest that the
/// single-request engine reaches with another, and the digest of the content
/// hashed in one pass, as the walker does, are the same.
pub proof fn lemma_engines_agree(content: Seq<u8>, batched_buffer: nat, sequential_buffer: nat)
    requires
        batched_buffer > 0,
        sequential_buffer > 0,
    ensures
        after_reads(
            content,
            batched_buffer,
            batched_reads(content.len(), batched_buffer),
        ).complete(),
        after_reads(
            content,
            batched_buffer,
            batched_reads(content.len(), batched_buffer),
        ).digest() == blake3_digest(content),
        after_reads(
            content,
            sequential_buffer,
            sequential_reads(content.len(), sequential_buffer),
        ).complete(),
        after_reads(
            content,
            sequential_buffer,
            sequential_reads(content.len(), sequential_buffer),
        ).digest() == blake3_digest(content),
{
    let batched = after_reads(
        content,
        batched_buffer,
        batched_reads(content.len(), batched_buffer),
    );
    let sequential = after_reads(
        content,
        sequential_buffer,
        sequential_reads(content.len(), sequential_buffer),
    );
    lemma_after_reads(content, batched_buffer, batched_reads(content.len(), batched_buffer));
    lemma_after_reads(
        content,
        sequential_buffer,
        sequential_reads(content.len(), sequential_buffer),
    );
    if content.len() == 0 {
        lemma_empty_file(content, batched_buffer);
        lemma_empty_file(content, sequential_buffer);
    } else {
        lemma_read_count(content, batched_buffer);
        lemma_read_count(content, sequential_buffer);
    }
    lemma_digest_of_content(batched, content);
    lemma_digest_of_content(sequential, content);
}

} // verus!
