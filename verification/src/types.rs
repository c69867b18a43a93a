//! The records that go into and come out of a run.

use std::path::PathBuf;
use std::time::Instant;
use vstd::prelude::*;

verus! {

/// A file-system path, carried as an opaque value.
#[verifier::external_type_specification]
#[verifier::external_body]
pub struct ExPathBuf(PathBuf);

/// A reading of the monotonic clock, carried as an opaque value.
#[verifier::external_type_specification]
#[verifier::external_body]
pub struct ExInstant(Instant);

/// A 32-byte content digest.
pub type HashOutcome = [u8; 32];

/// The record produced for one file that was read to its end.
#[derive(Debug)]
pub struct FileInfo {
    pub hash: HashOutcome,
}

/// The configuration of a run.
pub struct Inputs {
    pub directory: PathBuf,
    pub threads: usize,
    pub max_fds: usize,
    pub buffer_size: usize,
    pub io_uring_ring_size: usize,
}

/// The records of a run and the instant at which it started.
pub struct Outputs {
    pub start: Instant,
    pub files: Vec<FileInfo>,
}

/// The records of all workers, one worker's after another's.
pub open spec fn merged(parts: Seq<Seq<FileInfo>>) -> Seq<FileInfo>
    decreases parts.len(),
{
    if parts.len() == 0 {
        Seq::empty()
    } else {
        merged(parts.drop_last()) + parts.last()
    }
}

/// The records that each of the workers returned, as plain sequences.
pub open spec fn parts_of(per_worker: Seq<Vec<FileInfo>>) -> Seq<Seq<FileInfo>> {
    Seq::new(per_worker.len(), |i: int| per_worker[i]@)
}

/// The number of records in all the parts together.
pub open spec fn total_len(parts: Seq<Seq<FileInfo>>) -> nat
    decreases parts.len(),
{
    if parts.len() == 0 {
        0
    } else {
        total_len(parts.drop_last()) + parts.last().len()
    }
}

/// Merging loses and adds nothing: the merged records are as many as the
/// workers returned together.
pub proof fn lemma_merged_len(parts: Seq<Seq<FileInfo>>)
    ensures
        merged(parts).len() == total_len(parts),
    decreases parts.len(),
{
    if parts.len() > 0 {
        lemma_merged_len(parts.drop_last());
    }
}

impl Outputs {
    /// The result of a run that started at `start`: the records of the
    /// workers, concatenated in the order of the workers.
    pub fn collect(start: Instant, per_worker: Vec<Vec<FileInfo>>) -> (outputs: Outputs)
        ensures
            outputs.start == start,
            outputs.files@ == merged(parts_of(per_worker@)),
    {
        let mut per_worker = per_worker;
        let ghost parts = parts_of(per_worker@);
        let mut files: Vec<FileInfo> = Vec::new();
        let mut next: usize = 0;
        while next < per_worker.len()
            invariant
                next <= per_worker@.len(),
                per_worker@.len() == parts.len(),
                forall|i: int| next <= i < parts.len() ==> (#[trigger] per_worker@[i])@ == parts[i],
                files@ == merged(parts.take(next as int)),
            decreases per_worker@.len() - next,
        {
            proof {
                let upto = parts.take(next as int + 1);
                assert(upto.drop_last() =~= parts.take(next as int));
                assert(upto.last() == parts[next as int]);
            }
            files.append(&mut per_worker[next]);
            next += 1;
        }
        assert(parts.take(parts.len() as int) =~= parts);
        Outputs { start, files }
    }
}

/// A file found by the directory source, with its size at that time.
pub struct WorkEntry {
    pub path: PathBuf,
    pub size: u64,
}

/// A read to submit: `len` bytes of the file `fd` from `offset` on, into the
/// buffer that the worker holds for that file, tagged with `fd`.
#[derive(Debug, Clone, Copy, PartialEq, Eq)]
pub struct ReadRequest {
    pub fd: i32,
    pub offset: u64,
    pub len: u32,
}

/// Why a worker refuses an event. Each is fatal to the run.
#[derive(Debug, Clone, Copy, PartialEq, Eq)]
pub enum EngineError {
    /// Every slot of the in-flight table is taken.
    TableFull,
    /// The id is already that of a file in flight.
    DuplicateCorrelation,
    /// No read is outstanding for the id of the completion.
    UnknownCorrelation,
    /// The read failed; `code` is the negative result it completed with.
    ReadFailed { code: i32 },
    /// The read delivered more than the buffer holds, than the file had left,
    /// or than an offset can count.
    Overrun,
}

} // verus!
