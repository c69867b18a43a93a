//! The throttled walker: the tree is traversed by parallel tasks, and a file
//! is opened only under a permit of a counting semaphore. The walker here
//! decides and keeps the records; its caller reads the file system and runs
//! the tasks.

use crate::digest::{blake3_digest, hash_bytes};
use crate::types::{FileInfo, HashOutcome};
use semaphore::{Semaphore, SemaphoreGuard, TryAccessError};
use std::path::PathBuf;
use vstd::prelude::*;

verus! {

/// The counting semaphore of the `semaphore` crate, carried as an opaque
/// value.
#[verifier::external_type_specification]
#[verifier::external_body]
#[verifier::reject_recursive_types(T)]
pub struct ExSemaphore<T>(Semaphore<T>);

/// A permit of that semaphore. It is given back when the value is dropped.
#[verifier::external_type_specification]
#[verifier::external_body]
#[verifier::reject_recursive_types(T)]
pub struct ExSemaphoreGuard<T>(SemaphoreGuard<T>);

/// The append-only concurrent vector of the `boxcar` crate, carried as an
/// opaque value.
#[verifier::external_type_specification]
#[verifier::external_body]
#[verifier::reject_recursive_types(T)]
pub struct ExRecordVec<T>(boxcar::Vec<T>);

/// The capacity that a semaphore was made with: the most permits that it
/// lets be held at one time.
pub uninterp spec fn semaphore_capacity(semaphore: Semaphore<()>) -> nat;

/// What one attempt to get a permit met.
pub enum PermitAttempt {
    /// A permit.
    Granted(SemaphoreGuard<()>),
    /// Every permit is held.
    NoCapacity,
    /// The semaphore was shut down.
    Shutdown,
}

/// What a task does after an attempt to get a permit.
pub enum PermitStep {
    /// Open the file, read it, and hand its content over with the permit.
    Proceed(SemaphoreGuard<()>),
    /// Yield to the scheduler and try again.
    YieldAndRetry,
    /// Give up the run.
    Abort,
}

/// What a task does with an entry of the tree.
#[derive(Debug, Clone, Copy, PartialEq, Eq)]
pub enum Visit {
    /// Hash it as a file.
    HashFile,
    /// List it and visit each child in a task of its own.
    ListDirectory,
    /// Pass it by.
    Skip,
}

/// `semaphore::Semaphore::new` around the unit value: a semaphore that lets
/// at most `capacity` permits be held at a time.
#[verifier::external_body]
fn semaphore_new(capacity: usize) -> (semaphore: Semaphore<()>)
    ensures
        semaphore_capacity(semaphore) == capacity,
{
    Semaphore::new(capacity, ())
}

/// `semaphore::Semaphore::try_access`: tries once, without blocking, to get a
/// permit. It grants one only while fewer permits are held than the
/// semaphore's capacity, so a semaphore made with no capacity grants none.
/// Which outcome comes otherwise depends on the other tasks.
#[verifier::external_body]
fn semaphore_try_access(semaphore: &Semaphore<()>) -> (attempt: PermitAttempt)
    ensures
        semaphore_capacity(*semaphore) == 0 ==> !(attempt is Granted),
{
    match semaphore.try_access() {
        Ok(permit) => PermitAttempt::Granted(permit),
        Err(TryAccessError::NoCapacity) => PermitAttempt::NoCapacity,
        Err(TryAccessError::Shutdown) => PermitAttempt::Shutdown,
    }
}

/// `boxcar::Vec::new`: an empty vector.
#[verifier::external_body]
fn records_new() -> (records: boxcar::Vec<FileInfo>) {
    boxcar::Vec::new()
}

/// `boxcar::Vec::push`: appends through a shared reference. Other tasks
/// append at the same time, so nothing is said of where the record lands.
#[verifier::external_body]
fn records_push(records: &boxcar::Vec<FileInfo>, record: FileInfo) {
    records.push(record);
}

/// `boxcar::Vec::into_iter`, collected: the records that were appended.
#[verifier::external_body]
fn records_into_vec(records: boxcar::Vec<FileInfo>) -> (files: Vec<FileInfo>) {
    records.into_iter().collect()
}

/// The number of permits for a process that may hold `max_fds` descriptors:
/// four fifths of them, rounded down.
pub open spec fn permits_for(max_fds: nat) -> nat {
    max_fds * 80 / 100
}

/// The children that a listing yields, in its order: those that could be
/// read.
pub open spec fn readable(entries: Seq<Option<PathBuf>>) -> Seq<PathBuf>
    decreases entries.len(),
{
    if entries.len() == 0 {
        Seq::empty()
    } else {
        match entries.last() {
            Some(path) => readable(entries.drop_last()).push(path),
            None => readable(entries.drop_last()),
        }
    }
}

/// The number of permits for a process that may hold `max_fds` descriptors.
pub fn permit_capacity(max_fds: usize) -> (permits: usize)
    ensures
        permits == permits_for(max_fds as nat),
        permits <= max_fds,
{
    let hundreds = max_fds / 100;
    let rest = max_fds % 100;
    hundreds * 80 + rest * 80 / 100
}

/// What a task does with an entry, given what the entry's own metadata says
/// it is: a regular file is hashed, a directory is listed, and anything else,
/// a symbolic link included, is passed by.
pub fn visit_entry(is_file: bool, is_dir: bool) -> (visit: Visit)
    ensures
        visit == (if is_file {
            Visit::HashFile
        } else if is_dir {
            Visit::ListDirectory
        } else {
            Visit::Skip
        }),
{
    if is_file {
        Visit::HashFile
    } else if is_dir {
        Visit::ListDirectory
    } else {
        Visit::Skip
    }
}

/// The children to visit for a directory: none where the directory could not
/// be listed, else every entry of the listing that could be read, in order.
pub fn visit_dir(listing: Option<Vec<Option<PathBuf>>>) -> (children: Vec<PathBuf>)
    ensures
        children@ == (match listing {
            Some(entries) => readable(entries@),
            None => Seq::empty(),
        }),
{
    let mut children: Vec<PathBuf> = Vec::new();
    match listing {
        None => {},
        Some(entries) => {
            let mut entries = entries;
            let ghost all = entries@;
            let mut next: usize = 0;
            while next < entries.len()
                invariant
                    next <= entries@.len(),
                    entries@.len() == all.len(),
                    forall|i: int| next <= i < all.len() ==> entries@[i] == all[i],
                    children@ == readable(all.take(next as int)),
                decreases entries@.len() - next,
            {
                let entry = entries[next].take();
                proof {
                    let upto = all.take(next as int + 1);
                    assert(upto.drop_last() =~= all.take(next as int));
                    assert(upto.last() == all[next as int]);
                }
                match entry {
                    Some(path) => {
                        children.push(path);
                    },
                    None => {},
                }
                next += 1;
            }
            assert(all.take(all.len() as int) =~= all);
        },
    }
    children
}

/// What a task does after an attempt to get a permit: with a permit it goes
/// on; with every permit held it yields and tries again; with the semaphore
/// shut down the run is given up.
pub fn on_permit_attempt(attempt: PermitAttempt) -> (step: PermitStep)
    ensures
        step == (match attempt {
            PermitAttempt::Granted(permit) => PermitStep::Proceed(permit),
            PermitAttempt::NoCapacity => PermitStep::YieldAndRetry,
            PermitAttempt::Shutdown => PermitStep::Abort,
        }),
{
    match attempt {
        PermitAttempt::Granted(permit) => PermitStep::Proceed(permit),
        PermitAttempt::NoCapacity => PermitStep::YieldAndRetry,
        PermitAttempt::Shutdown => PermitStep::Abort,
    }
}

/// What the tasks of one traversal share: the records and the semaphore that
/// bounds the open files.
pub struct Walker {
    all_files: boxcar::Vec<FileInfo>,
    semaphore: Semaphore<()>,
}

impl Walker {
    /// The most permits that can be held at one time.
    pub closed spec fn permit_limit(&self) -> nat {
        semaphore_capacity(self.semaphore)
    }

    /// A walker without records for a process that may hold `max_fds`
    /// descriptors.
    pub fn new(max_fds: usize) -> (walker: Self)
        ensures
            walker.permit_limit() == permits_for(max_fds as nat),
    {
        Walker { all_files: records_new(), semaphore: semaphore_new(permit_capacity(max_fds)) }
    }

    /// Tries once to get a permit and says what the task does next, as
    /// `on_permit_attempt` has it. Whether a permit is free is for the
    /// semaphore to say; a walker whose limit is zero never proceeds.
    pub fn try_permit(&self) -> (step: PermitStep)
        ensures
            self.permit_limit() == 0 ==> !(step is Proceed),
    {
        on_permit_attempt(semaphore_try_access(&self.semaphore))
    }

    /// Hashes the content of a file in one pass, keeps its record, and
    /// returns the digest that the record holds. The file was opened under
    /// `permit`, which is given back when this returns.
    pub fn visit_file(&self, permit: SemaphoreGuard<()>, content: &[u8]) -> (digest: HashOutcome)
        ensures
            digest@ == blake3_digest(content@),
    {
        let _held = permit;
        let record = hash_bytes(content);
        let digest = record.hash;
        records_push(&self.all_files, record);
        digest
    }

    /// The records of the traversal.
    pub fn into_files(self) -> (files: Vec<FileInfo>) {
        records_into_vec(self.all_files)
    }
}

} // verus!
