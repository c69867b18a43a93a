//! The batched engine: one worker keeps up to a ring's capacity of reads in
//! flight. The worker here decides; its caller opens the files, submits the
//! reads it is told to, and reports each completion.

use crate::buffer_pool::{zeroed, ReuseBuffers};
use crate::in_flight::{HashingState, HashingStateMap, Progress};
use crate::types::{EngineError, FileInfo, ReadRequest, WorkEntry};
use crate::work_source::{try_pull, Polled};
use crossbeam::channel::Receiver;
use vstd::prelude::*;

verus! {

/// What the admission phase does next.
pub enum Admission {
    /// Open this file and start it.
    Open(WorkEntry),
    /// Take in no more files in this round.
    Hold,
}

/// What a completed read led to.
#[derive(Debug, Clone, Copy, PartialEq, Eq)]
pub enum Completion {
    /// The file is hashed and its record appended; close `fd`.
    Finished { fd: i32 },
    /// The file has bytes left; submit this read.
    Resubmit(ReadRequest),
}

/// How a round of admission and completion ends.
#[derive(Debug, Clone, Copy, PartialEq, Eq)]
pub enum RoundEnd {
    /// Block until a completion is ready.
    Wait,
    /// Yield the thread, then look for work again.
    Yield,
    /// Go on at once.
    Proceed,
}

/// What a worker holds, as plain values.
pub struct WorkerView {
    /// The files with a read outstanding, by correlation id.
    pub in_flight: Map<i32, HashingState>,
    /// The contents of the free buffers, the next one handed out last.
    pub free_buffers: Seq<Seq<u8>>,
    /// The records produced so far, oldest first.
    pub results: Seq<FileInfo>,
    /// The work source will send no more.
    pub exhausted: bool,
    /// The reads asked for in the current round.
    pub submitted: nat,
    /// The most files that can be in flight at once.
    pub ring_capacity: nat,
    /// The length of every buffer and of every read.
    pub buffer_size: nat,
    /// The files admitted since the worker was made.
    pub admitted: nat,
}

impl WorkerView {
    /// The bytes that a completion with `result` delivered for `fd`.
    pub open spec fn chunk(self, fd: i32, result: i32) -> Seq<u8> {
        self.in_flight[fd].buffer@.subrange(0, result as int)
    }

    /// The error that refuses the admission of `fd`, if one does.
    pub open spec fn admission_error(self, fd: i32) -> Option<EngineError> {
        if self.in_flight.len() >= self.ring_capacity {
            Some(EngineError::TableFull)
        } else if self.in_flight.contains_key(fd) {
            Some(EngineError::DuplicateCorrelation)
        } else {
            None
        }
    }

    /// The error that refuses a completion for `fd` with `result`, if one
    /// does.
    pub open spec fn completion_error(self, fd: i32, result: i32) -> Option<EngineError> {
        if result < 0 {
            Some(EngineError::ReadFailed { code: result })
        } else if !self.in_flight.contains_key(fd) {
            Some(EngineError::UnknownCorrelation)
        } else if result > self.buffer_size || self.in_flight[fd].offset + result
            > self.in_flight[fd].len {
            Some(EngineError::Overrun)
        } else {
            None
        }
    }

    /// What a completion for `fd` with `result` returns.
    pub open spec fn completion(self, fd: i32, result: i32) -> Result<Completion, EngineError> {
        match self.completion_error(fd, result) {
            Some(error) => Err(error),
            None => {
                let state = self.in_flight[fd];
                if state.offset + result == state.len {
                    Ok(Completion::Finished { fd })
                } else {
                    Ok(
                        Completion::Resubmit(
                            ReadRequest {
                                fd,
                                offset: (state.offset + result) as u64,
                                len: self.buffer_size as u32,
                            },
                        ),
                    )
                }
            },
        }
    }

    /// How a round ends: blocked where nothing was asked for and reads are
    /// outstanding, yielding where none is outstanding and work may still
    /// come, and at once otherwise.
    pub open spec fn round_end(self) -> RoundEnd {
        if self.submitted == 0 && self.in_flight.len() > 0 {
            RoundEnd::Wait
        } else if self.in_flight.len() == 0 && !self.exhausted {
            RoundEnd::Yield
        } else {
            RoundEnd::Proceed
        }
    }

    /// The work source is exhausted and no read is outstanding.
    pub open spec fn done(self) -> bool {
        self.exhausted && self.in_flight.len() == 0
    }

    /// One more read counted, up to the largest count that is kept.
    pub open spec fn counted(self) -> nat {
        if self.submitted < usize::MAX {
            self.submitted + 1
        } else {
            self.submitted
        }
    }

    /// Going from this view to `after`, every file in flight but the one
    /// under `fd` is as it was, and so are the settings.
    pub open spec fn keeps_others(self, after: WorkerView, fd: i32) -> bool {
        &&& forall|other: i32|
            other != fd && self.in_flight.contains_key(other) ==> #[trigger] after.in_flight[other]
                == self.in_flight[other]
        &&& after.exhausted == self.exhausted
        &&& after.ring_capacity == self.ring_capacity
        &&& after.buffer_size == self.buffer_size
    }

    /// The step from this view to `after` takes in the file `fd` of `size`
    /// bytes: it enters the table at offset zero with nothing hashed, holding
    /// the buffer that was handed out next, and its first read is counted.
    pub open spec fn starts(self, after: WorkerView, fd: i32, size: u64) -> bool {
        &&& self.admission_error(fd) is None
        &&& self.keeps_others(after, fd)
        &&& after.in_flight.dom() == self.in_flight.dom().insert(fd)
        &&& after.in_flight[fd].progress() == Progress::start(size as nat)
        &&& after.in_flight[fd].buffer@ == self.free_buffers.last()
        &&& after.free_buffers == self.free_buffers.drop_last()
        &&& after.results == self.results
        &&& after.submitted == self.counted()
        &&& after.admitted == self.admitted + 1
    }

    /// The step from this view to `after` puts `bytes` into the buffer of the
    /// file in flight under `fd` and changes nothing else.
    pub open spec fn refills(self, after: WorkerView, fd: i32, bytes: Seq<u8>) -> bool {
        &&& self.in_flight.contains_key(fd)
        &&& self.keeps_others(after, fd)
        &&& after.in_flight.dom() == self.in_flight.dom()
        &&& after.in_flight[fd].buffer@ == bytes
        &&& after.in_flight[fd].progress() == self.in_flight[fd].progress()
        &&& after.free_buffers == self.free_buffers
        &&& after.results == self.results
        &&& after.submitted == self.submitted
        &&& after.admitted == self.admitted
    }

    /// The progress that the file under `fd` reaches by a completion with
    /// `result`: the bytes delivered are folded in and the offset is past
    /// them.
    pub open spec fn reached(self, fd: i32, result: i32) -> Progress {
        self.in_flight[fd].progress().advance(self.chunk(fd, result))
    }

    /// The step from this view to `after` takes a completion that finishes
    /// the file under `fd`: the file leaves the table, its buffer is the next
    /// one handed out, and its record, the digest of all its bytes, is
    /// appended.
    pub open spec fn finishes(self, after: WorkerView, fd: i32, result: i32) -> bool {
        &&& self.completion(fd, result) == Ok::<Completion, EngineError>(
            Completion::Finished { fd },
        )
        &&& self.keeps_others(after, fd)
        &&& after.in_flight.dom() == self.in_flight.dom().remove(fd)
        &&& after.free_buffers == self.free_buffers.push(self.in_flight[fd].buffer@)
        &&& after.results.len() == self.results.len() + 1
        &&& after.results.drop_last() == self.results
        &&& after.results.last().hash@ == self.reached(fd, result).digest()
        &&& after.submitted == self.submitted
        &&& after.admitted == self.admitted
    }

    /// The step from this view to `after` takes a completion that leaves the
    /// file under `fd` with bytes to read: the file stays in the table with
    /// its buffer, further on, and its next read is counted.
    pub open spec fn resubmits(self, after: WorkerView, fd: i32, result: i32) -> bool {
        &&& self.completion(fd, result) is Ok
        &&& self.completion(fd, result) != Ok::<Completion, EngineError>(
            Completion::Finished { fd },
        )
        &&& self.keeps_others(after, fd)
        &&& after.in_flight.dom() == self.in_flight.dom()
        &&& after.in_flight[fd].progress() == self.reached(fd, result)
        &&& after.in_flight[fd].buffer == self.in_flight[fd].buffer
        &&& after.free_buffers == self.free_buffers
        &&& after.results == self.results
        &&& after.submitted == self.counted()
        &&& after.admitted == self.admitted
    }

    /// What holds of a worker at every point of a run: the table is within
    /// the ring's capacity, every buffer is either free or held by exactly
    /// one file in flight, every file in flight has a buffer of the
    /// configured size and an offset within its length, and every admitted
    /// file is either in flight or has its record.
    pub open spec fn bounded(self) -> bool {
        &&& self.in_flight.dom().finite()
        &&& self.in_flight.len() <= self.ring_capacity
        &&& self.in_flight.len() + self.free_buffers.len() == self.ring_capacity
        &&& self.admitted == self.results.len() + self.in_flight.len()
        &&& forall|i: int|
            0 <= i < self.free_buffers.len() ==> (#[trigger] self.free_buffers[i]).len()
                == self.buffer_size
        &&& forall|fd: i32|
            #[trigger] self.in_flight.contains_key(fd) ==> self.in_flight[fd].wf()
                && self.in_flight[fd].buffer@.len() == self.buffer_size
    }
}

/// One worker of the batched engine.
pub struct WorkerState {
    hashing_states: HashingStateMap,
    reuse_buffers: ReuseBuffers,
    buffer_size: u32,
    ring_size: usize,
    receiver: Receiver<WorkEntry>,
    all_results: Vec<FileInfo>,
    no_more_files: bool,
    wanted: usize,
    admitted: Ghost<nat>,
}

impl View for WorkerState {
    type V = WorkerView;

    closed spec fn view(&self) -> WorkerView {
        WorkerView {
            in_flight: self.hashing_states@,
            free_buffers: self.reuse_buffers@,
            results: self.all_results@,
            exhausted: self.no_more_files,
            submitted: self.wanted as nat,
            ring_capacity: self.ring_size as nat,
            buffer_size: self.buffer_size as nat,
            admitted: self.admitted@,
        }
    }
}

impl WorkerState {
    /// The table and the pool are well formed and sized to the ring, and the
    /// worker's view is bounded.
    pub closed spec fn wf(&self) -> bool {
        &&& self.hashing_states.wf()
        &&& self.reuse_buffers.wf()
        &&& self.hashing_states.capacity() == self.ring_size
        &&& self.reuse_buffers.capacity() == self.ring_size
        &&& self.reuse_buffers.buffer_size() == self.buffer_size
        &&& self@.bounded()
    }

    /// Bounded concurrency: at every point of a run the files in flight are
    /// no more than the ring's capacity, and the buffers held by them and the
    /// free ones together are as many as the ring's capacity.
    pub proof fn lemma_bounded(&self)
        requires
            self.wf(),
        ensures
            self@.bounded(),
            self@.in_flight.len() <= self@.ring_capacity,
            self@.in_flight.len() + self@.free_buffers.len() == self@.ring_capacity,
    {
    }

    /// Completeness: a worker that is done has one record for each file that
    /// it took in, and every buffer is back in the pool.
    pub proof fn lemma_done(&self)
        requires
            self.wf(),
            self@.done(),
        ensures
            self@.results.len() == self@.admitted,
            self@.free_buffers.len() == self@.ring_capacity,
    {
    }

    /// A worker with nothing in flight, `ring_size` free buffers of
    /// `buffer_size` zero bytes, and no records, that takes its work from
    /// `receiver`.
    pub fn new(ring_size: usize, buffer_size: u32, receiver: Receiver<WorkEntry>) -> (worker: Self)
        ensures
            worker.wf(),
            worker@ == (WorkerView {
                in_flight: Map::empty(),
                free_buffers: Seq::new(ring_size as nat, |i: int| zeroed(buffer_size as nat)),
                results: Seq::empty(),
                exhausted: false,
                submitted: 0,
                ring_capacity: ring_size as nat,
                buffer_size: buffer_size as nat,
                admitted: 0,
            }),
    {
        let hashing_states = HashingStateMap::new(ring_size);
        let reuse_buffers = ReuseBuffers::new(ring_size, buffer_size as usize);
        let worker = WorkerState {
            hashing_states,
            reuse_buffers,
            buffer_size,
            ring_size,
            receiver,
            all_results: Vec::new(),
            no_more_files: false,
            wanted: 0,
            admitted: Ghost(0),
        };
        proof {
            worker.hashing_states.lemma_bounds();
            worker.reuse_buffers.lemma_bounds();
        }
        worker
    }

    /// What the admission phase does with what a look at the work channel
    /// found: a file is to be opened; an empty channel ends the phase; a
    /// closed one ends it and marks the work source exhausted.
    pub fn on_polled(&mut self, polled: Polled) -> (next: Admission)
        requires
            old(self).wf(),
        ensures
            final(self).wf(),
            match polled {
                Polled::Entry(entry) => {
                    next == Admission::Open(entry) && final(self)@ == old(self)@
                },
                Polled::Empty => next is Hold && final(self)@ == old(self)@,
                Polled::Disconnected => next is Hold && final(self)@ == (WorkerView {
                    exhausted: true,
                    ..old(self)@
                }),
            },
    {
        match polled {
            Polled::Entry(entry) => Admission::Open(entry),
            Polled::Empty => Admission::Hold,
            Polled::Disconnected => {
                self.no_more_files = true;
                Admission::Hold
            },
        }
    }

    /// One step of the admission phase. With the table full it holds without
    /// looking at the channel. Otherwise it looks once, without blocking, and
    /// does what `on_polled` says of what it found.
    pub fn next_admission(&mut self) -> (next: Admission)
        requires
            old(self).wf(),
        ensures
            final(self).wf(),
            old(self)@.in_flight.len() >= old(self)@.ring_capacity ==> {
                next is Hold && final(self)@ == old(self)@
            },
            next is Open ==> final(self)@ == old(self)@,
            next is Hold ==> final(self)@ == old(self)@ || final(self)@ == (WorkerView {
                exhausted: true,
                ..old(self)@
            }),
    {
        if self.hashing_states.size() >= self.ring_size {
            return Admission::Hold;
        }
        let polled = try_pull(&self.receiver);
        self.on_polled(polled)
    }

    /// Takes in the file opened as `fd`, `size` bytes long: it gets the buffer
    /// that the pool hands out and a fresh digest, enters the table under
    /// `fd`, and its first read is returned and counted.
    pub fn start_file(&mut self, fd: i32, size: u64) -> (request: Result<ReadRequest, EngineError>)
        requires
            old(self).wf(),
        ensures
            final(self).wf(),
            match request {
                Ok(read) => {
                    &&& read == (ReadRequest { fd, offset: 0, len: old(self)@.buffer_size as u32 })
                    &&& old(self)@.starts(final(self)@, fd, size)
                },
                Err(error) => {
                    old(self)@.admission_error(fd) == Some(error) && final(self)@ == old(self)@
                },
            },
    {
        proof {
            self.hashing_states.lemma_bounds();
            self.reuse_buffers.lemma_bounds();
        }
        if self.hashing_states.size() >= self.ring_size {
            return Err(EngineError::TableFull);
        }
        if self.hashing_states.contains(fd) {
            return Err(EngineError::DuplicateCorrelation);
        }
        let buffer = self.reuse_buffers.get();
        let state = HashingState::start(buffer, size);
        self.hashing_states.insert(fd, state);
        self.count_submission();
        proof {
            self.admitted@ = self.admitted@ + 1;
        }
        Ok(ReadRequest { fd, offset: 0, len: self.buffer_size })
    }

    /// The buffer of the file in flight under `fd`, for its read to fill.
    /// What is written through the borrow is what the next completion for
    /// `fd` hashes; nothing else of the worker changes. The worker stays well
    /// formed as long as the buffer keeps its length, which a borrowed slice
    /// always does.
    pub fn get_buffer(&mut self, fd: i32) -> (buffer: Option<&mut [u8]>)
        requires
            old(self).wf(),
        ensures
            match buffer {
                None => {
                    &&& !old(self)@.in_flight.contains_key(fd)
                    &&& final(self)@ == old(self)@
                    &&& final(self).wf()
                },
                Some(bytes) => {
                    &&& bytes@ == old(self)@.in_flight[fd].buffer@
                    &&& old(self)@.refills(final(self)@, fd, final(bytes)@)
                    &&& final(bytes)@.len() == bytes@.len() ==> final(self).wf()
                },
            },
    {
        if self.hashing_states.contains(fd) {
            Some(self.hashing_states.get_buffer(fd))
        } else {
            None
        }
    }

    /// Takes a completed read: `result` is what the read of `fd` completed
    /// with, the number of bytes it put at the start of the buffer, or a
    /// negative error code. The bytes are folded into the file's digest and
    /// its offset moves past them. Where that reaches the file's length the
    /// file is finished: its record is appended and its buffer goes back to
    /// the pool. Otherwise the file stays in the table and its next read is
    /// returned and counted. A refused completion changes nothing.
    pub fn complete(&mut self, fd: i32, result: i32) -> (outcome: Result<Completion, EngineError>)
        requires
            old(self).wf(),
        ensures
            final(self).wf(),
            outcome == old(self)@.completion(fd, result),
            match outcome {
                Err(_) => final(self)@ == old(self)@,
                Ok(Completion::Finished { .. }) => old(self)@.finishes(final(self)@, fd, result),
                Ok(Completion::Resubmit(_)) => old(self)@.resubmits(final(self)@, fd, result),
            },
    {
        proof {
            self.hashing_states.lemma_bounds();
            self.reuse_buffers.lemma_bounds();
        }
        if result < 0 {
            return Err(EngineError::ReadFailed { code: result });
        }
        let transferred = result as u32;
        match self.hashing_states.get(fd) {
            None => {
                return Err(EngineError::UnknownCorrelation);
            },
            Some(state) => {
                if transferred > self.buffer_size || transferred as u64 > state.len - state.offset {
                    return Err(EngineError::Overrun);
                }
            },
        }
        let mut state = self.hashing_states.remove(fd);
        state.absorb(transferred as usize);
        if state.is_complete() {
            let (info, buffer) = state.finish();
            self.reuse_buffers.put(buffer);
            self.all_results.push(info);
            assert(self.all_results@.drop_last() =~= old(self).all_results@);
            Ok(Completion::Finished { fd })
        } else {
            let offset = state.offset;
            self.hashing_states.insert(fd, state);
            self.count_submission();
            Ok(Completion::Resubmit(ReadRequest { fd, offset, len: self.buffer_size }))
        }
    }

    fn count_submission(&mut self)
        ensures
            final(self).wanted == (if old(self).wanted < usize::MAX {
                old(self).wanted + 1
            } else {
                old(self).wanted as int
            }),
            final(self).hashing_states == old(self).hashing_states,
            final(self).reuse_buffers == old(self).reuse_buffers,
            final(self).buffer_size == old(self).buffer_size,
            final(self).ring_size == old(self).ring_size,
            final(self).all_results == old(self).all_results,
            final(self).no_more_files == old(self).no_more_files,
            final(self).admitted == old(self).admitted,
    {
        if self.wanted < usize::MAX {
            self.wanted += 1;
        }
    }

    /// Whether the worker is through: the work source is exhausted and no
    /// read is outstanding.
    pub fn is_done(&self) -> (done: bool)
        requires
            self.wf(),
        ensures
            done == self@.done(),
    {
        self.no_more_files && self.hashing_states.size() == 0
    }

    /// Ends a round: says whether to block, to yield or to go on, and starts
    /// the count of reads anew.
    pub fn end_round(&mut self) -> (end: RoundEnd)
        requires
            old(self).wf(),
        ensures
            final(self).wf(),
            end == old(self)@.round_end(),
            final(self)@ == (WorkerView { submitted: 0, ..old(self)@ }),
    {
        let outstanding = self.hashing_states.size();
        let end = if self.wanted == 0 && outstanding > 0 {
            RoundEnd::Wait
        } else if outstanding == 0 && !self.no_more_files {
            RoundEnd::Yield
        } else {
            RoundEnd::Proceed
        };
        self.wanted = 0;
        end
    }

    /// The records, in the order in which the files were finished.
    pub fn into_results(self) -> (records: Vec<FileInfo>)
        ensures
            records@ == self@.results,
    {
        self.all_results
    }
}

} // verus!
