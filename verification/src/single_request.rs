//! The single-request engine: one worker hashes its files one after the
//! other, with one read outstanding at a time. The worker here decides; its
//! caller opens each file, performs the read it is told to and reports what
//! the read completed with.

use crate::buffer_pool::{zeroed, Buffer};
use crate::digest::{blake3_digest, ContentHasher};
use crate::in_flight::Progress;
use crate::runs::{follows, lemma_advance_follows, lemma_digest_of_content};
use crate::types::{EngineError, FileInfo, ReadRequest};
use vstd::prelude::*;
use vstd::slice::slice_subrange;

verus! {

/// What the worker does next with the file at hand.
#[derive(Debug, Clone, Copy, PartialEq, Eq)]
pub enum NextStep {
    /// Perform this read and report its result.
    Read(ReadRequest),
    /// The file is hashed and its record appended.
    Done,
}

/// What a sequential worker holds, as plain values.
pub struct SequentialView {
    /// The id of the file at hand.
    pub fd: i32,
    /// How far the hashing of that file has come.
    pub progress: Progress,
    /// A read of that file is outstanding.
    pub reading: bool,
    /// The content of the buffer that the reads fill.
    pub buffer: Seq<u8>,
    /// The records produced so far, oldest first.
    pub results: Seq<FileInfo>,
    /// The length of the buffer and of every read.
    pub buffer_size: nat,
}

impl SequentialView {
    /// The bytes that a read with `result` delivered.
    pub open spec fn chunk(self, result: i32) -> Seq<u8> {
        self.buffer.subrange(0, result as int)
    }

    /// The error that refuses a read result, if one does.
    pub open spec fn read_error(self, result: i32) -> Option<EngineError> {
        if result < 0 {
            Some(EngineError::ReadFailed { code: result })
        } else if !self.reading {
            Some(EngineError::UnknownCorrelation)
        } else if result > self.buffer_size || self.progress.offset + result > u64::MAX {
            Some(EngineError::Overrun)
        } else {
            None
        }
    }

    /// Whether a read with `result` ends the file: it delivered nothing, or
    /// it carried the offset to the file's length or past it.
    pub open spec fn ends_file(self, result: i32) -> bool {
        result == 0 || self.progress.offset + result >= self.progress.target
    }

    /// What the report of a read with `result` returns.
    pub open spec fn step(self, result: i32) -> Result<NextStep, EngineError> {
        match self.read_error(result) {
            Some(error) => Err(error),
            None => if self.ends_file(result) {
                Ok(NextStep::Done)
            } else {
                Ok(
                    NextStep::Read(
                        ReadRequest {
                            fd: self.fd,
                            offset: (self.progress.offset + result) as u64,
                            len: self.buffer_size as u32,
                        },
                    ),
                )
            },
        }
    }
}

/// One worker of the single-request engine.
pub struct SequentialWorker {
    hasher: ContentHasher,
    buffer: Buffer,
    buffer_size: u32,
    fd: i32,
    offset: u64,
    len: u64,
    reading: bool,
    all_results: Vec<FileInfo>,
}

impl View for SequentialWorker {
    type V = SequentialView;

    closed spec fn view(&self) -> SequentialView {
        SequentialView {
            fd: self.fd,
            progress: Progress {
                absorbed: self.hasher@,
                offset: self.offset as nat,
                target: self.len as nat,
            },
            reading: self.reading,
            buffer: self.buffer@,
            results: self.all_results@,
            buffer_size: self.buffer_size as nat,
        }
    }
}

impl SequentialWorker {
    /// The buffer has the configured length, and a read is outstanding only
    /// for a file that has bytes left.
    pub closed spec fn wf(&self) -> bool {
        &&& self.buffer@.len() == self.buffer_size
        &&& self.reading ==> self.offset < self.len
    }

    /// A well-formed worker has a buffer of the configured length and reads
    /// only short of the file's length.
    pub proof fn lemma_wf(&self)
        requires
            self.wf(),
        ensures
            self@.buffer.len() == self@.buffer_size,
            self@.reading ==> self@.progress.offset < self@.progress.target,
    {
    }

    /// Digest correctness, step by step: while the reads of the file at hand
    /// deliver the bytes of its content at the offset asked for, its hashing
    /// follows the content, and a read that carries the offset to the file's
    /// length leaves the digest of the whole content.
    pub proof fn lemma_read_follows(&self, result: i32, content: Seq<u8>)
        requires
            self.wf(),
            self@.read_error(result) is None,
            follows(self@.progress, content),
            self@.progress.offset + result <= content.len(),
            self@.chunk(result) == content.subrange(
                self@.progress.offset as int,
                self@.progress.offset + result,
            ),
        ensures
            follows(self@.progress.advance(self@.chunk(result)), content),
            self@.progress.offset + result == content.len() ==> self@.step(result) == Ok::<
                NextStep,
                EngineError,
            >(NextStep::Done) && self@.progress.advance(self@.chunk(result)).digest()
                == blake3_digest(content),
    {
        let chunk = self@.chunk(result);
        assert(chunk.len() == result);
        lemma_advance_follows(self@.progress, content, chunk);
        if self@.progress.advance(chunk).complete() {
            lemma_digest_of_content(self@.progress.advance(chunk), content);
        }
    }

    /// A worker with a buffer of `buffer_size` zero bytes, no file at hand
    /// and no records.
    pub fn new(buffer_size: u32) -> (worker: Self)
        ensures
            worker.wf(),
            worker@.progress == Progress::start(0),
            !worker@.reading,
            worker@.buffer == zeroed(buffer_size as nat),
            worker@.results == Seq::<FileInfo>::empty(),
            worker@.buffer_size == buffer_size,
    {
        let buffer: Buffer = vec![0u8; buffer_size as usize];
        assert(buffer@ =~= zeroed(buffer_size as nat));
        SequentialWorker {
            hasher: ContentHasher::new(),
            buffer,
            buffer_size,
            fd: 0,
            offset: 0,
            len: 0,
            reading: false,
            all_results: Vec::new(),
        }
    }

    fn finish_file(&mut self)
        requires
            old(self).buffer@.len() == old(self).buffer_size,
        ensures
            final(self).wf(),
            !final(self)@.reading,
            final(self)@.results.len() == old(self)@.results.len() + 1,
            final(self)@.results.drop_last() == old(self)@.results,
            final(self)@.results.last().hash@ == old(self)@.progress.digest(),
            final(self)@.progress == old(self)@.progress,
            final(self)@.buffer == old(self)@.buffer,
            final(self)@.fd == old(self)@.fd,
            final(self)@.buffer_size == old(self)@.buffer_size,
    {
        let hash = self.hasher.finalize();
        self.all_results.push(FileInfo { hash });
        self.reading = false;
        assert(self.all_results@.drop_last() =~= old(self).all_results@);
    }

    /// Takes up the file opened as `fd`, `len` bytes long, with a fresh
    /// digest. An empty file is done at once, without a read: its record is
    /// the digest of no bytes. Any other file starts with a read at offset
    /// zero.
    pub fn begin(&mut self, fd: i32, len: u64) -> (step: NextStep)
        requires
            old(self).wf(),
        ensures
            final(self).wf(),
            final(self)@.fd == fd,
            final(self)@.progress == Progress::start(len as nat),
            final(self)@.buffer == old(self)@.buffer,
            final(self)@.buffer_size == old(self)@.buffer_size,
            final(self)@.reading == (len > 0),
            len > 0 ==> {
                &&& step == NextStep::Read(
                    ReadRequest { fd, offset: 0, len: old(self)@.buffer_size as u32 },
                )
                &&& final(self)@.results == old(self)@.results
            },
            len == 0 ==> {
                &&& step == NextStep::Done
                &&& final(self)@.results.len() == old(self)@.results.len() + 1
                &&& final(self)@.results.drop_last() == old(self)@.results
                &&& final(self)@.results.last().hash@ == Progress::start(0).digest()
            },
    {
        self.hasher.reset();
        self.fd = fd;
        self.offset = 0;
        self.len = len;
        if len > 0 {
            self.reading = true;
            NextStep::Read(ReadRequest { fd, offset: 0, len: self.buffer_size })
        } else {
            self.finish_file();
            NextStep::Done
        }
    }

    /// The buffer, for the outstanding read to fill. What is written through
    /// the borrow is what the report of that read hashes; nothing else of the
    /// worker changes. The worker stays well formed as long as the buffer
    /// keeps its length, which a borrowed slice always does.
    pub fn get_buffer(&mut self) -> (buffer: &mut [u8])
        ensures
            buffer@ == old(self)@.buffer,
            final(self)@ == (SequentialView { buffer: final(buffer)@, ..old(self)@ }),
            old(self).wf() && final(buffer)@.len() == buffer@.len() ==> final(self).wf(),
    {
        self.buffer.as_mut_slice()
    }

    /// Takes the result of the outstanding read: the number of bytes it put
    /// at the start of the buffer, or a negative error code. The bytes are
    /// folded into the digest and the offset moves past them. A read that
    /// delivered nothing, or that carried the offset to the file's length,
    /// ends the file: its record is appended. Otherwise the next read is
    /// returned. A refused result changes nothing.
    pub fn on_read(&mut self, result: i32) -> (step: Result<NextStep, EngineError>)
        requires
            old(self).wf(),
        ensures
            final(self).wf(),
            step == old(self)@.step(result),
            final(self)@.fd == old(self)@.fd,
            final(self)@.buffer == old(self)@.buffer,
            final(self)@.buffer_size == old(self)@.buffer_size,
            match step {
                Err(_) => final(self)@ == old(self)@,
                Ok(NextStep::Done) => {
                    &&& final(self)@.progress == old(self)@.progress.advance(
                        old(self)@.chunk(result),
                    )
                    &&& !final(self)@.reading
                    &&& final(self)@.results.len() == old(self)@.results.len() + 1
                    &&& final(self)@.results.drop_last() == old(self)@.results
                    &&& final(self)@.results.last().hash@ == final(self)@.progress.digest()
                },
                Ok(NextStep::Read(_)) => {
                    &&& final(self)@.progress == old(self)@.progress.advance(
                        old(self)@.chunk(result),
                    )
                    &&& final(self)@.reading
                    &&& final(self)@.results == old(self)@.results
                },
            },
    {
        if result < 0 {
            return Err(EngineError::ReadFailed { code: result });
        }
        if !self.reading {
            return Err(EngineError::UnknownCorrelation);
        }
        let transferred = result as u32;
        if transferred > self.buffer_size {
            return Err(EngineError::Overrun);
        }
        let reached = match self.offset.checked_add(transferred as u64) {
            Some(reached) => reached,
            None => {
                return Err(EngineError::Overrun);
            },
        };
        self.hasher.update(slice_subrange(self.buffer.as_slice(), 0, transferred as usize));
        self.offset = reached;
        if transferred == 0 || reached >= self.len {
            self.finish_file();
            Ok(NextStep::Done)
        } else {
            Ok(NextStep::Read(ReadRequest { fd: self.fd, offset: reached, len: self.buffer_size }))
        }
    }

    /// The records, in the order in which the files were finished.
    pub fn into_results(self) -> (records: Vec<FileInfo>)
        ensures
            records@ == self@.results,
    {
        self.all_results
    }
}

} // verus!
