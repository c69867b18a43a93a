use bulk_hasher::batched::{Admission, Completion, RoundEnd, WorkerState};
use bulk_hasher::digest::hash_bytes;
use bulk_hasher::types::{EngineError, FileInfo, Outputs, ReadRequest, WorkEntry};
use crossbeam::channel::{unbounded, Receiver, Sender};
use std::collections::VecDeque;
use std::path::PathBuf;
use std::time::Instant;

fn content_of(size: usize, seed: u8) -> Vec<u8> {
    (0..size).map(|i| (i as u8).wrapping_mul(31).wrapping_add(seed)).collect()
}

fn one_pass(content: &[u8]) -> [u8; 32] {
    blake3::hash(content).into()
}

fn entry(index: usize, size: u64) -> WorkEntry {
    WorkEntry { path: PathBuf::from(format!("{}", index)), size }
}

fn index_of(entry: &WorkEntry) -> usize {
    entry.path.to_str().unwrap().parse().unwrap()
}

fn channel_of(files: &[Vec<u8>]) -> Receiver<WorkEntry> {
    let (sender, receiver): (Sender<WorkEntry>, Receiver<WorkEntry>) = unbounded();
    for (index, content) in files.iter().enumerate() {
        sender.send(entry(index, content.len() as u64)).unwrap();
    }
    receiver
}

/// Serves a read as a kernel would: in full, up to the end of the file.
fn serve(content: &[u8], request: &ReadRequest, buffer: &mut [u8]) -> i32 {
    let start = (request.offset as usize).min(content.len());
    let end = (start + request.len as usize).min(content.len());
    buffer[..end - start].copy_from_slice(&content[start..end]);
    (end - start) as i32
}

struct Driver {
    worker: WorkerState,
    pending: VecDeque<ReadRequest>,
    reads: Vec<Vec<i32>>,
    closed: Vec<i32>,
    most_in_flight: usize,
    waits: usize,
}

impl Driver {
    fn new(ring: usize, buffer_size: u32, receiver: Receiver<WorkEntry>, files: usize) -> Driver {
        Driver {
            worker: WorkerState::new(ring, buffer_size, receiver),
            pending: VecDeque::new(),
            reads: vec![Vec::new(); files],
            closed: Vec::new(),
            most_in_flight: 0,
            waits: 0,
        }
    }

    /// One round: admission, the completions that are ready, the end of the round.
    fn round(&mut self, files: &[Vec<u8>], admissions: usize, completions: usize) -> RoundEnd {
        let mut taken = 0;
        while taken < admissions {
            match self.worker.next_admission() {
                Admission::Open(entry) => {
                    let fd = index_of(&entry) as i32;
                    let request = self.worker.start_file(fd, entry.size).unwrap();
                    assert_eq!(request.offset, 0);
                    self.pending.push_back(request);
                    taken += 1;
                },
                Admission::Hold => break,
            }
        }
        self.most_in_flight = self.most_in_flight.max(self.pending.len());
        let ready = self.pending.len().min(completions);
        for _ in 0..ready {
            let request = self.pending.pop_front().unwrap();
            let content = &files[request.fd as usize];
            let transferred = serve(content, &request, self.worker.get_buffer(request.fd).unwrap());
            self.reads[request.fd as usize].push(transferred);
            match self.worker.complete(request.fd, transferred).unwrap() {
                Completion::Finished { fd } => self.closed.push(fd),
                Completion::Resubmit(next) => {
                    assert_eq!(next.fd, request.fd);
                    self.pending.push_back(next);
                },
            }
        }
        let end = self.worker.end_round();
        if end == RoundEnd::Wait {
            self.waits += 1;
        }
        end
    }
}

fn run_one_worker(files: &[Vec<u8>], ring: usize, buffer_size: u32) -> (Vec<FileInfo>, Vec<Vec<i32>>, usize) {
    let mut driver = Driver::new(ring, buffer_size, channel_of(files), files.len());
    let mut rounds = 0;
    while !driver.worker.is_done() {
        driver.round(files, usize::MAX, usize::MAX);
        rounds += 1;
        assert!(rounds < 100_000);
    }
    assert!(driver.pending.is_empty());
    let mut closed = driver.closed.clone();
    closed.sort();
    assert_eq!(closed, (0..files.len() as i32).collect::<Vec<i32>>());
    (driver.worker.into_results(), driver.reads, driver.most_in_flight)
}

fn sorted_digests(records: &[FileInfo]) -> Vec<[u8; 32]> {
    let mut digests: Vec<[u8; 32]> = records.iter().map(|record| record.hash).collect();
    digests.sort();
    digests
}

fn sorted_one_pass(files: &[Vec<u8>]) -> Vec<[u8; 32]> {
    let mut digests: Vec<[u8; 32]> = files.iter().map(|content| one_pass(content)).collect();
    digests.sort();
    digests
}

#[test]
fn three_files_two_workers() {
    let files = vec![content_of(0, 1), content_of(4096, 2), content_of(10_000, 3)];
    let receiver = channel_of(&files);
    let mut first = Driver::new(32, 4096, receiver.clone(), files.len());
    let mut second = Driver::new(32, 4096, receiver, files.len());
    let mut rounds = 0;
    while !(first.worker.is_done() && second.worker.is_done()) {
        if !first.worker.is_done() {
            first.round(&files, 1, usize::MAX);
        }
        if !second.worker.is_done() {
            second.round(&files, 1, usize::MAX);
        }
        rounds += 1;
        assert!(rounds < 1000);
    }
    let mut reads = first.reads.clone();
    for (index, more) in second.reads.iter().enumerate() {
        reads[index].extend(more.iter());
    }
    let first_records = first.worker.into_results();
    let second_records = second.worker.into_results();
    assert!(!first_records.is_empty());
    assert!(!second_records.is_empty());
    let outputs = Outputs::collect(Instant::now(), vec![first_records, second_records]);
    assert_eq!(outputs.files.len(), 3);
    assert_eq!(sorted_digests(&outputs.files), sorted_one_pass(&files));
    assert!(outputs.files.iter().any(|record| record.hash == hash_bytes(b"").hash));
    assert_eq!(reads[2], vec![4096, 4096, 1808]);
    assert_eq!(reads[1], vec![4096]);
    assert_eq!(reads[0], vec![0]);
}

#[test]
fn digest_is_that_of_the_whole_content() {
    let buffer_size = 64usize;
    for size in [0, 1, 63, 64, 65, 128, 192, 640, 641, 1000] {
        let files = vec![content_of(size, size as u8)];
        let (records, _, _) = run_one_worker(&files, 4, buffer_size as u32);
        assert_eq!(records.len(), 1);
        assert_eq!(records[0].hash, one_pass(&files[0]), "size {}", size);
    }
}

#[test]
fn reads_per_file_are_the_size_over_the_buffer_rounded_up() {
    let sizes: [(usize, usize); 9] =
        [(1, 1), (63, 1), (64, 1), (65, 2), (128, 2), (129, 3), (640, 10), (641, 11), (10_000, 157)];
    for (size, expected) in sizes {
        let files = vec![content_of(size, 9)];
        let (_, reads, _) = run_one_worker(&files, 4, 64);
        assert_eq!(reads[0].len(), expected, "size {}", size);
        assert_eq!(reads[0].iter().map(|n| *n as usize).sum::<usize>(), size);
        assert!(reads[0].iter().all(|n| *n > 0));
    }
}

#[test]
fn empty_file_takes_the_one_read_that_finds_it_empty() {
    let files = vec![content_of(0, 0)];
    let (records, reads, _) = run_one_worker(&files, 4, 64);
    assert_eq!(reads[0], vec![0]);
    assert_eq!(records[0].hash, hash_bytes(b"").hash);
}

#[test]
fn in_flight_never_exceeds_the_ring() {
    let files: Vec<Vec<u8>> = (0..20).map(|i| content_of(100 + 37 * i, i as u8)).collect();
    for ring in [1usize, 2, 3, 7, 32] {
        let (records, _, most) = run_one_worker(&files, ring, 16);
        assert!(most <= ring);
        assert_eq!(most, ring.min(files.len()));
        assert_eq!(records.len(), files.len());
        assert_eq!(sorted_digests(&records), sorted_one_pass(&files));
    }
}

#[test]
fn results_do_not_depend_on_buffer_size_or_ring() {
    let files: Vec<Vec<u8>> = (0..9).map(|i| content_of(i * i * 50, i as u8)).collect();
    let expected = sorted_one_pass(&files);
    for (ring, buffer_size) in [(1usize, 1u32), (2, 7), (4, 64), (32, 4096), (3, 100_000)] {
        let (records, _, _) = run_one_worker(&files, ring, buffer_size);
        assert_eq!(sorted_digests(&records), expected);
    }
}

#[test]
fn records_come_in_the_order_in_which_files_finish() {
    let files = vec![content_of(300, 1), content_of(10, 2), content_of(100, 3)];
    let (records, _, _) = run_one_worker(&files, 4, 64);
    let digests: Vec<[u8; 32]> = records.iter().map(|record| record.hash).collect();
    assert_eq!(digests, vec![one_pass(&files[1]), one_pass(&files[2]), one_pass(&files[0])]);
}

#[test]
fn full_table_refuses_another_file() {
    let (_sender, receiver): (Sender<WorkEntry>, Receiver<WorkEntry>) = unbounded();
    let mut worker = WorkerState::new(2, 8, receiver);
    assert_eq!(worker.start_file(3, 10), Ok(ReadRequest { fd: 3, offset: 0, len: 8 }));
    assert_eq!(worker.start_file(4, 10), Ok(ReadRequest { fd: 4, offset: 0, len: 8 }));
    assert_eq!(worker.start_file(5, 10), Err(EngineError::TableFull));
    assert_eq!(worker.start_file(3, 10), Err(EngineError::TableFull));
    assert_eq!(worker.complete(3, 8), Ok(Completion::Resubmit(ReadRequest { fd: 3, offset: 8, len: 8 })));
    assert_eq!(worker.complete(3, 2), Ok(Completion::Finished { fd: 3 }));
    assert_eq!(worker.start_file(5, 10), Ok(ReadRequest { fd: 5, offset: 0, len: 8 }));
}

#[test]
fn duplicate_id_is_refused() {
    let (_sender, receiver): (Sender<WorkEntry>, Receiver<WorkEntry>) = unbounded();
    let mut worker = WorkerState::new(4, 8, receiver);
    assert!(worker.start_file(3, 10).is_ok());
    assert_eq!(worker.start_file(3, 99), Err(EngineError::DuplicateCorrelation));
    assert_eq!(worker.complete(3, 8), Ok(Completion::Resubmit(ReadRequest { fd: 3, offset: 8, len: 8 })));
}

#[test]
fn refused_completions() {
    let (_sender, receiver): (Sender<WorkEntry>, Receiver<WorkEntry>) = unbounded();
    let mut worker = WorkerState::new(4, 8, receiver);
    assert!(worker.start_file(3, 10).is_ok());
    assert_eq!(worker.complete(9, 4), Err(EngineError::UnknownCorrelation));
    assert_eq!(worker.complete(3, -5), Err(EngineError::ReadFailed { code: -5 }));
    assert_eq!(worker.complete(9, -5), Err(EngineError::ReadFailed { code: -5 }));
    assert_eq!(worker.complete(3, 9), Err(EngineError::Overrun));
    assert_eq!(worker.complete(3, 8), Ok(Completion::Resubmit(ReadRequest { fd: 3, offset: 8, len: 8 })));
    assert_eq!(worker.complete(3, 3), Err(EngineError::Overrun));
    assert_eq!(worker.complete(3, 2), Ok(Completion::Finished { fd: 3 }));
    assert_eq!(worker.complete(3, 0), Err(EngineError::UnknownCorrelation));
    assert!(worker.get_buffer(3).is_none());
}

#[test]
fn refused_completion_changes_nothing() {
    let (_sender, receiver): (Sender<WorkEntry>, Receiver<WorkEntry>) = unbounded();
    let mut worker = WorkerState::new(4, 4, receiver);
    assert!(worker.start_file(1, 6).is_ok());
    worker.get_buffer(1).unwrap().copy_from_slice(b"abcd");
    assert_eq!(worker.complete(1, 5), Err(EngineError::Overrun));
    assert_eq!(worker.complete(1, 4), Ok(Completion::Resubmit(ReadRequest { fd: 1, offset: 4, len: 4 })));
    worker.get_buffer(1).unwrap()[..2].copy_from_slice(b"ef");
    assert_eq!(worker.complete(1, 3), Err(EngineError::Overrun));
    assert_eq!(worker.complete(1, 2), Ok(Completion::Finished { fd: 1 }));
    let records = worker.into_results();
    assert_eq!(records.len(), 1);
    assert_eq!(records[0].hash, one_pass(b"abcdef"));
}

#[test]
fn short_reads_are_folded_in_offset_order() {
    let (_sender, receiver): (Sender<WorkEntry>, Receiver<WorkEntry>) = unbounded();
    let mut worker = WorkerState::new(2, 8, receiver);
    assert!(worker.start_file(7, 10).is_ok());
    worker.get_buffer(7).unwrap()[..3].copy_from_slice(b"abc");
    assert_eq!(worker.complete(7, 3), Ok(Completion::Resubmit(ReadRequest { fd: 7, offset: 3, len: 8 })));
    assert_eq!(worker.complete(7, 0), Ok(Completion::Resubmit(ReadRequest { fd: 7, offset: 3, len: 8 })));
    worker.get_buffer(7).unwrap()[..7].copy_from_slice(b"defghij");
    assert_eq!(worker.complete(7, 7), Ok(Completion::Finished { fd: 7 }));
    assert_eq!(worker.into_results()[0].hash, one_pass(b"abcdefghij"));
}

#[test]
fn buffers_go_back_to_the_pool() {
    let (_sender, receiver): (Sender<WorkEntry>, Receiver<WorkEntry>) = unbounded();
    let mut worker = WorkerState::new(1, 4, receiver);
    for fd in 0..50 {
        assert_eq!(worker.start_file(fd, 4), Ok(ReadRequest { fd, offset: 0, len: 4 }));
        assert_eq!(worker.start_file(fd + 100, 4), Err(EngineError::TableFull));
        assert_eq!(worker.get_buffer(fd).unwrap().len(), 4);
        assert_eq!(worker.complete(fd, 4), Ok(Completion::Finished { fd }));
    }
    assert_eq!(worker.into_results().len(), 50);
}

#[test]
fn round_ends() {
    let (sender, receiver): (Sender<WorkEntry>, Receiver<WorkEntry>) = unbounded();
    let mut worker = WorkerState::new(2, 4, receiver);
    // Nothing in flight, producers alive: yield.
    assert!(matches!(worker.next_admission(), Admission::Hold));
    assert_eq!(worker.end_round(), RoundEnd::Yield);
    assert!(!worker.is_done());
    // A read was asked for in this round: go on at once.
    sender.send(entry(0, 8)).unwrap();
    match worker.next_admission() {
        Admission::Open(found) => {
            assert_eq!(found.size, 8);
            assert!(worker.start_file(0, found.size).is_ok());
        },
        Admission::Hold => panic!("an entry was waiting"),
    }
    assert_eq!(worker.end_round(), RoundEnd::Proceed);
    // Nothing asked for, a read outstanding: block.
    assert!(matches!(worker.next_admission(), Admission::Hold));
    assert_eq!(worker.end_round(), RoundEnd::Wait);
    // A completion that asks for the next read: go on at once.
    assert!(matches!(worker.complete(0, 4), Ok(Completion::Resubmit(_))));
    assert_eq!(worker.end_round(), RoundEnd::Proceed);
    assert_eq!(worker.end_round(), RoundEnd::Wait);
    // The last completion with producers alive: yield.
    assert_eq!(worker.complete(0, 4), Ok(Completion::Finished { fd: 0 }));
    assert_eq!(worker.end_round(), RoundEnd::Yield);
    assert!(!worker.is_done());
    // Producers gone: the source is exhausted and the worker is done.
    drop(sender);
    assert!(matches!(worker.next_admission(), Admission::Hold));
    assert!(worker.is_done());
    assert_eq!(worker.end_round(), RoundEnd::Proceed);
}

#[test]
fn exhausted_source_with_reads_outstanding_is_not_done() {
    let (sender, receiver): (Sender<WorkEntry>, Receiver<WorkEntry>) = unbounded();
    sender.send(entry(0, 4)).unwrap();
    drop(sender);
    let mut worker = WorkerState::new(2, 4, receiver);
    assert!(matches!(worker.next_admission(), Admission::Open(_)));
    assert!(worker.start_file(0, 4).is_ok());
    assert!(matches!(worker.next_admission(), Admission::Hold));
    assert!(!worker.is_done());
    assert_eq!(worker.end_round(), RoundEnd::Proceed);
    assert_eq!(worker.end_round(), RoundEnd::Wait);
    assert_eq!(worker.complete(0, 4), Ok(Completion::Finished { fd: 0 }));
    assert!(worker.is_done());
}

#[test]
fn full_table_does_not_look_at_the_channel() {
    let (sender, receiver): (Sender<WorkEntry>, Receiver<WorkEntry>) = unbounded();
    sender.send(entry(0, 4)).unwrap();
    sender.send(entry(1, 4)).unwrap();
    let mut worker = WorkerState::new(1, 4, receiver.clone());
    assert!(matches!(worker.next_admission(), Admission::Open(_)));
    assert!(worker.start_file(0, 4).is_ok());
    assert!(matches!(worker.next_admission(), Admission::Hold));
    assert_eq!(receiver.len(), 1);
    assert_eq!(worker.complete(0, 4), Ok(Completion::Finished { fd: 0 }));
    assert!(matches!(worker.next_admission(), Admission::Open(_)));
    assert_eq!(receiver.len(), 0);
}

#[test]
fn collect_concatenates_in_worker_order() {
    let a = hash_bytes(b"a");
    let b = hash_bytes(b"b");
    let c = hash_bytes(b"c");
    let expected = vec![a.hash, b.hash, c.hash];
    let start = Instant::now();
    let outputs = Outputs::collect(start, vec![vec![a], vec![], vec![b, c]]);
    assert_eq!(outputs.start, start);
    let digests: Vec<[u8; 32]> = outputs.files.iter().map(|record| record.hash).collect();
    assert_eq!(digests, expected);
    let nothing = Outputs::collect(start, Vec::new());
    assert!(nothing.files.is_empty());
}
