use bulk_hasher::batched::{Admission, Completion, WorkerState};
use bulk_hasher::digest::hash_bytes;
use bulk_hasher::single_request::{NextStep, SequentialWorker};
use bulk_hasher::types::WorkEntry;
use bulk_hasher::walker::{
    on_permit_attempt, permit_capacity, visit_dir, visit_entry, PermitAttempt, PermitStep, Visit,
    Walker,
};
use crossbeam::channel::unbounded;
use semaphore::SemaphoreGuard;
use std::path::PathBuf;

fn permit_of(walker: &Walker) -> SemaphoreGuard<()> {
    match walker.try_permit() {
        PermitStep::Proceed(permit) => permit,
        _ => panic!("no permit was free"),
    }
}

#[test]
fn permit_capacity_is_four_fifths_rounded_down() {
    assert_eq!(permit_capacity(0), 0);
    assert_eq!(permit_capacity(1), 0);
    assert_eq!(permit_capacity(2), 1);
    assert_eq!(permit_capacity(4), 3);
    assert_eq!(permit_capacity(5), 4);
    assert_eq!(permit_capacity(9), 7);
    assert_eq!(permit_capacity(10), 8);
    assert_eq!(permit_capacity(100), 80);
    assert_eq!(permit_capacity(101), 80);
    assert_eq!(permit_capacity(199), 159);
    assert_eq!(permit_capacity(1024), 819);
    assert_eq!(permit_capacity(65_536), 52_428);
    assert_eq!(permit_capacity(1_048_576), 838_860);
}

#[test]
fn permit_capacity_of_the_largest_limit() {
    let exact = (usize::MAX as u128 * 80 / 100) as usize;
    assert_eq!(permit_capacity(usize::MAX), exact);
    assert_eq!(permit_capacity(usize::MAX - 1), ((usize::MAX - 1) as u128 * 80 / 100) as usize);
}

#[test]
fn visit_entry_by_kind() {
    assert_eq!(visit_entry(true, false), Visit::HashFile);
    assert_eq!(visit_entry(false, true), Visit::ListDirectory);
    assert_eq!(visit_entry(false, false), Visit::Skip);
    assert_eq!(visit_entry(true, true), Visit::HashFile);
}

#[test]
fn unreadable_directory_has_no_children() {
    assert!(visit_dir(None).is_empty());
}

#[test]
fn readable_entries_are_the_children_in_order() {
    let listing = vec![
        Some(PathBuf::from("a")),
        None,
        Some(PathBuf::from("b")),
        Some(PathBuf::from("c")),
        None,
    ];
    let expected = vec![PathBuf::from("a"), PathBuf::from("b"), PathBuf::from("c")];
    assert_eq!(visit_dir(Some(listing)), expected);
    assert!(visit_dir(Some(Vec::new())).is_empty());
    assert!(visit_dir(Some(vec![None, None])).is_empty());
}

#[test]
fn permit_attempts() {
    assert!(matches!(on_permit_attempt(PermitAttempt::NoCapacity), PermitStep::YieldAndRetry));
    assert!(matches!(on_permit_attempt(PermitAttempt::Shutdown), PermitStep::Abort));
    let walker = Walker::new(5);
    match walker.try_permit() {
        PermitStep::Proceed(permit) => {
            assert!(matches!(
                on_permit_attempt(PermitAttempt::Granted(permit)),
                PermitStep::Proceed(_)
            ));
        },
        _ => panic!("a fresh walker has permits"),
    }
}

#[test]
fn held_permits_never_exceed_the_capacity() {
    let walker = Walker::new(10);
    let mut held = Vec::new();
    for _ in 0..8 {
        match walker.try_permit() {
            PermitStep::Proceed(permit) => held.push(permit),
            _ => panic!("a permit was free"),
        }
    }
    assert!(matches!(walker.try_permit(), PermitStep::YieldAndRetry));
    assert!(matches!(walker.try_permit(), PermitStep::YieldAndRetry));
    held.pop();
    match walker.try_permit() {
        PermitStep::Proceed(permit) => held.push(permit),
        _ => panic!("a permit was given back"),
    }
    assert!(matches!(walker.try_permit(), PermitStep::YieldAndRetry));
    assert_eq!(held.len(), permit_capacity(10));
}

#[test]
fn walker_without_descriptors_grants_nothing() {
    let walker = Walker::new(1);
    assert_eq!(permit_capacity(1), 0);
    assert!(matches!(walker.try_permit(), PermitStep::YieldAndRetry));
    assert!(matches!(walker.try_permit(), PermitStep::YieldAndRetry));
    let none = Walker::new(0);
    assert!(matches!(none.try_permit(), PermitStep::YieldAndRetry));
}

#[test]
fn walker_keeps_one_record_per_file() {
    let walker = Walker::new(100);
    assert_eq!(walker.visit_file(permit_of(&walker), b"first"), hash_bytes(b"first").hash);
    assert_eq!(walker.visit_file(permit_of(&walker), b""), hash_bytes(b"").hash);
    assert_eq!(walker.visit_file(permit_of(&walker), b"third"), hash_bytes(b"third").hash);
    let mut digests: Vec<[u8; 32]> = walker.into_files().iter().map(|record| record.hash).collect();
    digests.sort();
    let mut expected =
        vec![hash_bytes(b"first").hash, hash_bytes(b"").hash, hash_bytes(b"third").hash];
    expected.sort();
    assert_eq!(digests, expected);
}

enum Node {
    File(Vec<u8>),
    Dir(Vec<Node>),
    Unreadable,
    Other,
}

fn walk(walker: &Walker, node: &Node) {
    let (is_file, is_dir) = match node {
        Node::File(_) => (true, false),
        Node::Dir(_) | Node::Unreadable => (false, true),
        Node::Other => (false, false),
    };
    match visit_entry(is_file, is_dir) {
        Visit::HashFile => {
            if let Node::File(content) = node {
                walker.visit_file(permit_of(walker), content);
            }
        },
        Visit::ListDirectory => {
            let listing = match node {
                Node::Dir(children) => {
                    Some((0..children.len()).map(|i| Some(PathBuf::from(format!("{}", i)))).collect())
                },
                _ => None,
            };
            for child in visit_dir(listing) {
                let index: usize = child.to_str().unwrap().parse().unwrap();
                if let Node::Dir(children) = node {
                    walk(walker, &children[index]);
                }
            }
        },
        Visit::Skip => {},
    }
}

#[test]
fn unreadable_subdirectory_is_skipped() {
    let tree = Node::Dir(vec![
        Node::File(b"one".to_vec()),
        Node::Unreadable,
        Node::Other,
        Node::Dir(vec![Node::File(b"two".to_vec()), Node::Dir(vec![]), Node::File(Vec::new())]),
    ]);
    let walker = Walker::new(1024);
    walk(&walker, &tree);
    let mut digests: Vec<[u8; 32]> = walker.into_files().iter().map(|record| record.hash).collect();
    digests.sort();
    let mut expected = vec![hash_bytes(b"one").hash, hash_bytes(b"two").hash, hash_bytes(b"").hash];
    expected.sort();
    assert_eq!(digests, expected);
}

#[test]
fn three_engines_agree() {
    let files: Vec<Vec<u8>> = [0usize, 4096, 10_000, 1, 4097, 8192]
        .iter()
        .enumerate()
        .map(|(seed, size)| (0..*size).map(|i| (i as u8).wrapping_add(seed as u8)).collect())
        .collect();

    let walker = Walker::new(64);
    for content in files.iter() {
        walker.visit_file(permit_of(&walker), content);
    }
    let mut by_walker: Vec<[u8; 32]> = walker.into_files().iter().map(|r| r.hash).collect();
    by_walker.sort();

    let mut sequential = SequentialWorker::new(4096);
    for (index, content) in files.iter().enumerate() {
        let mut step = sequential.begin(index as i32, content.len() as u64);
        while let NextStep::Read(request) = step {
            let start = request.offset as usize;
            let end = (start + request.len as usize).min(content.len());
            sequential.get_buffer()[..end - start].copy_from_slice(&content[start..end]);
            step = sequential.on_read((end - start) as i32).unwrap();
        }
    }
    let mut by_sequential: Vec<[u8; 32]> =
        sequential.into_results().iter().map(|r| r.hash).collect();
    by_sequential.sort();

    let (sender, receiver) = unbounded::<WorkEntry>();
    for (index, content) in files.iter().enumerate() {
        let path = PathBuf::from(format!("{}", index));
        sender.send(WorkEntry { path, size: content.len() as u64 }).unwrap();
    }
    drop(sender);
    let mut batched = WorkerState::new(2, 512, receiver);
    let mut pending = Vec::new();
    while !batched.is_done() {
        while let Admission::Open(entry) = batched.next_admission() {
            let fd: i32 = entry.path.to_str().unwrap().parse().unwrap();
            pending.push(batched.start_file(fd, entry.size).unwrap());
        }
        let ready: Vec<_> = pending.drain(..).collect();
        for request in ready {
            let content = &files[request.fd as usize];
            let start = request.offset as usize;
            let end = (start + request.len as usize).min(content.len());
            batched.get_buffer(request.fd).unwrap()[..end - start]
                .copy_from_slice(&content[start..end]);
            if let Completion::Resubmit(next) =
                batched.complete(request.fd, (end - start) as i32).unwrap()
            {
                pending.push(next);
            }
        }
        batched.end_round();
    }
    let mut by_batched: Vec<[u8; 32]> = batched.into_results().iter().map(|r| r.hash).collect();
    by_batched.sort();

    assert_eq!(by_walker.len(), files.len());
    assert_eq!(by_walker, by_sequential);
    assert_eq!(by_walker, by_batched);
}

#[test]
fn permit_is_given_back_when_the_file_is_done() {
    let walker = Walker::new(2);
    assert_eq!(permit_capacity(2), 1);
    for round in 0..10u8 {
        let permit = permit_of(&walker);
        assert!(matches!(walker.try_permit(), PermitStep::YieldAndRetry));
        walker.visit_file(permit, &[round]);
    }
    assert_eq!(walker.into_files().len(), 10);
}
