//! The per-file hashing progress and the table that finds it again by the
//! correlation id of a completed read.

use crate::buffer_pool::Buffer;
use crate::digest::{blake3_digest, ContentHasher};
use crate::types::FileInfo;
use vstd::prelude::*;
use vstd::slice::slice_subrange;

verus! {

/// The progress of one file that has a read outstanding.
pub struct HashingState {
    /// Has absorbed the bytes of the file before `offset`.
    pub hasher: ContentHasher,
    /// The buffer that the outstanding read fills.
    pub buffer: Buffer,
    /// The number of bytes consumed so far.
    pub offset: u64,
    /// The size of the file when it was opened.
    pub len: u64,
}

/// How far the hashing of one file has come: the bytes folded into its
/// digest, the offset reached, and the size it is read up to.
pub struct Progress {
    /// The bytes folded into the digest, in order.
    pub absorbed: Seq<u8>,
    /// The number of bytes consumed.
    pub offset: nat,
    /// The size of the file when it was opened.
    pub target: nat,
}

impl Progress {
    /// The progress of a file of `target` bytes before its first read.
    pub open spec fn start(target: nat) -> Progress {
        Progress { absorbed: Seq::empty(), offset: 0, target }
    }

    /// The progress after a read has delivered `chunk` at the current offset.
    pub open spec fn advance(self, chunk: Seq<u8>) -> Progress {
        Progress {
            absorbed: self.absorbed + chunk,
            offset: self.offset + chunk.len(),
            target: self.target,
        }
    }

    /// The offset has reached the size.
    pub open spec fn complete(self) -> bool {
        self.offset == self.target
    }

    /// The digest of the bytes folded in so far.
    pub open spec fn digest(self) -> Seq<u8> {
        blake3_digest(self.absorbed)
    }
}

impl HashingState {
    /// No more bytes were consumed than the file holds.
    pub open spec fn wf(&self) -> bool {
        self.offset <= self.len
    }

    /// What the state says of its file.
    pub open spec fn progress(&self) -> Progress {
        Progress { absorbed: self.hasher@, offset: self.offset as nat, target: self.len as nat }
    }

    /// The state of a file of `len` bytes before its first read, which will
    /// fill `buffer`.
    pub fn start(buffer: Buffer, len: u64) -> (state: Self)
        ensures
            state.progress() == Progress::start(len as nat),
            state.buffer == buffer,
            state.wf(),
    {
        HashingState { hasher: ContentHasher::new(), buffer, offset: 0, len }
    }

    /// Folds the first `transferred` bytes of the buffer into the digest and
    /// moves the offset past them.
    pub fn absorb(&mut self, transferred: usize)
        requires
            transferred <= old(self).buffer@.len(),
            old(self).offset + transferred <= old(self).len,
        ensures
            final(self).progress() == old(self).progress().advance(
                old(self).buffer@.subrange(0, transferred as int),
            ),
            final(self).buffer == old(self).buffer,
            final(self).wf(),
    {
        self.hasher.update(slice_subrange(self.buffer.as_slice(), 0, transferred));
        self.offset = self.offset + transferred as u64;
    }

    /// Whether the whole file has been consumed.
    pub fn is_complete(&self) -> (done: bool)
        ensures
            done == self.progress().complete(),
    {
        self.offset == self.len
    }

    /// Ends the hashing: the record of the file, and the buffer to give back.
    pub fn finish(self) -> (out: (FileInfo, Buffer))
        ensures
            out.0.hash@ == self.progress().digest(),
            out.1 == self.buffer,
    {
        let hash = self.hasher.finalize();
        (FileInfo { hash }, self.buffer)
    }
}

/// The ids in the first `n` places of `keys`.
spec fn key_set(keys: Seq<i32>, n: int) -> Set<i32> {
    Set::new(|key: i32| exists|i: int| 0 <= i < n && #[trigger] keys[i] == key)
}

proof fn lemma_key_set(keys: Seq<i32>, n: int)
    requires
        0 <= n <= keys.len(),
        forall|i: int, j: int| 0 <= i < j < n ==> #[trigger] keys[i] != #[trigger] keys[j],
    ensures
        key_set(keys, n).finite(),
        key_set(keys, n).len() == n,
    decreases n,
{
    if n == 0 {
        assert(key_set(keys, 0) =~= Set::<i32>::empty());
    } else {
        lemma_key_set(keys, n - 1);
        let before = key_set(keys, n - 1);
        let last = keys[n - 1];
        assert(!before.contains(last)) by {
            if before.contains(last) {
                let i = choose|i: int| 0 <= i < n - 1 && #[trigger] keys[i] == last;
                assert(keys[i] != keys[n - 1]);
            }
        }
        assert(key_set(keys, n) =~= before.insert(last)) by {
            assert forall|key: i32| key_set(keys, n).contains(key) <==> before.insert(
                last,
            ).contains(key) by {
                if before.contains(key) {
                    let i = choose|i: int| 0 <= i < n - 1 && #[trigger] keys[i] == key;
                    assert(0 <= i < n && keys[i] == key);
                }
                if key == last {
                    assert(keys[n - 1] == key);
                }
                if key_set(keys, n).contains(key) {
                    let i = choose|i: int| 0 <= i < n && #[trigger] keys[i] == key;
                    if i < n - 1 {
                        assert(keys[i] == key);
                    }
                }
            }
        }
    }
}

/// A fixed-capacity table from correlation id to hashing progress. Its view
/// is the map from each id in the table to the state stored under it.
pub struct HashingStateMap {
    keys: Vec<i32>,
    values: Vec<Option<HashingState>>,
    len: usize,
}

impl View for HashingStateMap {
    type V = Map<i32, HashingState>;

    closed spec fn view(&self) -> Map<i32, HashingState> {
        Map::new(|key: i32| self.holds(key), |key: i32| self.values@[self.slot_of(key)].unwrap())
    }
}

impl HashingStateMap {
    /// The number of slots.
    pub closed spec fn capacity(&self) -> nat {
        self.keys@.len()
    }

    spec fn holds(&self, key: i32) -> bool {
        exists|i: int| 0 <= i < self.len && #[trigger] self.keys@[i] == key
    }

    spec fn slot_of(&self, key: i32) -> int {
        choose|i: int| 0 <= i < self.len && #[trigger] self.keys@[i] == key
    }

    /// The entries fill the slots from the bottom, no id occurs twice among
    /// them, and the slots above them are empty.
    pub closed spec fn wf(&self) -> bool {
        &&& self.keys@.len() == self.values@.len()
        &&& self.len <= self.keys@.len()
        &&& forall|i: int| 0 <= i < self.len ==> (#[trigger] self.values@[i]).is_some()
        &&& forall|i: int|
            self.len <= i < self.values@.len() ==> (#[trigger] self.values@[i]).is_none()
        &&& forall|i: int, j: int|
            0 <= i < j < self.len ==> #[trigger] self.keys@[i] != #[trigger] self.keys@[j]
    }

    proof fn lemma_slot(&self, key: i32, i: int)
        requires
            self.wf(),
            0 <= i < self.len,
            self.keys@[i] == key,
        ensures
            self.holds(key),
            self.slot_of(key) == i,
            self@.contains_key(key),
            self@[key] == self.values@[i].unwrap(),
    {
        let j = self.slot_of(key);
        assert(0 <= j < self.len && self.keys@[j] == key);
        if i < j {
            assert(self.keys@[i] != self.keys@[j]);
        }
        if j < i {
            assert(self.keys@[j] != self.keys@[i]);
        }
    }

    /// A well-formed table holds finitely many entries, and no more than it
    /// has slots.
    pub proof fn lemma_bounds(&self)
        requires
            self.wf(),
        ensures
            self@.dom().finite(),
            self@.len() <= self.capacity(),
    {
        self.lemma_entries();
    }

    proof fn lemma_entries(&self)
        requires
            self.wf(),
        ensures
            self@.dom().finite(),
            self@.len() == self.len,
    {
        lemma_key_set(self.keys@, self.len as int);
        assert(self@.dom() =~= key_set(self.keys@, self.len as int));
    }

    /// An empty table with `ring_size` slots.
    pub fn new(ring_size: usize) -> (table: Self)
        ensures
            table.wf(),
            table@ == Map::<i32, HashingState>::empty(),
            table.capacity() == ring_size,
    {
        let keys: Vec<i32> = vec![0i32; ring_size];
        let mut values: Vec<Option<HashingState>> = Vec::new();
        let mut filled: usize = 0;
        while filled < ring_size
            invariant
                filled <= ring_size,
                values@.len() == filled,
                forall|i: int| 0 <= i < filled ==> (#[trigger] values@[i]).is_none(),
            decreases ring_size - filled,
        {
            values.push(None);
            filled += 1;
        }
        let table = HashingStateMap { keys, values, len: 0 };
        assert(table@ =~= Map::<i32, HashingState>::empty());
        table
    }

    /// The number of entries.
    pub fn size(&self) -> (n: usize)
        requires
            self.wf(),
        ensures
            n == self@.len(),
    {
        proof {
            self.lemma_entries();
        }
        self.len
    }

    fn position(&self, key: i32) -> (found: Option<usize>)
        requires
            self.wf(),
        ensures
            match found {
                Some(i) => i < self.len && self.keys@[i as int] == key && self@.contains_key(key)
                    && self.slot_of(key) == i,
                None => !self@.contains_key(key),
            },
    {
        let mut i: usize = 0;
        while i < self.len
            invariant
                self.wf(),
                i <= self.len,
                forall|j: int| 0 <= j < i ==> #[trigger] self.keys@[j] != key,
            decreases self.len - i,
        {
            if self.keys[i] == key {
                proof {
                    self.lemma_slot(key, i as int);
                }
                return Some(i);
            }
            i += 1;
        }
        None
    }

    /// Whether an entry is stored under `key`.
    pub fn contains(&self, key: i32) -> (found: bool)
        requires
            self.wf(),
        ensures
            found == self@.contains_key(key),
    {
        self.position(key).is_some()
    }

    /// The entry stored under `key`, if there is one.
    pub fn get(&self, key: i32) -> (found: Option<&HashingState>)
        requires
            self.wf(),
        ensures
            match found {
                Some(state) => self@.contains_key(key) && *state == self@[key],
                None => !self@.contains_key(key),
            },
    {
        match self.position(key) {
            Some(index) => {
                proof {
                    self.lemma_slot(key, index as int);
                }
                self.values[index].as_ref()
            },
            None => None,
        }
    }

    /// Stores `value` under `key`, which is not in the table yet.
    pub fn insert(&mut self, key: i32, value: HashingState)
        requires
            old(self).wf(),
            old(self)@.len() < old(self).capacity(),
            !old(self)@.contains_key(key),
        ensures
            final(self).wf(),
            final(self)@ == old(self)@.insert(key, value),
            final(self).capacity() == old(self).capacity(),
    {
        let index = self.len;
        proof {
            self.lemma_entries();
        }
        assert(index < self.keys.len());
        self.keys[index] = key;
        self.values[index] = Some(value);
        self.len += 1;
        proof {
            assert forall|i: int, j: int| 0 <= i < j < self.len implies #[trigger] self.keys@[i]
                != #[trigger] self.keys@[j] by {
                if j == index {
                    assert(old(self).keys@[i] == self.keys@[i]);
                    if self.keys@[i] == key {
                        old(self).lemma_slot(key, i);
                    }
                }
            }
            let expected = old(self)@.insert(key, value);
            assert forall|k: i32| self@.contains_key(k) <==> expected.contains_key(k) by {
                if old(self).holds(k) {
                    let i = old(self).slot_of(k);
                    assert(self.keys@[i] == k);
                }
                if k == key {
                    assert(self.keys@[index as int] == k);
                }
                if self.holds(k) {
                    let i = self.slot_of(k);
                    if i < index {
                        assert(old(self).keys@[i] == k);
                    }
                }
            }
            assert forall|k: i32| self@.contains_key(k) implies self@[k] == expected[k] by {
                let i = self.slot_of(k);
                self.lemma_slot(k, i);
                if i < index {
                    old(self).lemma_slot(k, i);
                }
            }
            assert(self@ =~= expected);
        }
    }

    /// The buffer of the entry stored under `key`, for the read to fill.
    /// Whatever is written through the borrow is the buffer's content
    /// afterwards; nothing else in the table changes.
    pub fn get_buffer(&mut self, key: i32) -> (buffer: &mut [u8])
        requires
            old(self).wf(),
            old(self)@.contains_key(key),
        ensures
            buffer@ == old(self)@[key].buffer@,
            final(self).wf(),
            final(self).capacity() == old(self).capacity(),
            final(self)@.dom() == old(self)@.dom(),
            forall|other: i32|
                other != key && old(self)@.contains_key(other) ==> {
                    final(self)@[other] == old(self)@[other]
                },
            final(self)@[key].buffer@ == final(buffer)@,
            final(self)@[key].hasher == old(self)@[key].hasher,
            final(self)@[key].offset == old(self)@[key].offset,
            final(self)@[key].len == old(self)@[key].len,
    {
        let index = self.position(key).unwrap();
        let value = self.values[index].as_mut().unwrap();
        value.buffer.as_mut_slice()
    }

    /// Takes the entry stored under `key` out of the table.
    pub fn remove(&mut self, key: i32) -> (state: HashingState)
        requires
            old(self).wf(),
            old(self)@.contains_key(key),
        ensures
            final(self).wf(),
            state == old(self)@[key],
            final(self)@ == old(self)@.remove(key),
            final(self).capacity() == old(self).capacity(),
    {
        let index = self.position(key).unwrap();
        let value = self.values[index].take().unwrap();
        // The last entry moves into the slot that was vacated.
        let last_index = self.len - 1;
        let last_key = self.keys[last_index];
        self.keys[index] = last_key;
        let moved = self.values[last_index].take();
        self.values[index] = moved;
        self.len -= 1;
        proof {
            let expected = old(self)@.remove(key);
            assert forall|i: int, j: int| 0 <= i < j < self.len implies #[trigger] self.keys@[i]
                != #[trigger] self.keys@[j] by {
                let oi = if i == index { last_index as int } else { i };
                let oj = if j == index { last_index as int } else { j };
                assert(self.keys@[i] == old(self).keys@[oi]);
                assert(self.keys@[j] == old(self).keys@[oj]);
                if oi < oj {
                    assert(old(self).keys@[oi] != old(self).keys@[oj]);
                } else {
                    assert(old(self).keys@[oj] != old(self).keys@[oi]);
                }
            }
            assert forall|k: i32| self@.contains_key(k) <==> expected.contains_key(k) by {
                if old(self).holds(k) && k != key {
                    let i = old(self).slot_of(k);
                    old(self).lemma_slot(k, i);
                    if i == last_index {
                        assert(self.keys@[index as int] == k);
                    } else {
                        assert(self.keys@[i] == k);
                    }
                }
                if self.holds(k) {
                    let i = self.slot_of(k);
                    let oi = if i == index { last_index as int } else { i };
                    assert(old(self).keys@[oi] == k);
                    old(self).lemma_slot(k, oi);
                }
            }
            assert forall|k: i32| self@.contains_key(k) implies self@[k] == expected[k] by {
                let i = self.slot_of(k);
                self.lemma_slot(k, i);
                let oi = if i == index { last_index as int } else { i };
                old(self).lemma_slot(k, oi);
            }
            assert(self@ =~= expected);
        }
        value
    }
}

} // verus!
