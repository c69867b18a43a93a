//! The incremental content digest shared by every engine.

use crate::types::FileInfo;
use vstd::prelude::*;

verus! {

/// The hash state of the `blake3` crate, carried as an opaque value.
#[verifier::external_type_specification]
#[verifier::external_body]
pub struct ExHasher(blake3::Hasher);

/// The 32-byte BLAKE3 digest of `input`, as `blake3::Hasher::finalize`
/// returns it for a hasher that has absorbed exactly `input`.
pub uninterp spec fn blake3_digest(input: Seq<u8>) -> Seq<u8>;

/// The bytes that a hash state has absorbed since it was made or last reset,
/// in the order in which they were written.
pub uninterp spec fn hasher_input(hasher: blake3::Hasher) -> Seq<u8>;

/// The input offset of a hash state. It is zero unless the state was moved
/// through the crate's `hazmat` extension, which this library never uses.
pub uninterp spec fn hasher_input_offset(hasher: blake3::Hasher) -> nat;

/// `blake3::Hasher::new`: a state for the regular hash function that has
/// absorbed nothing and starts at offset zero.
#[verifier::external_body]
fn hasher_new() -> (hasher: blake3::Hasher)
    ensures
        hasher_input(hasher) == Seq::<u8>::empty(),
        hasher_input_offset(hasher) == 0,
{
    blake3::Hasher::new()
}

/// `blake3::Hasher::update`: appends `input` to what the state has absorbed.
/// The crate bounds the input only for a state with a nonzero offset.
#[verifier::external_body]
fn hasher_update(hasher: &mut blake3::Hasher, input: &[u8])
    requires
        hasher_input_offset(*old(hasher)) == 0,
    ensures
        hasher_input(*final(hasher)) == hasher_input(*old(hasher)) + input@,
        hasher_input_offset(*final(hasher)) == 0,
    no_unwind
{
    hasher.update(input);
}

/// `blake3::Hasher::finalize`, converted to its 32 bytes: the digest of all
/// that the state has absorbed. The state is left as it was. The crate
/// refuses to finalize a state with a nonzero offset.
#[verifier::external_body]
fn hasher_finalize(hasher: &blake3::Hasher) -> (digest: [u8; 32])
    requires
        hasher_input_offset(*hasher) == 0,
    ensures
        digest@ == blake3_digest(hasher_input(*hasher)),
{
    hasher.finalize().into()
}

/// `blake3::Hasher::reset`: the state forgets what it has absorbed and keeps
/// its key and offset.
#[verifier::external_body]
fn hasher_reset(hasher: &mut blake3::Hasher)
    requires
        hasher_input_offset(*old(hasher)) == 0,
    ensures
        hasher_input(*final(hasher)) == Seq::<u8>::empty(),
        hasher_input_offset(*final(hasher)) == 0,
    no_unwind
{
    hasher.reset();
}

/// An incremental digest accumulator. Its view is the byte sequence it has
/// absorbed so far.
pub struct ContentHasher {
    state: blake3::Hasher,
}

impl View for ContentHasher {
    type V = Seq<u8>;

    closed spec fn view(&self) -> Seq<u8> {
        hasher_input(self.state)
    }
}

impl ContentHasher {
    #[verifier::type_invariant]
    spec fn starts_at_zero(self) -> bool {
        hasher_input_offset(self.state) == 0
    }

    /// An accumulator that has absorbed nothing.
    pub fn new() -> (hasher: Self)
        ensures
            hasher@ == Seq::<u8>::empty(),
    {
        ContentHasher { state: hasher_new() }
    }

    /// Folds `chunk` in after everything absorbed before.
    pub fn update(&mut self, chunk: &[u8])
        ensures
            final(self)@ == old(self)@ + chunk@,
    {
        proof {
            use_type_invariant(&*self);
        }
        hasher_update(&mut self.state, chunk);
    }

    /// The digest of everything absorbed so far.
    pub fn finalize(&self) -> (digest: [u8; 32])
        ensures
            digest@ == blake3_digest(self@),
    {
        proof {
            use_type_invariant(self);
        }
        hasher_finalize(&self.state)
    }

    /// Forgets everything absorbed so far.
    pub fn reset(&mut self)
        ensures
            final(self)@ == Seq::<u8>::empty(),
    {
        proof {
            use_type_invariant(&*self);
        }
        hasher_reset(&mut self.state);
    }
}

/// Hashes `content` in one pass.
pub fn hash_bytes(content: &[u8]) -> (record: FileInfo)
    ensures
        record.hash@ == blake3_digest(content@),
{
    let mut hasher = ContentHasher::new();
    hasher.update(content);
    assert(Seq::<u8>::empty() + content@ =~= content@);
    FileInfo { hash: hasher.finalize() }
}

} // verus!
