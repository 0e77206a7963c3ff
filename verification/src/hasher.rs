//! Content hashes: a file's bytes streamed through XXH3, to tell
//! whether two files hold the same content.

use vstd::prelude::*;
use vstd::slice::slice_subrange;
use xxhash_rust::xxh3::Xxh3;

verus! {

/// The number of bytes that are hashed in one step.
pub const HASH_CHUNK_SIZE: usize = 65536;

/// The number of bytes to read from a file at a time.
pub const READ_BUFFER_SIZE: usize = 1048576;

/// The streaming XXH3 hasher of the `xxhash-rust` crate.
#[verifier::external_type_specification]
#[verifier::external_body]
pub struct ExXxh3(Xxh3);

/// The 64-bit XXH3 hash of `data`, with the default seed and secret.
pub uninterp spec fn xxh3_64(data: Seq<u8>) -> u64;

/// The bytes that a hasher has taken in since it was made, in order.
pub uninterp spec fn hasher_input(hasher: Xxh3) -> Seq<u8>;

/// `Xxh3::new` makes a hasher with the default seed and secret that has
/// taken in nothing yet.
pub assume_specification[ Xxh3::new ]() -> (hasher: Xxh3)
    ensures
        hasher_input(hasher) == Seq::<u8>::empty(),
;

/// `Xxh3::update` takes in the bytes of `input`, after those taken in
/// before.
pub assume_specification[ Xxh3::update ](hasher: &mut Xxh3, input: &[u8])
    ensures
        hasher_input(*final(hasher)) == hasher_input(*old(hasher)) + input@,
;

/// `Xxh3::digest` is the hash of all the bytes taken in so far, the same as
/// that of the bytes hashed in one piece.
pub assume_specification[ Xxh3::digest ](hasher: &Xxh3) -> (hash: u64)
    ensures
        hash == xxh3_64(hasher_input(*hasher)),
;

/// A content hash in the making: bytes go in piece by piece, the hash of
/// all of them comes out.
pub struct ContentHasher {
    state: Xxh3,
}

impl ContentHasher {
    /// The bytes taken in so far.
    pub closed spec fn absorbed(&self) -> Seq<u8> {
        hasher_input(self.state)
    }

    /// A hasher that has taken in nothing.
    pub fn new() -> (hasher: Self)
        ensures
            hasher.absorbed() == Seq::<u8>::empty(),
    {
        ContentHasher { state: Xxh3::new() }
    }

    /// Takes in what one read has brought: the first `count` bytes of
    /// `buffer`. The answer is whether to read on; a read that brought
    /// nothing is the end of the file.
    pub fn absorb(&mut self, buffer: &[u8], count: usize) -> (more: bool)
        requires
            count <= buffer.len(),
        ensures
            final(self).absorbed() == old(self).absorbed() + buffer@.take(count as int),
            more == (count > 0),
    {
        if count == 0 {
            assert(self.absorbed() + buffer@.take(0) =~= self.absorbed());
            return false;
        }
        self.state.update(slice_subrange(buffer, 0, count));
        true
    }

    /// The hash of the bytes taken in so far.
    pub fn finish(&self) -> (hash: u64)
        ensures
            hash == xxh3_64(self.absorbed()),
    {
        self.state.digest()
    }
}

/// The content hash of a file that holds the bytes `content`, taken in
/// chunk by chunk.
pub fn calculate_hash(content: &[u8]) -> (hash: u64)
    ensures
        hash == xxh3_64(content@),
{
    let mut hasher = ContentHasher::new();
    let mut done: usize = 0;
    assert(content@.take(0) =~= Seq::<u8>::empty());
    while done < content.len()
        invariant
            done <= content.len(),
            hasher.absorbed() == content@.take(done as int),
        decreases content.len() - done,
    {
        let left = content.len() - done;
        let step = if left < HASH_CHUNK_SIZE {
            left
        } else {
            HASH_CHUNK_SIZE
        };
        let chunk = slice_subrange(content, done, done + step);
        hasher.absorb(chunk, step);
        assert(content@.take(done as int) + chunk@.take(step as int) =~= content@.take(done + step));
        done += step;
    }
    assert(content@.take(content@.len() as int) =~= content@);
    hasher.finish()
}

} // verus!
