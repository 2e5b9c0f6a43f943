//! The I/O-bound workload: a rolling SHA-256 over the chunks of a byte
//! source, the count of the bytes read, and the hexadecimal form of the
//! digest. Reading the source is the caller's part.

use vstd::prelude::*;

verus! {

/// The SHA-256 hasher of sha2. Its type is an alias for a nest of generic
/// types bound by traits that cannot be declared here, so it is held
/// opaquely.
#[verifier::external_body]
pub struct Hasher {
    inner: sha2::Sha256,
}

/// The bytes that a hasher has taken in so far, in the order in which it
/// took them.
pub uninterp spec fn absorbed(hasher: Hasher) -> Seq<u8>;

/// The SHA-256 digest of a byte string.
pub uninterp spec fn sha256(data: Seq<u8>) -> Seq<u8>;

/// `Digest::new` of sha2 for `Sha256`: a hasher that has taken in nothing.
#[verifier::external_body]
fn hasher_new() -> (hasher: Hasher)
    ensures
        absorbed(hasher) == Seq::<u8>::empty(),
{
    Hasher { inner: <sha2::Sha256 as sha2::Digest>::new() }
}

/// `Digest::update` of sha2: the hasher takes in `data` after what it had.
#[verifier::external_body]
fn hasher_update(hasher: &mut Hasher, data: &[u8])
    ensures
        absorbed(*final(hasher)) == absorbed(*old(hasher)) + data@,
{
    sha2::Digest::update(&mut hasher.inner, data);
}

/// `Digest::finalize` of sha2: the 32 bytes of the SHA-256 digest of
/// everything the hasher took in.
#[verifier::external_body]
fn hasher_finalize(hasher: Hasher) -> (digest: Vec<u8>)
    ensures
        digest@ == sha256(absorbed(hasher)),
        digest@.len() == 32,
{
    sha2::Digest::finalize(hasher.inner).to_vec()
}

/// The lower-case hexadecimal digit of a value below sixteen.
pub open spec fn hex_digit(nibble: int) -> char {
    seq!['0', '1', '2', '3', '4', '5', '6', '7', '8', '9', 'a', 'b', 'c', 'd', 'e', 'f'][nibble]
}

/// The lower-case hexadecimal form of a byte string: two digits for each
/// byte, the high half first.
pub open spec fn hex_string(bytes: Seq<u8>) -> Seq<char> {
    Seq::new(
        2 * bytes.len(),
        |i: int|
            if i % 2 == 0 {
                hex_digit(bytes[i / 2] as int / 16)
            } else {
                hex_digit(bytes[i / 2] as int % 16)
            },
    )
}

/// `hex::encode`: the lower-case hexadecimal form of `bytes`.
#[verifier::external_body]
fn hex_encode(bytes: &Vec<u8>) -> (text: String)
    ensures
        text@ == hex_string(bytes@),
{
    hex::encode(bytes)
}

/// The running state of the workload: a hasher and the number of bytes it
/// has taken in.
pub struct ChunkDigest {
    hasher: Hasher,
    total_bytes: usize,
}

impl View for ChunkDigest {
    type V = Seq<u8>;

    /// Every byte taken in so far.
    closed spec fn view(&self) -> Seq<u8> {
        absorbed(self.hasher)
    }
}

impl ChunkDigest {
    #[verifier::type_invariant]
    spec fn counts_what_it_hashed(self) -> bool {
        self.total_bytes == absorbed(self.hasher).len()
    }

    /// The state before the first read.
    pub fn new() -> (state: ChunkDigest)
        ensures
            state@ == Seq::<u8>::empty(),
    {
        ChunkDigest { hasher: hasher_new(), total_bytes: 0 }
    }

    /// The number of bytes taken in so far.
    pub fn total_bytes(&self) -> (total: usize)
        ensures
            total == self@.len(),
    {
        proof {
            use_type_invariant(self);
        }
        self.total_bytes
    }

    /// Whether `accept` can count `bytes_read` more bytes.
    pub fn has_room_for(&self, bytes_read: usize) -> (fits: bool)
        ensures
            fits == (self@.len() + bytes_read <= usize::MAX),
    {
        proof {
            use_type_invariant(self);
        }
        bytes_read <= usize::MAX - self.total_bytes
    }

    /// Takes the outcome of one read, `bytes_read` bytes at the front of
    /// `buffer`, and gives the state that follows. A read of nothing marks
    /// the end of the source and leaves the state as it is; the flag tells
    /// whether to read on.
    pub fn accept(self, buffer: &[u8], bytes_read: usize) -> (next: (ChunkDigest, bool))
        requires
            bytes_read <= buffer@.len(),
            self@.len() + bytes_read <= usize::MAX,
        ensures
            next.0@ == self@ + buffer@.subrange(0, bytes_read as int),
            next.1 == (bytes_read != 0),
    {
        proof {
            use_type_invariant(&self);
        }
        if bytes_read == 0 {
            assert(self@ + buffer@.subrange(0, 0) =~= self@);
            return (self, false);
        }
        let ChunkDigest { hasher, total_bytes } = self;
        let mut hasher = hasher;
        let chunk = vstd::slice::slice_subrange(buffer, 0, bytes_read);
        hasher_update(&mut hasher, chunk);
        (ChunkDigest { hasher, total_bytes: total_bytes + bytes_read }, true)
    }

    /// Ends the workload: the digest of everything taken in, as lower-case
    /// hexadecimal text, and the number of bytes.
    pub fn finish(self) -> (outcome: (String, usize))
        ensures
            outcome.0@ == hex_string(sha256(self@)),
            outcome.0@.len() == 64,
            outcome.1 == self@.len(),
    {
        proof {
            use_type_invariant(&self);
        }
        let ChunkDigest { hasher, total_bytes } = self;
        let digest = hasher_finalize(hasher);
        (hex_encode(&digest), total_bytes)
    }
}

} // verus!
