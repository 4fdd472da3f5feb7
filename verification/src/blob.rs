//! Binary blobs: padding, and the numbered list of blobs of a document.

use crate::buf::{
    bytes_mut_put_u32_le, bytes_mut_to_vec, bytes_mut_view, bytes_mut_with_capacity, u32_le_bytes,
};
use crate::error::{Malformed, RdmError};
use crate::gltf_json::Root;
use crate::text::{buffer_file_name, format_buffer_file_name};
use vstd::prelude::*;

verus! {

/// How many zero bytes bring a blob of `len` bytes to a multiple of four.
pub open spec fn padding(len: nat) -> nat {
    ((4 - len % 4) % 4) as nat
}

/// `bytes` followed by zero bytes up to the next multiple of four.
pub open spec fn padded(bytes: Seq<u8>) -> Seq<u8> {
    bytes + Seq::new(padding(bytes.len()), |i: int| 0u8)
}

/// The blobs of a document as sequences of bytes.
pub open spec fn blobs_view(blobs: Seq<Vec<u8>>) -> Seq<Seq<u8>> {
    Seq::new(blobs.len(), |i: int| blobs[i]@)
}

/// Between a length and the next multiple of four, only that multiple
/// is a multiple of four.
proof fn lemma_padding(n: nat, len: nat)
    requires
        n <= len <= n + padding(n),
    ensures
        padding(n) < 4,
        len % 4 == 0 <==> len == n + padding(n),
{
}

/// Pads a blob with zero bytes to a multiple of four bytes.
pub fn to_padded_byte_vector(vec: Vec<u8>) -> (r: Vec<u8>)
    ensures
        r@ == padded(vec@),
        r@.len() % 4 == 0,
{
    let mut new_vec = vec;
    let ghost start = new_vec@;
    assert(new_vec@ =~= start + Seq::new(0, |i: int| 0u8));
    while new_vec.len() % 4 != 0
        invariant
            start.len() <= new_vec@.len() <= start.len() + padding(start.len()),
            new_vec@ == start + Seq::new((new_vec@.len() - start.len()) as nat, |i: int| 0u8),
        decreases start.len() + padding(start.len()) - new_vec@.len(),
    {
        proof {
            lemma_padding(start.len(), new_vec@.len());
        }
        let ghost before = new_vec@;
        new_vec.push(0);
        assert(new_vec@ =~= start + Seq::new((before.len() + 1 - start.len()) as nat, |i: int| 0u8));
    }
    proof {
        lemma_padding(start.len(), new_vec@.len());
    }
    new_vec
}

/// What pushing a blob returns: the file that will hold it, the number of
/// elements pushed, the number of bytes stored, and the index of the
/// blob.
#[derive(Clone, Debug)]
pub struct PushBufferResult {
    pub file_name: String,
    pub num: u32,
    pub len: u32,
    pub idx: u32,
}

/// The blobs of a document in the order in which they were pushed, and
/// the finished document, once it is built.
#[derive(Clone, Debug)]
pub struct RDGltf {
    pub buffers: Vec<Vec<u8>>,
    pub root: Option<Root>,
}

/// The largest blob that a document takes, in bytes: the largest multiple
/// of four below 2 GiB.
pub const MAX_BLOB: usize = 0x7FFF_FFFC;

/// Whether a blob of `len` bytes can be pushed behind `count` others: the
/// blob is not too large, and its index fits in 32 bits with room for a
/// blob after it.
pub open spec fn can_push(count: nat, len: nat) -> bool {
    count < u32::MAX && len <= MAX_BLOB
}

impl RDGltf {
    /// All blobs as sequences of bytes.
    pub open spec fn blobs(&self) -> Seq<Seq<u8>> {
        blobs_view(self.buffers@)
    }

    /// The name of the file that holds the blob of the given index.
    pub fn file_name(idx: usize) -> (name: String)
        ensures
            name@ == buffer_file_name(idx as nat),
    {
        format_buffer_file_name(idx)
    }

    /// A document without blobs.
    pub fn new() -> (r: RDGltf)
        ensures
            r.buffers@.len() == 0,
            r.root is None,
    {
        RDGltf { buffers: Vec::new(), root: None }
    }

    /// Stores a blob, padded to a multiple of four bytes, behind those
    /// stored before and gives it the next index. `num` is the number of
    /// elements that the blob holds. A blob that cannot be pushed is
    /// refused and nothing changes.
    #[verifier::rlimit(50)]
    pub fn push_buffer(&mut self, vec: Vec<u8>, num: u32) -> (r: Result<PushBufferResult, RdmError>)
        ensures
            final(self).root == old(self).root,
            can_push(old(self).buffers@.len(), vec@.len()) ==> {
                &&& r is Ok
                &&& r->Ok_0.idx == old(self).buffers@.len()
                &&& r->Ok_0.num == num
                &&& r->Ok_0.len == padded(vec@).len()
                &&& r->Ok_0.len % 4 == 0
                &&& r->Ok_0.file_name@ == buffer_file_name(old(self).buffers@.len())
                &&& final(self).blobs() == old(self).blobs().push(padded(vec@))
                &&& final(self).blobs() == after_pushes(old(self).blobs(), seq![vec@])
            },
            !can_push(old(self).buffers@.len(), vec@.len()) ==> {
                &&& r == Err::<PushBufferResult, RdmError>(
                    RdmError::MalformedFormat(Malformed::TooLarge),
                )
                &&& final(self).buffers == old(self).buffers
            },
    {
        let idx = self.buffers.len();
        let num_bytes = vec.len();
        if idx >= u32::MAX as usize || num_bytes > MAX_BLOB {
            return Err(RdmError::MalformedFormat(Malformed::TooLarge));
        }
        let file_name = Self::file_name(idx);
        let ghost bytes = vec@;
        let padded_byte_vector = to_padded_byte_vector(vec);
        let len = padded_byte_vector.len();
        let ghost before = self.buffers@;
        let ghost blob = padded_byte_vector@;
        self.buffers.push(padded_byte_vector);
        assert(blobs_view(self.buffers@) =~= blobs_view(before).push(blob));
        assert(seq![bytes].drop_last() =~= Seq::<Seq<u8>>::empty());
        assert(after_pushes(blobs_view(before), Seq::<Seq<u8>>::empty()) == blobs_view(before));
        Ok(PushBufferResult { file_name, num, len: len as u32, idx: idx as u32 })
    }
}

/// The little-endian bytes of each word, word after word.
pub open spec fn words_le(words: Seq<u32>) -> Seq<u8>
    decreases words.len(),
{
    if words.len() == 0 {
        Seq::empty()
    } else {
        words_le(words.drop_last()) + u32_le_bytes(words.last())
    }
}

/// The little-endian bytes of each vector of words, vector after vector.
pub open spec fn vectors_le<const N: usize>(vectors: Seq<[u32; N]>) -> Seq<u8>
    decreases vectors.len(),
{
    if vectors.len() == 0 {
        Seq::empty()
    } else {
        vectors_le(vectors.drop_last()) + words_le(vectors.last()@)
    }
}

/// Every word takes four bytes.
pub proof fn lemma_words_le_len(words: Seq<u32>)
    ensures
        words_le(words).len() == 4 * words.len(),
    decreases words.len(),
{
    if words.len() > 0 {
        lemma_words_le_len(words.drop_last());
    }
}

/// Every vector of `N` words takes four times `N` bytes.
pub proof fn lemma_vectors_le_len<const N: usize>(vectors: Seq<[u32; N]>)
    ensures
        vectors_le(vectors).len() == 4 * N * vectors.len(),
    decreases vectors.len(),
{
    if vectors.len() > 0 {
        lemma_vectors_le_len(vectors.drop_last());
        lemma_words_le_len(vectors.last()@);
        assert(4 * N * (vectors.len() - 1) + 4 * N == 4 * N * vectors.len()) by (nonlinear_arith);
    }
}

/// An empty blob with room for `capacity` bytes, as far as the
/// allocator grants it.
pub(crate) fn new_blob(capacity: usize) -> (b: bytes::BytesMut)
    ensures
        bytes_mut_view(b) == Seq::<u8>::empty(),
{
    if capacity <= MAX_BLOB {
        bytes_mut_with_capacity(capacity)
    } else {
        bytes_mut_with_capacity(0)
    }
}

/// Appends the little-endian bytes of each word of `words`.
pub(crate) fn put_words<const N: usize>(buf: &mut bytes::BytesMut, words: &[u32; N])
    requires
        bytes_mut_view(*old(buf)).len() + 4 * N <= MAX_BLOB,
    ensures
        bytes_mut_view(*final(buf)) == bytes_mut_view(*old(buf)) + words_le(words@),
{
    let mut i: usize = 0;
    assert(words@.take(0) =~= Seq::<u32>::empty());
    assert(bytes_mut_view(*buf) + words_le(words@.take(0)) =~= bytes_mut_view(*buf));
    while i < N
        invariant
            i <= N,
            bytes_mut_view(*old(buf)).len() + 4 * N <= MAX_BLOB,
            bytes_mut_view(*buf) == bytes_mut_view(*old(buf)) + words_le(words@.take(i as int)),
        decreases N - i,
    {
        proof {
            lemma_words_le_len(words@.take(i as int));
            assert(words@.take(i as int + 1).drop_last() =~= words@.take(i as int));
        }
        let ghost before = bytes_mut_view(*buf);
        bytes_mut_put_u32_le(buf, words[i]);
        assert(bytes_mut_view(*buf) =~= bytes_mut_view(*old(buf)) + words_le(
            words@.take(i as int + 1),
        ));
        i = i + 1;
    }
    assert(words@.take(N as int) =~= words@);
}

/// Serializes vectors of words: the little-endian bytes of each word,
/// tightly packed. Too many vectors for one blob are refused.
#[verifier::rlimit(50)]
pub fn pack_vectors<const N: usize>(vectors: &Vec<[u32; N]>) -> (r: Result<Vec<u8>, RdmError>)
    ensures
        4 * N * vectors@.len() <= MAX_BLOB ==> r is Ok && r->Ok_0@ == vectors_le(vectors@),
        4 * N * vectors@.len() > MAX_BLOB ==> r == Err::<Vec<u8>, RdmError>(
            RdmError::MalformedFormat(Malformed::TooLarge),
        ),
{
    let n = vectors.len();
    if N > MAX_BLOB / 4 {
        if n == 0 {
            assert(4 * N * n == 0) by (nonlinear_arith)
                requires
                    n == 0,
            ;
            return Ok(Vec::new());
        }
        assert(4 * N * n > MAX_BLOB) by (nonlinear_arith)
            requires
                N > MAX_BLOB / 4,
                n >= 1,
        ;
        return Err(RdmError::MalformedFormat(Malformed::TooLarge));
    }
    let per_vector: usize = 4 * N;
    if per_vector > 0 && n > MAX_BLOB / per_vector {
        assert(4 * N * n > MAX_BLOB) by (nonlinear_arith)
            requires
                per_vector == 4 * N,
                per_vector > 0,
                n > MAX_BLOB / per_vector,
        ;
        return Err(RdmError::MalformedFormat(Malformed::TooLarge));
    }
    assert(4 * N * n <= MAX_BLOB) by (nonlinear_arith)
        requires
            per_vector == 4 * N,
            per_vector == 0 || n <= MAX_BLOB / per_vector,
    ;
    let total: usize = per_vector * n;
    let mut buf = new_blob(total);
    let mut i: usize = 0;
    while i < n
        invariant
            i <= n,
            n == vectors@.len(),
            4 * N * n <= MAX_BLOB,
            bytes_mut_view(buf) == vectors_le(vectors@.take(i as int)),
        decreases n - i,
    {
        proof {
            lemma_vectors_le_len(vectors@.take(i as int));
            assert(vectors@.take(i as int + 1).drop_last() =~= vectors@.take(i as int));
            assert(4 * N * i + 4 * N <= 4 * N * n) by (nonlinear_arith)
                requires
                    i < n,
            ;
        }
        put_words(&mut buf, &vectors[i]);
        i = i + 1;
    }
    assert(vectors@.take(n as int) =~= vectors@);
    Ok(bytes_mut_to_vec(&buf))
}

/// The blobs that a document holds after `blobs` were pushed one after
/// the other behind `before`.
pub open spec fn after_pushes(before: Seq<Seq<u8>>, blobs: Seq<Seq<u8>>) -> Seq<Seq<u8>>
    decreases blobs.len(),
{
    if blobs.len() == 0 {
        before
    } else {
        after_pushes(before, blobs.drop_last()).push(padded(blobs.last()))
    }
}

/// Pushing `k` blobs into an empty document stores `k` blobs, the blob
/// pushed as number `i` stands at index `i`, and every stored blob has a
/// length that is a multiple of four.
pub proof fn lemma_buffer_indices_dense(blobs: Seq<Seq<u8>>)
    ensures
        after_pushes(Seq::empty(), blobs).len() == blobs.len(),
        forall|i: int|
            0 <= i < blobs.len() ==> #[trigger] after_pushes(Seq::empty(), blobs)[i] == padded(
                blobs[i],
            ),
        forall|i: int|
            0 <= i < blobs.len() ==> #[trigger] after_pushes(Seq::empty(), blobs.take(i)).len()
                == i,
        forall|i: int|
            0 <= i < blobs.len() ==> (#[trigger] after_pushes(Seq::empty(), blobs)[i]).len() % 4
                == 0,
    decreases blobs.len(),
{
    if blobs.len() > 0 {
        let front = blobs.drop_last();
        lemma_buffer_indices_dense(front);
        assert forall|i: int| 0 <= i < blobs.len() implies #[trigger] after_pushes(
            Seq::empty(),
            blobs.take(i),
        ).len() == i by {
            if i < front.len() {
                assert(blobs.take(i) =~= front.take(i));
            } else {
                assert(blobs.take(i) =~= front);
            }
        }
        assert forall|i: int| 0 <= i < blobs.len() implies #[trigger] after_pushes(
            Seq::empty(),
            blobs,
        )[i] == padded(blobs[i]) by {
            if i < front.len() {
                assert(front[i] == blobs[i]);
                assert(after_pushes(Seq::empty(), blobs)[i] == after_pushes(Seq::empty(), front)[i]);
            }
        }
    }
}

} // verus!
