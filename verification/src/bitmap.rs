//! Bit-packed used/free tracking for a numbered range of resources
//! (inode numbers or data-block numbers).
//!
//! Word `i` of the bitmap holds bits `32*i .. 32*i + 31`, least significant
//! bit first, so the word sequence is also the bitmap's on-disk form.

use crate::codec::{lemma_words_bytes_push, push_u32_le, read_u32_le, spec_parse_words,
    spec_words_bytes};
use vstd::bytes::*;
use vstd::pervasive::VecAdditionalExecFns;
use vstd::prelude::*;

verus! {

/// The word sequence after setting bit `i`.
pub open spec fn spec_mark_used(ws: Seq<u32>, i: int) -> Seq<u32> {
    ws.update(i / 32, ws[i / 32] | (1u32 << ((i % 32) as u32)))
}

/// The word sequence after clearing bit `i`.
pub open spec fn spec_mark_free(ws: Seq<u32>, i: int) -> Seq<u32> {
    ws.update(i / 32, ws[i / 32] & !(1u32 << ((i % 32) as u32)))
}

/// Tracks the used/free status of a contiguous range `[0, n)` of resource
/// numbers, with `n` a multiple of 32.
#[derive(Debug)]
pub struct Bitmap {
    words: Vec<u32>,
}

impl PartialEq for Bitmap {
    /// Bitmaps are equal exactly when their word sequences are.
    fn eq(&self, other: &Bitmap) -> (r: bool) {
        if self.words.len() != other.words.len() {
            return false;
        }
        let n = self.words.len();
        let mut i: usize = 0;
        while i < n
            invariant
                n == self@.len(),
                n == other@.len(),
                i <= n,
                forall|j: int| 0 <= j < i ==> self@[j] == other@[j],
            decreases n - i,
        {
            if self.words[i] != other.words[i] {
                return false;
            }
            i = i + 1;
        }
        proof {
            assert(self@ =~= other@);
        }
        true
    }
}

impl vstd::std_specs::cmp::PartialEqSpecImpl for Bitmap {
    open spec fn obeys_eq_spec() -> bool {
        true
    }

    open spec fn eq_spec(&self, other: &Bitmap) -> bool {
        self@ == other@
    }
}

impl View for Bitmap {
    type V = Seq<u32>;

    closed spec fn view(&self) -> Seq<u32> {
        self.words@
    }
}

impl Bitmap {
    /// Total number of bits tracked.
    pub open spec fn spec_bit_count(&self) -> int {
        32 * (self@.len() as int)
    }

    /// The bit count fits in `u32`, so every bit index is a `u32` value.
    pub open spec fn wf(&self) -> bool {
        32 * self@.len() <= u32::MAX
    }

    /// Whether bit `i` is set.
    pub open spec fn bit_set(&self, i: int) -> bool {
        (self@[i / 32] >> ((i % 32) as u32)) & 1 == 1
    }

    /// An all-zero bitmap of `bit_count` bits. A count that is not a multiple
    /// of 32 is rejected outright rather than rounded to a nearby size.
    pub fn new(bit_count: u32) -> (r: Option<Bitmap>)
        ensures
            r is Some <==> bit_count % 32 == 0,
            r matches Some(b) ==> b@ == Seq::new((bit_count / 32) as nat, |i: int| 0u32),
            r matches Some(b) ==> b.wf() && b.spec_bit_count() == bit_count,
            r matches Some(b) ==> forall|i: int| 0 <= i < bit_count ==> !b.bit_set(i),
    {
        if bit_count % 32 != 0 {
            return None;
        }
        let n: usize = (bit_count / 32) as usize;
        let mut words: Vec<u32> = Vec::new();
        while words.len() < n
            invariant
                words@.len() <= n,
                forall|i: int| 0 <= i < words@.len() ==> words@[i] == 0u32,
            decreases n - words@.len(),
        {
            words.push(0u32);
        }
        let b = Bitmap { words };
        proof {
            assert(b@ =~= Seq::new((bit_count / 32) as nat, |i: int| 0u32));
            assert forall|i: int| 0 <= i < bit_count implies !b.bit_set(i) by {
                let sh = (i % 32) as u32;
                assert((0u32 >> sh) & 1 == 0) by (bit_vector);
            }
        }
        Some(b)
    }

    /// Number of bits tracked.
    pub fn bit_count(&self) -> (r: u32)
        requires
            self.wf(),
        ensures
            r == self.spec_bit_count(),
    {
        (self.words.len() * 32) as u32
    }

    /// Whether resource `i` is marked used. Out-of-range indices are a caller
    /// error and are excluded by precondition.
    pub fn is_used(&self, i: u32) -> (r: bool)
        requires
            i < self.spec_bit_count(),
        ensures
            r == self.bit_set(i as int),
    {
        let w: usize = (i / 32) as usize;
        let sh: u32 = i % 32;
        (self.words[w] >> sh) & 1 == 1
    }

    /// Mark resource `i` used. Idempotent: only bit `i` changes, and marking
    /// an already-used bit is a no-op.
    pub fn mark_used(&mut self, i: u32)
        requires
            i < old(self).spec_bit_count(),
        ensures
            final(self)@ == spec_mark_used(old(self)@, i as int),
            final(self)@.len() == old(self)@.len(),
            forall|j: int| 0 <= j < old(self).spec_bit_count() ==>
                final(self).bit_set(j) == (old(self).bit_set(j) || j == i),
    {
        let w: usize = (i / 32) as usize;
        let sh: u32 = i % 32;
        let word = self.words[w];
        self.words.set(w, word | (1u32 << sh));
        proof {
            let ws = old(self)@;
            assert forall|j: int| 0 <= j < 32 * ws.len() implies
                self.bit_set(j) == (old(self).bit_set(j) || j == i) by
            {
                let shi = (i as int % 32) as u32;
                let shj = (j % 32) as u32;
                if j / 32 == i as int / 32 {
                    let wrd = ws[j / 32];
                    assert(
                        ((((wrd | (1u32 << shi)) >> shj) & 1 == 1)
                            == (((wrd >> shj) & 1 == 1) || shj == shi))
                    ) by (bit_vector)
                        requires shi < 32 && shj < 32;
                }
            }
        }
    }

    /// Mark resource `i` free. Idempotent: only bit `i` changes, and freeing
    /// an already-free bit is a no-op.
    pub fn mark_free(&mut self, i: u32)
        requires
            i < old(self).spec_bit_count(),
        ensures
            final(self)@ == spec_mark_free(old(self)@, i as int),
            final(self)@.len() == old(self)@.len(),
            forall|j: int| 0 <= j < old(self).spec_bit_count() ==>
                final(self).bit_set(j) == (old(self).bit_set(j) && j != i),
    {
        let w: usize = (i / 32) as usize;
        let sh: u32 = i % 32;
        let word = self.words[w];
        self.words.set(w, word & !(1u32 << sh));
        proof {
            let ws = old(self)@;
            assert forall|j: int| 0 <= j < 32 * ws.len() implies
                self.bit_set(j) == (old(self).bit_set(j) && j != i) by
            {
                let shi = (i as int % 32) as u32;
                let shj = (j % 32) as u32;
                if j / 32 == i as int / 32 {
                    let wrd = ws[j / 32];
                    assert(
                        ((((wrd & !(1u32 << shi)) >> shj) & 1 == 1)
                            == (((wrd >> shj) & 1 == 1) && shj != shi))
                    ) by (bit_vector)
                        requires shi < 32 && shj < 32;
                }
            }
        }
    }

    /// The lowest-numbered free bit, or `None` when every bit is set. Words
    /// are scanned in ascending order and bits from least to most significant,
    /// so the allocation order is deterministic and prefers low indices.
    pub fn find_first_free(&self) -> (r: Option<u32>)
        requires
            self.wf(),
        ensures
            match r {
                Some(i) => i < self.spec_bit_count() && !self.bit_set(i as int)
                    && forall|j: int| 0 <= j < i ==> self.bit_set(j),
                None => forall|j: int| 0 <= j < self.spec_bit_count() ==> self.bit_set(j),
            },
    {
        let n = self.words.len();
        let mut w: usize = 0;
        while w < n
            invariant
                self.wf(),
                n == self@.len(),
                w <= n,
                forall|j: int| 0 <= j < 32 * w ==> self.bit_set(j),
            decreases n - w,
        {
            let word = self.words[w];
            let mut sh: u32 = 0;
            while sh < 32
                invariant
                    self.wf(),
                    n == self@.len(),
                    w < n,
                    word == self@[w as int],
                    sh <= 32,
                    forall|j: int| 0 <= j < 32 * w ==> self.bit_set(j),
                    forall|b: u32| b < sh ==> (word >> b) & 1 == 1,
                decreases 32 - sh,
            {
                if (word >> sh) & 1 == 0 {
                    let idx = (w as u32) * 32 + sh;
                    proof {
                        assert(idx as int / 32 == w as int && idx as int % 32 == sh as int);
                        assert forall|j: int| 0 <= j < idx implies self.bit_set(j) by {
                            if 32 * (w as int) <= j {
                                let b = (j % 32) as u32;
                                assert(j / 32 == w as int);
                                assert((word >> b) & 1 == 1);
                            }
                        }
                    }
                    return Some(idx);
                }
                proof {
                    assert(((word >> sh) & 1 != 0) ==> ((word >> sh) & 1 == 1)) by (bit_vector);
                }
                sh = sh + 1;
            }
            proof {
                assert forall|j: int| 0 <= j < 32 * (w as int + 1) implies self.bit_set(j) by {
                    if 32 * (w as int) <= j {
                        let b = (j % 32) as u32;
                        assert(j / 32 == w as int);
                        assert((word >> b) & 1 == 1);
                    }
                }
            }
            w = w + 1;
        }
        None
    }

    /// Append the bitmap's raw little-endian bytes, word by word.
    pub fn dump(&self, image: &mut Vec<u8>)
        ensures
            final(image)@ == old(image)@ + spec_words_bytes(self@),
    {
        let ghost start = image@;
        proof {
            assert(start + spec_words_bytes(self@.take(0)) =~= start);
        }
        let n = self.words.len();
        let mut k: usize = 0;
        while k < n
            invariant
                n == self@.len(),
                k <= n,
                image@ == start + spec_words_bytes(self@.take(k as int)),
            decreases n - k,
        {
            push_u32_le(image, self.words[k]);
            proof {
                lemma_words_bytes_push(self@, k as int);
                assert(image@ =~= start + spec_words_bytes(self@.take(k as int + 1)));
            }
            k = k + 1;
        }
        proof {
            assert(self@.take(n as int) =~= self@);
        }
    }

    /// Rebuild a bitmap from `n_words` raw little-endian words stored at byte
    /// offset `off`.
    pub fn load(image: &[u8], off: usize, n_words: usize) -> (r: Bitmap)
        requires
            off + 4 * n_words <= image@.len(),
            32 * n_words <= u32::MAX,
        ensures
            r@ == spec_parse_words(
                image@.subrange(off as int, off as int + 4 * (n_words as int)),
            ),
            r@.len() == n_words,
            r.wf(),
    {
        let ilen: usize = image.len();
        let mut words: Vec<u32> = Vec::new();
        let mut k: usize = 0;
        while k < n_words
            invariant
                off + 4 * n_words <= ilen,
                ilen == image@.len(),
                k <= n_words,
                words@.len() == k,
                forall|j: int| 0 <= j < k ==> words@[j] == spec_u32_from_le_bytes(
                    image@.subrange(off + 4 * j, off + 4 * j + 4),
                ),
            decreases n_words - k,
        {
            let w = read_u32_le(image, off + 4 * k);
            words.push(w);
            k = k + 1;
        }
        let b = Bitmap { words };
        proof {
            let sub = image@.subrange(off as int, off as int + 4 * (n_words as int));
            assert forall|j: int| 0 <= j < n_words implies
                b@[j] == spec_parse_words(sub)[j] by
            {
                assert(sub.subrange(4 * j, 4 * j + 4)
                    =~= image@.subrange(off + 4 * j, off + 4 * j + 4));
            }
            assert(b@ =~= spec_parse_words(sub));
        }
        b
    }
}

/// Marking a bit used twice leaves the bitmap exactly as marking it once does.
pub proof fn lemma_mark_used_idempotent(ws: Seq<u32>, i: int)
    requires
        0 <= i < 32 * ws.len(),
    ensures
        spec_mark_used(spec_mark_used(ws, i), i) == spec_mark_used(ws, i),
{
    let sh = (i % 32) as u32;
    let w = ws[i / 32];
    assert((w | (1u32 << sh)) | (1u32 << sh) == w | (1u32 << sh)) by (bit_vector);
    assert(spec_mark_used(spec_mark_used(ws, i), i) =~= spec_mark_used(ws, i));
}

/// Freeing a bit twice leaves the bitmap exactly as freeing it once does.
pub proof fn lemma_mark_free_idempotent(ws: Seq<u32>, i: int)
    requires
        0 <= i < 32 * ws.len(),
    ensures
        spec_mark_free(spec_mark_free(ws, i), i) == spec_mark_free(ws, i),
{
    let sh = (i % 32) as u32;
    let w = ws[i / 32];
    assert((w & !(1u32 << sh)) & !(1u32 << sh) == w & !(1u32 << sh)) by (bit_vector);
    assert(spec_mark_free(spec_mark_free(ws, i), i) =~= spec_mark_free(ws, i));
}

} // verus!
