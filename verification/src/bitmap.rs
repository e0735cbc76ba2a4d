//! An allocation bitmap stored as consecutive disk blocks of 64-bit words.
use vstd::prelude::*;
use crate::config::{BLOCK_BITS, WORDS_PER_BLOCK};
use crate::codec::{u64s_bytes, push_u64};

verus! {

broadcast use vstd::std_specs::bits::group_bits_axioms;

/// Whether bit `j` of the word `w` is set.
pub open spec fn bit_set(w: u64, j: int) -> bool {
    (w >> (j as u64)) & 1u64 == 1u64
}

/// Whether `i` is the lowest index of `s` that is clear.
pub open spec fn is_first_clear(s: Seq<bool>, i: int) -> bool {
    &&& 0 <= i < s.len()
    &&& !s[i]
    &&& forall|j: int| 0 <= j < i ==> #[trigger] s[j]
}

/// The lowest clear index of `s` (meaningful when `s` has a clear index).
pub open spec fn first_clear(s: Seq<bool>) -> int {
    choose|i: int| is_first_clear(s, i)
}

/// The lowest clear index is unique.
pub proof fn lemma_first_clear_unique(s: Seq<bool>, i: int)
    requires
        is_first_clear(s, i),
    ensures
        first_clear(s) == i,
{
    let c = first_clear(s);
    assert(is_first_clear(s, c));
    if c < i {
        assert(s[c]);
    } else if i < c {
        assert(s[i]);
    }
}

/// A sequence with a clear index has a lowest clear index.
pub proof fn lemma_first_clear_exists(s: Seq<bool>)
    requires
        !all_set(s),
    ensures
        is_first_clear(s, first_clear(s)),
    decreases s.len(),
{
    let p = s.drop_last();
    if all_set(p) {
        let last = s.len() - 1;
        assert forall|j: int| 0 <= j < last implies #[trigger] s[j] by {
            assert(p[j] == s[j]);
        }
        assert(!s[last]);
        assert(is_first_clear(s, last));
        lemma_first_clear_unique(s, last);
    } else {
        lemma_first_clear_exists(p);
        let k = first_clear(p);
        assert forall|j: int| 0 <= j < k implies #[trigger] s[j] by {
            assert(p[j] == s[j]);
        }
        assert(p[k] == s[k]);
        assert(is_first_clear(s, k));
        lemma_first_clear_unique(s, k);
    }
}

/// Releasing the bit that an allocation marked gives back the bitmap as it was
/// before the allocation.
pub proof fn law_release_undoes_allocation(s: Seq<bool>)
    requires
        !all_set(s),
    ensures
        s.update(first_clear(s), true).update(first_clear(s), false) == s,
{
    lemma_first_clear_exists(s);
    assert(s.update(first_clear(s), true).update(first_clear(s), false) =~= s);
}

/// Whether every index of `s` is set.
pub open spec fn all_set(s: Seq<bool>) -> bool {
    forall|j: int| 0 <= j < s.len() ==> #[trigger] s[j]
}

proof fn lemma_full_word(j: u64)
    requires
        j < 64,
    ensures
        (0xffff_ffff_ffff_ffffu64 >> j) & 1u64 == 1u64,
{
    assert((0xffff_ffff_ffff_ffffu64 >> j) & 1u64 == 1u64) by (bit_vector)
        requires
            j < 64,
    ;
}

proof fn lemma_set_bit(w: u64, p: u64, j: u64)
    requires
        p < 64,
        j < 64,
    ensures
        ((w | (1u64 << p)) >> j) & 1u64 == (if j == p { 1u64 } else { (w >> j) & 1u64 }),
{
    assert(((w | (1u64 << p)) >> j) & 1u64 == (if j == p { 1u64 } else { (w >> j) & 1u64 }))
        by (bit_vector)
        requires
            p < 64,
            j < 64,
    ;
}

proof fn lemma_clear_bit(w: u64, p: u64, j: u64)
    requires
        p < 64,
        j < 64,
        (w >> p) & 1u64 == 1u64,
    ensures
        w & (1u64 << p) > 0,
        w >= (1u64 << p),
        (((w - (1u64 << p)) as u64) >> j) & 1u64 == (if j == p { 0u64 } else { (w >> j) & 1u64 }),
{
    assert(w & (1u64 << p) > 0 && w >= (1u64 << p)) by (bit_vector)
        requires
            p < 64,
            (w >> p) & 1u64 == 1u64,
    ;
    assert((((w - (1u64 << p)) as u64) >> j) & 1u64 == (if j == p { 0u64 } else { (w >> j) & 1u64 }))
        by (bit_vector)
        requires
            p < 64,
            j < 64,
            (w >> p) & 1u64 == 1u64,
    ;
}

proof fn lemma_bit_is_bool(w: u64, j: u64)
    ensures
        (w >> j) & 1u64 == 1u64 || (w >> j) & 1u64 == 0u64,
{
    assert((w >> j) & 1u64 == 1u64 || (w >> j) & 1u64 == 0u64) by (bit_vector);
}

/// Splits a bit index into (bitmap block, word within the block, bit within the word).
pub fn decomposition(bit: usize) -> (r: (usize, usize, usize))
    ensures
        r.0 == bit / BLOCK_BITS,
        r.1 == (bit % BLOCK_BITS) / 64,
        r.2 == bit % 64,
        r.1 < WORDS_PER_BLOCK,
        r.2 < 64,
        bit == r.0 * BLOCK_BITS + r.1 * 64 + r.2,
{
    let block_pos = bit / BLOCK_BITS;
    let rest = bit % BLOCK_BITS;
    (block_pos, rest / 64, rest % 64)
}

/// An allocation bitmap covering `blocks` consecutive disk blocks that start at
/// `start_block_id`; bit `i` set means that item `i` is in use.
pub struct Bitmap {
    start_block_id: usize,
    blocks: usize,
    words: Vec<u64>,
}

impl Bitmap {
    /// The bits of the map, lowest index first.
    pub closed spec fn view(&self) -> Seq<bool> {
        Seq::new(
            (self.words@.len() * 64) as nat,
            |i: int| bit_set(self.words@[i / 64], i % 64),
        )
    }

    pub closed spec fn spec_start_block_id(&self) -> usize {
        self.start_block_id
    }

    pub closed spec fn spec_blocks(&self) -> usize {
        self.blocks
    }

    /// The words of the map, as they are laid out on disk.
    pub closed spec fn spec_words(&self) -> Seq<u64> {
        self.words@
    }

    /// The map holds exactly one block's worth of words per block.
    pub closed spec fn wf(&self) -> bool {
        &&& self.words@.len() == self.blocks * WORDS_PER_BLOCK
        &&& self.blocks * BLOCK_BITS <= usize::MAX
    }

    /// A bitmap over `blocks` blocks starting at `start_block_id`, with every bit clear.
    pub fn new(start_block_id: usize, blocks: usize) -> (r: Bitmap)
        requires
            blocks * BLOCK_BITS <= usize::MAX,
        ensures
            r.wf(),
            r.spec_start_block_id() == start_block_id,
            r.spec_blocks() == blocks,
            r@.len() == blocks * BLOCK_BITS,
            forall|i: int| 0 <= i < r@.len() ==> !#[trigger] r@[i],
    {
        let n = blocks * WORDS_PER_BLOCK;
        let mut words: Vec<u64> = Vec::new();
        while words.len() < n
            invariant
                words@.len() <= n,
                forall|k: int| 0 <= k < words@.len() ==> words@[k] == 0u64,
            decreases n - words@.len(),
        {
            words.push(0u64);
        }
        let r = Bitmap { start_block_id, blocks, words };
        proof {
            assert forall|i: int| 0 <= i < r@.len() implies !#[trigger] r@[i] by {
                let j = (i % 64) as u64;
                assert((0u64 >> j) & 1u64 == 0u64) by (bit_vector);
            }
        }
        r
    }

    /// A bitmap over `blocks` blocks starting at `start_block_id` whose words were read from disk.
    pub fn from_words(start_block_id: usize, blocks: usize, words: Vec<u64>) -> (r: Bitmap)
        requires
            blocks * BLOCK_BITS <= usize::MAX,
            words@.len() == blocks * WORDS_PER_BLOCK,
        ensures
            r.wf(),
            r.spec_start_block_id() == start_block_id,
            r.spec_blocks() == blocks,
            r.spec_words() == words@,
    {
        Bitmap { start_block_id, blocks, words }
    }

    /// Number of bits the map can hold.
    pub fn maximum(&self) -> (r: usize)
        requires
            self.wf(),
        ensures
            r == self.spec_blocks() * BLOCK_BITS,
            r == self@.len(),
    {
        self.blocks * BLOCK_BITS
    }

    /// First disk block that holds the map.
    pub fn start_block_id(&self) -> (r: usize)
        ensures
            r == self.spec_start_block_id(),
    {
        self.start_block_id
    }

    /// Number of disk blocks that hold the map.
    pub fn blocks(&self) -> (r: usize)
        ensures
            r == self.spec_blocks(),
    {
        self.blocks
    }

    /// The words of the map, as they are laid out on disk.
    pub fn words(&self) -> (r: &Vec<u64>)
        ensures
            r@ == self.spec_words(),
    {
        &self.words
    }

    /// The on-disk bytes of bitmap block `block_pos`, which holds the words
    /// `block_pos * 64 .. block_pos * 64 + 64`.
    pub fn block_bytes(&self, block_pos: usize) -> (r: Vec<u8>)
        requires
            self.wf(),
            block_pos < self.spec_blocks(),
        ensures
            r@ == u64s_bytes(
                self.spec_words().subrange(
                    block_pos * WORDS_PER_BLOCK,
                    block_pos * WORDS_PER_BLOCK + WORDS_PER_BLOCK,
                ),
            ),
    {
        proof {
            assert(block_pos * WORDS_PER_BLOCK + WORDS_PER_BLOCK <= self.blocks * WORDS_PER_BLOCK)
                by (nonlinear_arith)
                requires
                    block_pos < self.blocks,
            ;
        }
        let base = block_pos * WORDS_PER_BLOCK;
        let ghost ws = self.words@.subrange(base as int, base + WORDS_PER_BLOCK);
        let mut out: Vec<u8> = Vec::new();
        let mut i: usize = 0;
        while i < WORDS_PER_BLOCK
            invariant
                self.wf(),
                base + WORDS_PER_BLOCK <= self.words@.len(),
                ws == self.words@.subrange(base as int, base + WORDS_PER_BLOCK),
                i <= WORDS_PER_BLOCK,
                out@ == u64s_bytes(ws.take(i as int)),
            decreases WORDS_PER_BLOCK - i,
        {
            push_u64(&mut out, self.words[base + i]);
            proof {
                let t0 = ws.take(i as int);
                let t1 = ws.take(i + 1);
                assert(ws[i as int] == self.words@[base + i]);
                assert forall|j: int| 0 <= j < 8 * t1.len() implies #[trigger] u64s_bytes(t1)[j]
                    == out@[j] by {
                    if j < 8 * i {
                        assert(t1[j / 8] == t0[j / 8]);
                    } else {
                        assert(j / 8 == i);
                    }
                }
                assert(out@ =~= u64s_bytes(t1));
            }
            i = i + 1;
        }
        assert(ws.take(WORDS_PER_BLOCK as int) =~= ws);
        out
    }

    /// Marks the lowest clear bit as used and returns its index, or returns
    /// `None` when every bit is set.
    pub fn allocate(&mut self) -> (r: Option<usize>)
        requires
            old(self).wf(),
        ensures
            final(self).wf(),
            final(self).spec_start_block_id() == old(self).spec_start_block_id(),
            final(self).spec_blocks() == old(self).spec_blocks(),
            match r {
                Some(i) => {
                    &&& is_first_clear(old(self)@, i as int)
                    &&& i == first_clear(old(self)@)
                    &&& final(self)@ == old(self)@.update(i as int, true)
                },
                None => {
                    &&& all_set(old(self)@)
                    &&& final(self)@ == old(self)@
                },
            },
    {
        let n = self.words.len();
        let mut k: usize = 0;
        while k < n
            invariant
                self.wf(),
                n == self.words@.len(),
                self.words@ == old(self).words@,
                self.start_block_id == old(self).start_block_id,
                self.blocks == old(self).blocks,
                k <= n,
                forall|i: int| 0 <= i < k * 64 ==> #[trigger] self@[i],
            decreases n - k,
        {
            let w = self.words[k];
            if w != 0xffff_ffff_ffff_ffffu64 {
                let pos = w.trailing_ones();
                proof {
                    vstd::std_specs::bits::axiom_u64_trailing_ones(w);
                }
                let p = pos as u64;
                let nw = w | (1u64 << p);
                let idx = k * 64 + pos as usize;
                let ghost before = self@;
                proof {
                    assert(before =~= old(self)@);
                    assert(!before[idx as int]) by {
                        assert(idx as int / 64 == k as int);
                        assert(idx as int % 64 == p as int);
                        assert((w >> p) & 1u64 == 0u64);
                    }
                    assert forall|j: int| 0 <= j < idx implies #[trigger] before[j] by {
                        if j >= k * 64 {
                            assert(j / 64 == k as int);
                            let jj = (j % 64) as u64;
                            assert(jj < p);
                            assert((w >> jj) & 1u64 == 1u64);
                        }
                    }
                }
                self.words.set(k, nw);
                proof {
                    lemma_first_clear_unique(before, idx as int);
                    assert(self@ =~= before.update(idx as int, true)) by {
                        assert forall|i: int| 0 <= i < self@.len() implies self@[i] == before.update(
                            idx as int,
                            true,
                        )[i] by {
                            let q = i / 64;
                            let jj = (i % 64) as u64;
                            if q == k as int {
                                lemma_set_bit(w, p, jj);
                                lemma_bit_is_bool(w, jj);
                                if i == idx as int {
                                } else {
                                    assert(jj != p);
                                }
                            } else {
                                assert(i != idx as int);
                            }
                        }
                    }
                }
                return Some(idx);
            }
            proof {
                assert forall|i: int| 0 <= i < (k + 1) * 64 implies #[trigger] self@[i] by {
                    if i >= k * 64 {
                        assert(i / 64 == k as int);
                        lemma_full_word((i % 64) as u64);
                    }
                }
            }
            k = k + 1;
        }
        assert(self@ =~= old(self)@);
        None
    }

    /// The lowest clear bit, which the next allocation takes; `None` when every bit is set.
    pub fn first_free(&self) -> (r: Option<usize>)
        requires
            self.wf(),
        ensures
            match r {
                Some(i) => is_first_clear(self@, i as int) && i == first_clear(self@),
                None => all_set(self@),
            },
    {
        let n = self.words.len();
        let mut k: usize = 0;
        while k < n
            invariant
                self.wf(),
                n == self.words@.len(),
                k <= n,
                forall|i: int| 0 <= i < k * 64 ==> #[trigger] self@[i],
            decreases n - k,
        {
            let w = self.words[k];
            if w != 0xffff_ffff_ffff_ffffu64 {
                let pos = w.trailing_ones();
                proof {
                    vstd::std_specs::bits::axiom_u64_trailing_ones(w);
                }
                let p = pos as u64;
                let idx = k * 64 + pos as usize;
                proof {
                    assert(!self@[idx as int]) by {
                        assert(idx as int / 64 == k as int);
                        assert(idx as int % 64 == p as int);
                        assert((w >> p) & 1u64 == 0u64);
                    }
                    assert forall|j: int| 0 <= j < idx implies #[trigger] self@[j] by {
                        if j >= k * 64 {
                            assert(j / 64 == k as int);
                            let jj = (j % 64) as u64;
                            assert(jj < p);
                            assert((w >> jj) & 1u64 == 1u64);
                        }
                    }
                    lemma_first_clear_unique(self@, idx as int);
                }
                return Some(idx);
            }
            proof {
                assert forall|i: int| 0 <= i < (k + 1) * 64 implies #[trigger] self@[i] by {
                    if i >= k * 64 {
                        assert(i / 64 == k as int);
                        lemma_full_word((i % 64) as u64);
                    }
                }
            }
            k = k + 1;
        }
        None
    }

    /// Whether bit `bit` is set.
    pub fn is_set(&self, bit: usize) -> (r: bool)
        requires
            self.wf(),
            bit < self@.len(),
        ensures
            r == self@[bit as int],
    {
        let (_, _, inner) = decomposition(bit);
        let w = self.words[bit / 64];
        proof {
            lemma_bit_is_bool(w, inner as u64);
        }
        (w >> (inner as u64)) & 1u64 == 1u64
    }

    /// Clears bit `bit`, which must be set.
    pub fn deallocate(&mut self, bit: usize)
        requires
            old(self).wf(),
            bit < old(self)@.len(),
            old(self)@[bit as int],
        ensures
            final(self).wf(),
            final(self).spec_start_block_id() == old(self).spec_start_block_id(),
            final(self).spec_blocks() == old(self).spec_blocks(),
            final(self)@ == old(self)@.update(bit as int, false),
    {
        let (block_pos, bits64_pos, inner_pos) = decomposition(bit);
        let k = block_pos * WORDS_PER_BLOCK + bits64_pos;
        assert(k == bit / 64);
        let w = self.words[k];
        let p = inner_pos as u64;
        proof {
            lemma_clear_bit(w, p, 0);
        }
        let nw = w - (1u64 << p);
        self.words.set(k, nw);
        proof {
            let old_view = old(self)@;
            assert(self@ =~= old_view.update(bit as int, false)) by {
                assert forall|i: int| 0 <= i < self@.len() implies self@[i] == old_view.update(
                    bit as int,
                    false,
                )[i] by {
                    let q = i / 64;
                    let jj = (i % 64) as u64;
                    if q == k as int {
                        lemma_clear_bit(w, p, jj);
                        lemma_bit_is_bool(w, jj);
                        if i != bit as int {
                            assert(jj != p);
                        }
                    } else {
                        assert(i != bit as int);
                    }
                }
            }
        }
    }
}

} // verus!
