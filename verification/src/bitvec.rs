//! A packed bit vector: one bit per cell, stored in 64-bit words.
//!
//! Bit `i` lives in word `i / 64` at offset `i % 64`.  The view of a
//! `BitVec` is the mathematical sequence of its bits, and every operation
//! is specified against that sequence.

use vstd::arithmetic::div_mod::{
    lemma_div_decreases, lemma_div_is_ordered, lemma_div_nonincreasing, lemma_div_plus_one,
    lemma_fundamental_div_mod, lemma_fundamental_div_mod_converse, lemma_mod_bound,
};
use vstd::prelude::*;

verus! {

/// The bit of word `w` at offset `o`, for `0 <= o < 64`.
pub open spec fn word_bit(w: u64, o: int) -> bool {
    (w >> (o as u64)) & 1 == 1
}

/// A fixed-length sequence of bits packed into 64-bit words.
pub struct BitVec {
    data: Vec<u64>,
    len: usize,
}

impl View for BitVec {
    type V = Seq<bool>;

    closed spec fn view(&self) -> Seq<bool> {
        Seq::new(self.len as nat, |i: int| word_bit(self.data@[i / 64], i % 64))
    }
}

/// Bit `i` of a vector of `len` bits lies inside the word array of
/// `(len + 63) / 64` words, at an offset below 64.
proof fn lemma_bit_word_index(len: int, i: int)
    requires
        0 <= i < len,
    ensures
        0 <= i / 64 < (len + 63) / 64,
        0 <= i % 64 < 64,
{
    lemma_mod_bound(i, 64);
    vstd::arithmetic::div_mod::lemma_div_pos_is_pos(i, 64);
    lemma_div_is_ordered(i, len - 1, 64);
    lemma_div_plus_one(len - 1, 64);
}

/// Distinct bit indices cannot share both a word index and a bit offset.
proof fn lemma_bit_index_injective(i: int, j: int)
    requires
        0 <= i,
        0 <= j,
        i / 64 == j / 64,
        i % 64 == j % 64,
    ensures
        i == j,
{
    lemma_fundamental_div_mod(i, 64);
    lemma_fundamental_div_mod(j, 64);
}

/// Setting bit `o` of a word leaves every other bit in place.
proof fn lemma_word_set_bit(w: u64, o: u64)
    by (bit_vector)
    requires
        o < 64,
    ensures
        ((w | (1u64 << o)) >> o) & 1 == 1,
        (w & !(1u64 << o)) >> o & 1 == 0,
        forall|j: u64|
            j < 64 && j != o ==> #[trigger] ((w | (1u64 << o)) >> j) & 1 == (w >> j) & 1,
        forall|j: u64|
            j < 64 && j != o ==> #[trigger] ((w & !(1u64 << o)) >> j) & 1 == (w >> j) & 1,
{
}

/// A single extracted bit is 0 or 1, and the zero word has no bits set.
proof fn lemma_word_bit_basics(w: u64)
    by (bit_vector)
    ensures
        forall|j: u64| j < 64 ==> #[trigger] (w >> j) & 1 <= 1,
        forall|j: u64| j < 64 ==> (0u64 >> j) & 1 == 0,
{
}

/// Exclusive-or and conjunction of words act bitwise.
proof fn lemma_word_combine(a: u64, b: u64)
    by (bit_vector)
    ensures
        forall|j: u64|
            j < 64 ==> ((#[trigger] ((a ^ b) >> j) & 1) == 1) == (((a >> j) & 1 == 1) != ((b >> j)
                & 1 == 1)),
        forall|j: u64|
            j < 64 ==> ((#[trigger] ((a & b) >> j) & 1) == 1) == (((a >> j) & 1 == 1) && ((b >> j)
                & 1 == 1)),
{
}

impl BitVec {
    /// The words really present match the stated bit length.
    pub closed spec fn wf(&self) -> bool {
        self.data@.len() == (self.len + 63) / 64
    }

    /// A new all-zero bit vector of `len` bits.
    pub fn new(len: usize) -> (r: BitVec)
        ensures
            r.wf(),
            r@.len() == len,
            forall|i: int| 0 <= i < len ==> !r@[i],
    {
        let words: usize = if len % 64 != 0 {
            proof {
                lemma_div_nonincreasing(len as int, 64);
                if len as int / 64 == len {
                    lemma_div_decreases(len as int, 64);
                }
            }
            len / 64 + 1
        } else {
            len / 64
        };
        proof {
            lemma_fundamental_div_mod(len as int, 64);
            lemma_fundamental_div_mod_converse(
                len + 63,
                64,
                words as int,
                if len % 64 == 0 { 63 } else { len as int % 64 - 1 },
            );
        }
        let mut data: Vec<u64> = Vec::new();
        let mut i: usize = 0;
        while i < words
            invariant
                i <= words,
                data@.len() == i,
                forall|j: int| 0 <= j < i ==> data@[j] == 0u64,
            decreases words - i,
        {
            data.push(0u64);
            i = i + 1;
        }
        let r = BitVec { data, len };
        proof {
            assert forall|k: int| 0 <= k < len implies !r@[k] by {
                lemma_bit_word_index(len as int, k);
                lemma_word_bit_basics(0u64);
            }
        }
        r
    }

    /// The number of bits held.
    pub fn len(&self) -> (n: usize)
        ensures
            n == self@.len(),
    {
        self.len
    }

    /// The bit at `index`, as a 0-or-1 word.
    pub fn get_group(&self, index: usize) -> (g: u64)
        requires
            self.wf(),
            index < self@.len(),
        ensures
            g <= 1,
            (g == 1) == self@[index as int],
    {
        proof {
            lemma_bit_word_index(self.len as int, index as int);
        }
        let w: u64 = self.data[index / 64];
        let o: u64 = (index % 64) as u64;
        let g: u64 = (w >> o) & 1;
        proof {
            lemma_word_bit_basics(w);
        }
        g
    }

    /// The bit at `index`, as a boolean.
    pub fn get_bit(&self, index: usize) -> (b: bool)
        requires
            self.wf(),
            index < self@.len(),
        ensures
            b == self@[index as int],
    {
        self.get_group(index) == 1
    }

    /// Overwrite the bit at `index` with `value` (0 or 1); no other bit moves.
    pub fn set_group(&mut self, index: usize, value: u64)
        requires
            old(self).wf(),
            index < old(self)@.len(),
            value <= 1,
        ensures
            final(self).wf(),
            final(self)@ == old(self)@.update(index as int, value == 1),
    {
        proof {
            lemma_bit_word_index(self.len as int, index as int);
        }
        let wi: usize = index / 64;
        let o: u64 = (index % 64) as u64;
        let w: u64 = self.data[wi];
        let neww: u64 = if value == 1 {
            w | (1u64 << o)
        } else {
            w & !(1u64 << o)
        };
        self.data.set(wi, neww);
        proof {
            lemma_word_set_bit(w, o);
            assert forall|k: int| 0 <= k < self.len implies self@[k] == old(self)@.update(
                index as int,
                value == 1,
            )[k] by {
                lemma_bit_word_index(self.len as int, k);
                if k != index as int && k / 64 == wi as int {
                    if k % 64 == index as int % 64 {
                        lemma_bit_index_injective(k, index as int);
                    }
                    assert((k % 64) as u64 != o);
                }
            }
            assert(self@ =~= old(self)@.update(index as int, value == 1));
        }
    }

    /// Overwrite the bit at `index` with a boolean value.
    pub fn set_bit(&mut self, index: usize, value: bool)
        requires
            old(self).wf(),
            index < old(self)@.len(),
        ensures
            final(self).wf(),
            final(self)@ == old(self)@.update(index as int, value),
    {
        self.set_group(index, if value { 1 } else { 0 });
    }

    /// An independent copy of the bits.
    pub fn copy_bits(&self) -> (r: BitVec)
        requires
            self.wf(),
        ensures
            r.wf(),
            r@ == self@,
    {
        let words: usize = self.data.len();
        let mut data: Vec<u64> = Vec::new();
        let mut i: usize = 0;
        while i < words
            invariant
                i <= words,
                words == self.data@.len(),
                data@.len() == i,
                forall|j: int| 0 <= j < i ==> data@[j] == self.data@[j],
            decreases words - i,
        {
            data.push(self.data[i]);
            i = i + 1;
        }
        let r = BitVec { data, len: self.len };
        proof {
            assert(r.data@ =~= self.data@);
            assert(r@ =~= self@);
        }
        r
    }

    /// Whether the two vectors hold exactly the same bit sequence.
    pub fn same_bits(&self, other: &BitVec) -> (r: bool)
        requires
            self.wf(),
            other.wf(),
        ensures
            r == (self@ == other@),
    {
        if self.len != other.len {
            return false;
        }
        let n: usize = self.len;
        let mut i: usize = 0;
        while i < n
            invariant
                i <= n,
                self.wf(),
                other.wf(),
                n == self@.len(),
                n == other@.len(),
                forall|j: int| 0 <= j < i ==> self@[j] == other@[j],
            decreases n - i,
        {
            if self.get_bit(i) != other.get_bit(i) {
                return false;
            }
            i = i + 1;
        }
        proof {
            assert(self@ =~= other@);
        }
        true
    }

    /// Shift every bit `k` places toward index 0, filling the tail with
    /// zeros: afterwards bit `i` holds what bit `i + k` held before.
    pub fn shift_left(&mut self, k: usize)
        requires
            old(self).wf(),
            k <= old(self)@.len(),
        ensures
            final(self).wf(),
            final(self)@.len() == old(self)@.len(),
            forall|i: int|
                0 <= i < old(self)@.len() ==> final(self)@[i] == if i + k < old(self)@.len() {
                    old(self)@[i + k]
                } else {
                    false
                },
    {
        let n: usize = self.len;
        let mut i: usize = 0;
        while i < n
            invariant
                i <= n,
                k <= n,
                self.wf(),
                n == self@.len(),
                forall|j: int|
                    0 <= j < i ==> self@[j] == if j + k < n {
                        old(self)@[j + k]
                    } else {
                        false
                    },
                forall|j: int| i <= j < n ==> self@[j] == old(self)@[j],
            decreases n - i,
        {
            let v: bool = if k < n - i {
                self.get_bit(i + k)
            } else {
                false
            };
            self.set_bit(i, v);
            i = i + 1;
        }
    }

    /// Shift every bit `k` places toward the high end, filling the low end
    /// with zeros: afterwards bit `i` holds what bit `i - k` held before.
    pub fn shift_right(&mut self, k: usize)
        requires
            old(self).wf(),
            k <= old(self)@.len(),
        ensures
            final(self).wf(),
            final(self)@.len() == old(self)@.len(),
            forall|i: int|
                0 <= i < old(self)@.len() ==> final(self)@[i] == if i >= k {
                    old(self)@[i - k]
                } else {
                    false
                },
    {
        let n: usize = self.len;
        let mut i: usize = n;
        while i > k
            invariant
                k <= i <= n,
                self.wf(),
                n == self@.len(),
                forall|j: int| i <= j < n ==> self@[j] == old(self)@[j - k],
                forall|j: int| 0 <= j < i ==> self@[j] == old(self)@[j],
            decreases i,
        {
            i = i - 1;
            let v: bool = self.get_bit(i - k);
            self.set_bit(i, v);
        }
        let mut j: usize = 0;
        while j < k
            invariant
                j <= k,
                k <= n,
                self.wf(),
                n == self@.len(),
                forall|m: int| k <= m < n ==> self@[m] == old(self)@[m - k],
                forall|m: int| 0 <= m < j ==> self@[m] == false,
                forall|m: int| j <= m < k ==> self@[m] == old(self)@[m],
            decreases k - j,
        {
            self.set_bit(j, false);
            j = j + 1;
        }
    }

    /// Replace the bits by their exclusive-or with `other`'s bits.
    pub fn xor_with(&mut self, other: &BitVec)
        requires
            old(self).wf(),
            other.wf(),
            other@.len() == old(self)@.len(),
        ensures
            final(self).wf(),
            final(self)@.len() == old(self)@.len(),
            forall|i: int|
                0 <= i < old(self)@.len() ==> final(self)@[i] == (old(self)@[i] != other@[i]),
    {
        let words: usize = self.data.len();
        let mut w: usize = 0;
        while w < words
            invariant
                w <= words,
                self.len == old(self).len,
                words == self.data@.len(),
                words == other.data@.len(),
                forall|j: int| 0 <= j < w ==> self.data@[j] == old(self).data@[j] ^ other.data@[j],
                forall|j: int| w <= j < words ==> self.data@[j] == old(self).data@[j],
            decreases words - w,
        {
            let neww: u64 = self.data[w] ^ other.data[w];
            self.data.set(w, neww);
            w = w + 1;
        }
        proof {
            assert forall|i: int| 0 <= i < old(self)@.len() implies self@[i] == (old(self)@[i]
                != other@[i]) by {
                lemma_bit_word_index(self.len as int, i);
                let a = old(self).data@[i / 64];
                let b = other.data@[i / 64];
                lemma_word_combine(a, b);
                assert(self.data@[i / 64] == a ^ b);
                assert(word_bit(a ^ b, i % 64) == (word_bit(a, i % 64) != word_bit(b, i % 64)));
            }
        }
    }

    /// Replace the bits by their conjunction with `other`'s bits.
    pub fn and_with(&mut self, other: &BitVec)
        requires
            old(self).wf(),
            other.wf(),
            other@.len() == old(self)@.len(),
        ensures
            final(self).wf(),
            final(self)@.len() == old(self)@.len(),
            forall|i: int|
                0 <= i < old(self)@.len() ==> final(self)@[i] == (old(self)@[i] && other@[i]),
    {
        let words: usize = self.data.len();
        let mut w: usize = 0;
        while w < words
            invariant
                w <= words,
                self.len == old(self).len,
                words == self.data@.len(),
                words == other.data@.len(),
                forall|j: int| 0 <= j < w ==> self.data@[j] == old(self).data@[j] & other.data@[j],
                forall|j: int| w <= j < words ==> self.data@[j] == old(self).data@[j],
            decreases words - w,
        {
            let neww: u64 = self.data[w] & other.data[w];
            self.data.set(w, neww);
            w = w + 1;
        }
        proof {
            assert forall|i: int| 0 <= i < old(self)@.len() implies #[trigger] self@[i] == (old(
                self,
            )@[i] && other@[i]) by {
                lemma_bit_word_index(self.len as int, i);
                let a = old(self).data@[i / 64];
                let b = other.data@[i / 64];
                lemma_word_combine(a, b);
                assert(self.data@[i / 64] == a & b);
                assert(word_bit(a & b, i % 64) == (word_bit(a, i % 64) && word_bit(b, i % 64)));
                assert(self@[i] == word_bit(a & b, i % 64));
                assert(old(self)@[i] == word_bit(a, i % 64));
                assert(other@[i] == word_bit(b, i % 64));
            }
        }
    }

    /// Gather `count` consecutive bits starting at `start` into the low end
    /// of one word: bit `j` of the result is bit `start + j` of the vector,
    /// and all higher result bits are zero.
    pub fn get_multiple_groups(&self, start: usize, count: usize) -> (r: u64)
        requires
            self.wf(),
            count <= 64,
            start + count <= self@.len(),
        ensures
            forall|j: int|
                0 <= j < count ==> ((#[trigger] (r >> (j as u64)) & 1) == 1) == self@[start + j],
            forall|j: int| count <= j < 64 ==> (#[trigger] (r >> (j as u64)) & 1) == 0,
    {
        let mut r: u64 = 0;
        let mut i: usize = 0;
        proof {
            lemma_word_bit_basics(0u64);
        }
        while i < count
            invariant
                i <= count,
                count <= 64,
                self.wf(),
                start + count <= self@.len(),
                forall|j: int|
                    0 <= j < i ==> ((#[trigger] (r >> (j as u64)) & 1) == 1) == self@[start + j],
                forall|j: int| i <= j < 64 ==> (#[trigger] (r >> (j as u64)) & 1) == 0,
            decreases count - i,
        {
            let b: bool = self.get_bit(start + i);
            if b {
                proof {
                    lemma_word_set_bit(r, i as u64);
                }
                r = r | (1u64 << (i as u64));
            }
            i = i + 1;
        }
        r
    }
}

} // verus!
