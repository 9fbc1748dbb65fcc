//! A fixed-capacity set of bits packed into 32-bit words.

use vstd::prelude::*;

verus! {

/// Number of bits held by one storage word.
pub const WORD_BITS: usize = 32;

/// Whether bit `b` of the word `w` is one.
pub open spec fn word_bit(w: u32, b: u32) -> bool {
    (w >> b) & 1u32 == 1u32
}

/// The word `w` with bit `b` turned on.
pub open spec fn word_with_bit(w: u32, b: u32) -> u32 {
    w | (1u32 << b)
}

/// Turning on bit `b` changes bit `b` and no other.
pub proof fn lemma_word_with_bit(w: u32, b: u32, c: u32)
    requires
        b < 32,
        c < 32,
    ensures
        word_bit(word_with_bit(w, b), c) == (c == b || word_bit(w, c)),
{
    assert(((w | (1u32 << b)) >> c) & 1u32 == 1u32 <==> (c == b || (w >> c) & 1u32 == 1u32))
        by (bit_vector)
        requires
            b < 32,
            c < 32,
    ;
}

/// The zero word has no bit on.
pub proof fn lemma_zero_word(c: u32)
    requires
        c < 32,
    ensures
        !word_bit(0u32, c),
{
    assert((0u32 >> c) & 1u32 == 0u32) by (bit_vector)
        requires
            c < 32,
    ;
}

/// A word other than zero has some bit on.
pub proof fn lemma_nonzero_word(w: u32) -> (b: u32)
    requires
        w != 0,
    ensures
        b < 32,
        word_bit(w, b),
{
    vstd::std_specs::bits::axiom_u32_trailing_zeros(w);
    vstd::std_specs::bits::u32_trailing_zeros(w)
}

/// Two words with the same bits are the same word.
pub proof fn lemma_word_by_bits(v: u32, w: u32)
    requires
        forall|c: u32| c < 32 ==> word_bit(v, c) == word_bit(w, c),
    ensures
        v == w,
{
    if v != w {
        let x: u32 = v ^ w;
        assert(x != 0) by (bit_vector)
            requires
                x == v ^ w,
                v != w,
        ;
        let c = lemma_nonzero_word(x);
        assert(((v >> c) & 1u32 == 1u32) != ((w >> c) & 1u32 == 1u32)) by (bit_vector)
            requires
                x == v ^ w,
                c < 32,
                (x >> c) & 1u32 == 1u32,
        ;
        assert(word_bit(v, c) == word_bit(w, c));
    }
}

/// Bit `i` of a sequence of words, counting from bit 0 of word 0.
pub open spec fn bit_at(words: Seq<u32>, i: int) -> bool {
    word_bit(words[i / 32], (i % 32) as u32)
}

/// A set of bit positions below a fixed capacity.
///
/// The bits are stored 32 to a word, with one word more than the capacity
/// strictly needs; the bits of that headroom stay zero.
pub struct BitSet {
    capacity: usize,
    words: Vec<u32>,
}

impl View for BitSet {
    type V = Seq<bool>;

    /// One boolean per position, in order.
    closed spec fn view(&self) -> Seq<bool> {
        Seq::new(self.capacity as nat, |i: int| bit_at(self.words@, i))
    }
}

impl BitSet {
    /// The storage has the right length and no bit is on at or above the capacity.
    pub closed spec fn wf(&self) -> bool {
        &&& self.words@.len() == self.capacity / 32 + 1
        &&& forall|i: int|
            self.capacity <= i < 32 * self.words@.len() ==> !#[trigger] bit_at(self.words@, i)
    }

    /// The storage words, as handed to a consumer.
    pub closed spec fn spec_words(&self) -> Seq<u32> {
        self.words@
    }

    /// The view has one entry per position.
    pub proof fn lemma_view_len(&self)
        ensures
            self@.len() == self.spec_capacity(),
    {
    }

    pub closed spec fn spec_capacity(&self) -> nat {
        self.capacity as nat
    }

    /// How a well-formed set is stored: position `i` is bit `i % 32` of word
    /// `i / 32`; there is one word more than whole words of positions, and
    /// the bits beyond the capacity are zero.
    pub proof fn lemma_packing(&self)
        requires
            self.wf(),
        ensures
            self@.len() == self.spec_capacity(),
            self.spec_words().len() == self.spec_capacity() / 32 + 1,
            forall|i: int|
                0 <= i < self.spec_capacity() ==> self@[i] == #[trigger] bit_at(
                    self.spec_words(),
                    i,
                ),
            forall|i: int|
                self.spec_capacity() <= i < 32 * self.spec_words().len() ==> !#[trigger] bit_at(
                    self.spec_words(),
                    i,
                ),
    {
    }

    /// Two well-formed sets of one capacity that hold the same positions are
    /// stored in the same words.
    pub proof fn lemma_words_by_view(&self, other: &BitSet)
        requires
            self.wf(),
            other.wf(),
            self.spec_capacity() == other.spec_capacity(),
            self@ == other@,
        ensures
            self.spec_words() == other.spec_words(),
    {
        assert forall|j: int| 0 <= j < self.words@.len() implies self.words@[j]
            == other.words@[j] by {
            assert forall|c: u32| c < 32 implies word_bit(self.words@[j], c) == word_bit(
                other.words@[j],
                c,
            ) by {
                let i: int = 32 * j + c;
                assert(i / 32 == j && i % 32 == c);
                assert(bit_at(self.words@, i) == word_bit(self.words@[j], c));
                assert(bit_at(other.words@, i) == word_bit(other.words@[j], c));
                if i < self.capacity {
                    assert(self@[i] == bit_at(self.words@, i));
                    assert(other@[i] == bit_at(other.words@, i));
                }
            }
            lemma_word_by_bits(self.words@[j], other.words@[j]);
        }
        assert(self.words@ =~= other.words@);
    }

    /// An empty set of the given capacity.
    pub fn new(capacity: usize) -> (r: BitSet)
        ensures
            r.wf(),
            r.spec_capacity() == capacity,
            r@ == Seq::new(capacity as nat, |i: int| false),
    {
        let n: usize = capacity / 32 + 1;
        let words: Vec<u32> = vec![0u32; n];
        let r = BitSet { capacity, words };
        proof {
            assert forall|i: int| 0 <= i < 32 * r.words@.len() implies !#[trigger] bit_at(
                r.words@,
                i,
            ) by {
                lemma_zero_word((i % 32) as u32);
            }
            assert(r@ =~= Seq::new(capacity as nat, |i: int| false));
        }
        r
    }

    /// The storage words.
    pub fn words(&self) -> (r: &Vec<u32>)
        ensures
            r@ == self.spec_words(),
    {
        &self.words
    }

    /// The number of positions.
    pub fn capacity(&self) -> (r: usize)
        ensures
            r == self.spec_capacity(),
    {
        self.capacity
    }

    /// Whether position `i` is in the set.
    pub fn is_set(&self, i: usize) -> (r: bool)
        requires
            self.wf(),
            i < self.spec_capacity(),
        ensures
            r == self@[i as int],
    {
        let w: usize = i / 32;
        let b: u32 = (i % 32) as u32;
        (self.words[w] >> b) & 1u32 == 1u32
    }

    /// Puts position `i` into the set.
    pub fn set(&mut self, i: usize)
        requires
            old(self).wf(),
            i < old(self).spec_capacity(),
        ensures
            final(self).wf(),
            final(self).spec_capacity() == old(self).spec_capacity(),
            final(self)@ == old(self)@.update(i as int, true),
    {
        let w: usize = i / 32;
        let b: u32 = (i % 32) as u32;
        let before: u32 = self.words[w];
        self.words[w] = before | (1u32 << b);
        proof {
            assert forall|j: int| 0 <= j < 32 * self.words@.len() implies #[trigger] bit_at(
                self.words@,
                j,
            ) == (j == i || bit_at(old(self).words@, j)) by {
                if j / 32 == w {
                    lemma_word_with_bit(before, b, (j % 32) as u32);
                }
            }
            assert(self@ =~= old(self)@.update(i as int, true));
        }
    }

    /// Whether no position is in the set.
    pub fn is_empty(&self) -> (r: bool)
        requires
            self.wf(),
        ensures
            r == (forall|i: int| 0 <= i < self@.len() ==> !self@[i]),
    {
        let n: usize = self.words.len();
        let mut k: usize = 0;
        while k < n
            invariant
                self.wf(),
                n == self.words@.len(),
                k <= n,
                forall|j: int| 0 <= j < k ==> self.words@[j] == 0,
            decreases n - k,
        {
            let word: u32 = self.words[k];
            if word != 0 {
                proof {
                    let b = lemma_nonzero_word(word);
                    let i: int = 32 * k + b;
                    assert(bit_at(self.words@, i));
                    assert(self@[i]);
                }
                return false;
            }
            k = k + 1;
        }
        proof {
            assert forall|i: int| 0 <= i < self@.len() implies !self@[i] by {
                lemma_zero_word((i % 32) as u32);
            }
        }
        true
    }
}

} // verus!
