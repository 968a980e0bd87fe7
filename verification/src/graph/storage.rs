//! Bit sets used to track which buffers are currently borrowed, and the
//! borrow flags of a graph's buffers.
use vstd::prelude::*;
use crate::enum_map::EnumMap;
use crate::enums::Enum;
use super::SlotType;

verus! {

/// Bit `b` of the word `w`.
pub open spec fn word_bit(w: u64, b: nat) -> bool {
    (w >> b) & 1u64 == 1u64
}

/// The bits of a sequence of words, word after word, least significant bit
/// first.
pub open spec fn words_bits(words: Seq<u64>) -> Seq<bool> {
    Seq::new(64 * words.len(), |i: int| word_bit(words[i / 64], (i % 64) as nat))
}

proof fn lemma_set_bit(w: u64, b: u64, c: u64)
    requires
        b < 64,
        c < 64,
    ensures
        ((w | (1u64 << b)) >> c) & 1u64 == (if c == b { 1u64 } else { (w >> c) & 1u64 }),
{
    assert(((w | (1u64 << b)) >> c) & 1u64 == (if c == b { 1u64 } else { (w >> c) & 1u64 }))
        by (bit_vector)
        requires
            b < 64,
            c < 64,
    ;
}

proof fn lemma_clear_bit(w: u64, b: u64, c: u64)
    requires
        b < 64,
        c < 64,
    ensures
        ((w & !(1u64 << b)) >> c) & 1u64 == (if c == b { 0u64 } else { (w >> c) & 1u64 }),
{
    assert(((w & !(1u64 << b)) >> c) & 1u64 == (if c == b { 0u64 } else { (w >> c) & 1u64 }))
        by (bit_vector)
        requires
            b < 64,
            c < 64,
    ;
}

proof fn lemma_test_bit(w: u64, b: u64)
    requires
        b < 64,
    ensures
        ((w & (1u64 << b)) != 0) == ((w >> b) & 1u64 == 1u64),
{
    assert(((w & (1u64 << b)) != 0) == ((w >> b) & 1u64 == 1u64)) by (bit_vector)
        requires
            b < 64,
    ;
}

/// A fixed-size set of bits, stored in 64-bit words.
pub struct AtomicBitset {
    bits: Vec<u64>,
}

impl View for AtomicBitset {
    type V = Seq<bool>;

    closed spec fn view(&self) -> Seq<bool> {
        words_bits(self.bits@)
    }
}

impl AtomicBitset {
    /// The words holding the bits.
    pub closed spec fn spec_words(&self) -> Seq<u64> {
        self.bits@
    }

    /// The bits are those of the words.
    pub proof fn lemma_view_words(&self)
        ensures
            self@ == words_bits(self.spec_words()),
    {
    }

    /// Number of 64-bit words allocated for a requested capacity: the
    /// fewest that hold `capacity` bits.
    pub open spec fn spec_words_for(capacity: nat) -> nat {
        (capacity + 63) / 64
    }

    /// Creates a bit set with all bits clear, holding at least `capacity`
    /// bits: the capacity is rounded up to whole 64-bit words.
    pub fn new(capacity: usize) -> (b: Self)
        requires
            capacity + 63 <= usize::MAX,
        ensures
            b@.len() == 64 * Self::spec_words_for(capacity as nat),
            capacity <= b@.len() < capacity + 64,
            forall|i: int| 0 <= i < b@.len() ==> !(#[trigger] b@[i]),
    {
        let len = (capacity + 63) / 64;
        let mut bits: Vec<u64> = Vec::with_capacity(len);
        let mut i: usize = 0;
        while i < len
            invariant
                i <= len,
                bits@.len() == i,
                forall|j: int| 0 <= j < i ==> #[trigger] bits@[j] == 0u64,
            decreases len - i,
        {
            bits.push(0u64);
            i = i + 1;
        }
        let b = AtomicBitset { bits };
        proof {
            assert(capacity <= 64 * len < capacity + 64) by (nonlinear_arith)
                requires
                    len == (capacity + 63) / 64,
            ;
            assert forall|i: int| 0 <= i < b@.len() implies !(#[trigger] b@[i]) by {
                let c = (i % 64) as u64;
                assert(b.bits@[i / 64] == 0u64);
                assert((0u64 >> c) & 1u64 == 0u64) by (bit_vector);
            }
        }
        b
    }

    /// Whether bit `index` is set. The index must be within the set.
    pub fn get(&self, index: usize) -> (b: bool)
        requires
            index < self@.len(),
        ensures
            b == self@[index as int],
    {
        let bit_index = index / 64;
        let bit_offset = (index % 64) as u64;
        let bit_mask: u64 = 1u64 << bit_offset;
        let bit = self.bits[bit_index];
        proof {
            lemma_test_bit(bit, bit_offset);
        }
        (bit & bit_mask) != 0
    }

    /// Sets bit `index`, leaving the others unchanged. The index must be
    /// within the set.
    pub fn set(&mut self, index: usize)
        requires
            index < old(self)@.len(),
        ensures
            final(self)@ == old(self)@.update(index as int, true),
    {
        let bit_index = index / 64;
        let bit_offset = (index % 64) as u64;
        let bit_mask: u64 = 1u64 << bit_offset;
        let word = self.bits[bit_index];
        self.bits.set(bit_index, word | bit_mask);
        proof {
            let old_bits = old(self)@;
            assert forall|i: int| 0 <= i < self@.len() implies #[trigger] self@[i] == old_bits.update(
                index as int,
                true,
            )[i] by {
                let c = (i % 64) as u64;
                lemma_set_bit(word, bit_offset, c);
                if i / 64 != bit_index as int {
                    assert(self.bits@[i / 64] == old(self).bits@[i / 64]);
                    assert(i != index);
                } else if i != index {
                    assert(c != bit_offset);
                }
            }
            assert(self@ =~= old_bits.update(index as int, true));
        }
    }

    /// Clears bit `index`, leaving the others unchanged. The index must be
    /// within the set.
    pub fn clear(&mut self, index: usize)
        requires
            index < old(self)@.len(),
        ensures
            final(self)@ == old(self)@.update(index as int, false),
    {
        let bit_index = index / 64;
        let bit_offset = (index % 64) as u64;
        let bit_mask: u64 = 1u64 << bit_offset;
        let word = self.bits[bit_index];
        self.bits.set(bit_index, word & !bit_mask);
        proof {
            let old_bits = old(self)@;
            assert forall|i: int| 0 <= i < self@.len() implies #[trigger] self@[i] == old_bits.update(
                index as int,
                false,
            )[i] by {
                let c = (i % 64) as u64;
                lemma_clear_bit(word, bit_offset, c);
                if i / 64 != bit_index as int {
                    assert(self.bits@[i / 64] == old(self).bits@[i / 64]);
                    assert(i != index);
                } else if i != index {
                    assert(c != bit_offset);
                }
            }
            assert(self@ =~= old_bits.update(index as int, false));
        }
    }

    /// Renders the bits for debugging: one character per bit, `X` when set
    /// and `-` when clear, least significant bit first, with `|` between
    /// words.
    pub fn fmt_bits(&self) -> (s: String)
        ensures
            s@ == render_words(self.spec_words()),
    {
        proof {
            reveal_strlit("X");
            reveal_strlit("-");
            reveal_strlit("|");
        }
        let mut s = String::new();
        let mut i: usize = 0;
        while i < self.bits.len()
            invariant
                i <= self.bits@.len(),
                s@ == render_words(self.bits@.take(i as int)),
            decreases self.bits@.len() - i,
        {
            let ghost before = s@;
            proof {
                reveal_strlit("|");
            }
            if i > 0 {
                s.append("|");
            }
            let ghost sep = s@;
            let word = self.bits[i];
            let mut b: u64 = 0;
            while b < 64
                invariant
                    b <= 64,
                    s@ == sep + render_word(word).take(b as int),
                decreases 64 - b,
            {
                let mask: u64 = 1u64 << b;
                proof {
                    lemma_test_bit(word, b);
                    reveal_strlit("X");
                    reveal_strlit("-");
                }
                if (word & mask) != 0 {
                    s.append("X");
                } else {
                    s.append("-");
                }
                proof {
                    assert(render_word(word).take(b + 1) =~= render_word(word).take(b as int).push(
                        render_word(word)[b as int],
                    ));
                }
                b = b + 1;
            }
            proof {
                assert(render_word(word).take(64) =~= render_word(word));
                assert(self.bits@.take(i + 1).drop_last() =~= self.bits@.take(i as int));
                assert(self.bits@.take(i + 1).last() == word);
                let t = self.bits@.take(i + 1);
                if i == 0 {
                    assert(render_words(t) == render_word(t[0]));
                    assert(s@ =~= render_word(word));
                } else {
                    assert(render_words(t) == render_words(t.drop_last()) + seq!['|'] + render_word(t.last()));
                    assert(s@ =~= before + seq!['|'] + render_word(word));
                }
            }
            i = i + 1;
        }
        proof {
            assert(self.bits@.take(self.bits@.len() as int) =~= self.bits@);
        }
        s
    }
}


/// The characters rendering one word: `X` for each set bit, `-` for each
/// clear one, least significant first.
pub open spec fn render_word(w: u64) -> Seq<char> {
    Seq::new(64, |b: int| if word_bit(w, b as nat) { 'X' } else { '-' })
}

/// The rendering of a sequence of words, separated by `|`.
pub open spec fn render_words(words: Seq<u64>) -> Seq<char>
    decreases words.len(),
{
    if words.len() == 0 {
        Seq::empty()
    } else if words.len() == 1 {
        render_word(words[0])
    } else {
        render_words(words.drop_last()) + seq!['|'] + render_word(words.last())
    }
}

impl AtomicBitset {
    /// Whether `index` is within the set.
    pub fn in_range(&self, index: usize) -> (b: bool)
        ensures
            b == (index < self@.len()),
    {
        index / 64 < self.bits.len()
    }
}

/// Which buffers of a graph are borrowed: for each slot type, one flag per
/// buffer telling whether it is borrowed shared, and one telling whether it
/// is borrowed exclusively. No buffer is ever both.
pub struct BorrowFlags {
    shared: EnumMap<SlotType, AtomicBitset>,
    exclusive: EnumMap<SlotType, AtomicBitset>,
}

impl BorrowFlags {
    /// The shared-borrow flags of the buffers of slot type `t`.
    pub closed spec fn shared_flags(&self, t: SlotType) -> Seq<bool> {
        self.shared.spec_get(t)@
    }

    /// The exclusive-borrow flags of the buffers of slot type `t`.
    pub closed spec fn exclusive_flags(&self, t: SlotType) -> Seq<bool> {
        self.exclusive.spec_get(t)@
    }

    /// One set of flags per slot type, of each kind.
    pub closed spec fn maps_wf(&self) -> bool {
        &&& self.shared.wf()
        &&& self.exclusive.wf()
    }

    /// Well-formedness: one shared and one exclusive flag per buffer, and no
    /// buffer borrowed both ways.
    pub open spec fn wf(&self) -> bool {
        &&& self.maps_wf()
        &&& forall|t: SlotType| #[trigger] self.shared_flags(t).len() == self.exclusive_flags(t).len()
        &&& forall|t: SlotType, i: int|
            0 <= i < self.shared_flags(t).len() ==> !(#[trigger] self.shared_flags(t)[i] && self.exclusive_flags(t)[i])
    }

    /// Creates the flags of `num_audio` audio buffers, `num_control` control
    /// buffers and `num_note` note buffers, none borrowed. Each slot type gets
    /// the flags of an [`AtomicBitset`] sized for its number of buffers.
    pub fn new(num_audio: usize, num_control: usize, num_note: usize) -> (f: Self)
        requires
            num_audio + 63 <= usize::MAX,
            num_control + 63 <= usize::MAX,
            num_note + 63 <= usize::MAX,
        ensures
            f.wf(),
            f.shared_flags(SlotType::Audio).len() == 64 * AtomicBitset::spec_words_for(num_audio as nat),
            f.shared_flags(SlotType::Control).len() == 64 * AtomicBitset::spec_words_for(num_control as nat),
            f.shared_flags(SlotType::Note).len() == 64 * AtomicBitset::spec_words_for(num_note as nat),
            num_audio <= f.shared_flags(SlotType::Audio).len(),
            num_control <= f.shared_flags(SlotType::Control).len(),
            num_note <= f.shared_flags(SlotType::Note).len(),
            forall|t: SlotType, i: int|
                0 <= i < f.shared_flags(t).len() ==> !(#[trigger] f.shared_flags(t)[i]) && !f.exclusive_flags(t)[i],
    {
        let shared = EnumMap::from_array(
            vec![AtomicBitset::new(num_audio), AtomicBitset::new(num_control), AtomicBitset::new(num_note)],
        );
        let exclusive = EnumMap::from_array(
            vec![AtomicBitset::new(num_audio), AtomicBitset::new(num_control), AtomicBitset::new(num_note)],
        );
        BorrowFlags { shared, exclusive }
    }

    /// Whether buffer `index` of slot type `t` has flags.
    pub fn has_buffer(&self, t: SlotType, index: usize) -> (b: bool)
        requires
            self.wf(),
        ensures
            b == (index < self.shared_flags(t).len()),
    {
        self.shared.get(t).in_range(index)
    }

    /// Whether buffer `index` of slot type `t` is borrowed shared.
    pub fn is_shared(&self, t: SlotType, index: usize) -> (b: bool)
        requires
            self.wf(),
            index < self.shared_flags(t).len(),
        ensures
            b == self.shared_flags(t)[index as int],
    {
        self.shared.get(t).get(index)
    }

    /// Whether buffer `index` of slot type `t` is borrowed exclusively.
    pub fn is_exclusive(&self, t: SlotType, index: usize) -> (b: bool)
        requires
            self.wf(),
            index < self.shared_flags(t).len(),
        ensures
            b == self.exclusive_flags(t)[index as int],
    {
        self.exclusive.get(t).get(index)
    }

    /// Marks buffer `index` of slot type `t` as borrowed shared; it must not
    /// be borrowed exclusively.
    pub fn borrow_shared(&mut self, t: SlotType, index: usize)
        requires
            old(self).wf(),
            index < old(self).shared_flags(t).len(),
            !old(self).exclusive_flags(t)[index as int],
        ensures
            final(self).wf(),
            forall|u: SlotType| #[trigger] final(self).exclusive_flags(u) == old(self).exclusive_flags(u),
            final(self).shared_flags(t) == old(self).shared_flags(t).update(index as int, true),
            forall|u: SlotType| u != t ==> #[trigger] final(self).shared_flags(u) == old(self).shared_flags(u),
    {
        self.shared.get_mut(t).set(index);
        proof {
            self.lemma_other_types(old(self).shared, self.shared, t);
            assert forall|u: SlotType| #[trigger] self.shared_flags(u).len() == self.exclusive_flags(u).len() by {
                assert(old(self).shared_flags(u).len() == old(self).exclusive_flags(u).len());
            }
            assert forall|u: SlotType, i: int|
                0 <= i < self.shared_flags(u).len() implies !(#[trigger] self.shared_flags(u)[i] && self.exclusive_flags(u)[i]) by {
                assert(old(self).shared_flags(u).len() == old(self).exclusive_flags(u).len());
                if u != t || i != index {
                    assert(!(old(self).shared_flags(u)[i] && old(self).exclusive_flags(u)[i]));
                }
            }
        }
    }

    /// Marks buffer `index` of slot type `t` as borrowed exclusively; it must
    /// not be borrowed at all.
    pub fn borrow_exclusive(&mut self, t: SlotType, index: usize)
        requires
            old(self).wf(),
            index < old(self).shared_flags(t).len(),
            !old(self).shared_flags(t)[index as int],
            !old(self).exclusive_flags(t)[index as int],
        ensures
            final(self).wf(),
            forall|u: SlotType| #[trigger] final(self).shared_flags(u) == old(self).shared_flags(u),
            final(self).exclusive_flags(t) == old(self).exclusive_flags(t).update(index as int, true),
            forall|u: SlotType| u != t ==> #[trigger] final(self).exclusive_flags(u) == old(self).exclusive_flags(u),
    {
        self.exclusive.get_mut(t).set(index);
        proof {
            self.lemma_other_types(old(self).exclusive, self.exclusive, t);
            assert forall|u: SlotType| #[trigger] self.shared_flags(u).len() == self.exclusive_flags(u).len() by {
                assert(old(self).shared_flags(u).len() == old(self).exclusive_flags(u).len());
            }
            assert forall|u: SlotType, i: int|
                0 <= i < self.shared_flags(u).len() implies !(#[trigger] self.shared_flags(u)[i] && self.exclusive_flags(u)[i]) by {
                assert(old(self).shared_flags(u).len() == old(self).exclusive_flags(u).len());
                if u != t || i != index {
                    assert(!(old(self).shared_flags(u)[i] && old(self).exclusive_flags(u)[i]));
                }
            }
        }
    }

    /// Clears the shared-borrow flag of buffer `index` of slot type `t`.
    pub fn release_shared(&mut self, t: SlotType, index: usize)
        requires
            old(self).wf(),
            index < old(self).shared_flags(t).len(),
        ensures
            final(self).wf(),
            forall|u: SlotType| #[trigger] final(self).exclusive_flags(u) == old(self).exclusive_flags(u),
            final(self).shared_flags(t) == old(self).shared_flags(t).update(index as int, false),
            forall|u: SlotType| u != t ==> #[trigger] final(self).shared_flags(u) == old(self).shared_flags(u),
    {
        self.shared.get_mut(t).clear(index);
        proof {
            self.lemma_other_types(old(self).shared, self.shared, t);
            assert forall|u: SlotType| #[trigger] self.shared_flags(u).len() == self.exclusive_flags(u).len() by {
                assert(old(self).shared_flags(u).len() == old(self).exclusive_flags(u).len());
            }
            assert forall|u: SlotType, i: int|
                0 <= i < self.shared_flags(u).len() implies !(#[trigger] self.shared_flags(u)[i] && self.exclusive_flags(u)[i]) by {
                assert(old(self).shared_flags(u).len() == old(self).exclusive_flags(u).len());
                if u != t || i != index {
                    assert(!(old(self).shared_flags(u)[i] && old(self).exclusive_flags(u)[i]));
                }
            }
        }
    }

    /// Clears the exclusive-borrow flag of buffer `index` of slot type `t`.
    pub fn release_exclusive(&mut self, t: SlotType, index: usize)
        requires
            old(self).wf(),
            index < old(self).shared_flags(t).len(),
        ensures
            final(self).wf(),
            forall|u: SlotType| #[trigger] final(self).shared_flags(u) == old(self).shared_flags(u),
            final(self).exclusive_flags(t) == old(self).exclusive_flags(t).update(index as int, false),
            forall|u: SlotType| u != t ==> #[trigger] final(self).exclusive_flags(u) == old(self).exclusive_flags(u),
    {
        self.exclusive.get_mut(t).clear(index);
        proof {
            self.lemma_other_types(old(self).exclusive, self.exclusive, t);
            assert forall|u: SlotType| #[trigger] self.shared_flags(u).len() == self.exclusive_flags(u).len() by {
                assert(old(self).shared_flags(u).len() == old(self).exclusive_flags(u).len());
            }
            assert forall|u: SlotType, i: int|
                0 <= i < self.shared_flags(u).len() implies !(#[trigger] self.shared_flags(u)[i] && self.exclusive_flags(u)[i]) by {
                assert(old(self).shared_flags(u).len() == old(self).exclusive_flags(u).len());
                if u != t || i != index {
                    assert(!(old(self).shared_flags(u)[i] && old(self).exclusive_flags(u)[i]));
                }
            }
        }
    }

    /// Updating the entry of one slot type leaves the entries of the others.
    proof fn lemma_other_types(
        &self,
        before: EnumMap<SlotType, AtomicBitset>,
        after: EnumMap<SlotType, AtomicBitset>,
        t: SlotType,
    )
        requires
            before.wf(),
            after@ == before@.update(t.spec_index() as int, after.spec_get(t)),
        ensures
            after.wf(),
            forall|u: SlotType| u != t ==> #[trigger] after.spec_get(u) == before.spec_get(u),
    {
    }
}

/// Reading a bit back after setting or clearing it gives the written value,
/// and every other bit keeps its value.
pub proof fn lemma_write_then_read(bits: Seq<bool>, index: int, value: bool, other: int)
    requires
        0 <= index < bits.len(),
        0 <= other < bits.len(),
    ensures
        bits.update(index, value)[index] == value,
        other != index ==> bits.update(index, value)[other] == bits[other],
{
}

} // verus!
