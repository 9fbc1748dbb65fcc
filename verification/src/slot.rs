//! Packed references from a cell of a dense grid into a sparse list.

use vstd::prelude::*;

verus! {

/// The shift of a slot that refers to a brick.
pub const BRICK_SHIFT: u32 = 24;

/// The shift of a slot that refers to a subchunk.
pub const SUBCHUNK_SHIFT: u32 = 19;

/// Whether `index` fits into the bits that a slot keeps above `shift`.
pub open spec fn index_fits(index: u32, shift: u32) -> bool {
    index <= (0xffff_ffffu32 >> shift)
}

/// The packed word `(index << shift) | present`.
pub open spec fn pack(index: u32, present: bool, shift: u32) -> u32 {
    (index << shift) | (if present {
        1u32
    } else {
        0u32
    })
}

/// A packed pair of a flag that says whether the cell refers to anything, in
/// bit 0, and the position of what it refers to, in the bits from `shift` up.
/// A slot whose flag is off refers to nothing, whatever its other bits hold.
#[derive(Clone, Copy, PartialEq, Eq, Structural, Debug)]
pub struct SlotRef {
    pub raw: u32,
}

impl SlotRef {
    /// Whether the slot refers to an element.
    pub open spec fn spec_present(self) -> bool {
        self.raw & 1u32 == 1u32
    }

    /// The position that the slot holds, read with the given shift.
    pub open spec fn spec_index(self, shift: u32) -> u32 {
        if shift < 32 {
            self.raw >> shift
        } else {
            0u32
        }
    }

    /// Both parts of the slot.
    pub open spec fn spec_decode(self, shift: u32) -> (u32, bool) {
        (self.spec_index(shift), self.spec_present())
    }

    /// The slot that packs `index` and `present`.
    pub open spec fn spec_encode(index: u32, present: bool, shift: u32) -> SlotRef {
        SlotRef { raw: pack(index, present, shift) }
    }

    /// The slot that refers to nothing.
    pub open spec fn spec_empty() -> SlotRef {
        SlotRef { raw: 0u32 }
    }

    /// The slot that refers to nothing.
    pub fn empty() -> (r: SlotRef)
        ensures
            r == SlotRef::spec_empty(),
            !r.spec_present(),
    {
        proof {
            lemma_decode_zero(0);
        }
        SlotRef { raw: 0 }
    }

    /// Packs a position and a flag. The shift has to leave room for the flag
    /// and for the word, and the position has to fit above it: otherwise
    /// nothing is packed.
    pub fn encode(index: u32, present: bool, shift: u32) -> (r: Option<SlotRef>)
        ensures
            r.is_some() <==> (1 <= shift < 32 && index_fits(index, shift)),
            r.is_some() ==> r == Some(SlotRef::spec_encode(index, present, shift)),
    {
        if shift < 1 || shift >= 32 {
            return None;
        }
        if index > (0xffff_ffffu32 >> shift) {
            return None;
        }
        let flag: u32 = if present {
            1
        } else {
            0
        };
        assert((index << shift) == (index << shift) as u32);
        Some(SlotRef { raw: (index << shift) | flag })
    }

    /// Unpacks the position and the flag.
    pub fn decode(self, shift: u32) -> (r: (u32, bool))
        ensures
            r == self.spec_decode(shift),
    {
        (self.index(shift), self.present())
    }

    /// Whether the slot refers to an element.
    pub fn present(self) -> (r: bool)
        ensures
            r == self.spec_present(),
    {
        self.raw & 1u32 == 1u32
    }

    /// The position that the slot holds, read with the given shift.
    pub fn index(self, shift: u32) -> (r: u32)
        ensures
            r == self.spec_index(shift),
    {
        if shift < 32 {
            self.raw >> shift
        } else {
            0
        }
    }
}

/// What was packed with the flag on is unpacked again: the same position,
/// and the flag on.
pub proof fn lemma_decode_encode(index: u32, shift: u32)
    requires
        1 <= shift < 32,
        index_fits(index, shift),
    ensures
        SlotRef::spec_encode(index, true, shift).spec_decode(shift) == (index, true),
{
    assert((((index << shift) | 1u32) >> shift) == index && ((index << shift) | 1u32) & 1u32
        == 1u32) by (bit_vector)
        requires
            1 <= shift < 32,
            index <= (0xffff_ffffu32 >> shift),
    ;
}

/// The zero word refers to nothing, whatever the shift.
pub proof fn lemma_decode_zero(shift: u32)
    ensures
        SlotRef::spec_empty().spec_decode(shift).1 == false,
        SlotRef::spec_empty().spec_decode(shift).0 == 0,
{
    assert(0u32 & 1u32 == 0u32) by (bit_vector);
    if shift < 32 {
        assert(0u32 >> shift == 0u32) by (bit_vector);
    }
}

/// The number of positions that fit above each of the two shifts in use.
pub proof fn lemma_index_fits_bounds(index: u32)
    ensures
        index_fits(index, BRICK_SHIFT) <==> index < 256,
        index_fits(index, SUBCHUNK_SHIFT) <==> index < 8192,
{
    assert(0xffff_ffffu32 >> 24u32 == 255u32) by (bit_vector);
    assert(0xffff_ffffu32 >> 19u32 == 8191u32) by (bit_vector);
}

} // verus!
