//! A coarse occupancy mask over the subchunk grid, sampled at every second
//! cell along each axis.

use vstd::prelude::*;
use crate::bitset::{BitSet, bit_at};
use crate::config::{VolumeConfig, lemma_valid_dims};
use crate::coord::{Vec3, lemma_cell_index};
use crate::grid::{cube, lemma_cube_monotone, lin3};

verus! {

/// The number of sampled cells along an axis of a grid of side `top`: one for
/// each even coordinate.
pub open spec fn mask_dim(top: int) -> int {
    (top + 1) / 2
}

/// The position in the mask of the sample that covers the cell `(x, y, z)`:
/// each coordinate is halved, so that the samples fill a grid of side
/// `mask_dim(top)` without gaps and without two of them sharing a position.
pub open spec fn mask_index(top: int, x: int, y: int, z: int) -> int {
    lin3(mask_dim(top), x / 2, y / 2, z / 2)
}

/// One bit for each sampled cell of the subchunk grid: the cells whose three
/// coordinates are all even.
pub struct SubregionOccupancyMask {
    top_dim: u32,
    bits: BitSet,
}

impl View for SubregionOccupancyMask {
    type V = Seq<bool>;

    /// One boolean per sampled cell, by position in the mask.
    closed spec fn view(&self) -> Seq<bool> {
        self.bits@
    }
}

impl SubregionOccupancyMask {
    /// The side of the grid that the mask samples.
    pub closed spec fn spec_top_dim(&self) -> int {
        self.top_dim as int
    }

    /// The mask holds one bit for each sampled cell.
    pub closed spec fn wf(&self) -> bool {
        &&& 1 <= self.top_dim <= 20
        &&& self.bits.wf()
        &&& self.bits.spec_capacity() == cube(mask_dim(self.top_dim as int))
        &&& self@.len() == cube(mask_dim(self.top_dim as int))
    }

    /// The storage words of the mask.
    pub closed spec fn spec_words(&self) -> Seq<u32> {
        self.bits.spec_words()
    }

    /// A well-formed mask has one entry in its view for each sampled cell.
    pub proof fn lemma_view_len(&self)
        requires
            self.wf(),
        ensures
            self@.len() == cube(mask_dim(self.spec_top_dim())),
    {
    }

    /// How a well-formed mask is stored: the sample at position `m` is bit
    /// `m % 32` of word `m / 32`; there is one word more than whole words of
    /// samples, and the bits beyond the last sample are zero.
    pub proof fn lemma_packing(&self)
        requires
            self.wf(),
        ensures
            self.spec_words().len() == cube(mask_dim(self.spec_top_dim())) / 32 + 1,
            forall|m: int|
                0 <= m < cube(mask_dim(self.spec_top_dim())) ==> self@[m] == #[trigger] bit_at(
                    self.spec_words(),
                    m,
                ),
            forall|m: int|
                cube(mask_dim(self.spec_top_dim())) <= m < 32 * self.spec_words().len()
                    ==> !#[trigger] bit_at(self.spec_words(), m),
    {
        self.bits.lemma_packing();
    }

    /// Two well-formed masks of one grid with the same samples are stored in
    /// the same words.
    pub proof fn lemma_words_by_view(&self, other: &SubregionOccupancyMask)
        requires
            self.wf(),
            other.wf(),
            self.spec_top_dim() == other.spec_top_dim(),
            self@ == other@,
        ensures
            self.spec_words() == other.spec_words(),
    {
        self.bits.lemma_words_by_view(&other.bits);
    }

    /// A cell of the grid is covered by a sample inside the mask.
    pub proof fn lemma_mask_index(top: int, x: int, y: int, z: int)
        requires
            0 <= x < top,
            0 <= y < top,
            0 <= z < top,
        ensures
            0 <= mask_index(top, x, y, z) < cube(mask_dim(top)),
    {
        lemma_cell_index(mask_dim(top), x / 2, y / 2, z / 2);
    }

    /// The mask of a volume, with no sample marked.
    pub fn new(config: &VolumeConfig) -> (r: SubregionOccupancyMask)
        requires
            config.wf(),
        ensures
            r.wf(),
            r.spec_top_dim() == config.spec_top_dim(),
            r@ == Seq::new(cube(mask_dim(config.spec_top_dim())) as nat, |i: int| false),
    {
        proof {
            lemma_valid_dims(config.spec_top_dim());
            let m = mask_dim(config.spec_top_dim());
            assert(m * m <= 100 && (m * m) * m <= 1000) by (nonlinear_arith)
                requires
                    0 <= m <= 10,
            ;
        }
        let top: u32 = config.top_dim();
        let d: usize = ((top + 1) / 2) as usize;
        let d2: usize = d * d;
        let r = SubregionOccupancyMask { top_dim: top, bits: BitSet::new(d2 * d) };
        proof {
            r.bits.lemma_view_len();
        }
        r
    }

    /// The storage words of the mask: bit `m % 32` of word `m / 32` is the
    /// sample at position `m`.
    pub fn words(&self) -> (r: &Vec<u32>)
        ensures
            r@ == self.spec_words(),
    {
        self.bits.words()
    }

    /// Marks the sample at the cell `coord`, whose coordinates are all even.
    pub fn mark(&mut self, coord: Vec3)
        requires
            old(self).wf(),
            coord.within(old(self).spec_top_dim()),
            coord.spec_is_even(),
        ensures
            final(self).wf(),
            final(self).spec_top_dim() == old(self).spec_top_dim(),
            final(self)@ == old(self)@.update(
                mask_index(old(self).spec_top_dim(), coord.x as int, coord.y as int, coord.z as int),
                true,
            ),
    {
        let i: usize = self.position(coord);
        self.bits.set(i);
    }

    /// Whether the sample that covers the cell `coord` is marked.
    pub fn is_marked(&self, coord: Vec3) -> (r: bool)
        requires
            self.wf(),
            coord.within(self.spec_top_dim()),
        ensures
            r == self@[mask_index(
                self.spec_top_dim(),
                coord.x as int,
                coord.y as int,
                coord.z as int,
            )],
    {
        let i: usize = self.position(coord);
        self.bits.is_set(i)
    }

    /// The position in the mask of the sample that covers the cell `coord`.
    fn position(&self, coord: Vec3) -> (r: usize)
        requires
            self.wf(),
            coord.within(self.spec_top_dim()),
        ensures
            r == mask_index(self.spec_top_dim(), coord.x as int, coord.y as int, coord.z as int),
            r < cube(mask_dim(self.spec_top_dim())),
    {
        proof {
            Self::lemma_mask_index(
                self.top_dim as int,
                coord.x as int,
                coord.y as int,
                coord.z as int,
            );
            lemma_cube_monotone(mask_dim(self.top_dim as int), 10);
            assert(cube(10) == 1000) by (nonlinear_arith);
        }
        let d: u32 = (self.top_dim + 1) / 2;
        Vec3::new(coord.x / 2, coord.y / 2, coord.z / 2).linear(d)
    }
}

} // verus!
