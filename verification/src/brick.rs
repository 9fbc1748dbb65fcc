//! The leaf of the volume: one occupancy bit for each voxel of a small cube.

use vstd::prelude::*;
use crate::bitset::{BitSet, bit_at};
use crate::config::VolumeConfig;
use crate::grid::cube;

verus! {

/// Occupancy of the voxels of one brick. Voxel `(x, y, z)` of a brick of side
/// `d` has the local index `x + y * d + z * d * d`.
pub struct Brick {
    low_dim: u32,
    bits: BitSet,
}

impl View for Brick {
    type V = Seq<bool>;

    /// One boolean per voxel, by local index.
    closed spec fn view(&self) -> Seq<bool> {
        self.bits@
    }
}

impl Brick {
    /// Voxels along each axis of the brick.
    pub closed spec fn spec_low_dim(&self) -> int {
        self.low_dim as int
    }

    /// The brick holds one bit for each of its voxels.
    pub closed spec fn wf(&self) -> bool {
        &&& self.bits.wf()
        &&& self.bits.spec_capacity() == cube(self.low_dim as int)
        &&& self@.len() == cube(self.low_dim as int)
    }

    /// Whether no voxel of the brick is occupied.
    pub open spec fn spec_is_empty(&self) -> bool {
        forall|i: int| 0 <= i < self@.len() ==> !self@[i]
    }

    /// The storage words of the brick.
    pub closed spec fn spec_words(&self) -> Seq<u32> {
        self.bits.spec_words()
    }

    /// A well-formed brick has one entry in its view for each voxel.
    pub proof fn lemma_view_len(&self)
        requires
            self.wf(),
        ensures
            self@.len() == cube(self.spec_low_dim()),
    {
    }

    /// How a well-formed brick is stored: the voxel with the local index `i`
    /// is bit `i % 32` of word `i / 32`; there is one word more than whole
    /// words of voxels, and the bits beyond the last voxel are zero.
    pub proof fn lemma_packing(&self)
        requires
            self.wf(),
        ensures
            self.spec_words().len() == cube(self.spec_low_dim()) / 32 + 1,
            forall|i: int|
                0 <= i < cube(self.spec_low_dim()) ==> self@[i] == #[trigger] bit_at(
                    self.spec_words(),
                    i,
                ),
            forall|i: int|
                cube(self.spec_low_dim()) <= i < 32 * self.spec_words().len() ==> !#[trigger] bit_at(
                    self.spec_words(),
                    i,
                ),
    {
        self.bits.lemma_packing();
    }

    /// Two well-formed bricks of one side with the same occupancy are stored
    /// in the same words.
    pub proof fn lemma_words_by_view(&self, other: &Brick)
        requires
            self.wf(),
            other.wf(),
            self.spec_low_dim() == other.spec_low_dim(),
            self@ == other@,
        ensures
            self.spec_words() == other.spec_words(),
    {
        self.bits.lemma_words_by_view(&other.bits);
    }

    /// A brick with no voxel occupied.
    pub fn new(config: &VolumeConfig) -> (r: Brick)
        requires
            config.wf(),
        ensures
            r.wf(),
            r.spec_low_dim() == config.spec_low_dim(),
            r@ == Seq::new(cube(config.spec_low_dim()) as nat, |i: int| false),
            r.spec_is_empty(),
    {
        let r = Brick { low_dim: config.low_dim(), bits: BitSet::new(config.brick_volume()) };
        proof {
            r.bits.lemma_view_len();
        }
        r
    }

    /// Voxels along each axis of the brick.
    pub fn low_dim(&self) -> (r: u32)
        ensures
            r == self.spec_low_dim(),
    {
        self.low_dim
    }

    /// The storage words of the brick: bit `i % 32` of word `i / 32` is the
    /// voxel with the local index `i`.
    pub fn words(&self) -> (r: &Vec<u32>)
        ensures
            r@ == self.spec_words(),
    {
        self.bits.words()
    }

    /// Marks the voxel with the given local index as occupied.
    pub fn set(&mut self, local_index: usize)
        requires
            old(self).wf(),
            local_index < cube(old(self).spec_low_dim()),
        ensures
            final(self).wf(),
            final(self).spec_low_dim() == old(self).spec_low_dim(),
            final(self)@ == old(self)@.update(local_index as int, true),
    {
        self.bits.set(local_index);
    }

    /// Whether the voxel with the given local index is occupied.
    pub fn is_set(&self, local_index: usize) -> (r: bool)
        requires
            self.wf(),
            local_index < cube(self.spec_low_dim()),
        ensures
            r == self@[local_index as int],
    {
        self.bits.is_set(local_index)
    }

    /// Whether no voxel of the brick is occupied.
    pub fn is_empty(&self) -> (r: bool)
        requires
            self.wf(),
        ensures
            r == self.spec_is_empty(),
    {
        self.bits.is_empty()
    }
}

} // verus!
