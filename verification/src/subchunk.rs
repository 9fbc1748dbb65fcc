//! The middle level of the volume: a dense grid of slots over a sparse list
//! of bricks.

use vstd::prelude::*;
use crate::brick::Brick;
use crate::config::{VolumeConfig, valid_low_dim};
use crate::coord::Vec3;
use crate::grid::cube;
use crate::slot::{BRICK_SHIFT, SlotRef, lemma_index_fits_bounds};
use crate::sparse::{lemma_slots_wf_add, lemma_slots_wf_empty, slots_wf};

verus! {

/// Whether some voxel of a brick is occupied.
pub open spec fn some_voxel(bits: Seq<bool>) -> bool {
    exists|l: int| 0 <= l < bits.len() && #[trigger] bits[l]
}

/// What a subchunk holds: the slot of each cell, by linear index, and the
/// occupancy of each brick of the list, in the order in which they were added.
pub ghost struct SubchunkView {
    pub slots: Seq<SlotRef>,
    pub bricks: Seq<Seq<bool>>,
}

impl SubchunkView {
    /// The occupancy of the brick of cell `c`, if the cell has one.
    pub open spec fn brick_at(self, c: int) -> Option<Seq<bool>> {
        if self.slots[c].spec_present() {
            Some(self.bricks[self.slots[c].spec_index(BRICK_SHIFT) as int])
        } else {
            None
        }
    }

    /// Whether voxel `l` of the brick of cell `c` is occupied. A cell without
    /// a brick has no occupied voxel.
    pub open spec fn occupied(self, c: int, l: int) -> bool {
        match self.brick_at(c) {
            Some(bits) => bits[l],
            None => false,
        }
    }

    /// The invariant of a subchunk of side `low`:
    /// there is one slot for each cell;
    /// the slots are well formed over the list of bricks: none refers past
    /// its end, no two refer to the same brick, and every brick is referred to;
    /// every brick has one bit for each voxel, and some voxel occupied.
    pub open spec fn wf(self, low: int) -> bool {
        &&& self.slots.len() == cube(low)
        &&& slots_wf(self.slots, BRICK_SHIFT, self.bricks.len() as int)
        &&& forall|k: int|
            0 <= k < self.bricks.len() ==> (#[trigger] self.bricks[k]).len() == cube(low)
                && some_voxel(self.bricks[k])
    }
}

/// A grid of `low_dim` cells along each axis, each cell either empty or
/// referring to one brick of the list.
pub struct Subchunk {
    low_dim: u32,
    brick_indices: Vec<SlotRef>,
    bricks: Vec<Brick>,
}

impl View for Subchunk {
    type V = SubchunkView;

    closed spec fn view(&self) -> SubchunkView {
        SubchunkView {
            slots: self.brick_indices@,
            bricks: Seq::new(self.bricks@.len(), |k: int| self.bricks@[k]@),
        }
    }
}

impl Subchunk {
    /// Cells along each axis.
    pub closed spec fn spec_low_dim(&self) -> int {
        self.low_dim as int
    }

    /// The invariant of the view holds, and every brick of the list is a
    /// well-formed brick of the same side.
    pub closed spec fn wf(&self) -> bool {
        &&& valid_low_dim(self.low_dim as int)
        &&& self@.wf(self.low_dim as int)
        &&& forall|k: int|
            0 <= k < self.bricks@.len() ==> (#[trigger] self.bricks@[k]).wf()
                && self.bricks@[k].spec_low_dim() == self.low_dim
    }

    /// The bricks of the list, in the order in which they were added.
    pub closed spec fn spec_bricks(&self) -> Seq<Brick> {
        self.bricks@
    }

    /// Whether the list of bricks is empty.
    pub open spec fn spec_is_empty(&self) -> bool {
        self@.bricks.len() == 0
    }

    /// A well-formed subchunk has a well-formed view.
    pub proof fn lemma_view_wf(&self)
        requires
            self.wf(),
        ensures
            self@.wf(self.spec_low_dim()),
            valid_low_dim(self.spec_low_dim()),
    {
    }

    /// The bricks of a well-formed subchunk are well-formed bricks of its
    /// side, and the view holds the occupancy of each.
    pub proof fn lemma_bricks(&self)
        requires
            self.wf(),
        ensures
            self.spec_bricks().len() == self@.bricks.len(),
            forall|k: int|
                0 <= k < self.spec_bricks().len() ==> {
                    &&& (#[trigger] self.spec_bricks()[k]).wf()
                    &&& self.spec_bricks()[k].spec_low_dim() == self.spec_low_dim()
                    &&& self.spec_bricks()[k]@ == self@.bricks[k]
                },
    {
    }

    /// A subchunk in which no cell has a brick.
    pub fn new(config: &VolumeConfig) -> (r: Subchunk)
        requires
            config.wf(),
        ensures
            r.wf(),
            r.spec_low_dim() == config.spec_low_dim(),
            r@.slots == Seq::new(cube(config.spec_low_dim()) as nat, |c: int| SlotRef::spec_empty()),
            r@.bricks == Seq::<Seq<bool>>::empty(),
    {
        let n: usize = config.brick_volume();
        let r = Subchunk {
            low_dim: config.low_dim(),
            brick_indices: vec![SlotRef::empty(); n],
            bricks: Vec::new(),
        };
        proof {
            assert(r@.slots =~= Seq::new(
                cube(config.spec_low_dim()) as nat,
                |c: int| SlotRef::spec_empty(),
            ));
            assert(r@.bricks =~= Seq::<Seq<bool>>::empty());
            lemma_slots_wf_empty(r@.slots, BRICK_SHIFT);
        }
        r
    }

    /// Cells along each axis.
    pub fn low_dim(&self) -> (r: u32)
        ensures
            r == self.spec_low_dim(),
    {
        self.low_dim
    }

    /// The number of bricks in the list.
    pub fn brick_count(&self) -> (r: usize)
        ensures
            r == self@.bricks.len(),
    {
        self.bricks.len()
    }

    /// The slots of the cells, by linear index.
    pub fn brick_indices(&self) -> (r: &Vec<SlotRef>)
        ensures
            r@ == self@.slots,
    {
        &self.brick_indices
    }

    /// The bricks of the list, in the order in which they were added.
    pub fn bricks(&self) -> (r: &Vec<Brick>)
        ensures
            r@ == self.spec_bricks(),
    {
        &self.bricks
    }

    /// Whether the list of bricks is empty.
    pub fn is_empty(&self) -> (r: bool)
        ensures
            r == self.spec_is_empty(),
    {
        self.bricks.len() == 0
    }

    /// Appends `brick` to the list and makes the slot of the cell `coord`
    /// refer to it: the slot holds the length that the list had before, which
    /// is also returned.
    pub fn add_brick(&mut self, coord: Vec3, brick: Brick) -> (index: u32)
        requires
            old(self).wf(),
            coord.within(old(self).spec_low_dim()),
            !old(self)@.slots[coord.spec_linear(old(self).spec_low_dim())].spec_present(),
            brick.wf(),
            brick.spec_low_dim() == old(self).spec_low_dim(),
            !brick.spec_is_empty(),
        ensures
            final(self).wf(),
            final(self).spec_low_dim() == old(self).spec_low_dim(),
            index == old(self)@.bricks.len(),
            final(self)@.slots == old(self)@.slots.update(
                coord.spec_linear(old(self).spec_low_dim()),
                SlotRef::spec_encode(index, true, BRICK_SHIFT),
            ),
            final(self)@.bricks == old(self)@.bricks.push(brick@),
    {
        let c: usize = coord.linear(self.low_dim);
        let k: usize = self.bricks.len();
        proof {
            lemma_index_fits_bounds((cube(self.low_dim as int) - 1) as u32);
            lemma_slots_wf_add(old(self)@.slots, BRICK_SHIFT, k as int, c as int);
            brick.lemma_view_len();
        }
        let index: u32 = k as u32;
        let slot: SlotRef = SlotRef::encode(index, true, BRICK_SHIFT).unwrap();
        self.brick_indices[c] = slot;
        self.bricks.push(brick);
        proof {
            let before = old(self)@;
            let after = self@;
            assert(after.slots =~= before.slots.update(c as int, slot));
            assert(after.bricks =~= before.bricks.push(brick@));
            assert forall|j: int| 0 <= j < after.bricks.len() implies (#[trigger] after.bricks[j]).len()
                == cube(self.low_dim as int) && some_voxel(after.bricks[j]) by {
                if j < k {
                    assert(before.bricks[j] == after.bricks[j]);
                }
            }
        }
        index
    }

    /// The brick of the cell `coord`, if the cell has one.
    pub fn lookup(&self, coord: Vec3) -> (r: Option<&Brick>)
        requires
            self.wf(),
            coord.within(self.spec_low_dim()),
        ensures
            match r {
                Some(brick) => {
                    &&& brick.wf()
                    &&& brick.spec_low_dim() == self.spec_low_dim()
                    &&& self@.brick_at(coord.spec_linear(self.spec_low_dim())) == Some(brick@)
                },
                None => self@.brick_at(coord.spec_linear(self.spec_low_dim())).is_none(),
            },
    {
        let c: usize = coord.linear(self.low_dim);
        let slot: SlotRef = self.brick_indices[c];
        if slot.present() {
            let k: usize = slot.index(BRICK_SHIFT) as usize;
            Some(&self.bricks[k])
        } else {
            None
        }
    }
}

} // verus!
