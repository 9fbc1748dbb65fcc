//! The top level of the volume: a dense grid of slots over a sparse list of
//! subchunks, with a coarse mask over the grid.

use vstd::prelude::*;
use crate::config::{VolumeConfig, lemma_valid_dims};
use crate::coord::{Vec3, chunk_index, lemma_cell_index, lemma_index_cell, local_index, super_index};
use crate::grid::{
    cube, digit0, digit1, digit2, lemma_cube_monotone, lemma_lin3_digits, lemma_step3_carry, lin3,
    step3,
};
use crate::mask::{SubregionOccupancyMask, mask_dim, mask_index};
use crate::slot::{
    SUBCHUNK_SHIFT, SlotRef, lemma_decode_encode, lemma_decode_zero, lemma_index_fits_bounds,
};
use crate::sparse::{lemma_slots_wf_add, lemma_slots_wf_empty, slots_wf};
use crate::subchunk::{Subchunk, SubchunkView};

verus! {

/// The linear index, in a grid of side `top`, of the cell that the sample at
/// position `m` of the mask is taken at.
pub open spec fn sampled_cell(top: int, m: int) -> int {
    lin3(
        top,
        2 * digit0(mask_dim(top), m),
        2 * digit1(mask_dim(top), m),
        2 * digit2(mask_dim(top), m),
    )
}

/// What a volume holds: the slot of each cell of the grid, by linear index,
/// what each subchunk of the list holds, in the order in which they were
/// added, and the samples of the mask.
pub ghost struct SuperchunkView {
    pub slots: Seq<SlotRef>,
    pub subchunks: Seq<SubchunkView>,
    pub mask: Seq<bool>,
}

impl SuperchunkView {
    /// What the subchunk of cell `s` holds, if the cell has one.
    pub open spec fn subchunk_at(self, s: int) -> Option<SubchunkView> {
        if self.slots[s].spec_present() {
            Some(self.subchunks[self.slots[s].spec_index(SUBCHUNK_SHIFT) as int])
        } else {
            None
        }
    }

    /// Whether voxel `l` of brick `c` of the subchunk of cell `s` is
    /// occupied. A cell without a subchunk has no occupied voxel.
    pub open spec fn occupied(self, s: int, c: int, l: int) -> bool {
        match self.subchunk_at(s) {
            Some(sub) => sub.occupied(c, l),
            None => false,
        }
    }

    /// The invariant of a volume of `top` subchunks along each axis, each of
    /// side `low`:
    /// there is one slot for each cell;
    /// the slots are well formed over the list of subchunks: none refers
    /// past its end, no two refer to the same subchunk, and every subchunk is
    /// referred to;
    /// every subchunk is well formed and has a brick;
    /// the mask has one sample for each cell with even coordinates, which
    /// says whether that cell has a subchunk.
    pub open spec fn wf(self, top: int, low: int) -> bool {
        &&& self.slots.len() == cube(top)
        &&& slots_wf(self.slots, SUBCHUNK_SHIFT, self.subchunks.len() as int)
        &&& forall|k: int|
            0 <= k < self.subchunks.len() ==> (#[trigger] self.subchunks[k]).wf(low)
                && self.subchunks[k].bricks.len() > 0
        &&& self.mask.len() == cube(mask_dim(top))
        &&& forall|m: int|
            0 <= m < self.mask.len() ==> #[trigger] self.mask[m] == self.slots[sampled_cell(
                top,
                m,
            )].spec_present()
    }
}

/// The sample at an in-range position of the mask is taken at an in-range
/// cell with even coordinates, which that sample covers.
pub proof fn lemma_sampled_cell(top: int, m: int)
    requires
        1 <= top,
        0 <= m < cube(mask_dim(top)),
    ensures
        0 <= sampled_cell(top, m) < cube(top),
        digit0(top, sampled_cell(top, m)) == 2 * digit0(mask_dim(top), m),
        digit1(top, sampled_cell(top, m)) == 2 * digit1(mask_dim(top), m),
        digit2(top, sampled_cell(top, m)) == 2 * digit2(mask_dim(top), m),
        mask_index(
            top,
            digit0(top, sampled_cell(top, m)),
            digit1(top, sampled_cell(top, m)),
            digit2(top, sampled_cell(top, m)),
        ) == m,
{
    let md = mask_dim(top);
    lemma_index_cell(md, m);
    lemma_cell_index(top, 2 * digit0(md, m), 2 * digit1(md, m), 2 * digit2(md, m));
}

/// A grid of `top_dim` cells along each axis, each cell either empty or
/// referring to one subchunk of the list.
pub struct Superchunk {
    config: VolumeConfig,
    subchunk_indices: Vec<SlotRef>,
    subchunks: Vec<Subchunk>,
    subregion: SubregionOccupancyMask,
}

impl View for Superchunk {
    type V = SuperchunkView;

    closed spec fn view(&self) -> SuperchunkView {
        SuperchunkView {
            slots: self.subchunk_indices@,
            subchunks: Seq::new(self.subchunks@.len(), |k: int| self.subchunks@[k]@),
            mask: self.subregion@,
        }
    }
}

impl Superchunk {
    /// The dimensions of the volume.
    pub closed spec fn spec_config(&self) -> VolumeConfig {
        self.config
    }

    /// The invariant of the view holds, and every subchunk of the list is a
    /// well-formed subchunk of the configured side.
    pub closed spec fn wf(&self) -> bool {
        &&& self.config.wf()
        &&& self@.wf(self.config.spec_top_dim(), self.config.spec_low_dim())
        &&& self.subregion.wf()
        &&& self.subregion.spec_top_dim() == self.config.spec_top_dim()
        &&& forall|k: int|
            0 <= k < self.subchunks@.len() ==> (#[trigger] self.subchunks@[k]).wf()
                && self.subchunks@[k].spec_low_dim() == self.config.spec_low_dim()
    }

    /// The subchunks of the list, in the order in which they were added.
    pub closed spec fn spec_subchunks(&self) -> Seq<Subchunk> {
        self.subchunks@
    }

    /// The coarse mask over the grid.
    pub closed spec fn spec_subregion(&self) -> SubregionOccupancyMask {
        self.subregion
    }

    /// Whether the voxel `(x, y, z)` is occupied: whether its subchunk and
    /// its brick are there, and its bit in the brick is on.
    pub open spec fn spec_query(&self, x: int, y: int, z: int) -> bool {
        self@.occupied(
            super_index(self.spec_config().spec_top_dim(), self.spec_config().spec_low_dim(), x, y, z),
            chunk_index(self.spec_config().spec_low_dim(), x, y, z),
            local_index(self.spec_config().spec_low_dim(), x, y, z),
        )
    }

    /// How many of the first `n` voxels are occupied, when the voxels are
    /// counted with `x` varying fastest and `z` slowest.
    pub open spec fn spec_count_upto(&self, n: int) -> int
        decreases n,
    {
        if n <= 0 {
            0
        } else {
            let res = self.spec_config().spec_resolution();
            self.spec_count_upto(n - 1) + if self.spec_query(
                digit0(res, n - 1),
                digit1(res, n - 1),
                digit2(res, n - 1),
            ) {
                1int
            } else {
                0int
            }
        }
    }

    /// How many voxels of the volume are occupied.
    pub open spec fn spec_count(&self) -> int {
        self.spec_count_upto(cube(self.spec_config().spec_resolution()))
    }

    /// A well-formed volume has well-formed dimensions and a well-formed view.
    pub proof fn lemma_view_wf(&self)
        requires
            self.wf(),
        ensures
            self.spec_config().wf(),
            self@.wf(self.spec_config().spec_top_dim(), self.spec_config().spec_low_dim()),
    {
    }

    /// The subchunks of a well-formed volume are well-formed subchunks of
    /// its side, and the view holds what each of them holds; the mask is a
    /// well-formed mask of its grid, and the view holds its samples.
    pub proof fn lemma_parts(&self)
        requires
            self.wf(),
        ensures
            self.spec_subchunks().len() == self@.subchunks.len(),
            forall|k: int|
                0 <= k < self.spec_subchunks().len() ==> {
                    &&& (#[trigger] self.spec_subchunks()[k]).wf()
                    &&& self.spec_subchunks()[k].spec_low_dim()
                        == self.spec_config().spec_low_dim()
                    &&& self.spec_subchunks()[k]@ == self@.subchunks[k]
                },
            self.spec_subregion().wf(),
            self.spec_subregion().spec_top_dim() == self.spec_config().spec_top_dim(),
            self.spec_subregion()@ == self@.mask,
    {
    }

    /// A volume in which no cell has a subchunk.
    pub fn new(config: &VolumeConfig) -> (r: Superchunk)
        requires
            config.wf(),
        ensures
            r.wf(),
            r.spec_config() == *config,
            r@.slots == Seq::new(cube(config.spec_top_dim()) as nat, |s: int| SlotRef::spec_empty()),
            r@.subchunks == Seq::<SubchunkView>::empty(),
            r@.mask == Seq::new(cube(mask_dim(config.spec_top_dim())) as nat, |m: int| false),
    {
        let n: usize = config.grid_volume();
        let r = Superchunk {
            config: *config,
            subchunk_indices: vec![SlotRef::empty(); n],
            subchunks: Vec::new(),
            subregion: SubregionOccupancyMask::new(config),
        };
        proof {
            lemma_decode_zero(SUBCHUNK_SHIFT);
            assert(r@.slots =~= Seq::new(
                cube(config.spec_top_dim()) as nat,
                |s: int| SlotRef::spec_empty(),
            ));
            assert(r@.subchunks =~= Seq::<SubchunkView>::empty());
            lemma_slots_wf_empty(r@.slots, SUBCHUNK_SHIFT);
            assert forall|m: int| 0 <= m < r@.mask.len() implies #[trigger] r@.mask[m]
                == r@.slots[sampled_cell(config.spec_top_dim(), m)].spec_present() by {
                lemma_sampled_cell(config.spec_top_dim(), m);
            }
        }
        r
    }

    /// The dimensions of the volume.
    pub fn config(&self) -> (r: VolumeConfig)
        ensures
            r == self.spec_config(),
    {
        self.config
    }

    /// The number of subchunks in the list.
    pub fn subchunk_count(&self) -> (r: usize)
        ensures
            r == self@.subchunks.len(),
    {
        self.subchunks.len()
    }

    /// The slots of the cells, by linear index.
    pub fn subchunk_indices(&self) -> (r: &Vec<SlotRef>)
        ensures
            r@ == self@.slots,
    {
        &self.subchunk_indices
    }

    /// The subchunks of the list, in the order in which they were added.
    pub fn subchunks(&self) -> (r: &Vec<Subchunk>)
        ensures
            r@ == self.spec_subchunks(),
    {
        &self.subchunks
    }

    /// The coarse mask over the grid.
    pub fn subregion(&self) -> (r: &SubregionOccupancyMask)
        ensures
            *r == self.spec_subregion(),
    {
        &self.subregion
    }

    /// Appends `subchunk` to the list and makes the slot of the cell `coord`
    /// refer to it: the slot holds the length that the list had before, which
    /// is also returned. If the coordinates of the cell are all even, its
    /// sample in the mask is marked.
    pub fn add_subchunk(&mut self, coord: Vec3, subchunk: Subchunk) -> (index: u32)
        requires
            old(self).wf(),
            coord.within(old(self).spec_config().spec_top_dim()),
            !old(self)@.slots[coord.spec_linear(
                old(self).spec_config().spec_top_dim(),
            )].spec_present(),
            subchunk.wf(),
            subchunk.spec_low_dim() == old(self).spec_config().spec_low_dim(),
            !subchunk.spec_is_empty(),
        ensures
            final(self).wf(),
            final(self).spec_config() == old(self).spec_config(),
            index == old(self)@.subchunks.len(),
            final(self)@.slots == old(self)@.slots.update(
                coord.spec_linear(old(self).spec_config().spec_top_dim()),
                SlotRef::spec_encode(index, true, SUBCHUNK_SHIFT),
            ),
            final(self)@.subchunks == old(self)@.subchunks.push(subchunk@),
            final(self)@.mask == if coord.spec_is_even() {
                old(self)@.mask.update(
                    mask_index(
                        old(self).spec_config().spec_top_dim(),
                        coord.x as int,
                        coord.y as int,
                        coord.z as int,
                    ),
                    true,
                )
            } else {
                old(self)@.mask
            },
    {
        let top: u32 = self.config.top_dim();
        proof {
            lemma_valid_dims(top as int);
        }
        let s: usize = coord.linear(top);
        let k: usize = self.subchunks.len();
        proof {
            lemma_index_fits_bounds((cube(top as int) - 1) as u32);
            lemma_slots_wf_add(old(self)@.slots, SUBCHUNK_SHIFT, k as int, s as int);
            lemma_decode_encode(k as u32, SUBCHUNK_SHIFT);
            subchunk.lemma_view_wf();
        }
        let index: u32 = k as u32;
        let slot: SlotRef = SlotRef::encode(index, true, SUBCHUNK_SHIFT).unwrap();
        self.subchunk_indices[s] = slot;
        self.subchunks.push(subchunk);
        if coord.is_even() {
            self.subregion.mark(coord);
        }
        proof {
            let before = old(self)@;
            let after = self@;
            let t = top as int;
            let low = self.config.spec_low_dim();
            let mi = mask_index(t, coord.x as int, coord.y as int, coord.z as int);
            lemma_cell_index(t, coord.x as int, coord.y as int, coord.z as int);
            assert(after.slots =~= before.slots.update(s as int, slot));
            assert(after.subchunks =~= before.subchunks.push(subchunk@));
            SubregionOccupancyMask::lemma_mask_index(
                t,
                coord.x as int,
                coord.y as int,
                coord.z as int,
            );
            assert forall|j: int| 0 <= j < after.subchunks.len() implies (
            #[trigger] after.subchunks[j]).wf(low) && after.subchunks[j].bricks.len() > 0 by {
                if j < k {
                    assert(before.subchunks[j] == after.subchunks[j]);
                }
            }
            assert forall|m: int| 0 <= m < after.mask.len() implies #[trigger] after.mask[m]
                == after.slots[sampled_cell(t, m)].spec_present() by {
                lemma_sampled_cell(t, m);
                assert(before.mask[m] == before.slots[sampled_cell(t, m)].spec_present());
                if sampled_cell(t, m) == s {
                    assert(coord.spec_is_even());
                    assert(m == mi);
                } else {
                    if coord.spec_is_even() && m == mi {
                        lemma_cell_index(
                            mask_dim(t),
                            coord.x as int / 2,
                            coord.y as int / 2,
                            coord.z as int / 2,
                        );
                    }
                }
            }
        }
        index
    }

    /// The subchunk of the cell `coord`, if the cell has one.
    pub fn lookup(&self, coord: Vec3) -> (r: Option<&Subchunk>)
        requires
            self.wf(),
            coord.within(self.spec_config().spec_top_dim()),
        ensures
            match r {
                Some(sub) => {
                    &&& sub.wf()
                    &&& sub.spec_low_dim() == self.spec_config().spec_low_dim()
                    &&& self@.subchunk_at(coord.spec_linear(self.spec_config().spec_top_dim()))
                        == Some(sub@)
                },
                None => self@.subchunk_at(
                    coord.spec_linear(self.spec_config().spec_top_dim()),
                ).is_none(),
            },
    {
        let top: u32 = self.config.top_dim();
        proof {
            lemma_valid_dims(top as int);
        }
        let s: usize = coord.linear(top);
        let slot: SlotRef = self.subchunk_indices[s];
        if slot.present() {
            let k: usize = slot.index(SUBCHUNK_SHIFT) as usize;
            Some(&self.subchunks[k])
        } else {
            None
        }
    }

    /// How many voxels of the volume are occupied.
    #[verifier::loop_isolation(false)]
    pub fn count_occupied(&self) -> (r: u32)
        requires
            self.wf(),
        ensures
            r == self.spec_count(),
    {
        let res: u32 = self.config.resolution();
        let ghost d = res as int;
        let mut count: u32 = 0;
        proof {
            lemma_cube_monotone(d, 720);
            assert(cube(720) == 373248000) by (nonlinear_arith);
            lemma_step3_carry(d, 0, 0);
        }
        for z in 0..res
            invariant
                count == self.spec_count_upto(lin3(d, 0, 0, z as int)),
                count <= lin3(d, 0, 0, z as int),
        {
            for y in 0..res
                invariant
                    count == self.spec_count_upto(lin3(d, 0, y as int, z as int)),
                    count <= lin3(d, 0, y as int, z as int),
            {
                for x in 0..res
                    invariant
                        count == self.spec_count_upto(lin3(d, x as int, y as int, z as int)),
                        count <= lin3(d, x as int, y as int, z as int),
                {
                    proof {
                        lemma_lin3_digits(d, x as int, y as int, z as int);
                        assert(lin3(d, x as int, y as int, z as int) == step3(
                            d,
                            z as int,
                            y as int,
                            x as int,
                        ));
                        assert((z + 1) * (d * d) <= d * (d * d) && d * (d * d) == cube(d))
                            by (nonlinear_arith)
                            requires
                                0 <= z < d,
                        ;
                    }
                    if self.query(Vec3::new(x, y, z)) {
                        count = count + 1;
                    }
                }
                proof {
                    lemma_step3_carry(d, z as int, y as int);
                }
            }
            proof {
                lemma_step3_carry(d, z as int, 0);
            }
        }
        proof {
            lemma_step3_carry(d, 0, 0);
        }
        count
    }

    /// Whether the voxel `v` is occupied.
    pub fn query(&self, v: Vec3) -> (r: bool)
        requires
            self.wf(),
            v.within(self.spec_config().spec_resolution()),
        ensures
            r == self.spec_query(v.x as int, v.y as int, v.z as int),
    {
        let (sup, chunk, local) = self.config.split(v);
        match self.lookup(sup) {
            None => false,
            Some(sub) => match sub.lookup(chunk) {
                None => false,
                Some(brick) => {
                    proof {
                        lemma_valid_dims(self.config.spec_low_dim());
                    }
                    let l: usize = local.linear(self.config.low_dim());
                    brick.is_set(l)
                },
            },
        }
    }
}

} // verus!
