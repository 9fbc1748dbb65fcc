//! What a volume holds when it is built from a table of heights: a voxel is
//! solid exactly if it lies below the height of its column.

use vstd::prelude::*;
use crate::config::{lemma_valid_dims, valid_low_dim, valid_top_dim};
use crate::coord::{
    chunk_index, lemma_cell_index, lemma_voxel_split, local_index, super_index, voxel_x, voxel_y,
    voxel_z,
};
use crate::grid::{cube, lemma_visit_step3, lemma_visit_visit, lin3, step3, visit};
use crate::mask::{mask_dim, mask_index};
use crate::slot::{BRICK_SHIFT, SUBCHUNK_SHIFT, lemma_index_fits_bounds};
use crate::sparse::{kept, lemma_kept_index, lemma_walk_lookup, slots_upto};
use crate::subchunk::{SubchunkView, some_voxel};
use crate::superchunk::{SuperchunkView, lemma_sampled_cell, sampled_cell};

verus! {

/// The dimensions of a volume and the heights of its columns, as plain values.
pub ghost struct Terrain {
    /// Subchunks along each axis of the volume.
    pub top: int,
    /// Bricks along each axis of a subchunk, and voxels along each axis of a brick.
    pub low: int,
    /// The height of column `(x, y)`, at `x + y * resolution`.
    pub heights: Seq<u32>,
}

impl Terrain {
    /// Voxels along each axis of the volume.
    pub open spec fn resolution(self) -> int {
        self.top * (self.low * self.low)
    }

    /// The dimensions are valid and there is one height for each column.
    pub open spec fn wf(self) -> bool {
        &&& valid_top_dim(self.top)
        &&& valid_low_dim(self.low)
        &&& self.heights.len() == self.resolution() * self.resolution()
    }

    /// The height of column `(x, y)`.
    pub open spec fn height(self, x: int, y: int) -> int {
        self.heights[x + y * self.resolution()] as int
    }

    /// Whether the voxel `(x, y, z)` is solid.
    pub open spec fn solid(self, x: int, y: int, z: int) -> bool {
        z < self.height(x, y)
    }

    /// Whether voxel `l` of brick `c` of subchunk `s` is solid.
    pub open spec fn voxel(self, s: int, c: int, l: int) -> bool {
        self.solid(
            voxel_x(self.top, self.low, s, c, l),
            voxel_y(self.top, self.low, s, c, l),
            voxel_z(self.top, self.low, s, c, l),
        )
    }

    /// The occupancy of brick `c` of subchunk `s` after the first `n` steps
    /// of the walk over its voxels.
    pub open spec fn brick_upto(self, s: int, c: int, n: int) -> Seq<bool> {
        Seq::new(cube(self.low) as nat, |l: int| visit(self.low, l) < n && self.voxel(s, c, l))
    }

    /// The occupancy of brick `c` of subchunk `s`.
    pub open spec fn brick(self, s: int, c: int) -> Seq<bool> {
        Seq::new(cube(self.low) as nat, |l: int| self.voxel(s, c, l))
    }

    /// Which bricks of subchunk `s` are listed: those with a solid voxel.
    pub open spec fn keep_brick(self, s: int) -> spec_fn(int) -> bool {
        |c: int| some_voxel(self.brick(s, c))
    }

    /// What is listed for a brick of subchunk `s`: its occupancy.
    pub open spec fn item_brick(self, s: int) -> spec_fn(int) -> Seq<bool> {
        |c: int| self.brick(s, c)
    }

    /// What subchunk `s` holds after the first `n` steps of the walk over its
    /// bricks.
    pub open spec fn subchunk_upto(self, s: int, n: int) -> SubchunkView {
        SubchunkView {
            slots: slots_upto(self.low, self.keep_brick(s), BRICK_SHIFT, n),
            bricks: kept(self.low, self.keep_brick(s), self.item_brick(s), n),
        }
    }

    /// What subchunk `s` holds: the bricks with a solid voxel, in walking
    /// order, and for each of them a slot with its position.
    pub open spec fn subchunk(self, s: int) -> SubchunkView {
        self.subchunk_upto(s, cube(self.low))
    }

    /// Which subchunks are listed: those with a brick.
    pub open spec fn keep_subchunk(self) -> spec_fn(int) -> bool {
        |s: int| self.subchunk(s).bricks.len() > 0
    }

    /// What is listed for a subchunk: what it holds.
    pub open spec fn item_subchunk(self) -> spec_fn(int) -> SubchunkView {
        |s: int| self.subchunk(s)
    }

    /// What the volume holds after the first `n` steps of the walk over its
    /// subchunks.
    pub open spec fn volume_upto(self, n: int) -> SuperchunkView {
        SuperchunkView {
            slots: slots_upto(self.top, self.keep_subchunk(), SUBCHUNK_SHIFT, n),
            subchunks: kept(self.top, self.keep_subchunk(), self.item_subchunk(), n),
            mask: Seq::new(
                cube(mask_dim(self.top)) as nat,
                |m: int|
                    visit(self.top, sampled_cell(self.top, m)) < n && (self.keep_subchunk())(
                        sampled_cell(self.top, m),
                    ),
            ),
        }
    }

    /// What the volume holds: the subchunks with a brick, in walking order,
    /// for each of them a slot with its position, and for each sampled cell
    /// of the grid whether it has a subchunk.
    pub open spec fn volume(self) -> SuperchunkView {
        self.volume_upto(cube(self.top))
    }

    /// Whether the voxel `(x, y, z)` is occupied in what the volume holds.
    pub open spec fn occupied(self, x: int, y: int, z: int) -> bool {
        self.volume().occupied(
            super_index(self.top, self.low, x, y, z),
            chunk_index(self.low, x, y, z),
            local_index(self.low, x, y, z),
        )
    }
}

/// Before the walk over its voxels a brick is empty, and after it the brick
/// holds the solidity of each voxel.
pub proof fn lemma_brick_ends(t: Terrain, s: int, c: int)
    requires
        t.wf(),
    ensures
        t.brick_upto(s, c, 0) == Seq::new(cube(t.low) as nat, |l: int| false),
        t.brick_upto(s, c, cube(t.low)) == t.brick(s, c),
{
    assert forall|l: int| 0 <= l < cube(t.low) implies 0 <= #[trigger] visit(t.low, l) < cube(
        t.low,
    ) by {
        lemma_visit_visit(t.low, l);
    }
    assert(t.brick_upto(s, c, 0) =~= Seq::new(cube(t.low) as nat, |l: int| false));
    assert(t.brick_upto(s, c, cube(t.low)) =~= t.brick(s, c));
}

/// What one step of the walk over the voxels of a brick does: the voxel at
/// `(x, y, z)` is marked if it is solid.
pub proof fn lemma_brick_step(t: Terrain, s: int, c: int, x: int, y: int, z: int)
    requires
        t.wf(),
        0 <= x < t.low,
        0 <= y < t.low,
        0 <= z < t.low,
    ensures
        0 <= lin3(t.low, x, y, z) < cube(t.low),
        t.voxel(s, c, lin3(t.low, x, y, z)) ==> t.brick_upto(s, c, step3(t.low, x, y, z) + 1)
            == t.brick_upto(s, c, step3(t.low, x, y, z)).update(lin3(t.low, x, y, z), true),
        !t.voxel(s, c, lin3(t.low, x, y, z)) ==> t.brick_upto(s, c, step3(t.low, x, y, z) + 1)
            == t.brick_upto(s, c, step3(t.low, x, y, z)),
{
    let l0 = lin3(t.low, x, y, z);
    let r = step3(t.low, x, y, z);
    lemma_visit_step3(t.low, x, y, z);
    let before = t.brick_upto(s, c, r);
    let after = t.brick_upto(s, c, r + 1);
    assert forall|l: int| 0 <= l < cube(t.low) && l != l0 implies before[l] == after[l] by {
        lemma_visit_visit(t.low, l);
    }
    if t.voxel(s, c, l0) {
        assert(after =~= before.update(l0, true));
    } else {
        assert(after =~= before);
    }
}

/// Voxel `(x, y, z)` of the brick at `(cx, cy, cz)` of the subchunk at
/// `(sx, sy, sz)` is solid exactly if its height above the ground of the
/// volume is below the height of its column.
pub proof fn lemma_voxel_solid(
    t: Terrain,
    sx: int,
    sy: int,
    sz: int,
    cx: int,
    cy: int,
    cz: int,
    x: int,
    y: int,
    z: int,
)
    requires
        t.wf(),
        0 <= sx < t.top,
        0 <= sy < t.top,
        0 <= sz < t.top,
        0 <= cx < t.low,
        0 <= cy < t.low,
        0 <= cz < t.low,
        0 <= x < t.low,
        0 <= y < t.low,
        0 <= z < t.low,
    ensures
        t.voxel(lin3(t.top, sx, sy, sz), lin3(t.low, cx, cy, cz), lin3(t.low, x, y, z)) == (lin3(
            t.low,
            z,
            cz,
            sz,
        ) < t.height(lin3(t.low, x, cx, sx), lin3(t.low, y, cy, sy))),
{
    lemma_cell_index(t.top, sx, sy, sz);
    lemma_cell_index(t.low, cx, cy, cz);
    lemma_cell_index(t.low, x, y, z);
}

/// Before the walk over the subchunks no sample of the mask is marked.
pub proof fn lemma_mask_start(t: Terrain)
    requires
        t.wf(),
    ensures
        t.volume_upto(0).mask == Seq::new(cube(mask_dim(t.top)) as nat, |m: int| false),
{
    assert forall|m: int| 0 <= m < cube(mask_dim(t.top)) implies 0 <= #[trigger] visit(
        t.top,
        sampled_cell(t.top, m),
    ) by {
        lemma_sampled_cell(t.top, m);
        lemma_visit_visit(t.top, sampled_cell(t.top, m));
    }
    assert(t.volume_upto(0).mask =~= Seq::new(cube(mask_dim(t.top)) as nat, |m: int| false));
}

/// What one step of the walk over the subchunks does to the mask: the sample
/// of the cell `(x, y, z)` is marked if the cell has a subchunk and its
/// coordinates are all even.
pub proof fn lemma_mask_step(t: Terrain, x: int, y: int, z: int)
    requires
        t.wf(),
        0 <= x < t.top,
        0 <= y < t.top,
        0 <= z < t.top,
    ensures
        0 <= mask_index(t.top, x, y, z) < cube(mask_dim(t.top)),
        t.volume_upto(step3(t.top, x, y, z) + 1).mask == if (t.keep_subchunk())(
            lin3(t.top, x, y, z),
        ) && x % 2 == 0 && y % 2 == 0 && z % 2 == 0 {
            t.volume_upto(step3(t.top, x, y, z)).mask.update(mask_index(t.top, x, y, z), true)
        } else {
            t.volume_upto(step3(t.top, x, y, z)).mask
        },
{
    let n = step3(t.top, x, y, z);
    let i = lin3(t.top, x, y, z);
    let md = mask_dim(t.top);
    let mi = mask_index(t.top, x, y, z);
    let before = t.volume_upto(n).mask;
    let after = t.volume_upto(n + 1).mask;
    lemma_visit_step3(t.top, x, y, z);
    lemma_cell_index(t.top, x, y, z);
    lemma_cell_index(md, x / 2, y / 2, z / 2);
    assert forall|m: int| 0 <= m < cube(md) implies #[trigger] after[m] == (before[m] || (
    sampled_cell(t.top, m) == i && (t.keep_subchunk())(i))) by {
        lemma_sampled_cell(t.top, m);
        lemma_visit_visit(t.top, sampled_cell(t.top, m));
    }
    assert forall|m: int| 0 <= m < cube(md) && sampled_cell(t.top, m) == i implies m == mi && x
        % 2 == 0 && y % 2 == 0 && z % 2 == 0 by {
        lemma_sampled_cell(t.top, m);
    }
    if x % 2 == 0 && y % 2 == 0 && z % 2 == 0 {
        assert(sampled_cell(t.top, mi) == i);
    }
    if (t.keep_subchunk())(i) && x % 2 == 0 && y % 2 == 0 && z % 2 == 0 {
        assert(after =~= before.update(mi, true));
    } else {
        assert(after =~= before);
    }
}

/// In what a terrain's volume holds, a voxel is occupied exactly if it lies
/// below the height of its column.
pub proof fn lemma_occupied_iff_solid(t: Terrain, x: int, y: int, z: int)
    requires
        t.wf(),
        0 <= x < t.resolution(),
        0 <= y < t.resolution(),
        0 <= z < t.resolution(),
    ensures
        t.occupied(x, y, z) == t.solid(x, y, z),
{
    let s = super_index(t.top, t.low, x, y, z);
    let c = chunk_index(t.low, x, y, z);
    let l = local_index(t.low, x, y, z);
    lemma_valid_dims(t.top);
    lemma_valid_dims(t.low);
    lemma_voxel_split(t.top, t.low, x, y, z);
    lemma_index_fits_bounds((cube(t.top) - 1) as u32);
    lemma_index_fits_bounds((cube(t.low) - 1) as u32);
    assert(t.voxel(s, c, l) == t.solid(x, y, z));
    assert(t.brick(s, c)[l] == t.voxel(s, c, l));
    let keep_s = t.keep_subchunk();
    let item_s = t.item_subchunk();
    let keep_b = t.keep_brick(s);
    let item_b = t.item_brick(s);
    lemma_walk_lookup(t.top, keep_s, item_s, SUBCHUNK_SHIFT, s);
    lemma_walk_lookup(t.low, keep_b, item_b, BRICK_SHIFT, c);
    lemma_visit_visit(t.low, c);
    if keep_b(c) {
        lemma_kept_index(t.low, keep_b, item_b, cube(t.low), c);
        assert(keep_s(s));
        assert(t.volume().subchunk_at(s) == Some(t.subchunk(s)));
        assert(t.subchunk(s).brick_at(c) == Some(t.brick(s, c)));
    } else {
        assert(!t.brick(s, c)[l]);
        if keep_s(s) {
            assert(t.volume().subchunk_at(s) == Some(t.subchunk(s)));
            assert(t.subchunk(s).brick_at(c).is_none());
        }
    }
}

} // verus!
