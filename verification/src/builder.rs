//! Building a volume from a table of column heights.

use vstd::prelude::*;
use crate::brick::Brick;
use crate::config::{VolumeConfig, lemma_valid_dims};
use crate::coord::{Vec3, brick_height};
use crate::grid::{lemma_step3_carry, lemma_visit_step3, step3};
use crate::height::HeightField;
use crate::slot::{BRICK_SHIFT, SUBCHUNK_SHIFT};
use crate::sparse::{lemma_walk_start, lemma_walk_step};
use crate::subchunk::{Subchunk, some_voxel};
use crate::superchunk::Superchunk;
use crate::terrain::{
    Terrain, lemma_brick_ends, lemma_brick_step, lemma_mask_start, lemma_mask_step,
    lemma_occupied_iff_solid, lemma_voxel_solid,
};

verus! {

/// Builds the volume of a terrain: the dimensions of the volume, and a table
/// with the height of each of its columns.
pub struct VolumeBuilder {
    config: VolumeConfig,
    heights: HeightField,
}

impl VolumeBuilder {
    /// The dimensions and the heights, as plain values.
    pub closed spec fn spec_terrain(&self) -> Terrain {
        Terrain {
            top: self.config.spec_top_dim(),
            low: self.config.spec_low_dim(),
            heights: self.heights@,
        }
    }

    /// The dimensions of the volume.
    pub closed spec fn spec_config(&self) -> VolumeConfig {
        self.config
    }

    /// The dimensions are valid, and the table has one height for each
    /// column of the volume.
    pub closed spec fn wf(&self) -> bool {
        &&& self.config.wf()
        &&& self.heights.wf()
        &&& self.heights.spec_dim() == self.config.spec_resolution()
    }

    /// A well-formed builder has a well-formed terrain, of the dimensions of
    /// its configuration.
    pub proof fn lemma_terrain_wf(&self)
        requires
            self.wf(),
        ensures
            self.spec_terrain().wf(),
            self.spec_config().wf(),
            self.spec_terrain().top == self.spec_config().spec_top_dim(),
            self.spec_terrain().low == self.spec_config().spec_low_dim(),
    {
        self.heights.lemma_view_len();
    }

    /// A builder for the given dimensions and heights, if the table has as
    /// many columns along each axis as the volume has voxels.
    pub fn new(config: VolumeConfig, heights: HeightField) -> (r: Option<VolumeBuilder>)
        requires
            config.wf(),
            heights.wf(),
        ensures
            r.is_some() <==> heights.spec_dim() == config.spec_resolution(),
            r matches Some(b) ==> b.wf() && b.spec_config() == config && b.spec_terrain() == (
            Terrain {
                top: config.spec_top_dim(),
                low: config.spec_low_dim(),
                heights: heights@,
            }),
    {
        if heights.dim() == config.resolution() {
            Some(VolumeBuilder { config, heights })
        } else {
            None
        }
    }

    /// The brick at the cell `chunk` of the subchunk at the cell `sup`: a
    /// voxel is occupied exactly if it is solid.
    #[verifier::loop_isolation(false)]
    pub fn generate_brick(&self, sup: Vec3, chunk: Vec3) -> (brick: Brick)
        requires
            self.wf(),
            sup.within(self.spec_terrain().top),
            chunk.within(self.spec_terrain().low),
        ensures
            brick.wf(),
            brick.spec_low_dim() == self.spec_terrain().low,
            brick@ == self.spec_terrain().brick(
                sup.spec_linear(self.spec_terrain().top),
                chunk.spec_linear(self.spec_terrain().low),
            ),
    {
        let low: u32 = self.config.low_dim();
        let ghost t = self.spec_terrain();
        let ghost s = sup.spec_linear(t.top);
        let ghost c = chunk.spec_linear(t.low);
        let mut brick = Brick::new(&self.config);
        proof {
            self.lemma_terrain_wf();
            lemma_valid_dims(t.low);
            lemma_brick_ends(t, s, c);
            lemma_step3_carry(t.low, 0, 0);
        }
        for x in 0..low
            invariant
                brick.wf(),
                brick.spec_low_dim() == t.low,
                brick@ == t.brick_upto(s, c, step3(t.low, x as int, 0, 0)),
        {
            for y in 0..low
                invariant
                    brick.wf(),
                    brick.spec_low_dim() == t.low,
                    brick@ == t.brick_upto(s, c, step3(t.low, x as int, y as int, 0)),
            {
                let column: usize = brick_height(
                    &self.config,
                    sup.x,
                    sup.y,
                    chunk.x,
                    chunk.y,
                    x,
                    y,
                );
                let height: u32 = self.heights.sample(column);
                for z in 0..low
                    invariant
                        brick.wf(),
                        brick.spec_low_dim() == t.low,
                        brick@ == t.brick_upto(s, c, step3(t.low, x as int, y as int, z as int)),
                {
                    let level: u32 = self.config.join_axis(sup.z, chunk.z, z);
                    proof {
                        lemma_voxel_solid(
                            t,
                            sup.x as int,
                            sup.y as int,
                            sup.z as int,
                            chunk.x as int,
                            chunk.y as int,
                            chunk.z as int,
                            x as int,
                            y as int,
                            z as int,
                        );
                        lemma_brick_step(t, s, c, x as int, y as int, z as int);
                    }
                    if level < height {
                        let local: usize = Vec3::new(x, y, z).linear(low);
                        brick.set(local);
                    }
                }
                proof {
                    lemma_step3_carry(t.low, x as int, y as int);
                }
            }
            proof {
                lemma_step3_carry(t.low, x as int, 0);
            }
        }
        proof {
            lemma_step3_carry(t.low, 0, 0);
        }
        brick
    }

    /// The subchunk at the cell `sup`: its bricks are walked with `x` in the
    /// outermost loop and `z` in the innermost, and a brick is listed exactly
    /// if it has a solid voxel.
    #[verifier::loop_isolation(false)]
    pub fn generate_sub_chunk(&self, sup: Vec3) -> (sub: Subchunk)
        requires
            self.wf(),
            sup.within(self.spec_terrain().top),
        ensures
            sub.wf(),
            sub.spec_low_dim() == self.spec_terrain().low,
            sub@ == self.spec_terrain().subchunk(sup.spec_linear(self.spec_terrain().top)),
    {
        let low: u32 = self.config.low_dim();
        let ghost t = self.spec_terrain();
        let ghost s = sup.spec_linear(t.top);
        let ghost keep = t.keep_brick(s);
        let ghost item = t.item_brick(s);
        let mut sub = Subchunk::new(&self.config);
        proof {
            self.lemma_terrain_wf();
            lemma_valid_dims(t.low);
            lemma_walk_start(t.low, keep, item, BRICK_SHIFT);
            lemma_step3_carry(t.low, 0, 0);
        }
        for cx in 0..low
            invariant
                sub.wf(),
                sub.spec_low_dim() == t.low,
                sub@ == t.subchunk_upto(s, step3(t.low, cx as int, 0, 0)),
        {
            for cy in 0..low
                invariant
                    sub.wf(),
                    sub.spec_low_dim() == t.low,
                    sub@ == t.subchunk_upto(s, step3(t.low, cx as int, cy as int, 0)),
            {
                for cz in 0..low
                    invariant
                        sub.wf(),
                        sub.spec_low_dim() == t.low,
                        sub@ == t.subchunk_upto(s, step3(t.low, cx as int, cy as int, cz as int)),
                {
                    let chunk = Vec3::new(cx, cy, cz);
                    let brick = self.generate_brick(sup, chunk);
                    proof {
                        let n = step3(t.low, cx as int, cy as int, cz as int);
                        lemma_visit_step3(t.low, cx as int, cy as int, cz as int);
                        lemma_walk_step(t.low, keep, item, BRICK_SHIFT, n);
                        brick.lemma_view_len();
                        assert(keep(chunk.spec_linear(t.low)) == some_voxel(brick@));
                        assert(item(chunk.spec_linear(t.low)) == brick@);
                    }
                    if !brick.is_empty() {
                        sub.add_brick(chunk, brick);
                    }
                }
                proof {
                    lemma_step3_carry(t.low, cx as int, cy as int);
                }
            }
            proof {
                lemma_step3_carry(t.low, cx as int, 0);
            }
        }
        proof {
            lemma_step3_carry(t.low, 0, 0);
        }
        sub
    }

    /// The volume of the terrain: its subchunks are walked with `x` in the
    /// outermost loop and `z` in the innermost, and a subchunk is listed
    /// exactly if it has a brick.
    #[verifier::loop_isolation(false)]
    pub fn generate(&self) -> (volume: Superchunk)
        requires
            self.wf(),
        ensures
            volume.wf(),
            volume.spec_config() == self.spec_config(),
            volume@ == self.spec_terrain().volume(),
            forall|x: int, y: int, z: int|
                0 <= x < self.spec_terrain().resolution() && 0 <= y
                    < self.spec_terrain().resolution() && 0 <= z
                    < self.spec_terrain().resolution() ==> #[trigger] volume.spec_query(x, y, z)
                    == self.spec_terrain().solid(x, y, z),
    {
        let top: u32 = self.config.top_dim();
        let ghost t = self.spec_terrain();
        let ghost keep = t.keep_subchunk();
        let ghost item = t.item_subchunk();
        let mut volume = Superchunk::new(&self.config);
        proof {
            self.lemma_terrain_wf();
            lemma_valid_dims(t.top);
            lemma_walk_start(t.top, keep, item, SUBCHUNK_SHIFT);
            lemma_mask_start(t);
            lemma_step3_carry(t.top, 0, 0);
        }
        for sx in 0..top
            invariant
                volume.wf(),
                volume.spec_config() == self.spec_config(),
                volume@ == t.volume_upto(step3(t.top, sx as int, 0, 0)),
        {
            for sy in 0..top
                invariant
                    volume.wf(),
                    volume.spec_config() == self.spec_config(),
                    volume@ == t.volume_upto(step3(t.top, sx as int, sy as int, 0)),
            {
                for sz in 0..top
                    invariant
                        volume.wf(),
                        volume.spec_config() == self.spec_config(),
                        volume@ == t.volume_upto(step3(t.top, sx as int, sy as int, sz as int)),
                {
                    let sup = Vec3::new(sx, sy, sz);
                    let sub = self.generate_sub_chunk(sup);
                    proof {
                        let n = step3(t.top, sx as int, sy as int, sz as int);
                        lemma_visit_step3(t.top, sx as int, sy as int, sz as int);
                        lemma_walk_step(t.top, keep, item, SUBCHUNK_SHIFT, n);
                        lemma_mask_step(t, sx as int, sy as int, sz as int);
                        assert(keep(sup.spec_linear(t.top)) == (sub@.bricks.len() > 0));
                        assert(item(sup.spec_linear(t.top)) == sub@);
                    }
                    if !sub.is_empty() {
                        volume.add_subchunk(sup, sub);
                    }
                }
                proof {
                    lemma_step3_carry(t.top, sx as int, sy as int);
                }
            }
            proof {
                lemma_step3_carry(t.top, sx as int, 0);
            }
        }
        proof {
            lemma_step3_carry(t.top, 0, 0);
            assert forall|x: int, y: int, z: int|
                0 <= x < t.resolution() && 0 <= y < t.resolution() && 0 <= z
                    < t.resolution() implies #[trigger] volume.spec_query(x, y, z) == t.solid(
                x,
                y,
                z,
            ) by {
                lemma_occupied_iff_solid(t, x, y, z);
            }
        }
        volume
    }
}

} // verus!
