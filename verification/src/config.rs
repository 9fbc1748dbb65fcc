//! The dimensions of a volume.

use vstd::prelude::*;
use crate::grid::{cube, lemma_cube_monotone};

verus! {

/// The largest number of bricks along an axis of a subchunk, and of voxels
/// along an axis of a brick: a subchunk of that side still has no more cells
/// than a brick slot can tell apart.
pub const MAX_LOW_DIM: u32 = 6;

/// The largest number of subchunks along an axis of the volume: a volume of
/// that side still has no more cells than a subchunk slot can tell apart.
pub const MAX_TOP_DIM: u32 = 20;

/// Whether a subchunk of side `low` has at least one cell and at most 256.
pub open spec fn valid_low_dim(low: int) -> bool {
    1 <= low && cube(low) <= 256
}

/// Whether a volume of `top` subchunks along each axis has at least one cell
/// and at most 8192.
pub open spec fn valid_top_dim(top: int) -> bool {
    1 <= top && cube(top) <= 8192
}

/// The sides for which a grid is small enough, as bounds on the side itself.
pub proof fn lemma_valid_dims(d: int)
    ensures
        valid_low_dim(d) <==> 1 <= d <= MAX_LOW_DIM,
        valid_top_dim(d) <==> 1 <= d <= MAX_TOP_DIM,
{
    assert(cube(6) == 216 && cube(7) == 343 && cube(20) == 8000 && cube(21) == 9261)
        by (nonlinear_arith);
    if 1 <= d {
        if d <= 6 {
            lemma_cube_monotone(d, 6);
        } else {
            lemma_cube_monotone(7, d);
        }
        if d <= 20 {
            lemma_cube_monotone(d, 20);
        } else {
            lemma_cube_monotone(21, d);
        }
    }
}

/// The dimensions of a volume: `top_dim` subchunks along each axis, each of
/// `low_dim` bricks along each axis, each of `low_dim` voxels along each axis.
#[derive(Clone, Copy, PartialEq, Eq, Structural, Debug)]
pub struct VolumeConfig {
    top_dim: u32,
    low_dim: u32,
}

impl VolumeConfig {
    /// Subchunks along each axis of the volume.
    pub closed spec fn spec_top_dim(&self) -> int {
        self.top_dim as int
    }

    /// Bricks along each axis of a subchunk, and voxels along each axis of a brick.
    pub closed spec fn spec_low_dim(&self) -> int {
        self.low_dim as int
    }

    /// Both grids have at least one cell and no more than their slots can tell apart.
    pub open spec fn wf(&self) -> bool {
        valid_top_dim(self.spec_top_dim()) && valid_low_dim(self.spec_low_dim())
    }

    /// Voxels along each axis of the volume.
    pub open spec fn spec_resolution(&self) -> int {
        self.spec_top_dim() * (self.spec_low_dim() * self.spec_low_dim())
    }

    /// The dimensions of a volume, if both grids have at least one cell and
    /// no more than their slots can tell apart.
    pub fn new(top_dim: u32, low_dim: u32) -> (r: Option<VolumeConfig>)
        ensures
            r.is_some() <==> (valid_top_dim(top_dim as int) && valid_low_dim(low_dim as int)),
            r matches Some(c) ==> c.wf() && c.spec_top_dim() == top_dim && c.spec_low_dim()
                == low_dim,
    {
        proof {
            lemma_valid_dims(top_dim as int);
            lemma_valid_dims(low_dim as int);
        }
        if 1 <= top_dim && top_dim <= MAX_TOP_DIM && 1 <= low_dim && low_dim <= MAX_LOW_DIM {
            Some(VolumeConfig { top_dim, low_dim })
        } else {
            None
        }
    }

    /// Subchunks along each axis of the volume.
    pub fn top_dim(&self) -> (r: u32)
        ensures
            r == self.spec_top_dim(),
    {
        self.top_dim
    }

    /// Bricks along each axis of a subchunk, and voxels along each axis of a brick.
    pub fn low_dim(&self) -> (r: u32)
        ensures
            r == self.spec_low_dim(),
    {
        self.low_dim
    }

    /// Voxels in a brick, which is also the number of bricks in a subchunk.
    pub fn brick_volume(&self) -> (r: usize)
        requires
            self.wf(),
        ensures
            r == cube(self.spec_low_dim()),
            1 <= r <= 256,
    {
        proof {
            let l = self.spec_low_dim();
            assert(1 <= l * l && (l * l) * l >= l * l) by (nonlinear_arith)
                requires
                    1 <= l,
            ;
        }
        let d: usize = self.low_dim as usize;
        let d2: usize = d * d;
        d2 * d
    }

    /// Subchunks in the volume.
    pub fn grid_volume(&self) -> (r: usize)
        requires
            self.wf(),
        ensures
            r == cube(self.spec_top_dim()),
            1 <= r <= 8192,
    {
        proof {
            let t = self.spec_top_dim();
            assert(1 <= t * t && (t * t) * t >= t * t) by (nonlinear_arith)
                requires
                    1 <= t,
            ;
        }
        let d: usize = self.top_dim as usize;
        let d2: usize = d * d;
        d2 * d
    }

    /// Voxels along each axis of the volume.
    pub fn resolution(&self) -> (r: u32)
        requires
            self.wf(),
        ensures
            r == self.spec_resolution(),
            1 <= r <= 720,
    {
        proof {
            lemma_valid_dims(self.spec_top_dim());
            lemma_valid_dims(self.spec_low_dim());
            let l = self.spec_low_dim();
            let t = self.spec_top_dim();
            assert(1 <= l * l <= 36) by (nonlinear_arith)
                requires
                    1 <= l <= 6,
            ;
            assert(1 <= t * (l * l) <= 720) by (nonlinear_arith)
                requires
                    1 <= t <= 20,
                    1 <= l * l <= 36,
            ;
        }
        let low2: u32 = self.low_dim * self.low_dim;
        self.top_dim * low2
    }
}

} // verus!
