//! A table of terrain heights, one for each column of voxels.

use vstd::prelude::*;

verus! {

/// The height of the terrain over each column `(x, y)` of a square domain.
/// The sample of column `(x, y)` is stored at `x + y * dim`.
pub struct HeightField {
    dim: u32,
    samples: Vec<u32>,
}

impl View for HeightField {
    type V = Seq<u32>;

    /// The samples, row by row.
    closed spec fn view(&self) -> Seq<u32> {
        self.samples@
    }
}

impl HeightField {
    /// Columns along each axis of the domain.
    pub closed spec fn spec_dim(&self) -> int {
        self.dim as int
    }

    /// There is one sample for each column.
    pub closed spec fn wf(&self) -> bool {
        self.samples@.len() == self.dim * self.dim
    }

    /// The height over column `(x, y)`.
    pub open spec fn spec_height(&self, x: int, y: int) -> int {
        self@[x + y * self.spec_dim()] as int
    }

    /// A well-formed table has one sample for each column.
    pub proof fn lemma_view_len(&self)
        requires
            self.wf(),
        ensures
            self@.len() == self.spec_dim() * self.spec_dim(),
    {
    }

    /// The table of the given samples, if there is one for each column of a
    /// domain of side `dim`.
    pub fn from_samples(dim: u32, samples: Vec<u32>) -> (r: Option<HeightField>)
        ensures
            r.is_some() <==> samples@.len() == dim * dim,
            r matches Some(h) ==> h.wf() && h.spec_dim() == dim && h@ == samples@,
    {
        let d: u64 = dim as u64;
        assert(d * d <= u64::MAX) by (nonlinear_arith)
            requires
                0 <= d <= 0xffff_ffff,
        ;
        if samples.len() as u64 == d * d {
            Some(HeightField { dim, samples })
        } else {
            None
        }
    }

    /// Columns along each axis of the domain.
    pub fn dim(&self) -> (r: u32)
        ensures
            r == self.spec_dim(),
    {
        self.dim
    }

    /// The sample stored at `index`.
    pub fn sample(&self, index: usize) -> (r: u32)
        requires
            self.wf(),
            index < self.spec_dim() * self.spec_dim(),
        ensures
            r == self@[index as int],
    {
        self.samples[index]
    }

    /// The height over column `(x, y)`.
    pub fn height(&self, x: u32, y: u32) -> (r: u32)
        requires
            self.wf(),
            x < self.spec_dim(),
            y < self.spec_dim(),
        ensures
            r == self.spec_height(x as int, y as int),
    {
        proof {
            let d = self.dim as int;
            assert(x + y * d < d * d && 0 <= y * d) by (nonlinear_arith)
                requires
                    0 <= x < d,
                    0 <= y < d,
            ;
        }
        let n: usize = self.samples.len();
        assert(y * self.dim + x < n);
        let row: usize = y as usize * self.dim as usize;
        self.samples[row + x as usize]
    }
}

} // verus!
