//! Coordinates of cells and voxels, and how a voxel coordinate splits into
//! the cell of its subchunk, of its brick, and its place inside the brick.

use vstd::prelude::*;
use crate::config::{VolumeConfig, lemma_valid_dims};
use crate::grid::{cube, digit0, digit1, digit2, lemma_digits_lin3, lemma_lin3_digits, lin3};

verus! {

/// A coordinate with three unsigned components.
#[derive(Clone, Copy, PartialEq, Eq, Structural, Debug)]
pub struct Vec3 {
    pub x: u32,
    pub y: u32,
    pub z: u32,
}

impl Vec3 {
    /// Whether every component is below `d`.
    pub open spec fn within(&self, d: int) -> bool {
        self.x < d && self.y < d && self.z < d
    }

    /// The linear index of this cell in a grid of side `d`, `x` varying fastest.
    pub open spec fn spec_linear(&self, d: int) -> int {
        lin3(d, self.x as int, self.y as int, self.z as int)
    }

    /// Whether every component is even.
    pub open spec fn spec_is_even(&self) -> bool {
        self.x % 2 == 0 && self.y % 2 == 0 && self.z % 2 == 0
    }

    /// The coordinate `(x, y, z)`.
    pub fn new(x: u32, y: u32, z: u32) -> (r: Self)
        ensures
            r == (Vec3 { x, y, z }),
    {
        Self { x, y, z }
    }

    /// The coordinate whose components are the three entries of `vec`, in order.
    pub fn from(vec: [u32; 3]) -> (r: Self)
        ensures
            r == (Vec3 { x: vec[0], y: vec[1], z: vec[2] }),
    {
        Self { x: vec[0], y: vec[1], z: vec[2] }
    }

    /// Whether every component is even.
    pub fn is_even(&self) -> (r: bool)
        ensures
            r == self.spec_is_even(),
    {
        (self.x % 2 == 0) && (self.y % 2 == 0) && (self.z % 2 == 0)
    }

    /// The linear index of this cell in a grid of side `dim`.
    pub fn linear(&self, dim: u32) -> (r: usize)
        requires
            self.within(dim as int),
            cube(dim as int) <= u32::MAX,
        ensures
            r == self.spec_linear(dim as int),
            r < cube(dim as int),
    {
        proof {
            let d = dim as int;
            lemma_lin3_digits(d, self.x as int, self.y as int, self.z as int);
            assert(cube(d) == d * (d * d)) by (nonlinear_arith);
            assert((self.z + 1) * (d * d) <= d * (d * d)) by (nonlinear_arith)
                requires
                    0 <= self.z < d,
            ;
            assert(d * d <= d * (d * d)) by (nonlinear_arith)
                requires
                    1 <= d,
            ;
            assert(self.y * d <= d * d) by (nonlinear_arith)
                requires
                    0 <= self.y < d,
            ;
            assert(self.z * (d * d) <= d * (d * d)) by (nonlinear_arith)
                requires
                    0 <= self.z < d,
            ;
        }
        let d: usize = dim as usize;
        let d2: usize = d * d;
        self.x as usize + self.y as usize * d + self.z as usize * d2
    }
}

impl VolumeConfig {
    /// Splits the coordinate of a voxel into the cell of its subchunk, the
    /// cell of its brick within the subchunk, and its place within the brick.
    pub fn split(&self, v: Vec3) -> (r: (Vec3, Vec3, Vec3))
        requires
            self.wf(),
            v.within(self.spec_resolution()),
        ensures
            r.0 == (Vec3 {
                x: digit2(self.spec_low_dim(), v.x as int) as u32,
                y: digit2(self.spec_low_dim(), v.y as int) as u32,
                z: digit2(self.spec_low_dim(), v.z as int) as u32,
            }),
            r.1 == (Vec3 {
                x: digit1(self.spec_low_dim(), v.x as int) as u32,
                y: digit1(self.spec_low_dim(), v.y as int) as u32,
                z: digit1(self.spec_low_dim(), v.z as int) as u32,
            }),
            r.2 == (Vec3 {
                x: digit0(self.spec_low_dim(), v.x as int) as u32,
                y: digit0(self.spec_low_dim(), v.y as int) as u32,
                z: digit0(self.spec_low_dim(), v.z as int) as u32,
            }),
            r.0.within(self.spec_top_dim()),
            r.1.within(self.spec_low_dim()),
            r.2.within(self.spec_low_dim()),
            r.0.spec_linear(self.spec_top_dim()) == super_index(
                self.spec_top_dim(),
                self.spec_low_dim(),
                v.x as int,
                v.y as int,
                v.z as int,
            ),
            r.1.spec_linear(self.spec_low_dim()) == chunk_index(
                self.spec_low_dim(),
                v.x as int,
                v.y as int,
                v.z as int,
            ),
            r.2.spec_linear(self.spec_low_dim()) == local_index(
                self.spec_low_dim(),
                v.x as int,
                v.y as int,
                v.z as int,
            ),
    {
        proof {
            lemma_axis_split(self.spec_top_dim(), self.spec_low_dim(), v.x as int);
            lemma_axis_split(self.spec_top_dim(), self.spec_low_dim(), v.y as int);
            lemma_axis_split(self.spec_top_dim(), self.spec_low_dim(), v.z as int);
            lemma_valid_dims(self.spec_low_dim());
            let l = self.spec_low_dim();
            assert(1 <= l * l <= 36) by (nonlinear_arith)
                requires
                    1 <= l <= 6,
            ;
        }
        let low: u32 = self.low_dim();
        let low2: u32 = low * low;
        (
            Vec3::new(v.x / low2, v.y / low2, v.z / low2),
            Vec3::new((v.x / low) % low, (v.y / low) % low, (v.z / low) % low),
            Vec3::new(v.x % low, v.y % low, v.z % low),
        )
    }

    /// One coordinate of the voxel at place `local` of the brick at `chunk`
    /// of the subchunk at `sup`.
    pub fn join_axis(&self, sup: u32, chunk: u32, local: u32) -> (r: u32)
        requires
            self.wf(),
            sup < self.spec_top_dim(),
            chunk < self.spec_low_dim(),
            local < self.spec_low_dim(),
        ensures
            r == lin3(self.spec_low_dim(), local as int, chunk as int, sup as int),
            r < self.spec_resolution(),
    {
        proof {
            lemma_axis_join(
                self.spec_top_dim(),
                self.spec_low_dim(),
                local as int,
                chunk as int,
                sup as int,
            );
            lemma_valid_dims(self.spec_low_dim());
            lemma_valid_dims(self.spec_top_dim());
            let l = self.spec_low_dim();
            let t = self.spec_top_dim();
            assert(1 <= l * l <= 36) by (nonlinear_arith)
                requires
                    1 <= l <= 6,
            ;
            assert(0 <= chunk * l <= 36) by (nonlinear_arith)
                requires
                    0 <= chunk < l,
                    1 <= l <= 6,
            ;
            assert(0 <= sup * (l * l) <= 720) by (nonlinear_arith)
                requires
                    0 <= sup < t,
                    t <= 20,
                    1 <= l * l <= 36,
            ;
        }
        let low: u32 = self.low_dim();
        let low2: u32 = low * low;
        local + chunk * low + sup * low2
    }
}

/// The position, in a table of heights with one row for each `y`, of the
/// column of the voxel at `(x, y)` of the brick at `(chunk_x, chunk_y)` of the
/// subchunk at `(super_x, super_y)`.
pub fn brick_height(
    config: &VolumeConfig,
    super_x: u32,
    super_y: u32,
    chunk_x: u32,
    chunk_y: u32,
    x: u32,
    y: u32,
) -> (r: usize)
    requires
        config.wf(),
        super_x < config.spec_top_dim(),
        super_y < config.spec_top_dim(),
        chunk_x < config.spec_low_dim(),
        chunk_y < config.spec_low_dim(),
        x < config.spec_low_dim(),
        y < config.spec_low_dim(),
    ensures
        r == lin3(config.spec_low_dim(), x as int, chunk_x as int, super_x as int) + lin3(
            config.spec_low_dim(),
            y as int,
            chunk_y as int,
            super_y as int,
        ) * config.spec_resolution(),
        r < config.spec_resolution() * config.spec_resolution(),
{
    let nx: u32 = config.join_axis(super_x, chunk_x, x);
    let ny: u32 = config.join_axis(super_y, chunk_y, y);
    let res: u32 = config.resolution();
    proof {
        assert(nx + ny * res < res * res && 0 <= ny * res <= 720 * 720) by (nonlinear_arith)
            requires
                0 <= nx < res,
                0 <= ny < res,
                res <= 720,
        ;
    }
    (nx + ny * res) as usize
}

/// The linear index of the subchunk that holds the voxel `(x, y, z)`.
pub open spec fn super_index(top: int, low: int, x: int, y: int, z: int) -> int {
    lin3(top, digit2(low, x), digit2(low, y), digit2(low, z))
}

/// The linear index, within its subchunk, of the brick that holds the voxel `(x, y, z)`.
pub open spec fn chunk_index(low: int, x: int, y: int, z: int) -> int {
    lin3(low, digit1(low, x), digit1(low, y), digit1(low, z))
}

/// The linear index of the voxel `(x, y, z)` within its brick.
pub open spec fn local_index(low: int, x: int, y: int, z: int) -> int {
    lin3(low, digit0(low, x), digit0(low, y), digit0(low, z))
}

/// The `x` coordinate of voxel `l` of brick `c` of subchunk `s`.
pub open spec fn voxel_x(top: int, low: int, s: int, c: int, l: int) -> int {
    lin3(low, digit0(low, l), digit0(low, c), digit0(top, s))
}

/// The `y` coordinate of voxel `l` of brick `c` of subchunk `s`.
pub open spec fn voxel_y(top: int, low: int, s: int, c: int, l: int) -> int {
    lin3(low, digit1(low, l), digit1(low, c), digit1(top, s))
}

/// The `z` coordinate of voxel `l` of brick `c` of subchunk `s`.
pub open spec fn voxel_z(top: int, low: int, s: int, c: int, l: int) -> int {
    lin3(low, digit2(low, l), digit2(low, c), digit2(top, s))
}

/// One coordinate of a voxel splits into three in-range parts that give it back.
pub proof fn lemma_axis_split(top: int, low: int, g: int)
    requires
        0 < low,
        0 <= g < top * (low * low),
    ensures
        0 <= digit0(low, g) < low,
        0 <= digit1(low, g) < low,
        0 <= digit2(low, g) < top,
        lin3(low, digit0(low, g), digit1(low, g), digit2(low, g)) == g,
{
    lemma_digits_lin3(low, top, g);
}

/// Three in-range parts join into one coordinate of a voxel, which splits
/// into the same parts.
pub proof fn lemma_axis_join(top: int, low: int, l: int, c: int, s: int)
    requires
        0 <= l < low,
        0 <= c < low,
        0 <= s < top,
    ensures
        0 <= lin3(low, l, c, s) < top * (low * low),
        digit0(low, lin3(low, l, c, s)) == l,
        digit1(low, lin3(low, l, c, s)) == c,
        digit2(low, lin3(low, l, c, s)) == s,
{
    lemma_lin3_digits(low, l, c, s);
    assert((s + 1) * (low * low) <= top * (low * low)) by (nonlinear_arith)
        requires
            0 <= s < top,
    ;
}

/// A voxel inside the volume lies in an in-range subchunk, brick and place,
/// from which its coordinates are had back.
pub proof fn lemma_voxel_split(top: int, low: int, x: int, y: int, z: int)
    requires
        0 < low,
        0 < top,
        0 <= x < top * (low * low),
        0 <= y < top * (low * low),
        0 <= z < top * (low * low),
    ensures
        0 <= super_index(top, low, x, y, z) < cube(top),
        0 <= chunk_index(low, x, y, z) < cube(low),
        0 <= local_index(low, x, y, z) < cube(low),
        voxel_x(
            top,
            low,
            super_index(top, low, x, y, z),
            chunk_index(low, x, y, z),
            local_index(low, x, y, z),
        ) == x,
        voxel_y(
            top,
            low,
            super_index(top, low, x, y, z),
            chunk_index(low, x, y, z),
            local_index(low, x, y, z),
        ) == y,
        voxel_z(
            top,
            low,
            super_index(top, low, x, y, z),
            chunk_index(low, x, y, z),
            local_index(low, x, y, z),
        ) == z,
{
    lemma_axis_split(top, low, x);
    lemma_axis_split(top, low, y);
    lemma_axis_split(top, low, z);
    lemma_cell_index(top, digit2(low, x), digit2(low, y), digit2(low, z));
    lemma_cell_index(low, digit1(low, x), digit1(low, y), digit1(low, z));
    lemma_cell_index(low, digit0(low, x), digit0(low, y), digit0(low, z));
}

/// The linear index of an in-range cell is in range and determines the cell.
pub proof fn lemma_cell_index(d: int, a: int, b: int, c: int)
    requires
        0 <= a < d,
        0 <= b < d,
        0 <= c < d,
    ensures
        0 <= lin3(d, a, b, c) < cube(d),
        digit0(d, lin3(d, a, b, c)) == a,
        digit1(d, lin3(d, a, b, c)) == b,
        digit2(d, lin3(d, a, b, c)) == c,
{
    lemma_lin3_digits(d, a, b, c);
    assert(cube(d) == d * (d * d)) by (nonlinear_arith);
    assert((c + 1) * (d * d) <= d * (d * d)) by (nonlinear_arith)
        requires
            0 <= c < d,
    ;
}

/// An in-range linear index has an in-range cell, with that index.
pub proof fn lemma_index_cell(d: int, i: int)
    requires
        0 < d,
        0 <= i < cube(d),
    ensures
        0 <= digit0(d, i) < d,
        0 <= digit1(d, i) < d,
        0 <= digit2(d, i) < d,
        lin3(d, digit0(d, i), digit1(d, i), digit2(d, i)) == i,
{
    assert(cube(d) == d * (d * d)) by (nonlinear_arith);
    lemma_digits_lin3(d, d, i);
}

} // verus!
