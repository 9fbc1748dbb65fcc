//! Arithmetic of cubic grids: linear indices, their three digits, and the
//! order in which a grid is walked.

use vstd::prelude::*;
use vstd::arithmetic::div_mod::{
    lemma_div_denominator, lemma_fundamental_div_mod, lemma_fundamental_div_mod_converse,
    lemma_mod_pos_bound,
};

verus! {

/// The number of cells of a cubic grid with `d` cells along each axis.
pub open spec fn cube(d: int) -> int {
    d * d * d
}

/// The linear index of the cell `(a, b, c)` in a grid of side `d`,
/// where `a` varies fastest.
pub open spec fn lin3(d: int, a: int, b: int, c: int) -> int {
    a + b * d + c * (d * d)
}

/// The fastest-varying coordinate of the linear index `i`.
pub open spec fn digit0(d: int, i: int) -> int {
    i % d
}

/// The middle coordinate of the linear index `i`.
pub open spec fn digit1(d: int, i: int) -> int {
    (i / d) % d
}

/// The slowest-varying coordinate of the linear index `i`.
pub open spec fn digit2(d: int, i: int) -> int {
    i / (d * d)
}

/// The linear index of the cell that is walked at step `r`, when a grid of
/// side `d` is walked with the first coordinate in the outermost loop and the
/// third in the innermost. The same function takes a linear index to the step
/// at which its cell is walked.
pub open spec fn visit(d: int, r: int) -> int {
    lin3(d, digit2(d, r), digit1(d, r), digit0(d, r))
}

/// The step at which the cell `(a, b, c)` is walked.
pub open spec fn step3(d: int, a: int, b: int, c: int) -> int {
    lin3(d, c, b, a)
}

/// `cube` is monotone on the non-negative integers.
pub proof fn lemma_cube_monotone(a: int, b: int)
    requires
        0 <= a <= b,
    ensures
        0 <= cube(a) <= cube(b),
{
    assert(0 <= a * a <= b * b) by (nonlinear_arith)
        requires
            0 <= a <= b,
    ;
    assert(0 <= (a * a) * a <= (b * b) * b) by (nonlinear_arith)
        requires
            0 <= a <= b,
            0 <= a * a <= b * b,
    ;
}

/// A linear index determines its coordinates, and lies below the start of
/// the next layer.
pub proof fn lemma_lin3_digits(d: int, a: int, b: int, c: int)
    requires
        0 <= a < d,
        0 <= b < d,
        0 <= c,
    ensures
        0 <= lin3(d, a, b, c) < (c + 1) * (d * d),
        c * (d * d) <= lin3(d, a, b, c),
        digit0(d, lin3(d, a, b, c)) == a,
        digit1(d, lin3(d, a, b, c)) == b,
        digit2(d, lin3(d, a, b, c)) == c,
{
    let i = lin3(d, a, b, c);
    let q = b + c * d;
    assert(i == q * d + a) by (nonlinear_arith)
        requires
            i == a + b * d + c * (d * d),
            q == b + c * d,
    ;
    assert(0 <= c * d) by (nonlinear_arith)
        requires
            0 <= c,
            0 < d,
    ;
    assert(0 <= q * d) by (nonlinear_arith)
        requires
            0 <= q,
            0 < d,
    ;
    lemma_fundamental_div_mod_converse(i, d, q, a);
    lemma_fundamental_div_mod_converse(q, d, c, b);
    lemma_div_denominator(i, d, d);
    assert(i < (c + 1) * (d * d) && c * (d * d) <= i) by (nonlinear_arith)
        requires
            i == a + b * d + c * (d * d),
            0 <= a < d,
            0 <= b < d,
            0 <= c,
    ;
}

/// The coordinates of a linear index below `n` layers are in range and give
/// the index back.
pub proof fn lemma_digits_lin3(d: int, n: int, i: int)
    requires
        0 < d,
        0 <= i < n * (d * d),
    ensures
        0 <= digit0(d, i) < d,
        0 <= digit1(d, i) < d,
        0 <= digit2(d, i) < n,
        lin3(d, digit0(d, i), digit1(d, i), digit2(d, i)) == i,
{
    let q = i / d;
    lemma_fundamental_div_mod(i, d);
    lemma_fundamental_div_mod(q, d);
    lemma_mod_pos_bound(i, d);
    lemma_mod_pos_bound(q, d);
    lemma_div_denominator(i, d, d);
    let a = i % d;
    let b = q % d;
    let c = q / d;
    assert(c == digit2(d, i));
    assert(i == a + b * d + c * (d * d)) by (nonlinear_arith)
        requires
            i == d * q + a,
            q == d * c + b,
    ;
    assert(0 <= c < n) by (nonlinear_arith)
        requires
            i == a + b * d + c * (d * d),
            0 <= a < d,
            0 <= b < d,
            0 < d,
            0 <= i < n * (d * d),
    ;
}

/// Walking order and linear order are inverse to each other.
pub proof fn lemma_visit_visit(d: int, r: int)
    requires
        0 < d,
        0 <= r < cube(d),
    ensures
        0 <= visit(d, r) < cube(d),
        visit(d, visit(d, r)) == r,
{
    assert(cube(d) == d * (d * d)) by (nonlinear_arith);
    lemma_digits_lin3(d, d, r);
    lemma_lin3_digits(d, digit2(d, r), digit1(d, r), digit0(d, r));
    assert((digit0(d, r) + 1) * (d * d) <= d * (d * d)) by (nonlinear_arith)
        requires
            0 <= digit0(d, r) < d,
    ;
}

/// The cell `(a, b, c)` is walked at step `step3(d, a, b, c)`.
pub proof fn lemma_visit_step3(d: int, a: int, b: int, c: int)
    requires
        0 <= a < d,
        0 <= b < d,
        0 <= c < d,
    ensures
        0 <= step3(d, a, b, c) < cube(d),
        0 <= lin3(d, a, b, c) < cube(d),
        visit(d, step3(d, a, b, c)) == lin3(d, a, b, c),
        visit(d, lin3(d, a, b, c)) == step3(d, a, b, c),
{
    assert(cube(d) == d * (d * d)) by (nonlinear_arith);
    lemma_lin3_digits(d, c, b, a);
    lemma_lin3_digits(d, a, b, c);
    assert((a + 1) * (d * d) <= d * (d * d)) by (nonlinear_arith)
        requires
            0 <= a < d,
    ;
    assert((c + 1) * (d * d) <= d * (d * d)) by (nonlinear_arith)
        requires
            0 <= c < d,
    ;
}

/// The walk moves on from the end of a row to the start of the next, and
/// from the end of a layer to the start of the next; it ends after as many
/// steps as the grid has cells.
pub proof fn lemma_step3_carry(d: int, a: int, b: int)
    ensures
        step3(d, a, b, d) == step3(d, a, b + 1, 0),
        step3(d, a, d, 0) == step3(d, a + 1, 0, 0),
        step3(d, 0, 0, 0) == 0,
        step3(d, d, 0, 0) == cube(d),
{
    assert(d + b * d + a * (d * d) == 0 + (b + 1) * d + a * (d * d)) by (nonlinear_arith);
    assert(0 + d * d + a * (d * d) == 0 + 0 * d + (a + 1) * (d * d)) by (nonlinear_arith);
    assert(0 + 0 * d + d * (d * d) == d * d * d) by (nonlinear_arith);
    assert(0 + 0 * d + 0 * (d * d) == 0) by (nonlinear_arith);
}

} // verus!
