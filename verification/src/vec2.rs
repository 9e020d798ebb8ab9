//! Points with small coordinates, and the remainder that folds a coordinate
//! onto a torus.

use vstd::arithmetic::div_mod::{
    lemma_fundamental_div_mod, lemma_fundamental_div_mod_converse, lemma_mod_bound,
};
use vstd::prelude::*;

verus! {

/// Euclidean remainder of `v` by `n`: the one value in `[0, n)` that differs
/// from `v` by a multiple of `n`.
pub open spec fn wrap_coord(v: int, n: int) -> int {
    v % n
}

/// A cell of the grid, or a displacement between two cells.
#[derive(Clone, Copy, Debug, PartialEq, Eq, Structural)]
pub struct Vec2 {
    pub x: i8,
    pub y: i8,
}

/// For negative `v`, the Euclidean remainder is found from the remainder of
/// `-v`: it is zero where that one is zero, and its complement to `n` elsewhere.
pub proof fn lemma_remainder_of_negative(v: int, n: int)
    requires
        n > 0,
    ensures
        0 <= wrap_coord(v, n) < n,
        v < 0 && (-v) % n == 0 ==> wrap_coord(v, n) == 0,
        v < 0 && (-v) % n != 0 ==> wrap_coord(v, n) == n - (-v) % n,
{
    if v < 0 {
        let a = -v;
        let q = a / n;
        let r = a % n;
        lemma_fundamental_div_mod(a, n);
        if r == 0 {
            assert(v == (-q) * n + 0) by (nonlinear_arith)
                requires
                    a == n * q + r,
                    r == 0,
                    v == -a,
            ;
            lemma_fundamental_div_mod_converse(v, n, -q, 0);
        } else {
            assert(v == (-q - 1) * n + (n - r)) by (nonlinear_arith)
                requires
                    a == n * q + r,
                    v == -a,
            ;
            lemma_fundamental_div_mod_converse(v, n, -q - 1, n - r);
        }
    } else {
        lemma_mod_bound(v, n);
    }
}

/// Folds a coordinate into `[0, n)`.
pub fn wrap_axis(v: i32, n: i8) -> (r: i8)
    requires
        n > 0,
    ensures
        r == wrap_coord(v as int, n as int),
        0 <= r < n,
{
    let m: i32 = v % (n as i32);
    proof {
        lemma_remainder_of_negative(v as int, n as int);
    }
    if m < 0 {
        (m + n as i32) as i8
    } else {
        m as i8
    }
}

impl Vec2 {
    pub fn new(x: i8, y: i8) -> (v: Vec2)
        ensures
            v.x == x,
            v.y == y,
    {
        Vec2 { x, y }
    }

    /// Moves the point by `other`.
    pub fn add(&mut self, other: &Vec2)
        requires
            i8::MIN <= old(self).x + other.x <= i8::MAX,
            i8::MIN <= old(self).y + other.y <= i8::MAX,
        ensures
            final(self).x == old(self).x + other.x,
            final(self).y == old(self).y + other.y,
    {
        self.x = self.x + other.x;
        self.y = self.y + other.y;
    }

    /// The point moved by `other`.
    pub fn add_new(&self, other: &Vec2) -> (sum: Vec2)
        requires
            i8::MIN <= self.x + other.x <= i8::MAX,
            i8::MIN <= self.y + other.y <= i8::MAX,
        ensures
            sum.x == self.x + other.x,
            sum.y == self.y + other.y,
    {
        Vec2 { x: self.x + other.x, y: self.y + other.y }
    }

    /// The displacement that leads from `other` to the point.
    pub fn subtract_new(&self, other: &Vec2) -> (difference: Vec2)
        requires
            i8::MIN <= self.x - other.x <= i8::MAX,
            i8::MIN <= self.y - other.y <= i8::MAX,
        ensures
            difference.x == self.x - other.x,
            difference.y == self.y - other.y,
    {
        Vec2 { x: self.x - other.x, y: self.y - other.y }
    }

    /// Folds the point onto the torus of the given sides.
    pub fn get_loop_position(&mut self, width: usize, height: usize)
        requires
            0 < width <= i8::MAX,
            0 < height <= i8::MAX,
        ensures
            final(self).x == wrap_coord(old(self).x as int, width as int),
            final(self).y == wrap_coord(old(self).y as int, height as int),
            final(self).is_inside_maze_spec(width, height),
    {
        self.x = wrap_axis(self.x as i32, width as i8);
        self.y = wrap_axis(self.y as i32, height as i8);
    }

    pub open spec fn is_inside_maze_spec(&self, width: usize, height: usize) -> bool {
        0 <= self.x < width && 0 <= self.y < height
    }

    /// The point is a cell of a maze of the given sides.
    #[verifier::when_used_as_spec(is_inside_maze_spec)]
    pub fn is_inside_maze(&self, width: usize, height: usize) -> (inside: bool)
        ensures
            inside == self.is_inside_maze_spec(width, height),
    {
        self.x >= 0 && (self.x as usize) < width && self.y >= 0 && (self.y as usize) < height
    }
}

} // verus!
