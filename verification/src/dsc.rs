//! Vectors, quaternions and 2D points in fixed-point coordinates.
//!
//! Every operation's contract states the exact integer result: products
//! are rescaled by `SCALE` with truncation toward zero (`div_to_zero`),
//! and magnitudes are floor square roots (`sqrt_floor`) of the raw sum
//! of squares.  Tolerance equality is decided exactly on raw units.

use vstd::prelude::*;
use crate::num::SCALE;
use crate::num::LENGTH_EPS;
use crate::num::MAX_COORD;
use crate::num::MAX_FP;
use crate::num::div_to_zero;
use crate::num::sqrt_floor;
use crate::num::lemma_sqrt_floor;
use crate::num::lemma_sqrt_floor_lower;
use crate::num::lemma_sqrt_floor_upper;
use crate::num::lemma_mul_abs_bound;
use crate::num::lemma_div_to_zero_bound;
use crate::num::isqrt;
use crate::num::div_trunc;
use crate::num::fp_mul;

verus! {

/// Bound for operands of plain componentwise sums and differences.
pub const SUM_BOUND: i64 = 4_000_000_000_000_000_000;

/// A 3D vector in fixed-point raw units.
#[derive(Clone, Copy, PartialEq, Eq, Structural, Debug, Hash)]
pub struct Vector {
    pub x: i64,
    pub y: i64,
    pub z: i64,
}

/// A homogeneous 4-vector in fixed-point raw units.
#[derive(Clone, Copy, PartialEq, Eq, Structural, Debug)]
pub struct Vector4 {
    pub w: i64,
    pub x: i64,
    pub y: i64,
    pub z: i64,
}

/// A 2D point in fixed-point raw units.
#[derive(Clone, Copy, PartialEq, Eq, Structural, Debug)]
pub struct Point2d {
    pub x: i64,
    pub y: i64,
}

impl Vector {
    /// Coordinates admissible for geometric products.
    pub open spec fn wf(self) -> bool {
        &&& -MAX_COORD <= self.x <= MAX_COORD
        &&& -MAX_COORD <= self.y <= MAX_COORD
        &&& -MAX_COORD <= self.z <= MAX_COORD
    }

    /// Raw sum of squared coordinates (units of `SCALE` squared).
    pub open spec fn sq_raw(self) -> int {
        self.x * self.x + self.y * self.y + self.z * self.z
    }

    /// The zero vector, exactly.
    pub open spec fn is_zero(self) -> bool {
        self.x == 0 && self.y == 0 && self.z == 0
    }

    /// Componentwise tolerance test together with the squared-distance
    /// test, both on raw units; near-diagonal offsets fail the second.
    pub open spec fn spec_equals_tol(self, rhs: Vector, tol: int) -> bool {
        let dx = self.x - rhs.x;
        let dy = self.y - rhs.y;
        let dz = self.z - rhs.z;
        &&& -tol <= dx <= tol
        &&& -tol <= dy <= tol
        &&& -tol <= dz <= tol
        &&& dx * dx + dy * dy + dz * dz < tol * tol
    }

    pub fn new(x: i64, y: i64, z: i64) -> (r: Vector)
        ensures
            r == (Vector { x, y, z }),
    {
        Vector { x, y, z }
    }

    pub fn plus(&self, rhs: Vector) -> (r: Vector)
        requires
            -SUM_BOUND <= self.x <= SUM_BOUND,
            -SUM_BOUND <= self.y <= SUM_BOUND,
            -SUM_BOUND <= self.z <= SUM_BOUND,
            -SUM_BOUND <= rhs.x <= SUM_BOUND,
            -SUM_BOUND <= rhs.y <= SUM_BOUND,
            -SUM_BOUND <= rhs.z <= SUM_BOUND,
        ensures
            r.x == self.x + rhs.x,
            r.y == self.y + rhs.y,
            r.z == self.z + rhs.z,
    {
        Vector { x: self.x + rhs.x, y: self.y + rhs.y, z: self.z + rhs.z }
    }

    pub fn minus(&self, rhs: Vector) -> (r: Vector)
        requires
            -SUM_BOUND <= self.x <= SUM_BOUND,
            -SUM_BOUND <= self.y <= SUM_BOUND,
            -SUM_BOUND <= self.z <= SUM_BOUND,
            -SUM_BOUND <= rhs.x <= SUM_BOUND,
            -SUM_BOUND <= rhs.y <= SUM_BOUND,
            -SUM_BOUND <= rhs.z <= SUM_BOUND,
        ensures
            r.x == self.x - rhs.x,
            r.y == self.y - rhs.y,
            r.z == self.z - rhs.z,
    {
        Vector { x: self.x - rhs.x, y: self.y - rhs.y, z: self.z - rhs.z }
    }

    pub fn negated(&self) -> (r: Vector)
        requires
            -SUM_BOUND <= self.x <= SUM_BOUND,
            -SUM_BOUND <= self.y <= SUM_BOUND,
            -SUM_BOUND <= self.z <= SUM_BOUND,
        ensures
            r.x == -self.x,
            r.y == -self.y,
            r.z == -self.z,
    {
        Vector { x: -self.x, y: -self.y, z: -self.z }
    }

    /// Fixed-point scaling by `k` raw units.
    pub fn scaled(&self, k: i64) -> (r: Vector)
        requires
            -MAX_FP <= self.x <= MAX_FP,
            -MAX_FP <= self.y <= MAX_FP,
            -MAX_FP <= self.z <= MAX_FP,
            -MAX_FP <= k <= MAX_FP,
        ensures
            r.x == div_to_zero(self.x * k, SCALE as int),
            r.y == div_to_zero(self.y * k, SCALE as int),
            r.z == div_to_zero(self.z * k, SCALE as int),
            (self.wf() && -MAX_COORD <= k <= MAX_COORD) ==> {
                &&& -1_000_000_000_000_000_000 <= r.x <= 1_000_000_000_000_000_000
                &&& -1_000_000_000_000_000_000 <= r.y <= 1_000_000_000_000_000_000
                &&& -1_000_000_000_000_000_000 <= r.z <= 1_000_000_000_000_000_000
            },
    {
        proof {
            if self.wf() && -MAX_COORD <= k <= MAX_COORD {
                lemma_mul_abs_bound(self.x as int, k as int, MAX_COORD as int, MAX_COORD as int);
                lemma_mul_abs_bound(self.y as int, k as int, MAX_COORD as int, MAX_COORD as int);
                lemma_mul_abs_bound(self.z as int, k as int, MAX_COORD as int, MAX_COORD as int);
                lemma_div_to_zero_bound(self.x * k, SCALE as int, 1_000_000_000_000_000_000int);
                lemma_div_to_zero_bound(self.y * k, SCALE as int, 1_000_000_000_000_000_000int);
                lemma_div_to_zero_bound(self.z * k, SCALE as int, 1_000_000_000_000_000_000int);
            }
        }
        Vector { x: fp_mul(self.x, k), y: fp_mul(self.y, k), z: fp_mul(self.z, k) }
    }

    pub fn dot(&self, rhs: Vector) -> (r: i64)
        requires
            self.wf(),
            rhs.wf(),
        ensures
            r == div_to_zero(
                self.x * rhs.x + self.y * rhs.y + self.z * rhs.z,
                SCALE as int,
            ),
            -3_000_000_000_000_000_000 <= r <= 3_000_000_000_000_000_000,
    {
        proof {
            lemma_mul_abs_bound(self.x as int, rhs.x as int, MAX_COORD as int, MAX_COORD as int);
            lemma_mul_abs_bound(self.y as int, rhs.y as int, MAX_COORD as int, MAX_COORD as int);
            lemma_mul_abs_bound(self.z as int, rhs.z as int, MAX_COORD as int, MAX_COORD as int);
            lemma_div_to_zero_bound(
                self.x * rhs.x + self.y * rhs.y + self.z * rhs.z,
                SCALE as int,
                3_000_000_000_000_000_000int,
            );
        }
        let t: i128 = (self.x as i128) * (rhs.x as i128) + (self.y as i128) * (rhs.y as i128)
            + (self.z as i128) * (rhs.z as i128);
        div_trunc(t, SCALE as i128) as i64
    }

    pub fn cross(&self, rhs: Vector) -> (r: Vector)
        requires
            self.wf(),
            rhs.wf(),
        ensures
            r.x == div_to_zero(self.y * rhs.z - self.z * rhs.y, SCALE as int),
            r.y == div_to_zero(self.z * rhs.x - self.x * rhs.z, SCALE as int),
            r.z == div_to_zero(self.x * rhs.y - self.y * rhs.x, SCALE as int),
            -2_000_000_000_000_000_000 <= r.x <= 2_000_000_000_000_000_000,
            -2_000_000_000_000_000_000 <= r.y <= 2_000_000_000_000_000_000,
            -2_000_000_000_000_000_000 <= r.z <= 2_000_000_000_000_000_000,
    {
        proof {
            lemma_mul_abs_bound(self.y as int, rhs.z as int, MAX_COORD as int, MAX_COORD as int);
            lemma_mul_abs_bound(self.z as int, rhs.y as int, MAX_COORD as int, MAX_COORD as int);
            lemma_mul_abs_bound(self.z as int, rhs.x as int, MAX_COORD as int, MAX_COORD as int);
            lemma_mul_abs_bound(self.x as int, rhs.z as int, MAX_COORD as int, MAX_COORD as int);
            lemma_mul_abs_bound(self.x as int, rhs.y as int, MAX_COORD as int, MAX_COORD as int);
            lemma_mul_abs_bound(self.y as int, rhs.x as int, MAX_COORD as int, MAX_COORD as int);
            lemma_div_to_zero_bound(
                self.y * rhs.z - self.z * rhs.y,
                SCALE as int,
                2_000_000_000_000_000_000int,
            );
            lemma_div_to_zero_bound(
                self.z * rhs.x - self.x * rhs.z,
                SCALE as int,
                2_000_000_000_000_000_000int,
            );
            lemma_div_to_zero_bound(
                self.x * rhs.y - self.y * rhs.x,
                SCALE as int,
                2_000_000_000_000_000_000int,
            );
        }
        let cx: i128 = (self.y as i128) * (rhs.z as i128) - (self.z as i128) * (rhs.y as i128);
        let cy: i128 = (self.z as i128) * (rhs.x as i128) - (self.x as i128) * (rhs.z as i128);
        let cz: i128 = (self.x as i128) * (rhs.y as i128) - (self.y as i128) * (rhs.x as i128);
        Vector {
            x: div_trunc(cx, SCALE as i128) as i64,
            y: div_trunc(cy, SCALE as i128) as i64,
            z: div_trunc(cz, SCALE as i128) as i64,
        }
    }

    /// Squared magnitude, rescaled to raw units.
    pub fn mag_squared(&self) -> (r: i64)
        requires
            self.wf(),
        ensures
            r == div_to_zero(self.sq_raw(), SCALE as int),
            r >= 0,
    {
        proof {
            lemma_mul_abs_bound(self.x as int, self.x as int, MAX_COORD as int, MAX_COORD as int);
            lemma_mul_abs_bound(self.y as int, self.y as int, MAX_COORD as int, MAX_COORD as int);
            lemma_mul_abs_bound(self.z as int, self.z as int, MAX_COORD as int, MAX_COORD as int);
            lemma_sq_nonneg(self.x as int);
            lemma_sq_nonneg(self.y as int);
            lemma_sq_nonneg(self.z as int);
            lemma_div_to_zero_bound(self.sq_raw(), SCALE as int, 3_000_000_000_000_000_000int);
            vstd::arithmetic::div_mod::lemma_div_pos_is_pos(self.sq_raw(), SCALE as int);
        }
        let t: i128 = (self.x as i128) * (self.x as i128) + (self.y as i128) * (self.y as i128)
            + (self.z as i128) * (self.z as i128);
        div_trunc(t, SCALE as i128) as i64
    }

    /// Magnitude in raw units: the floor square root of the raw sum of
    /// squares.  Zero exactly for the zero vector.
    pub fn magnitude(&self) -> (r: i64)
        requires
            self.wf(),
        ensures
            r == sqrt_floor(self.sq_raw()),
            r >= 0,
            r == 0 <==> self.is_zero(),
            self.x <= r && -self.x <= r,
            self.y <= r && -self.y <= r,
            self.z <= r && -self.z <= r,
            r <= 2 * MAX_COORD,
    {
        proof {
            lemma_mul_abs_bound(self.x as int, self.x as int, MAX_COORD as int, MAX_COORD as int);
            lemma_mul_abs_bound(self.y as int, self.y as int, MAX_COORD as int, MAX_COORD as int);
            lemma_mul_abs_bound(self.z as int, self.z as int, MAX_COORD as int, MAX_COORD as int);
            lemma_sq_nonneg(self.x as int);
            lemma_sq_nonneg(self.y as int);
            lemma_sq_nonneg(self.z as int);
        }
        let t: u128 = ((self.x as i128) * (self.x as i128) + (self.y as i128) * (self.y as i128)
            + (self.z as i128) * (self.z as i128)) as u128;
        let r: u128 = isqrt(t);
        proof {
            lemma_sqrt_dominates_coord(self.x as int, self.sq_raw(), r as int);
            lemma_sqrt_dominates_coord(self.y as int, self.sq_raw(), r as int);
            lemma_sqrt_dominates_coord(self.z as int, self.sq_raw(), r as int);
            assert((2 * MAX_COORD) * (2 * MAX_COORD) >= self.sq_raw()) by (nonlinear_arith)
                requires
                    -MAX_COORD <= self.x <= MAX_COORD,
                    -MAX_COORD <= self.y <= MAX_COORD,
                    -MAX_COORD <= self.z <= MAX_COORD,
            {
            }
            if r as int > 2 * MAX_COORD {
                assert((r * r) as int > (2 * MAX_COORD) * (2 * MAX_COORD)) by (nonlinear_arith)
                    requires
                        r as int > 2 * MAX_COORD,
                        MAX_COORD > 0,
                {
                }
            }
            if self.is_zero() {
                assert(self.sq_raw() == 0) by (nonlinear_arith)
                    requires
                        self.x == 0 && self.y == 0 && self.z == 0,
                {
                }
            }
            if r == 0 && !self.is_zero() {
                lemma_sq_pos_of_nonzero(self.x as int, self.y as int, self.z as int);
            }
        }
        r as i64
    }

    /// Rescale to magnitude `t` raw units.  Asking a nonzero magnitude
    /// of the zero vector is a defect upstream, ruled out here.
    pub fn with_magnitude(&self, t: i64) -> (r: Vector)
        requires
            self.wf(),
            -MAX_COORD <= t <= MAX_COORD,
            self.is_zero() ==> t == 0,
        ensures
            self.is_zero() ==> r.is_zero(),
            !self.is_zero() ==> {
                let m = sqrt_floor(self.sq_raw());
                &&& r.x == div_to_zero(self.x * t, m)
                &&& r.y == div_to_zero(self.y * t, m)
                &&& r.z == div_to_zero(self.z * t, m)
            },
            -MAX_COORD <= r.x <= MAX_COORD,
            -MAX_COORD <= r.y <= MAX_COORD,
            -MAX_COORD <= r.z <= MAX_COORD,
    {
        let m = self.magnitude();
        if m == 0 {
            Vector { x: 0, y: 0, z: 0 }
        } else {
            proof {
                lemma_mul_abs_bound(self.x as int, t as int, m as int, MAX_COORD as int);
                lemma_mul_abs_bound(self.y as int, t as int, m as int, MAX_COORD as int);
                lemma_mul_abs_bound(self.z as int, t as int, m as int, MAX_COORD as int);
                lemma_div_to_zero_bound(self.x * t, m as int, MAX_COORD as int);
                lemma_div_to_zero_bound(self.y * t, m as int, MAX_COORD as int);
                lemma_div_to_zero_bound(self.z * t, m as int, MAX_COORD as int);
            }
            Vector {
                x: div_trunc((self.x as i128) * (t as i128), m as i128) as i64,
                y: div_trunc((self.y as i128) * (t as i128), m as i128) as i64,
                z: div_trunc((self.z as i128) * (t as i128), m as i128) as i64,
            }
        }
    }

    /// Exact tolerance equality on raw units: componentwise and by
    /// squared distance, both required.
    pub fn equals(&self, rhs: Vector, tol: i64) -> (r: bool)
        requires
            self.wf(),
            rhs.wf(),
            0 <= tol <= MAX_COORD,
        ensures
            r <==> self.spec_equals_tol(rhs, tol as int),
    {
        let dx: i64 = self.x - rhs.x;
        let dy: i64 = self.y - rhs.y;
        let dz: i64 = self.z - rhs.z;
        if dx > tol || -dx > tol {
            proof {
                lemma_mul_abs_bound(dx as int, dx as int, 2 * MAX_COORD as int, 2 * MAX_COORD as int);
            }
            return false;
        }
        if dy > tol || -dy > tol {
            return false;
        }
        if dz > tol || -dz > tol {
            return false;
        }
        proof {
            lemma_mul_abs_bound(dx as int, dx as int, MAX_COORD as int, MAX_COORD as int);
            lemma_mul_abs_bound(dy as int, dy as int, MAX_COORD as int, MAX_COORD as int);
            lemma_mul_abs_bound(dz as int, dz as int, MAX_COORD as int, MAX_COORD as int);
            lemma_mul_abs_bound(tol as int, tol as int, MAX_COORD as int, MAX_COORD as int);
        }
        let sq: i128 = (dx as i128) * (dx as i128) + (dy as i128) * (dy as i128)
            + (dz as i128) * (dz as i128);
        sq < (tol as i128) * (tol as i128)
    }

    /// `equals` at the kernel's default tolerance `LENGTH_EPS`.
    pub fn equals_with_def_tol(&self, rhs: Vector) -> (r: bool)
        requires
            self.wf(),
            rhs.wf(),
        ensures
            r <==> self.spec_equals_tol(rhs, LENGTH_EPS as int),
    {
        self.equals(rhs, LENGTH_EPS)
    }

    /// Cosine of the angle to `b`, on the two unit-rescaled vectors.
    pub fn direction_cosine_with(&self, b: Vector) -> (r: i64)
        requires
            self.wf(),
            b.wf(),
            !self.is_zero(),
            !b.is_zero(),
        ensures
            ({
                let ma = sqrt_floor(self.sq_raw());
                let mb = sqrt_floor(b.sq_raw());
                let ax = div_to_zero(self.x * SCALE, ma);
                let ay = div_to_zero(self.y * SCALE, ma);
                let az = div_to_zero(self.z * SCALE, ma);
                let bx = div_to_zero(b.x * SCALE, mb);
                let by = div_to_zero(b.y * SCALE, mb);
                let bz = div_to_zero(b.z * SCALE, mb);
                r == div_to_zero(ax * bx + ay * by + az * bz, SCALE as int)
            }),
    {
        let a = self.with_magnitude(SCALE);
        let bu = b.with_magnitude(SCALE);
        a.dot(bu)
    }
}

/// Componentwise spec of `cross` (truncated fixed-point products).
pub open spec fn cross_x(a: Vector, b: Vector) -> int {
    div_to_zero(a.y * b.z - a.z * b.y, SCALE as int)
}

pub open spec fn cross_y(a: Vector, b: Vector) -> int {
    div_to_zero(a.z * b.x - a.x * b.z, SCALE as int)
}

pub open spec fn cross_z(a: Vector, b: Vector) -> int {
    div_to_zero(a.x * b.y - a.y * b.x, SCALE as int)
}

/// The unit `z` direction, against which `normal` tests its input.
pub open spec fn spec_unit_z() -> Vector {
    Vector { x: 0, y: 0, z: SCALE }
}

/// The perpendicular candidate that `normal` picks for the unit-scaled
/// direction `u`: the axis of smallest magnitude keeps the cross
/// products far from degenerate.
pub open spec fn normal_candidate(u: Vector) -> Vector {
    let xa = if u.x >= 0 { u.x as int } else { -u.x as int };
    let ya = if u.y >= 0 { u.y as int } else { -u.y as int };
    let za = if u.z >= 0 { u.z as int } else { -u.z as int };
    if u.spec_equals_tol(spec_unit_z(), LENGTH_EPS as int) {
        Vector { x: SCALE, y: 0, z: 0 }
    } else if xa < ya && xa < za {
        Vector { x: 0, y: u.z, z: (-u.y) as i64 }
    } else if ya < za {
        Vector { x: (-u.z) as i64, y: 0, z: u.x }
    } else {
        Vector { x: u.y, y: (-u.x) as i64, z: 0 }
    }
}

impl Vector {
    /// A unit-magnitude perpendicular to `self`, deterministic for each
    /// `which` in `{0, 1}`; the two together with `self` form a frame.
    /// Built on the unit rescaling of `self`, whose largest coordinate
    /// keeps every branch's candidate provably nonzero.
    pub fn normal(&self, which: u32) -> (r: Vector)
        requires
            self.wf(),
            which == 0 || which == 1,
            !self.is_zero(),
        ensures
            ({
                let m0 = sqrt_floor(self.sq_raw());
                let u = (Vector {
                    x: div_to_zero(self.x * SCALE, m0) as i64,
                    y: div_to_zero(self.y * SCALE, m0) as i64,
                    z: div_to_zero(self.z * SCALE, m0) as i64,
                });
                let base = normal_candidate(u);
                let cand = if which == 0 {
                    base
                } else {
                    (Vector {
                        x: cross_x(u, base) as i64,
                        y: cross_y(u, base) as i64,
                        z: cross_z(u, base) as i64,
                    })
                };
                let m = sqrt_floor(cand.sq_raw());
                &&& !cand.is_zero()
                &&& r.x == div_to_zero(cand.x * SCALE, m)
                &&& r.y == div_to_zero(cand.y * SCALE, m)
                &&& r.z == div_to_zero(cand.z * SCALE, m)
            }),
            -MAX_COORD <= r.x <= MAX_COORD,
            -MAX_COORD <= r.y <= MAX_COORD,
            -MAX_COORD <= r.z <= MAX_COORD,
    {
        let u = self.with_magnitude(SCALE);
        proof {
            lemma_unit_rescale_large_coord(*self, u);
            let m0 = sqrt_floor(self.sq_raw());
            lemma_sq_pos_of_nonzero(self.x as int, self.y as int, self.z as int);
            lemma_sqrt_floor(self.sq_raw());
            lemma_sq_nonneg(self.x as int);
            lemma_sq_nonneg(self.y as int);
            lemma_sq_nonneg(self.z as int);
            lemma_sqrt_dominates_coord(self.x as int, self.sq_raw(), m0);
            lemma_sqrt_dominates_coord(self.y as int, self.sq_raw(), m0);
            lemma_sqrt_dominates_coord(self.z as int, self.sq_raw(), m0);
            lemma_mul_abs_bound(self.x as int, SCALE as int, m0, SCALE as int);
            lemma_mul_abs_bound(self.y as int, SCALE as int, m0, SCALE as int);
            lemma_mul_abs_bound(self.z as int, SCALE as int, m0, SCALE as int);
            lemma_div_to_zero_bound(self.x * SCALE, m0, SCALE as int);
            lemma_div_to_zero_bound(self.y * SCALE, m0, SCALE as int);
            lemma_div_to_zero_bound(self.z * SCALE, m0, SCALE as int);
        }
        let xa: i64 = if u.x >= 0 { u.x } else { -u.x };
        let ya: i64 = if u.y >= 0 { u.y } else { -u.y };
        let za: i64 = if u.z >= 0 { u.z } else { -u.z };
        let base: Vector;
        if u.equals_with_def_tol(Vector::new(0, 0, SCALE)) {
            base = Vector { x: SCALE, y: 0, z: 0 };
        } else if xa < ya && xa < za {
            base = Vector { x: 0, y: u.z, z: -u.y };
        } else if ya < za {
            base = Vector { x: -u.z, y: 0, z: u.x };
        } else {
            base = Vector { x: u.y, y: -u.x, z: 0 };
        }
        let cand: Vector;
        if which == 0 {
            cand = base;
            proof {
                lemma_candidate_nonzero(u, base);
            }
        } else {
            proof {
                lemma_cross_candidate_nonzero(u, normal_candidate(u));
            }
            cand = u.cross(base);
        }
        cand.with_magnitude(SCALE)
    }
}

/// After rescaling a nonzero vector to unit magnitude, some coordinate
/// is at least half a unit in magnitude.
proof fn lemma_unit_rescale_large_coord(v: Vector, u: Vector)
    requires
        v.wf(),
        !v.is_zero(),
        ({
            let m0 = sqrt_floor(v.sq_raw());
            &&& u.x == div_to_zero(v.x * SCALE, m0)
            &&& u.y == div_to_zero(v.y * SCALE, m0)
            &&& u.z == div_to_zero(v.z * SCALE, m0)
        }),
    ensures
        u.x >= SCALE / 2 || -u.x >= SCALE / 2 || u.y >= SCALE / 2 || -u.y >= SCALE / 2
            || u.z >= SCALE / 2 || -u.z >= SCALE / 2,
{
    let m0 = sqrt_floor(v.sq_raw());
    lemma_sq_pos_of_nonzero(v.x as int, v.y as int, v.z as int);
    lemma_sqrt_floor(v.sq_raw());
    let xa = if v.x >= 0 { v.x as int } else { -v.x as int };
    let ya = if v.y >= 0 { v.y as int } else { -v.y as int };
    let za = if v.z >= 0 { v.z as int } else { -v.z as int };
    let c = if xa >= ya && xa >= za {
        xa
    } else if ya >= za {
        ya
    } else {
        za
    };
    assert(m0 >= 1) by {
        if m0 == 0 {
            assert(false) by (nonlinear_arith)
                requires
                    v.sq_raw() > 0,
                    m0 == 0,
                    v.sq_raw() < (m0 + 1) * (m0 + 1),
            {
            }
        }
    }
    assert(v.sq_raw() <= 3 * (c * c)) by (nonlinear_arith)
        requires
            -c <= v.x <= c,
            -c <= v.y <= c,
            -c <= v.z <= c,
    {
    }
    assert(m0 <= 2 * c) by {
        if m0 > 2 * c {
            assert(m0 * m0 > (2 * c) * (2 * c)) by (nonlinear_arith)
                requires
                    m0 > 2 * c,
                    c >= 0,
            {
            }
            assert((2 * c) * (2 * c) >= 3 * (c * c)) by (nonlinear_arith) {}
        }
    }
    assert(c * SCALE >= (SCALE / 2) * m0) by (nonlinear_arith)
        requires
            m0 <= 2 * c,
            c >= 0,
            SCALE == 1_000_000,
    {
    }
    assert(div_to_zero(c * SCALE, m0) >= SCALE / 2) by {
        vstd::arithmetic::div_mod::lemma_div_by_multiple(SCALE as int / 2, m0);
        vstd::arithmetic::div_mod::lemma_div_is_ordered((SCALE / 2) * m0, c * SCALE, m0);
        assert(c * SCALE >= 0) by (nonlinear_arith)
            requires
                c >= 0,
        {
        }
    }
    if c == xa {
        lemma_div_to_zero_negation(v.x as int, SCALE as int, m0);
    } else if c == ya {
        lemma_div_to_zero_negation(v.y as int, SCALE as int, m0);
    } else {
        lemma_div_to_zero_negation(v.z as int, SCALE as int, m0);
    }
}

/// `div_to_zero` commutes with negating the numerator's first factor.
proof fn lemma_div_to_zero_negation(a: int, s: int, d: int)
    requires
        d > 0,
    ensures
        div_to_zero((-a) * s, d) == -div_to_zero(a * s, d),
{
    assert((-a) * s == -(a * s)) by (nonlinear_arith) {}
}

/// The branch candidate for a unit-scaled direction is never zero.
proof fn lemma_candidate_nonzero(u: Vector, base: Vector)
    requires
        base == normal_candidate(u),
        -2 * SCALE <= u.x <= 2 * SCALE,
        -2 * SCALE <= u.y <= 2 * SCALE,
        -2 * SCALE <= u.z <= 2 * SCALE,
        u.x >= SCALE / 2 || -u.x >= SCALE / 2 || u.y >= SCALE / 2 || -u.y >= SCALE / 2
            || u.z >= SCALE / 2 || -u.z >= SCALE / 2,
    ensures
        !base.is_zero(),
{
}

/// Crossing the unit-scaled direction with its branch candidate stays
/// nonzero: the two large coordinates give the product a term of at
/// least a quarter unit.
proof fn lemma_cross_candidate_nonzero(u: Vector, base: Vector)
    requires
        base == normal_candidate(u),
        -2 * SCALE <= u.x <= 2 * SCALE,
        -2 * SCALE <= u.y <= 2 * SCALE,
        -2 * SCALE <= u.z <= 2 * SCALE,
        u.x >= SCALE / 2 || -u.x >= SCALE / 2 || u.y >= SCALE / 2 || -u.y >= SCALE / 2
            || u.z >= SCALE / 2 || -u.z >= SCALE / 2,
    ensures
        !(Vector {
            x: cross_x(u, base) as i64,
            y: cross_y(u, base) as i64,
            z: cross_z(u, base) as i64,
        }).is_zero(),
        -8 * SCALE <= cross_x(u, base) <= 8 * SCALE,
        -8 * SCALE <= cross_y(u, base) <= 8 * SCALE,
        -8 * SCALE <= cross_z(u, base) <= 8 * SCALE,
{
    let xa = if u.x >= 0 { u.x as int } else { -u.x as int };
    let ya = if u.y >= 0 { u.y as int } else { -u.y as int };
    let za = if u.z >= 0 { u.z as int } else { -u.z as int };
    assert(-2 * SCALE <= base.x <= 2 * SCALE && -2 * SCALE <= base.y <= 2 * SCALE
        && -2 * SCALE <= base.z <= 2 * SCALE);
    assert(-(8 * SCALE as int * (SCALE as int)) <= u.y * base.z - u.z * base.y
        <= 8 * SCALE as int * (SCALE as int)) by (nonlinear_arith)
        requires
            -2 * SCALE <= u.y <= 2 * SCALE,
            -2 * SCALE <= u.z <= 2 * SCALE,
            -2 * SCALE <= base.y <= 2 * SCALE,
            -2 * SCALE <= base.z <= 2 * SCALE,
            SCALE == 1_000_000,
    {
    }
    assert(-(8 * SCALE as int * (SCALE as int)) <= u.z * base.x - u.x * base.z
        <= 8 * SCALE as int * (SCALE as int)) by (nonlinear_arith)
        requires
            -2 * SCALE <= u.x <= 2 * SCALE,
            -2 * SCALE <= u.z <= 2 * SCALE,
            -2 * SCALE <= base.x <= 2 * SCALE,
            -2 * SCALE <= base.z <= 2 * SCALE,
            SCALE == 1_000_000,
    {
    }
    assert(-(8 * SCALE as int * (SCALE as int)) <= u.x * base.y - u.y * base.x
        <= 8 * SCALE as int * (SCALE as int)) by (nonlinear_arith)
        requires
            -2 * SCALE <= u.x <= 2 * SCALE,
            -2 * SCALE <= u.y <= 2 * SCALE,
            -2 * SCALE <= base.x <= 2 * SCALE,
            -2 * SCALE <= base.y <= 2 * SCALE,
            SCALE == 1_000_000,
    {
    }
    lemma_div_to_zero_bound(u.y * base.z - u.z * base.y, SCALE as int, 8 * SCALE as int);
    lemma_div_to_zero_bound(u.z * base.x - u.x * base.z, SCALE as int, 8 * SCALE as int);
    lemma_div_to_zero_bound(u.x * base.y - u.y * base.x, SCALE as int, 8 * SCALE as int);
    if u.spec_equals_tol(spec_unit_z(), LENGTH_EPS as int) {
        assert(cross_y(u, base) == div_to_zero(u.z * SCALE, SCALE as int));
        assert(u.z * SCALE >= (SCALE - 1) * SCALE) by (nonlinear_arith)
            requires
                u.z >= SCALE - 1,
                SCALE == 1_000_000,
        {
        }
        lemma_div_lower(u.z * SCALE, SCALE as int, (SCALE - 1) as int);
    } else if xa < ya && xa < za {
        let n = u.y * u.y + u.z * u.z;
        assert(cross_x(u, base) == div_to_zero(-n, SCALE as int)) by (nonlinear_arith)
            requires
                base.x == 0 && base.y == u.z && base.z == (-u.y) as i64,
                n == u.y * u.y + u.z * u.z,
                cross_x(u, base) == div_to_zero(u.y * base.z - u.z * base.y, SCALE as int),
                -2 * SCALE <= u.y <= 2 * SCALE,
                -2 * SCALE <= u.z <= 2 * SCALE,
        {
        }
        assert(n >= (SCALE / 2) * (SCALE / 2)) by (nonlinear_arith)
            requires
                ya >= SCALE / 2 || za >= SCALE / 2,
                n == u.y * u.y + u.z * u.z,
                ya == if u.y >= 0 { u.y as int } else { -u.y as int },
                za == if u.z >= 0 { u.z as int } else { -u.z as int },
        {
        }
        lemma_div_lower(n, SCALE as int, (SCALE / 4) as int);
    } else if ya < za {
        let n = u.z * u.z + u.x * u.x;
        assert(cross_y(u, base) == div_to_zero(-n, SCALE as int)) by (nonlinear_arith)
            requires
                base.x == (-u.z) as i64 && base.y == 0 && base.z == u.x,
                n == u.z * u.z + u.x * u.x,
                cross_y(u, base) == div_to_zero(u.z * base.x - u.x * base.z, SCALE as int),
                -2 * SCALE <= u.x <= 2 * SCALE,
                -2 * SCALE <= u.z <= 2 * SCALE,
        {
        }
        assert(n >= (SCALE / 2) * (SCALE / 2)) by (nonlinear_arith)
            requires
                xa >= SCALE / 2 || za >= SCALE / 2,
                n == u.z * u.z + u.x * u.x,
                xa == if u.x >= 0 { u.x as int } else { -u.x as int },
                za == if u.z >= 0 { u.z as int } else { -u.z as int },
        {
        }
        lemma_div_lower(n, SCALE as int, (SCALE / 4) as int);
    } else {
        let n = u.x * u.x + u.y * u.y;
        assert(cross_z(u, base) == div_to_zero(-n, SCALE as int)) by (nonlinear_arith)
            requires
                base.x == u.y && base.y == (-u.x) as i64 && base.z == 0,
                n == u.x * u.x + u.y * u.y,
                cross_z(u, base) == div_to_zero(u.x * base.y - u.y * base.x, SCALE as int),
                -2 * SCALE <= u.x <= 2 * SCALE,
                -2 * SCALE <= u.y <= 2 * SCALE,
        {
        }
        assert(n >= (SCALE / 2) * (SCALE / 2)) by (nonlinear_arith)
            requires
                xa >= SCALE / 2 || ya >= SCALE / 2,
                n == u.x * u.x + u.y * u.y,
                xa == if u.x >= 0 { u.x as int } else { -u.x as int },
                ya == if u.y >= 0 { u.y as int } else { -u.y as int },
        {
        }
        lemma_div_lower(n, SCALE as int, (SCALE / 4) as int);
    }
}

/// A numerator of at least `b * d` divides to at least `b`.
proof fn lemma_div_lower(n: int, d: int, b: int)
    requires
        d > 0,
        b >= 0,
        n >= b * d,
    ensures
        div_to_zero(n, d) >= b,
        div_to_zero(-n, d) <= -b,
{
    vstd::arithmetic::div_mod::lemma_div_by_multiple(b, d);
    vstd::arithmetic::div_mod::lemma_div_is_ordered(b * d, n, d);
    assert(b * d >= 0) by (nonlinear_arith)
        requires
            b >= 0,
            d > 0,
    {
    }
}

/// A rotation, stored as a quaternion in fixed-point raw units.
#[derive(Clone, Copy, PartialEq, Eq, Structural, Debug)]
pub struct Quaternion {
    pub w: i64,
    pub vx: i64,
    pub vy: i64,
    pub vz: i64,
}

/// Componentwise spec of the Hamilton product as the kernel computes
/// it: each scalar product rescaled by `SCALE` with truncation.
pub open spec fn ham_w(a: Quaternion, b: Quaternion) -> int {
    div_to_zero(a.w * b.w, SCALE as int) - div_to_zero(
        a.vx * b.vx + a.vy * b.vy + a.vz * b.vz,
        SCALE as int,
    )
}

pub open spec fn ham_x(a: Quaternion, b: Quaternion) -> int {
    div_to_zero(b.vx * a.w, SCALE as int) + div_to_zero(a.vx * b.w, SCALE as int)
        + div_to_zero(a.vy * b.vz - a.vz * b.vy, SCALE as int)
}

pub open spec fn ham_y(a: Quaternion, b: Quaternion) -> int {
    div_to_zero(b.vy * a.w, SCALE as int) + div_to_zero(a.vy * b.w, SCALE as int)
        + div_to_zero(a.vz * b.vx - a.vx * b.vz, SCALE as int)
}

pub open spec fn ham_z(a: Quaternion, b: Quaternion) -> int {
    div_to_zero(b.vz * a.w, SCALE as int) + div_to_zero(a.vz * b.w, SCALE as int)
        + div_to_zero(a.vx * b.vy - a.vy * b.vx, SCALE as int)
}

/// The frame vectors implied by a rotation, componentwise.
pub open spec fn rot_ux(q: Quaternion) -> int {
    div_to_zero(q.w * q.w + q.vx * q.vx - q.vy * q.vy - q.vz * q.vz, SCALE as int)
}

pub open spec fn rot_uy(q: Quaternion) -> int {
    div_to_zero(2 * (q.w * q.vz + q.vx * q.vy), SCALE as int)
}

pub open spec fn rot_uz(q: Quaternion) -> int {
    div_to_zero(2 * (q.vx * q.vz - q.w * q.vy), SCALE as int)
}

pub open spec fn rot_vx(q: Quaternion) -> int {
    div_to_zero(2 * (q.vx * q.vy - q.w * q.vz), SCALE as int)
}

pub open spec fn rot_vy(q: Quaternion) -> int {
    div_to_zero(q.w * q.w - q.vx * q.vx + q.vy * q.vy - q.vz * q.vz, SCALE as int)
}

pub open spec fn rot_vz(q: Quaternion) -> int {
    div_to_zero(2 * (q.w * q.vx + q.vy * q.vz), SCALE as int)
}

pub open spec fn rot_nx(q: Quaternion) -> int {
    div_to_zero(2 * (q.w * q.vy + q.vx * q.vz), SCALE as int)
}

pub open spec fn rot_ny(q: Quaternion) -> int {
    div_to_zero(2 * (q.vy * q.vz - q.w * q.vx), SCALE as int)
}

pub open spec fn rot_nz(q: Quaternion) -> int {
    div_to_zero(q.w * q.w - q.vx * q.vx - q.vy * q.vy + q.vz * q.vz, SCALE as int)
}

impl Quaternion {
    /// Components admissible for products.
    pub open spec fn wf(self) -> bool {
        &&& -MAX_COORD <= self.w <= MAX_COORD
        &&& -MAX_COORD <= self.vx <= MAX_COORD
        &&& -MAX_COORD <= self.vy <= MAX_COORD
        &&& -MAX_COORD <= self.vz <= MAX_COORD
    }

    /// Components of a normalized (or nearly normalized) rotation.
    pub open spec fn unitish(self) -> bool {
        &&& -2 * SCALE <= self.w <= 2 * SCALE
        &&& -2 * SCALE <= self.vx <= 2 * SCALE
        &&& -2 * SCALE <= self.vy <= 2 * SCALE
        &&& -2 * SCALE <= self.vz <= 2 * SCALE
    }

    /// Raw sum of squared components.
    pub open spec fn sq_raw(self) -> int {
        self.w * self.w + self.vx * self.vx + self.vy * self.vy + self.vz * self.vz
    }

    pub open spec fn is_zero(self) -> bool {
        self.w == 0 && self.vx == 0 && self.vy == 0 && self.vz == 0
    }

    /// The identity rotation.
    pub open spec fn spec_identity() -> Quaternion {
        Quaternion { w: SCALE, vx: 0, vy: 0, vz: 0 }
    }

    pub fn new(w: i64, vx: i64, vy: i64, vz: i64) -> (r: Quaternion)
        ensures
            r == (Quaternion { w, vx, vy, vz }),
    {
        Quaternion { w, vx, vy, vz }
    }

    pub fn identity() -> (r: Quaternion)
        ensures
            r == Quaternion::spec_identity(),
    {
        Quaternion { w: SCALE, vx: 0, vy: 0, vz: 0 }
    }

    pub fn plus(&self, rhs: Quaternion) -> (r: Quaternion)
        requires
            self.wf(),
            rhs.wf(),
        ensures
            r.w == self.w + rhs.w,
            r.vx == self.vx + rhs.vx,
            r.vy == self.vy + rhs.vy,
            r.vz == self.vz + rhs.vz,
    {
        Quaternion {
            w: self.w + rhs.w,
            vx: self.vx + rhs.vx,
            vy: self.vy + rhs.vy,
            vz: self.vz + rhs.vz,
        }
    }

    pub fn minus(&self, rhs: Quaternion) -> (r: Quaternion)
        requires
            self.wf(),
            rhs.wf(),
        ensures
            r.w == self.w - rhs.w,
            r.vx == self.vx - rhs.vx,
            r.vy == self.vy - rhs.vy,
            r.vz == self.vz - rhs.vz,
    {
        Quaternion {
            w: self.w - rhs.w,
            vx: self.vx - rhs.vx,
            vy: self.vy - rhs.vy,
            vz: self.vz - rhs.vz,
        }
    }

    /// Fixed-point scaling of all four components.
    pub fn scaled(&self, k: i64) -> (r: Quaternion)
        requires
            self.wf(),
            -MAX_FP <= k <= MAX_FP,
        ensures
            r.w == div_to_zero(self.w * k, SCALE as int),
            r.vx == div_to_zero(self.vx * k, SCALE as int),
            r.vy == div_to_zero(self.vy * k, SCALE as int),
            r.vz == div_to_zero(self.vz * k, SCALE as int),
    {
        Quaternion {
            w: fp_mul(self.w, k),
            vx: fp_mul(self.vx, k),
            vy: fp_mul(self.vy, k),
            vz: fp_mul(self.vz, k),
        }
    }

    /// Hamilton product: composing `self` after `b` composes the two
    /// rotations.
    pub fn times(&self, b: Quaternion) -> (r: Quaternion)
        requires
            self.wf(),
            b.wf(),
        ensures
            r.w == ham_w(*self, b),
            r.vx == ham_x(*self, b),
            r.vy == ham_y(*self, b),
            r.vz == ham_z(*self, b),
    {
        let sa: i64 = self.w;
        let sb: i64 = b.w;
        let va = Vector { x: self.vx, y: self.vy, z: self.vz };
        let vb = Vector { x: b.vx, y: b.vy, z: b.vz };
        let vr = vb.scaled(sa).plus(va.scaled(sb)).plus(va.cross(vb));
        proof {
            lemma_mul_abs_bound(self.w as int, b.w as int, MAX_COORD as int, MAX_COORD as int);
            lemma_div_to_zero_bound(self.w * b.w, SCALE as int, 1_000_000_000_000_000_000int);
        }
        let w: i64 = fp_mul(sa, sb) - va.dot(vb);
        Quaternion { w, vx: vr.x, vy: vr.y, vz: vr.z }
    }

    /// Magnitude in raw units, as the floor square root of the raw sum
    /// of squares.
    pub fn magnitude(&self) -> (r: i64)
        requires
            self.wf(),
        ensures
            r == sqrt_floor(self.sq_raw()),
            r >= 0,
            r <= 3 * MAX_COORD,
            r == 0 <==> self.is_zero(),
            self.w <= r && -self.w <= r,
            self.vx <= r && -self.vx <= r,
            self.vy <= r && -self.vy <= r,
            self.vz <= r && -self.vz <= r,
    {
        proof {
            lemma_mul_abs_bound(self.w as int, self.w as int, MAX_COORD as int, MAX_COORD as int);
            lemma_mul_abs_bound(self.vx as int, self.vx as int, MAX_COORD as int, MAX_COORD as int);
            lemma_mul_abs_bound(self.vy as int, self.vy as int, MAX_COORD as int, MAX_COORD as int);
            lemma_mul_abs_bound(self.vz as int, self.vz as int, MAX_COORD as int, MAX_COORD as int);
            lemma_sq_nonneg(self.w as int);
            lemma_sq_nonneg(self.vx as int);
            lemma_sq_nonneg(self.vy as int);
            lemma_sq_nonneg(self.vz as int);
        }
        let t: u128 = ((self.w as i128) * (self.w as i128) + (self.vx as i128) * (self.vx as i128)
            + (self.vy as i128) * (self.vy as i128) + (self.vz as i128) * (self.vz as i128))
            as u128;
        let r: u128 = isqrt(t);
        proof {
            lemma_sqrt_dominates_coord(self.w as int, self.sq_raw(), r as int);
            lemma_sqrt_dominates_coord(self.vx as int, self.sq_raw(), r as int);
            lemma_sqrt_dominates_coord(self.vy as int, self.sq_raw(), r as int);
            lemma_sqrt_dominates_coord(self.vz as int, self.sq_raw(), r as int);
            assert((3 * MAX_COORD) * (3 * MAX_COORD) >= self.sq_raw()) by (nonlinear_arith)
                requires
                    -MAX_COORD <= self.w <= MAX_COORD,
                    -MAX_COORD <= self.vx <= MAX_COORD,
                    -MAX_COORD <= self.vy <= MAX_COORD,
                    -MAX_COORD <= self.vz <= MAX_COORD,
            {
            }
            if r as int > 3 * MAX_COORD {
                assert((r * r) as int > (3 * MAX_COORD) * (3 * MAX_COORD)) by (nonlinear_arith)
                    requires
                        r as int > 3 * MAX_COORD,
                        MAX_COORD > 0,
                {
                }
            }
            if self.is_zero() {
                assert(self.sq_raw() == 0) by (nonlinear_arith)
                    requires
                        self.w == 0 && self.vx == 0 && self.vy == 0 && self.vz == 0,
                {
                }
            }
            if r == 0 && !self.is_zero() {
                lemma_q_sq_pos(*self);
            }
        }
        r as i64
    }

    /// Rescale to magnitude `s` raw units; the zero quaternion only
    /// admits a zero target.
    pub fn with_magnitude(&self, s: i64) -> (r: Quaternion)
        requires
            self.wf(),
            -MAX_COORD <= s <= MAX_COORD,
            self.is_zero() ==> s == 0,
        ensures
            self.is_zero() ==> r.is_zero(),
            !self.is_zero() ==> {
                let m = sqrt_floor(self.sq_raw());
                &&& r.w == div_to_zero(self.w * s, m)
                &&& r.vx == div_to_zero(self.vx * s, m)
                &&& r.vy == div_to_zero(self.vy * s, m)
                &&& r.vz == div_to_zero(self.vz * s, m)
            },
            ({
                let sa = if s >= 0 { s as int } else { -s as int };
                &&& -sa <= r.w <= sa
                &&& -sa <= r.vx <= sa
                &&& -sa <= r.vy <= sa
                &&& -sa <= r.vz <= sa
            }),
    {
        let m = self.magnitude();
        if m == 0 {
            Quaternion { w: 0, vx: 0, vy: 0, vz: 0 }
        } else {
            proof {
                let sa = if s >= 0 { s as int } else { -s as int };
                lemma_mul_abs_bound(self.w as int, s as int, MAX_COORD as int, MAX_COORD as int);
                lemma_mul_abs_bound(self.vx as int, s as int, MAX_COORD as int, MAX_COORD as int);
                lemma_mul_abs_bound(self.vy as int, s as int, MAX_COORD as int, MAX_COORD as int);
                lemma_mul_abs_bound(self.vz as int, s as int, MAX_COORD as int, MAX_COORD as int);
                lemma_mul_abs_bound(self.w as int, s as int, m as int, sa);
                lemma_mul_abs_bound(self.vx as int, s as int, m as int, sa);
                lemma_mul_abs_bound(self.vy as int, s as int, m as int, sa);
                lemma_mul_abs_bound(self.vz as int, s as int, m as int, sa);
                lemma_div_to_zero_bound(self.w * s, m as int, sa);
                lemma_div_to_zero_bound(self.vx * s, m as int, sa);
                lemma_div_to_zero_bound(self.vy * s, m as int, sa);
                lemma_div_to_zero_bound(self.vz * s, m as int, sa);
            }
            Quaternion {
                w: div_trunc((self.w as i128) * (s as i128), m as i128) as i64,
                vx: div_trunc((self.vx as i128) * (s as i128), m as i128) as i64,
                vy: div_trunc((self.vy as i128) * (s as i128), m as i128) as i64,
                vz: div_trunc((self.vz as i128) * (s as i128), m as i128) as i64,
            }
        }
    }

    /// First frame vector of the rotation.
    pub fn rotation_u(&self) -> (r: Vector)
        requires
            self.wf(),
        ensures
            r.x == rot_ux(*self),
            r.y == rot_uy(*self),
            r.z == rot_uz(*self),
    {
        proof {
            lemma_q_products_bound(*self);
        }
        let t1: i128 = (self.w as i128) * (self.w as i128) + (self.vx as i128) * (self.vx as i128)
            - (self.vy as i128) * (self.vy as i128) - (self.vz as i128) * (self.vz as i128);
        let t2: i128 = 2 * ((self.w as i128) * (self.vz as i128) + (self.vx as i128) * (self.vy
            as i128));
        let t3: i128 = 2 * ((self.vx as i128) * (self.vz as i128) - (self.w as i128) * (self.vy
            as i128));
        Vector {
            x: div_trunc(t1, SCALE as i128) as i64,
            y: div_trunc(t2, SCALE as i128) as i64,
            z: div_trunc(t3, SCALE as i128) as i64,
        }
    }

    /// Second frame vector of the rotation.
    pub fn rotation_v(&self) -> (r: Vector)
        requires
            self.wf(),
        ensures
            r.x == rot_vx(*self),
            r.y == rot_vy(*self),
            r.z == rot_vz(*self),
    {
        proof {
            lemma_q_products_bound(*self);
        }
        let t1: i128 = 2 * ((self.vx as i128) * (self.vy as i128) - (self.w as i128) * (self.vz
            as i128));
        let t2: i128 = (self.w as i128) * (self.w as i128) - (self.vx as i128) * (self.vx as i128)
            + (self.vy as i128) * (self.vy as i128) - (self.vz as i128) * (self.vz as i128);
        let t3: i128 = 2 * ((self.w as i128) * (self.vx as i128) + (self.vy as i128) * (self.vz
            as i128));
        Vector {
            x: div_trunc(t1, SCALE as i128) as i64,
            y: div_trunc(t2, SCALE as i128) as i64,
            z: div_trunc(t3, SCALE as i128) as i64,
        }
    }

    /// Third frame vector (the workplane normal) of the rotation.
    pub fn rotation_n(&self) -> (r: Vector)
        requires
            self.wf(),
        ensures
            r.x == rot_nx(*self),
            r.y == rot_ny(*self),
            r.z == rot_nz(*self),
    {
        proof {
            lemma_q_products_bound(*self);
        }
        let t1: i128 = 2 * ((self.w as i128) * (self.vy as i128) + (self.vx as i128) * (self.vz
            as i128));
        let t2: i128 = 2 * ((self.vy as i128) * (self.vz as i128) - (self.w as i128) * (self.vx
            as i128));
        let t3: i128 = (self.w as i128) * (self.w as i128) - (self.vx as i128) * (self.vx as i128)
            - (self.vy as i128) * (self.vy as i128) + (self.vz as i128) * (self.vz as i128);
        Vector {
            x: div_trunc(t1, SCALE as i128) as i64,
            y: div_trunc(t2, SCALE as i128) as i64,
            z: div_trunc(t3, SCALE as i128) as i64,
        }
    }

    /// Rotate a point by this (normalized) rotation's frame.
    pub fn rotate(&self, p: Vector) -> (r: Vector)
        requires
            self.unitish(),
            p.wf(),
        ensures
            r.x == div_to_zero(rot_ux(*self) * p.x, SCALE as int) + div_to_zero(
                rot_vx(*self) * p.y,
                SCALE as int,
            ) + div_to_zero(rot_nx(*self) * p.z, SCALE as int),
            r.y == div_to_zero(rot_uy(*self) * p.x, SCALE as int) + div_to_zero(
                rot_vy(*self) * p.y,
                SCALE as int,
            ) + div_to_zero(rot_ny(*self) * p.z, SCALE as int),
            r.z == div_to_zero(rot_uz(*self) * p.x, SCALE as int) + div_to_zero(
                rot_vz(*self) * p.y,
                SCALE as int,
            ) + div_to_zero(rot_nz(*self) * p.z, SCALE as int),
            -48_000_000_000_000 <= r.x <= 48_000_000_000_000,
            -48_000_000_000_000 <= r.y <= 48_000_000_000_000,
            -48_000_000_000_000 <= r.z <= 48_000_000_000_000,
    {
        proof {
            lemma_unitish_rot_bounds(*self);
            lemma_mul_abs_bound(rot_ux(*self), p.x as int, 16 * SCALE as int, MAX_COORD as int);
            lemma_mul_abs_bound(rot_uy(*self), p.x as int, 16 * SCALE as int, MAX_COORD as int);
            lemma_mul_abs_bound(rot_uz(*self), p.x as int, 16 * SCALE as int, MAX_COORD as int);
            lemma_mul_abs_bound(rot_vx(*self), p.y as int, 16 * SCALE as int, MAX_COORD as int);
            lemma_mul_abs_bound(rot_vy(*self), p.y as int, 16 * SCALE as int, MAX_COORD as int);
            lemma_mul_abs_bound(rot_vz(*self), p.y as int, 16 * SCALE as int, MAX_COORD as int);
            lemma_mul_abs_bound(rot_nx(*self), p.z as int, 16 * SCALE as int, MAX_COORD as int);
            lemma_mul_abs_bound(rot_ny(*self), p.z as int, 16 * SCALE as int, MAX_COORD as int);
            lemma_mul_abs_bound(rot_nz(*self), p.z as int, 16 * SCALE as int, MAX_COORD as int);
            lemma_div_to_zero_bound(rot_ux(*self) * p.x, SCALE as int, 16_000_000_000_000int);
            lemma_div_to_zero_bound(rot_uy(*self) * p.x, SCALE as int, 16_000_000_000_000int);
            lemma_div_to_zero_bound(rot_uz(*self) * p.x, SCALE as int, 16_000_000_000_000int);
            lemma_div_to_zero_bound(rot_vx(*self) * p.y, SCALE as int, 16_000_000_000_000int);
            lemma_div_to_zero_bound(rot_vy(*self) * p.y, SCALE as int, 16_000_000_000_000int);
            lemma_div_to_zero_bound(rot_vz(*self) * p.y, SCALE as int, 16_000_000_000_000int);
            lemma_div_to_zero_bound(rot_nx(*self) * p.z, SCALE as int, 16_000_000_000_000int);
            lemma_div_to_zero_bound(rot_ny(*self) * p.z, SCALE as int, 16_000_000_000_000int);
            lemma_div_to_zero_bound(rot_nz(*self) * p.z, SCALE as int, 16_000_000_000_000int);
        }
        let u = self.rotation_u();
        let v = self.rotation_v();
        let n = self.rotation_n();
        let a = u.scaled(p.x);
        let b = v.scaled(p.y);
        let c = n.scaled(p.z);
        a.plus(b).plus(c)
    }

    /// The inverse rotation: the conjugate, renormalized.
    pub fn inverse(&self) -> (r: Quaternion)
        requires
            self.wf(),
            !self.is_zero(),
        ensures
            ({
                let m = sqrt_floor(self.sq_raw());
                &&& r.w == div_to_zero(self.w * SCALE, m)
                &&& r.vx == div_to_zero(-self.vx * SCALE, m)
                &&& r.vy == div_to_zero(-self.vy * SCALE, m)
                &&& r.vz == div_to_zero(-self.vz * SCALE, m)
            }),
            r.unitish(),
    {
        let c = Quaternion { w: self.w, vx: -self.vx, vy: -self.vy, vz: -self.vz };
        proof {
            assert(c.sq_raw() == self.sq_raw()) by (nonlinear_arith)
                requires
                    c.w == self.w,
                    c.vx as int == -self.vx as int,
                    c.vy as int == -self.vy as int,
                    c.vz as int == -self.vz as int,
            {
            }
        }
        c.with_magnitude(SCALE)
    }
}

/// Products of two admissible quaternion components stay in `i128`
/// range, and their 4-term combinations divide down into `i64` range.
#[verifier::rlimit(50)]
proof fn lemma_q_products_bound(q: Quaternion)
    requires
        q.wf(),
    ensures
        -(MAX_COORD * MAX_COORD) <= q.w * q.w <= MAX_COORD * MAX_COORD,
        -(MAX_COORD * MAX_COORD) <= q.vx * q.vx <= MAX_COORD * MAX_COORD,
        -(MAX_COORD * MAX_COORD) <= q.vy * q.vy <= MAX_COORD * MAX_COORD,
        -(MAX_COORD * MAX_COORD) <= q.vz * q.vz <= MAX_COORD * MAX_COORD,
        -(MAX_COORD * MAX_COORD) <= q.w * q.vx <= MAX_COORD * MAX_COORD,
        -(MAX_COORD * MAX_COORD) <= q.w * q.vy <= MAX_COORD * MAX_COORD,
        -(MAX_COORD * MAX_COORD) <= q.w * q.vz <= MAX_COORD * MAX_COORD,
        -(MAX_COORD * MAX_COORD) <= q.vx * q.vy <= MAX_COORD * MAX_COORD,
        -(MAX_COORD * MAX_COORD) <= q.vx * q.vz <= MAX_COORD * MAX_COORD,
        -(MAX_COORD * MAX_COORD) <= q.vy * q.vz <= MAX_COORD * MAX_COORD,
        -4_000_000_000_000_000_000
            <= div_to_zero(q.w * q.w + q.vx * q.vx - q.vy * q.vy - q.vz * q.vz, SCALE as int)
            <= 4_000_000_000_000_000_000,
        -4_000_000_000_000_000_000
            <= div_to_zero(q.w * q.w - q.vx * q.vx + q.vy * q.vy - q.vz * q.vz, SCALE as int)
            <= 4_000_000_000_000_000_000,
        -4_000_000_000_000_000_000
            <= div_to_zero(q.w * q.w - q.vx * q.vx - q.vy * q.vy + q.vz * q.vz, SCALE as int)
            <= 4_000_000_000_000_000_000,
        -4_000_000_000_000_000_000 <= div_to_zero(2 * (q.w * q.vz + q.vx * q.vy), SCALE as int)
            <= 4_000_000_000_000_000_000,
        -4_000_000_000_000_000_000 <= div_to_zero(2 * (q.vx * q.vz - q.w * q.vy), SCALE as int)
            <= 4_000_000_000_000_000_000,
        -4_000_000_000_000_000_000 <= div_to_zero(2 * (q.vx * q.vy - q.w * q.vz), SCALE as int)
            <= 4_000_000_000_000_000_000,
        -4_000_000_000_000_000_000 <= div_to_zero(2 * (q.w * q.vx + q.vy * q.vz), SCALE as int)
            <= 4_000_000_000_000_000_000,
        -4_000_000_000_000_000_000 <= div_to_zero(2 * (q.w * q.vy + q.vx * q.vz), SCALE as int)
            <= 4_000_000_000_000_000_000,
        -4_000_000_000_000_000_000 <= div_to_zero(2 * (q.vy * q.vz - q.w * q.vx), SCALE as int)
            <= 4_000_000_000_000_000_000,
{
    lemma_mul_abs_bound(q.w as int, q.w as int, MAX_COORD as int, MAX_COORD as int);
    lemma_mul_abs_bound(q.vx as int, q.vx as int, MAX_COORD as int, MAX_COORD as int);
    lemma_mul_abs_bound(q.vy as int, q.vy as int, MAX_COORD as int, MAX_COORD as int);
    lemma_mul_abs_bound(q.vz as int, q.vz as int, MAX_COORD as int, MAX_COORD as int);
    lemma_mul_abs_bound(q.w as int, q.vx as int, MAX_COORD as int, MAX_COORD as int);
    lemma_mul_abs_bound(q.w as int, q.vy as int, MAX_COORD as int, MAX_COORD as int);
    lemma_mul_abs_bound(q.w as int, q.vz as int, MAX_COORD as int, MAX_COORD as int);
    lemma_mul_abs_bound(q.vx as int, q.vy as int, MAX_COORD as int, MAX_COORD as int);
    lemma_mul_abs_bound(q.vx as int, q.vz as int, MAX_COORD as int, MAX_COORD as int);
    lemma_mul_abs_bound(q.vy as int, q.vz as int, MAX_COORD as int, MAX_COORD as int);
    lemma_div_to_zero_bound(
        q.w * q.w + q.vx * q.vx - q.vy * q.vy - q.vz * q.vz,
        SCALE as int,
        4_000_000_000_000_000_000int,
    );
    lemma_div_to_zero_bound(
        q.w * q.w - q.vx * q.vx + q.vy * q.vy - q.vz * q.vz,
        SCALE as int,
        4_000_000_000_000_000_000int,
    );
    lemma_div_to_zero_bound(
        q.w * q.w - q.vx * q.vx - q.vy * q.vy + q.vz * q.vz,
        SCALE as int,
        4_000_000_000_000_000_000int,
    );
    lemma_div_to_zero_bound(2 * (q.w * q.vz + q.vx * q.vy), SCALE as int, 4_000_000_000_000_000_000int);
    lemma_div_to_zero_bound(2 * (q.vx * q.vz - q.w * q.vy), SCALE as int, 4_000_000_000_000_000_000int);
    lemma_div_to_zero_bound(2 * (q.vx * q.vy - q.w * q.vz), SCALE as int, 4_000_000_000_000_000_000int);
    lemma_div_to_zero_bound(2 * (q.w * q.vx + q.vy * q.vz), SCALE as int, 4_000_000_000_000_000_000int);
    lemma_div_to_zero_bound(2 * (q.w * q.vy + q.vx * q.vz), SCALE as int, 4_000_000_000_000_000_000int);
    lemma_div_to_zero_bound(2 * (q.vy * q.vz - q.w * q.vx), SCALE as int, 4_000_000_000_000_000_000int);
}

/// For a nearly normalized rotation the frame-vector components stay
/// within sixteen units, so rotating admissible points cannot overflow.
#[verifier::rlimit(50)]
proof fn lemma_unitish_rot_bounds(q: Quaternion)
    requires
        q.unitish(),
    ensures
        -16 * SCALE <= rot_ux(q) <= 16 * SCALE,
        -16 * SCALE <= rot_uy(q) <= 16 * SCALE,
        -16 * SCALE <= rot_uz(q) <= 16 * SCALE,
        -16 * SCALE <= rot_vx(q) <= 16 * SCALE,
        -16 * SCALE <= rot_vy(q) <= 16 * SCALE,
        -16 * SCALE <= rot_vz(q) <= 16 * SCALE,
        -16 * SCALE <= rot_nx(q) <= 16 * SCALE,
        -16 * SCALE <= rot_ny(q) <= 16 * SCALE,
        -16 * SCALE <= rot_nz(q) <= 16 * SCALE,
{
    assert(-(16_000_000int * 1_000_000int) <= q.w * q.w + q.vx * q.vx - q.vy * q.vy - q.vz
        * q.vz <= 16_000_000int * 1_000_000int && -(16_000_000int * 1_000_000int) <= q.w * q.w
        - q.vx * q.vx + q.vy * q.vy - q.vz * q.vz <= 16_000_000int * 1_000_000int && -(
    16_000_000int * 1_000_000int) <= q.w * q.w - q.vx * q.vx - q.vy * q.vy + q.vz * q.vz
        <= 16_000_000int * 1_000_000int) by (nonlinear_arith)
        requires
            -2_000_000 <= q.w <= 2_000_000,
            -2_000_000 <= q.vx <= 2_000_000,
            -2_000_000 <= q.vy <= 2_000_000,
            -2_000_000 <= q.vz <= 2_000_000,
    {
    }
    assert(-(16_000_000int * 1_000_000int) <= 2 * (q.w * q.vz + q.vx * q.vy) <= 16_000_000int
        * 1_000_000int && -(16_000_000int * 1_000_000int) <= 2 * (q.vx * q.vz - q.w * q.vy)
        <= 16_000_000int * 1_000_000int && -(16_000_000int * 1_000_000int) <= 2 * (q.vx * q.vy
        - q.w * q.vz) <= 16_000_000int * 1_000_000int) by (nonlinear_arith)
        requires
            -2_000_000 <= q.w <= 2_000_000,
            -2_000_000 <= q.vx <= 2_000_000,
            -2_000_000 <= q.vy <= 2_000_000,
            -2_000_000 <= q.vz <= 2_000_000,
    {
    }
    assert(-(16_000_000int * 1_000_000int) <= 2 * (q.w * q.vx + q.vy * q.vz) <= 16_000_000int
        * 1_000_000int && -(16_000_000int * 1_000_000int) <= 2 * (q.w * q.vy + q.vx * q.vz)
        <= 16_000_000int * 1_000_000int && -(16_000_000int * 1_000_000int) <= 2 * (q.vy * q.vz
        - q.w * q.vx) <= 16_000_000int * 1_000_000int) by (nonlinear_arith)
        requires
            -2_000_000 <= q.w <= 2_000_000,
            -2_000_000 <= q.vx <= 2_000_000,
            -2_000_000 <= q.vy <= 2_000_000,
            -2_000_000 <= q.vz <= 2_000_000,
    {
    }
    lemma_div_to_zero_bound(
        q.w * q.w + q.vx * q.vx - q.vy * q.vy - q.vz * q.vz,
        SCALE as int,
        16_000_000int,
    );
    lemma_div_to_zero_bound(
        q.w * q.w - q.vx * q.vx + q.vy * q.vy - q.vz * q.vz,
        SCALE as int,
        16_000_000int,
    );
    lemma_div_to_zero_bound(
        q.w * q.w - q.vx * q.vx - q.vy * q.vy + q.vz * q.vz,
        SCALE as int,
        16_000_000int,
    );
    lemma_div_to_zero_bound(2 * (q.w * q.vz + q.vx * q.vy), SCALE as int, 16_000_000int);
    lemma_div_to_zero_bound(2 * (q.vx * q.vz - q.w * q.vy), SCALE as int, 16_000_000int);
    lemma_div_to_zero_bound(2 * (q.vx * q.vy - q.w * q.vz), SCALE as int, 16_000_000int);
    lemma_div_to_zero_bound(2 * (q.w * q.vx + q.vy * q.vz), SCALE as int, 16_000_000int);
    lemma_div_to_zero_bound(2 * (q.w * q.vy + q.vx * q.vz), SCALE as int, 16_000_000int);
    lemma_div_to_zero_bound(2 * (q.vy * q.vz - q.w * q.vx), SCALE as int, 16_000_000int);
}

proof fn lemma_q_sq_pos(q: Quaternion)
    requires
        !q.is_zero(),
    ensures
        q.sq_raw() > 0,
{
    lemma_sq_nonneg(q.w as int);
    lemma_sq_nonneg(q.vx as int);
    lemma_sq_nonneg(q.vy as int);
    lemma_sq_nonneg(q.vz as int);
    assert(q.w != 0 ==> q.w * q.w > 0) by (nonlinear_arith) {}
    assert(q.vx != 0 ==> q.vx * q.vx > 0) by (nonlinear_arith) {}
    assert(q.vy != 0 ==> q.vy * q.vy > 0) by (nonlinear_arith) {}
    assert(q.vz != 0 ==> q.vz * q.vz > 0) by (nonlinear_arith) {}
}

/// Composing a rotation with its conjugate cancels exactly: the
/// truncated Hamilton product of `conj(q)` and `q` has a zero vector
/// part, and its scalar part is the rescaled squared magnitude, never
/// negative.  This is the algebraic heart of the inverse operation.
pub proof fn lemma_conjugate_product_cancels(q: Quaternion, c: Quaternion)
    requires
        q.wf(),
        c.w == q.w,
        c.vx as int == -q.vx as int,
        c.vy as int == -q.vy as int,
        c.vz as int == -q.vz as int,
    ensures
        ham_x(c, q) == 0,
        ham_y(c, q) == 0,
        ham_z(c, q) == 0,
        ham_w(c, q) == div_to_zero(q.w * q.w, SCALE as int) + div_to_zero(
            q.vx * q.vx + q.vy * q.vy + q.vz * q.vz,
            SCALE as int,
        ),
        ham_w(c, q) >= 0,
{
    assert(q.vx * c.w == -(c.vx * q.w) && c.vy * q.vz - c.vz * q.vy == 0) by (nonlinear_arith)
        requires
            c.w == q.w,
            c.vx as int == -q.vx as int,
            c.vy as int == -q.vy as int,
            c.vz as int == -q.vz as int,
    {
    }
    assert(q.vy * c.w == -(c.vy * q.w) && c.vz * q.vx - c.vx * q.vz == 0) by (nonlinear_arith)
        requires
            c.w == q.w,
            c.vx as int == -q.vx as int,
            c.vy as int == -q.vy as int,
            c.vz as int == -q.vz as int,
    {
    }
    assert(q.vz * c.w == -(c.vz * q.w) && c.vx * q.vy - c.vy * q.vx == 0) by (nonlinear_arith)
        requires
            c.w == q.w,
            c.vx as int == -q.vx as int,
            c.vy as int == -q.vy as int,
            c.vz as int == -q.vz as int,
    {
    }
    lemma_div_to_zero_neg(c.vx * q.w, SCALE as int);
    lemma_div_to_zero_neg(c.vy * q.w, SCALE as int);
    lemma_div_to_zero_neg(c.vz * q.w, SCALE as int);
    assert(c.vx * q.vx + c.vy * q.vy + c.vz * q.vz == -(q.vx * q.vx + q.vy * q.vy + q.vz
        * q.vz)) by (nonlinear_arith)
        requires
            c.vx as int == -q.vx as int,
            c.vy as int == -q.vy as int,
            c.vz as int == -q.vz as int,
    {
    }
    lemma_div_to_zero_neg(q.vx * q.vx + q.vy * q.vy + q.vz * q.vz, SCALE as int);
    assert(c.w * q.w == q.w * q.w) by (nonlinear_arith)
        requires
            c.w == q.w,
    {
    }
    lemma_sq_nonneg(q.w as int);
    lemma_sq_nonneg(q.vx as int);
    lemma_sq_nonneg(q.vy as int);
    lemma_sq_nonneg(q.vz as int);
    vstd::arithmetic::div_mod::lemma_div_pos_is_pos(q.w * q.w, SCALE as int);
    vstd::arithmetic::div_mod::lemma_div_pos_is_pos(
        q.vx * q.vx + q.vy * q.vy + q.vz * q.vz,
        SCALE as int,
    );
}

/// `div_to_zero` is odd in its numerator.
proof fn lemma_div_to_zero_neg(n: int, d: int)
    requires
        d > 0,
    ensures
        div_to_zero(-n, d) == -div_to_zero(n, d),
{
}

proof fn lemma_sq_nonneg(a: int)
    ensures
        a * a >= 0,
{
    assert(a * a >= 0) by (nonlinear_arith) {}
}

proof fn lemma_sq_pos_of_nonzero(x: int, y: int, z: int)
    requires
        x != 0 || y != 0 || z != 0,
    ensures
        x * x + y * y + z * z > 0,
{
    lemma_sq_nonneg(x);
    lemma_sq_nonneg(y);
    lemma_sq_nonneg(z);
    assert(x != 0 ==> x * x > 0) by (nonlinear_arith) {}
    assert(y != 0 ==> y * y > 0) by (nonlinear_arith) {}
    assert(z != 0 ==> z * z > 0) by (nonlinear_arith) {}
}

/// Admissible input bound for `Quaternion::from_uv`: frame vectors of a
/// nearly normalized rotation stay within sixteen units.
pub const FRAME_BOUND: i64 = 16_000_000;

/// The cross product of two frame vectors, as `from_uv` computes it.
pub open spec fn from_uv_n(u: Vector, v: Vector) -> Vector {
    Vector { x: cross_x(u, v) as i64, y: cross_y(u, v) as i64, z: cross_z(u, v) as i64 }
}

/// The quaternion `from_uv` assembles before renormalizing: the
/// standard four-branch matrix-to-quaternion extraction, with the
/// radicand clamped to one raw unit so a degenerate frame cannot reach
/// a zero divisor.
pub open spec fn from_uv_raw(u: Vector, v: Vector) -> Quaternion {
    let n = from_uv_n(u, v);
    let tr = SCALE as int + u.x + v.y + n.z;
    if tr > 100 {
        let s = 2 * sqrt_floor(tr * SCALE);
        Quaternion {
            w: div_to_zero(s, 4) as i64,
            vx: div_to_zero((v.z - n.y) * SCALE, s) as i64,
            vy: div_to_zero((n.x - u.z) * SCALE, s) as i64,
            vz: div_to_zero((u.y - v.x) * SCALE, s) as i64,
        }
    } else if u.x > v.y && u.x > n.z {
        let a0 = SCALE as int + u.x - v.y - n.z;
        let a = if a0 < 1 { 1int } else { a0 };
        let s = 2 * sqrt_floor(a * SCALE);
        Quaternion {
            w: div_to_zero((v.z - n.y) * SCALE, s) as i64,
            vx: div_to_zero(s, 4) as i64,
            vy: div_to_zero((u.y + v.x) * SCALE, s) as i64,
            vz: div_to_zero((n.x + u.z) * SCALE, s) as i64,
        }
    } else if v.y > n.z {
        let a0 = SCALE as int - u.x + v.y - n.z;
        let a = if a0 < 1 { 1int } else { a0 };
        let s = 2 * sqrt_floor(a * SCALE);
        Quaternion {
            w: div_to_zero((n.x - u.z) * SCALE, s) as i64,
            vx: div_to_zero((u.y + v.x) * SCALE, s) as i64,
            vy: div_to_zero(s, 4) as i64,
            vz: div_to_zero((v.z + n.y) * SCALE, s) as i64,
        }
    } else {
        let a0 = SCALE as int - u.x - v.y + n.z;
        let a = if a0 < 1 { 1int } else { a0 };
        let s = 2 * sqrt_floor(a * SCALE);
        Quaternion {
            w: div_to_zero((u.y - v.x) * SCALE, s) as i64,
            vx: div_to_zero((n.x + u.z) * SCALE, s) as i64,
            vy: div_to_zero((v.z + n.y) * SCALE, s) as i64,
            vz: div_to_zero(s, 4) as i64,
        }
    }
}

/// A quaternion rescaled to unit magnitude (one `SCALE`).
pub open spec fn q_unit(q: Quaternion) -> Quaternion {
    let m = sqrt_floor(q.sq_raw());
    Quaternion {
        w: div_to_zero(q.w * SCALE, m) as i64,
        vx: div_to_zero(q.vx * SCALE, m) as i64,
        vy: div_to_zero(q.vy * SCALE, m) as i64,
        vz: div_to_zero(q.vz * SCALE, m) as i64,
    }
}

/// What `from_uv` returns: the raw extraction, unit-normalized.
pub open spec fn spec_from_uv(u: Vector, v: Vector) -> Quaternion {
    q_unit(from_uv_raw(u, v))
}

/// One square-root step of the rotation: halves the rotation angle.
/// Adding a full unit to the scalar part and renormalizing is the
/// half-angle construction; a vanishing magnitude (a half turn, where
/// the square root is ambiguous) falls back to the identity.
pub open spec fn qsqrt_step(q: Quaternion) -> Quaternion {
    let h = Quaternion { w: (q.w + SCALE) as i64, vx: q.vx, vy: q.vy, vz: q.vz };
    if h.is_zero() {
        Quaternion::spec_identity()
    } else {
        q_unit(h)
    }
}

/// Hamilton product followed by renormalization; identity if the
/// truncated product vanished.
pub open spec fn qmul_norm(a: Quaternion, b: Quaternion) -> Quaternion {
    let t = Quaternion {
        w: ham_w(a, b) as i64,
        vx: ham_x(a, b) as i64,
        vy: ham_y(a, b) as i64,
        vz: ham_z(a, b) as i64,
    };
    if t.is_zero() {
        Quaternion::spec_identity()
    } else {
        q_unit(t)
    }
}

/// Dyadic spherical interpolation: walks the binary expansion of the
/// fraction `rem / SCALE` to twenty bits, halving the rotation at each
/// step and composing in the steps whose bit is set.
pub open spec fn pow_frac_loop(base: Quaternion, acc: Quaternion, rem: int, k: nat) -> Quaternion
    decreases 20 - k,
{
    if k >= 20 || rem <= 0 {
        acc
    } else {
        let b2 = qsqrt_step(base);
        let rem2 = rem * 2;
        if rem2 >= SCALE {
            pow_frac_loop(b2, qmul_norm(acc, b2), rem2 - SCALE, (k + 1) as nat)
        } else {
            pow_frac_loop(b2, acc, rem2, (k + 1) as nat)
        }
    }
}

/// What `to_the` returns for a power `p` in `[0, SCALE]`.
pub open spec fn spec_to_the(q: Quaternion, p: int) -> Quaternion {
    if q.w >= SCALE - LENGTH_EPS {
        Quaternion::spec_identity()
    } else if q.w <= -SCALE + LENGTH_EPS {
        Quaternion { w: (-SCALE) as i64, vx: 0, vy: 0, vz: 0 }
    } else if p <= 0 {
        Quaternion::spec_identity()
    } else if p >= SCALE {
        q_unit(q)
    } else {
        pow_frac_loop(q_unit(q), Quaternion::spec_identity(), p, 0)
    }
}

/// What `from_axis_angle` returns: the unit half-turn about the axis,
/// raised to the fraction `p / SCALE` (negative fractions through the
/// conjugate axis).
pub open spec fn spec_from_axis_angle(axis: Vector, p: int) -> Quaternion {
    let m = sqrt_floor(axis.sq_raw());
    let qh = Quaternion {
        w: 0,
        vx: div_to_zero(axis.x * SCALE, m) as i64,
        vy: div_to_zero(axis.y * SCALE, m) as i64,
        vz: div_to_zero(axis.z * SCALE, m) as i64,
    };
    if p >= 0 {
        spec_to_the(qh, p)
    } else {
        let qc = Quaternion {
            w: 0,
            vx: (-qh.vx) as i64,
            vy: (-qh.vy) as i64,
            vz: (-qh.vz) as i64,
        };
        spec_to_the(qc, -p)
    }
}

impl Quaternion {
    /// Extract the rotation whose first two frame vectors are the
    /// orthonormal pair `(u, v)`: the robust four-branch extraction
    /// picking whichever diagonal term of the implied matrix dominates.
    #[verifier::rlimit(80)]
    pub fn from_uv(u: Vector, v: Vector) -> (r: Quaternion)
        requires
            -FRAME_BOUND <= u.x <= FRAME_BOUND,
            -FRAME_BOUND <= u.y <= FRAME_BOUND,
            -FRAME_BOUND <= u.z <= FRAME_BOUND,
            -FRAME_BOUND <= v.x <= FRAME_BOUND,
            -FRAME_BOUND <= v.y <= FRAME_BOUND,
            -FRAME_BOUND <= v.z <= FRAME_BOUND,
        ensures
            r == spec_from_uv(u, v),
            !from_uv_raw(u, v).is_zero(),
            r.unitish(),
    {
        let n = u.cross(v);
        proof {
            assert(-(512_000_000int * 1_000_000int) <= u.y * v.z - u.z * v.y <= 512_000_000int
                * 1_000_000int && -(512_000_000int * 1_000_000int) <= u.z * v.x - u.x * v.z
                <= 512_000_000int * 1_000_000int && -(512_000_000int * 1_000_000int) <= u.x * v.y
                - u.y * v.x <= 512_000_000int * 1_000_000int) by (nonlinear_arith)
                requires
                    -16_000_000 <= u.x <= 16_000_000,
                    -16_000_000 <= u.y <= 16_000_000,
                    -16_000_000 <= u.z <= 16_000_000,
                    -16_000_000 <= v.x <= 16_000_000,
                    -16_000_000 <= v.y <= 16_000_000,
                    -16_000_000 <= v.z <= 16_000_000,
            {
            }
            lemma_div_to_zero_bound(u.y * v.z - u.z * v.y, SCALE as int, 512_000_000int);
            lemma_div_to_zero_bound(u.z * v.x - u.x * v.z, SCALE as int, 512_000_000int);
            lemma_div_to_zero_bound(u.x * v.y - u.y * v.x, SCALE as int, 512_000_000int);
            assert(n == from_uv_n(u, v));
        }
        let tr: i64 = SCALE + u.x + v.y + n.z;
        let q0: Quaternion;
        if tr > 100 {
            let st: u128 = isqrt(((tr as i128) * (SCALE as i128)) as u128);
            proof {
                lemma_sqrt_floor_lower(tr as int * SCALE as int, 10_000int);
                lemma_sqrt_floor_upper(tr as int * SCALE as int, 24_000_000int);
            }
            let s: i64 = 2 * (st as i64);
            q0 = Quaternion {
                w: div_trunc(s as i128, 4) as i64,
                vx: Self::scaled_ratio(v.z, n.y, s),
                vy: Self::scaled_ratio(n.x, u.z, s),
                vz: Self::scaled_ratio(u.y, v.x, s),
            };
            proof {
                lemma_div_lower(s as int, 4, 5_000int);
                lemma_div_to_zero_bound(s as int, 4, s as int);
            }
        } else if u.x > v.y && u.x > n.z {
            let a0: i64 = SCALE + u.x - v.y - n.z;
            let a: i64 = if a0 < 1 { 1 } else { a0 };
            let st: u128 = isqrt(((a as i128) * (SCALE as i128)) as u128);
            proof {
                lemma_sqrt_floor_lower(a as int * SCALE as int, 1_000int);
                lemma_sqrt_floor_upper(a as int * SCALE as int, 24_000_000int);
            }
            let s: i64 = 2 * (st as i64);
            q0 = Quaternion {
                w: Self::scaled_ratio(v.z, n.y, s),
                vx: div_trunc(s as i128, 4) as i64,
                vy: Self::scaled_ratio_sum(u.y, v.x, s),
                vz: Self::scaled_ratio_sum(n.x, u.z, s),
            };
            proof {
                lemma_div_lower(s as int, 4, 500int);
                lemma_div_to_zero_bound(s as int, 4, s as int);
            }
        } else if v.y > n.z {
            let a0: i64 = SCALE - u.x + v.y - n.z;
            let a: i64 = if a0 < 1 { 1 } else { a0 };
            let st: u128 = isqrt(((a as i128) * (SCALE as i128)) as u128);
            proof {
                lemma_sqrt_floor_lower(a as int * SCALE as int, 1_000int);
                lemma_sqrt_floor_upper(a as int * SCALE as int, 24_000_000int);
            }
            let s: i64 = 2 * (st as i64);
            q0 = Quaternion {
                w: Self::scaled_ratio(n.x, u.z, s),
                vx: Self::scaled_ratio_sum(u.y, v.x, s),
                vy: div_trunc(s as i128, 4) as i64,
                vz: Self::scaled_ratio_sum(v.z, n.y, s),
            };
            proof {
                lemma_div_lower(s as int, 4, 500int);
                lemma_div_to_zero_bound(s as int, 4, s as int);
            }
        } else {
            let a0: i64 = SCALE - u.x - v.y + n.z;
            let a: i64 = if a0 < 1 { 1 } else { a0 };
            let st: u128 = isqrt(((a as i128) * (SCALE as i128)) as u128);
            proof {
                lemma_sqrt_floor_lower(a as int * SCALE as int, 1_000int);
                lemma_sqrt_floor_upper(a as int * SCALE as int, 24_000_000int);
            }
            let s: i64 = 2 * (st as i64);
            q0 = Quaternion {
                w: Self::scaled_ratio(u.y, v.x, s),
                vx: Self::scaled_ratio_sum(n.x, u.z, s),
                vy: Self::scaled_ratio_sum(v.z, n.y, s),
                vz: div_trunc(s as i128, 4) as i64,
            };
            proof {
                lemma_div_lower(s as int, 4, 500int);
                lemma_div_to_zero_bound(s as int, 4, s as int);
            }
        }
        proof {
            assert(q0 == from_uv_raw(u, v));
        }
        let r = q0.with_magnitude(SCALE);
        proof {
            assert(r == spec_from_uv(u, v));
        }
        r
    }

    /// `(a - b) * SCALE / s` for a positive divisor `s`, with both
    /// operands within the frame range.
    fn scaled_ratio(a: i64, b: i64, s: i64) -> (r: i64)
        requires
            -600_000_000 <= a <= 600_000_000,
            -600_000_000 <= b <= 600_000_000,
            2_000 <= s <= 48_000_000,
        ensures
            r == div_to_zero((a - b) * SCALE, s as int),
            -600_000_000_000 <= r <= 600_000_000_000,
    {
        proof {
            assert(-(600_000_000_000int * s) <= (a - b) * SCALE <= 600_000_000_000int
                * s) by (nonlinear_arith)
                requires
                    -600_000_000 <= a <= 600_000_000,
                    -600_000_000 <= b <= 600_000_000,
                    s >= 2_000,
                    SCALE == 1_000_000,
            {
            }
            lemma_div_to_zero_bound((a - b) * SCALE, s as int, 600_000_000_000int);
        }
        div_trunc(((a - b) as i128) * (SCALE as i128), s as i128) as i64
    }

    /// `(a + b) * SCALE / s` for a positive divisor `s`.
    fn scaled_ratio_sum(a: i64, b: i64, s: i64) -> (r: i64)
        requires
            -600_000_000 <= a <= 600_000_000,
            -600_000_000 <= b <= 600_000_000,
            2_000 <= s <= 48_000_000,
        ensures
            r == div_to_zero((a + b) * SCALE, s as int),
            -600_000_000_000 <= r <= 600_000_000_000,
    {
        proof {
            assert(-(600_000_000_000int * s) <= (a + b) * SCALE <= 600_000_000_000int
                * s) by (nonlinear_arith)
                requires
                    -600_000_000 <= a <= 600_000_000,
                    -600_000_000 <= b <= 600_000_000,
                    s >= 2_000,
                    SCALE == 1_000_000,
            {
            }
            lemma_div_to_zero_bound((a + b) * SCALE, s as int, 600_000_000_000int);
        }
        div_trunc(((a + b) as i128) * (SCALE as i128), s as i128) as i64
    }

    /// One half-angle step, executable.
    fn sqrt_step(q: Quaternion) -> (r: Quaternion)
        requires
            -SCALE <= q.w <= SCALE,
            -SCALE <= q.vx <= SCALE,
            -SCALE <= q.vy <= SCALE,
            -SCALE <= q.vz <= SCALE,
        ensures
            r == qsqrt_step(q),
            -SCALE <= r.w <= SCALE,
            -SCALE <= r.vx <= SCALE,
            -SCALE <= r.vy <= SCALE,
            -SCALE <= r.vz <= SCALE,
    {
        let h = Quaternion { w: q.w + SCALE, vx: q.vx, vy: q.vy, vz: q.vz };
        let m = h.magnitude();
        if m == 0 {
            Quaternion { w: SCALE, vx: 0, vy: 0, vz: 0 }
        } else {
            h.with_magnitude(SCALE)
        }
    }

    /// Hamilton product renormalized, executable.
    pub(crate) fn compose_norm(a: Quaternion, b: Quaternion) -> (r: Quaternion)
        requires
            -SCALE <= a.w <= SCALE,
            -SCALE <= a.vx <= SCALE,
            -SCALE <= a.vy <= SCALE,
            -SCALE <= a.vz <= SCALE,
            -SCALE <= b.w <= SCALE,
            -SCALE <= b.vx <= SCALE,
            -SCALE <= b.vy <= SCALE,
            -SCALE <= b.vz <= SCALE,
        ensures
            r == qmul_norm(a, b),
            -SCALE <= r.w <= SCALE,
            -SCALE <= r.vx <= SCALE,
            -SCALE <= r.vy <= SCALE,
            -SCALE <= r.vz <= SCALE,
    {
        let t = a.times(b);
        proof {
            lemma_unit_ham_bounds(a, b);
        }
        let m = t.magnitude();
        if m == 0 {
            Quaternion { w: SCALE, vx: 0, vy: 0, vz: 0 }
        } else {
            t.with_magnitude(SCALE)
        }
    }

    /// Raise this rotation to the fraction `p / SCALE` of itself,
    /// `0 <= p <= SCALE`, by dyadic spherical interpolation: rotations
    /// within a unit of a full or half turn collapse to their exact
    /// endpoint first, as the axis is then numerically meaningless.
    pub fn to_the(&self, p: i64) -> (r: Quaternion)
        requires
            self.wf(),
            !self.is_zero(),
            0 <= p <= SCALE,
        ensures
            r == spec_to_the(*self, p as int),
            -SCALE <= r.w <= SCALE,
            -SCALE <= r.vx <= SCALE,
            -SCALE <= r.vy <= SCALE,
            -SCALE <= r.vz <= SCALE,
    {
        if self.w >= SCALE - LENGTH_EPS {
            return Quaternion { w: SCALE, vx: 0, vy: 0, vz: 0 };
        }
        if self.w <= -SCALE + LENGTH_EPS {
            return Quaternion { w: -SCALE, vx: 0, vy: 0, vz: 0 };
        }
        if p == 0 {
            return Quaternion { w: SCALE, vx: 0, vy: 0, vz: 0 };
        }
        let base0 = self.with_magnitude(SCALE);
        proof {
            assert(base0 == q_unit(*self));
        }
        if p == SCALE {
            return base0;
        }
        let mut base = base0;
        let mut acc = Quaternion { w: SCALE, vx: 0, vy: 0, vz: 0 };
        let mut rem: i64 = p;
        let mut k: usize = 0;
        while k < 20 && rem > 0
            invariant
                -SCALE <= base.w <= SCALE,
                -SCALE <= base.vx <= SCALE,
                -SCALE <= base.vy <= SCALE,
                -SCALE <= base.vz <= SCALE,
                -SCALE <= acc.w <= SCALE,
                -SCALE <= acc.vx <= SCALE,
                -SCALE <= acc.vy <= SCALE,
                -SCALE <= acc.vz <= SCALE,
                0 <= rem < SCALE,
                k <= 20,
                spec_to_the(*self, p as int) == pow_frac_loop(base, acc, rem as int, k as nat),
            decreases 20 - k,
        {
            base = Self::sqrt_step(base);
            rem = rem * 2;
            if rem >= SCALE {
                acc = Self::compose_norm(acc, base);
                rem = rem - SCALE;
            }
            k = k + 1;
        }
        acc
    }

    /// The rotation about `axis` by the fraction `p / SCALE` of a half
    /// turn (`p` may be negative for the opposite sense).
    pub fn from_axis_angle(axis: Vector, p: i64) -> (r: Quaternion)
        requires
            axis.wf(),
            !axis.is_zero(),
            -SCALE <= p <= SCALE,
        ensures
            r == spec_from_axis_angle(axis, p as int),
            -SCALE <= r.w <= SCALE,
            -SCALE <= r.vx <= SCALE,
            -SCALE <= r.vy <= SCALE,
            -SCALE <= r.vz <= SCALE,
    {
        let unit = axis.with_magnitude(SCALE);
        proof {
            lemma_unit_rescale_large_coord(axis, unit);
        }
        if p >= 0 {
            let qh = Quaternion { w: 0, vx: unit.x, vy: unit.y, vz: unit.z };
            qh.to_the(p)
        } else {
            let qc = Quaternion { w: 0, vx: -unit.x, vy: -unit.y, vz: -unit.z };
            qc.to_the(-p)
        }
    }

    /// The reflected frame: negate the `u` and `v` frame vectors and
    /// re-extract a rotation.
    pub fn mirror(&self) -> (r: Quaternion)
        requires
            self.unitish(),
        ensures
            ({
                let nu = (Vector {
                    x: (-rot_ux(*self)) as i64,
                    y: (-rot_uy(*self)) as i64,
                    z: (-rot_uz(*self)) as i64,
                });
                let nv = (Vector {
                    x: (-rot_vx(*self)) as i64,
                    y: (-rot_vy(*self)) as i64,
                    z: (-rot_vz(*self)) as i64,
                });
                r == spec_from_uv(nu, nv)
            }),
            r.unitish(),
    {
        proof {
            lemma_unitish_rot_bounds(*self);
        }
        let u = self.rotation_u();
        let v = self.rotation_v();
        Quaternion::from_uv(u.negated(), v.negated())
    }
}

impl Vector {
    /// Rotate about an axis through the origin by the fraction
    /// `p / SCALE` of a half turn.
    pub fn rotated_about_axis(&self, axis: Vector, p: i64) -> (r: Vector)
        requires
            self.wf(),
            axis.wf(),
            !axis.is_zero(),
            -SCALE <= p <= SCALE,
        ensures
            ({
                let q = spec_from_axis_angle(axis, p as int);
                &&& r.x == div_to_zero(rot_ux(q) * self.x, SCALE as int) + div_to_zero(
                    rot_vx(q) * self.y,
                    SCALE as int,
                ) + div_to_zero(rot_nx(q) * self.z, SCALE as int)
                &&& r.y == div_to_zero(rot_uy(q) * self.x, SCALE as int) + div_to_zero(
                    rot_vy(q) * self.y,
                    SCALE as int,
                ) + div_to_zero(rot_ny(q) * self.z, SCALE as int)
                &&& r.z == div_to_zero(rot_uz(q) * self.x, SCALE as int) + div_to_zero(
                    rot_vz(q) * self.y,
                    SCALE as int,
                ) + div_to_zero(rot_nz(q) * self.z, SCALE as int)
            }),
            -48_000_000_000_000 <= r.x <= 48_000_000_000_000,
            -48_000_000_000_000 <= r.y <= 48_000_000_000_000,
            -48_000_000_000_000 <= r.z <= 48_000_000_000_000,
    {
        let q = Quaternion::from_axis_angle(axis, p);
        q.rotate(*self)
    }

    /// Rotate about an axis through `origin` by the fraction
    /// `p / SCALE` of a half turn.
    pub fn rotated_about_origin_axis(&self, origin: Vector, axis: Vector, p: i64) -> (r: Vector)
        requires
            -500_000_000_000 <= self.x <= 500_000_000_000,
            -500_000_000_000 <= self.y <= 500_000_000_000,
            -500_000_000_000 <= self.z <= 500_000_000_000,
            -500_000_000_000 <= origin.x <= 500_000_000_000,
            -500_000_000_000 <= origin.y <= 500_000_000_000,
            -500_000_000_000 <= origin.z <= 500_000_000_000,
            axis.wf(),
            !axis.is_zero(),
            -SCALE <= p <= SCALE,
        ensures
            ({
                let q = spec_from_axis_angle(axis, p as int);
                let dx = self.x - origin.x;
                let dy = self.y - origin.y;
                let dz = self.z - origin.z;
                &&& r.x == div_to_zero(rot_ux(q) * dx, SCALE as int) + div_to_zero(
                    rot_vx(q) * dy,
                    SCALE as int,
                ) + div_to_zero(rot_nx(q) * dz, SCALE as int) + origin.x
                &&& r.y == div_to_zero(rot_uy(q) * dx, SCALE as int) + div_to_zero(
                    rot_vy(q) * dy,
                    SCALE as int,
                ) + div_to_zero(rot_ny(q) * dz, SCALE as int) + origin.y
                &&& r.z == div_to_zero(rot_uz(q) * dx, SCALE as int) + div_to_zero(
                    rot_vz(q) * dy,
                    SCALE as int,
                ) + div_to_zero(rot_nz(q) * dz, SCALE as int) + origin.z
            }),
    {
        self.minus(origin).rotated_about_axis(axis, p).plus(origin)
    }
}

/// A display color.
#[derive(Clone, Copy, PartialEq, Eq, Structural, Debug)]
pub struct RgbaColor {
    pub red: u8,
    pub green: u8,
    pub blue: u8,
    pub alpha: u8,
}

impl Quaternion {
    /// Read a rotation out of four parameters, resolving substitution
    /// chains; values outside the admissible coordinate range are
    /// refused.
    pub fn from_hparams(
        sk: &crate::sketch::Sketch,
        w: crate::sketch::HParam,
        vx: crate::sketch::HParam,
        vy: crate::sketch::HParam,
        vz: crate::sketch::HParam,
    ) -> (r: Result<Quaternion, crate::sketch::KernelError>)
        requires
            sk.wf(),
        ensures
            (w.v >= sk.params@.len() || vx.v >= sk.params@.len() || vy.v >= sk.params@.len()
                || vz.v >= sk.params@.len()) ==> r == Err::<Quaternion, crate::sketch::KernelError>(
                crate::sketch::KernelError::UnknownHandle,
            ),
            (w.v < sk.params@.len() && vx.v < sk.params@.len() && vy.v < sk.params@.len() && vz.v
                < sk.params@.len()) ==> {
                let p = sk.params@;
                let qw = p[crate::sketch::chain_root(p, w.v as int)].val;
                let qx = p[crate::sketch::chain_root(p, vx.v as int)].val;
                let qy = p[crate::sketch::chain_root(p, vy.v as int)].val;
                let qz = p[crate::sketch::chain_root(p, vz.v as int)].val;
                if -MAX_COORD <= qw <= MAX_COORD && -MAX_COORD <= qx <= MAX_COORD && -MAX_COORD
                    <= qy <= MAX_COORD && -MAX_COORD <= qz <= MAX_COORD {
                    r == Ok::<Quaternion, crate::sketch::KernelError>(
                        Quaternion { w: qw, vx: qx, vy: qy, vz: qz },
                    )
                } else {
                    r == Err::<Quaternion, crate::sketch::KernelError>(
                        crate::sketch::KernelError::CoordRange,
                    )
                }
            },
    {
        let qw = match sk.resolve(w) {
            Ok(v) => v,
            Err(e) => {
                return Err(e);
            },
        };
        let qx = match sk.resolve(vx) {
            Ok(v) => v,
            Err(e) => {
                return Err(e);
            },
        };
        let qy = match sk.resolve(vy) {
            Ok(v) => v,
            Err(e) => {
                return Err(e);
            },
        };
        let qz = match sk.resolve(vz) {
            Ok(v) => v,
            Err(e) => {
                return Err(e);
            },
        };
        if qw > MAX_COORD || qw < -MAX_COORD || qx > MAX_COORD || qx < -MAX_COORD || qy > MAX_COORD
            || qy < -MAX_COORD || qz > MAX_COORD || qz < -MAX_COORD {
            return Err(crate::sketch::KernelError::CoordRange);
        }
        Ok(Quaternion { w: qw, vx: qx, vy: qy, vz: qz })
    }
}

impl Vector {
    /// Read a point out of three parameters, resolving substitution
    /// chains; values outside the admissible coordinate range are
    /// refused.
    pub fn from_hparams(
        sk: &crate::sketch::Sketch,
        x: crate::sketch::HParam,
        y: crate::sketch::HParam,
        z: crate::sketch::HParam,
    ) -> (r: Result<Vector, crate::sketch::KernelError>)
        requires
            sk.wf(),
        ensures
            (x.v >= sk.params@.len() || y.v >= sk.params@.len() || z.v >= sk.params@.len()) ==> r
                == Err::<Vector, crate::sketch::KernelError>(
                crate::sketch::KernelError::UnknownHandle,
            ),
            (x.v < sk.params@.len() && y.v < sk.params@.len() && z.v < sk.params@.len()) ==> {
                let p = sk.params@;
                let px = p[crate::sketch::chain_root(p, x.v as int)].val;
                let py = p[crate::sketch::chain_root(p, y.v as int)].val;
                let pz = p[crate::sketch::chain_root(p, z.v as int)].val;
                if -MAX_COORD <= px <= MAX_COORD && -MAX_COORD <= py <= MAX_COORD && -MAX_COORD
                    <= pz <= MAX_COORD {
                    r == Ok::<Vector, crate::sketch::KernelError>(Vector { x: px, y: py, z: pz })
                } else {
                    r == Err::<Vector, crate::sketch::KernelError>(
                        crate::sketch::KernelError::CoordRange,
                    )
                }
            },
    {
        let px = match sk.resolve(x) {
            Ok(v) => v,
            Err(e) => {
                return Err(e);
            },
        };
        let py = match sk.resolve(y) {
            Ok(v) => v,
            Err(e) => {
                return Err(e);
            },
        };
        let pz = match sk.resolve(z) {
            Ok(v) => v,
            Err(e) => {
                return Err(e);
            },
        };
        if px > MAX_COORD || px < -MAX_COORD || py > MAX_COORD || py < -MAX_COORD || pz > MAX_COORD
            || pz < -MAX_COORD {
            return Err(crate::sketch::KernelError::CoordRange);
        }
        Ok(Vector { x: px, y: py, z: pz })
    }
}

/// Raising a rotation to the zeroth power yields the identity, and to
/// the first power yields the rotation itself (unit-normalized); both
/// hold exactly whenever the rotation is not within a unit of a full or
/// half turn, where the power collapses to the exact endpoint instead.
pub proof fn lemma_power_endpoints(q: Quaternion)
    requires
        q.wf(),
        -SCALE + LENGTH_EPS < q.w < SCALE - LENGTH_EPS,
    ensures
        spec_to_the(q, 0) == Quaternion::spec_identity(),
        spec_to_the(q, SCALE as int) == q_unit(q),
{
}

/// The truncated Hamilton product of two unit-range quaternions stays
/// within four units per component.
proof fn lemma_unit_ham_bounds(a: Quaternion, b: Quaternion)
    requires
        -SCALE <= a.w <= SCALE,
        -SCALE <= a.vx <= SCALE,
        -SCALE <= a.vy <= SCALE,
        -SCALE <= a.vz <= SCALE,
        -SCALE <= b.w <= SCALE,
        -SCALE <= b.vx <= SCALE,
        -SCALE <= b.vy <= SCALE,
        -SCALE <= b.vz <= SCALE,
    ensures
        -4 * SCALE <= ham_w(a, b) <= 4 * SCALE,
        -4 * SCALE <= ham_x(a, b) <= 4 * SCALE,
        -4 * SCALE <= ham_y(a, b) <= 4 * SCALE,
        -4 * SCALE <= ham_z(a, b) <= 4 * SCALE,
{
    assert(-(1_000_000int * 1_000_000int) <= a.w * b.w <= 1_000_000int * 1_000_000int && -(
    3_000_000int * 1_000_000int) <= a.vx * b.vx + a.vy * b.vy + a.vz * b.vz <= 3_000_000int
        * 1_000_000int) by (nonlinear_arith)
        requires
            -1_000_000 <= a.w <= 1_000_000,
            -1_000_000 <= a.vx <= 1_000_000,
            -1_000_000 <= a.vy <= 1_000_000,
            -1_000_000 <= a.vz <= 1_000_000,
            -1_000_000 <= b.w <= 1_000_000,
            -1_000_000 <= b.vx <= 1_000_000,
            -1_000_000 <= b.vy <= 1_000_000,
            -1_000_000 <= b.vz <= 1_000_000,
    {
    }
    assert(-(1_000_000int * 1_000_000int) <= b.vx * a.w <= 1_000_000int * 1_000_000int && -(
    1_000_000int * 1_000_000int) <= a.vx * b.w <= 1_000_000int * 1_000_000int && -(2_000_000int
        * 1_000_000int) <= a.vy * b.vz - a.vz * b.vy <= 2_000_000int * 1_000_000int && -(
    1_000_000int * 1_000_000int) <= b.vy * a.w <= 1_000_000int * 1_000_000int && -(1_000_000int
        * 1_000_000int) <= a.vy * b.w <= 1_000_000int * 1_000_000int && -(2_000_000int
        * 1_000_000int) <= a.vz * b.vx - a.vx * b.vz <= 2_000_000int * 1_000_000int && -(
    1_000_000int * 1_000_000int) <= b.vz * a.w <= 1_000_000int * 1_000_000int && -(1_000_000int
        * 1_000_000int) <= a.vz * b.w <= 1_000_000int * 1_000_000int && -(2_000_000int
        * 1_000_000int) <= a.vx * b.vy - a.vy * b.vx <= 2_000_000int * 1_000_000int) by (nonlinear_arith)
        requires
            -1_000_000 <= a.w <= 1_000_000,
            -1_000_000 <= a.vx <= 1_000_000,
            -1_000_000 <= a.vy <= 1_000_000,
            -1_000_000 <= a.vz <= 1_000_000,
            -1_000_000 <= b.w <= 1_000_000,
            -1_000_000 <= b.vx <= 1_000_000,
            -1_000_000 <= b.vy <= 1_000_000,
            -1_000_000 <= b.vz <= 1_000_000,
    {
    }
    lemma_div_to_zero_bound(a.w * b.w, SCALE as int, 1_000_000int);
    lemma_div_to_zero_bound(a.vx * b.vx + a.vy * b.vy + a.vz * b.vz, SCALE as int, 3_000_000int);
    lemma_div_to_zero_bound(b.vx * a.w, SCALE as int, 1_000_000int);
    lemma_div_to_zero_bound(a.vx * b.w, SCALE as int, 1_000_000int);
    lemma_div_to_zero_bound(a.vy * b.vz - a.vz * b.vy, SCALE as int, 2_000_000int);
    lemma_div_to_zero_bound(b.vy * a.w, SCALE as int, 1_000_000int);
    lemma_div_to_zero_bound(a.vy * b.w, SCALE as int, 1_000_000int);
    lemma_div_to_zero_bound(a.vz * b.vx - a.vx * b.vz, SCALE as int, 2_000_000int);
    lemma_div_to_zero_bound(b.vz * a.w, SCALE as int, 1_000_000int);
    lemma_div_to_zero_bound(a.vz * b.w, SCALE as int, 1_000_000int);
    lemma_div_to_zero_bound(a.vx * b.vy - a.vy * b.vx, SCALE as int, 2_000_000int);
}

/// The floor square root of a sum of squares dominates each coordinate.
proof fn lemma_sqrt_dominates_coord(c: int, sq: int, r: int)
    requires
        sq >= c * c,
        r >= 0,
        sq < (r + 1) * (r + 1),
    ensures
        c <= r,
        -c <= r,
{
    assert(c * c < (r + 1) * (r + 1) ==> c <= r && -c <= r) by (nonlinear_arith)
        requires
            r >= 0,
    {
    }
}

} // verus!
