use vstd::prelude::*;

verus! {

use vstd::math::abs;

/// Largest component magnitude the vector operations accept.  With every
/// operand bounded by it, each product of two components stays within
/// `i64` and so does a sum of three such products.
pub const COORD_LIMIT: i64 = 1_000_000_000;

/// A three-component integer vector.  The rasterizer hands it pixel
/// coordinates and their differences, so exact integer arithmetic is all
/// it ever needs.
#[derive(Clone, Copy, PartialEq, Eq, Structural, Debug)]
pub struct Vec3 {
    pub x: i64,
    pub y: i64,
    pub z: i64,
}

/// All three components lie within `COORD_LIMIT`.
pub open spec fn bounded(v: Vec3) -> bool {
    &&& -COORD_LIMIT <= v.x <= COORD_LIMIT
    &&& -COORD_LIMIT <= v.y <= COORD_LIMIT
    &&& -COORD_LIMIT <= v.z <= COORD_LIMIT
}

/// Mathematical dot product of two vectors.
pub open spec fn dot_spec(a: Vec3, b: Vec3) -> int {
    a.x * b.x + a.y * b.y + a.z * b.z
}

/// The cross product as this library computes it.  The middle component
/// is the negation of the textbook one; the concrete values the library
/// promises for `cross_product` pin this exact convention down.
pub open spec fn cross_spec(a: Vec3, b: Vec3) -> (int, int, int) {
    (a.y * b.z - a.z * b.y, a.x * b.z - a.z * b.x, a.x * b.y - a.y * b.x)
}

/// Division truncated toward zero, the rounding of Rust's `/` on signed
/// integers.
pub open spec fn trunc_div(a: int, b: int) -> int
    recommends
        b != 0,
{
    let m = (abs(a) / abs(b)) as int;
    if (a < 0) <==> (b < 0) {
        m
    } else {
        -m
    }
}

proof fn mul_bound(a: i64, b: i64)
    by (nonlinear_arith)
    requires
        -COORD_LIMIT <= a <= COORD_LIMIT,
        -COORD_LIMIT <= b <= COORD_LIMIT,
    ensures
        -1_000_000_000_000_000_000 <= a * b <= 1_000_000_000_000_000_000,
{
}

impl Vec3 {
    pub fn new(x: i64, y: i64, z: i64) -> (r: Self)
        ensures
            r == (Vec3 { x, y, z }),
    {
        Self { x, y, z }
    }

    pub fn dot_product(&self, vec: &Vec3) -> (r: i64)
        requires
            bounded(*self),
            bounded(*vec),
        ensures
            r == dot_spec(*self, *vec),
    {
        proof {
            mul_bound(self.x, vec.x);
            mul_bound(self.y, vec.y);
            mul_bound(self.z, vec.z);
        }
        self.x * vec.x + self.y * vec.y + self.z * vec.z
    }

    pub fn cross_product(&self, vec: &Vec3) -> (r: Vec3)
        requires
            bounded(*self),
            bounded(*vec),
        ensures
            r.x == cross_spec(*self, *vec).0,
            r.y == cross_spec(*self, *vec).1,
            r.z == cross_spec(*self, *vec).2,
    {
        proof {
            mul_bound(self.y, vec.z);
            mul_bound(self.z, vec.y);
            mul_bound(self.x, vec.z);
            mul_bound(self.z, vec.x);
            mul_bound(self.x, vec.y);
            mul_bound(self.y, vec.x);
        }
        Self {
            x: self.y * vec.z - self.z * vec.y,
            y: self.x * vec.z - self.z * vec.x,
            z: self.x * vec.y - self.y * vec.x,
        }
    }

    pub fn scale(&self, factor: i64) -> (r: Self)
        requires
            bounded(*self),
            -COORD_LIMIT <= factor <= COORD_LIMIT,
        ensures
            r.x == self.x * factor,
            r.y == self.y * factor,
            r.z == self.z * factor,
    {
        proof {
            mul_bound(self.x, factor);
            mul_bound(self.y, factor);
            mul_bound(self.z, factor);
        }
        Self { x: self.x * factor, y: self.y * factor, z: self.z * factor }
    }

    pub fn divide(&self, factor: i64) -> (r: Self)
        requires
            bounded(*self),
            factor != 0,
            -COORD_LIMIT <= factor <= COORD_LIMIT,
        ensures
            r.x == trunc_div(self.x as int, factor as int),
            r.y == trunc_div(self.y as int, factor as int),
            r.z == trunc_div(self.z as int, factor as int),
    {
        Self {
            x: div_trunc(self.x, factor),
            y: div_trunc(self.y, factor),
            z: div_trunc(self.z, factor),
        }
    }

    pub fn minus(&self, vec: &Vec3) -> (r: Self)
        requires
            bounded(*self),
            bounded(*vec),
        ensures
            r.x == self.x - vec.x,
            r.y == self.y - vec.y,
            r.z == self.z - vec.z,
    {
        Self { x: self.x - vec.x, y: self.y - vec.y, z: self.z - vec.z }
    }

    pub fn plus(&self, vec: &Vec3) -> (r: Self)
        requires
            bounded(*self),
            bounded(*vec),
        ensures
            r.x == self.x + vec.x,
            r.y == self.y + vec.y,
            r.z == self.z + vec.z,
    {
        Self { x: self.x + vec.x, y: self.y + vec.y, z: self.z + vec.z }
    }

    pub fn scale_by_matrix(&self, matrix: [[i64; 3]; 3]) -> (r: Self)
        requires
            bounded(*self),
            forall|i: int, j: int|
                0 <= i < 3 && 0 <= j < 3 ==> -COORD_LIMIT <= #[trigger] matrix[i][j] <= COORD_LIMIT,
        ensures
            r.x == self.x * matrix[0][0] + self.y * matrix[0][1] + self.z * matrix[0][2],
            r.y == self.x * matrix[1][0] + self.y * matrix[1][1] + self.z * matrix[1][2],
            r.z == self.x * matrix[2][0] + self.y * matrix[2][1] + self.z * matrix[2][2],
    {
        proof {
            mul_bound(self.x, matrix[0][0]);
            mul_bound(self.y, matrix[0][1]);
            mul_bound(self.z, matrix[0][2]);
            mul_bound(self.x, matrix[1][0]);
            mul_bound(self.y, matrix[1][1]);
            mul_bound(self.z, matrix[1][2]);
            mul_bound(self.x, matrix[2][0]);
            mul_bound(self.y, matrix[2][1]);
            mul_bound(self.z, matrix[2][2]);
        }
        Self {
            x: self.x * matrix[0][0] + self.y * matrix[0][1] + self.z * matrix[0][2],
            y: self.x * matrix[1][0] + self.y * matrix[1][1] + self.z * matrix[1][2],
            z: self.x * matrix[2][0] + self.y * matrix[2][1] + self.z * matrix[2][2],
        }
    }

    pub fn clone(&self) -> (r: Self)
        ensures
            r == *self,
    {
        Self::new(self.x, self.y, self.z)
    }
}

/// Signed division truncated toward zero.
fn div_trunc(a: i64, b: i64) -> (r: i64)
    requires
        b != 0,
        -COORD_LIMIT <= a <= COORD_LIMIT,
        -COORD_LIMIT <= b <= COORD_LIMIT,
    ensures
        r == trunc_div(a as int, b as int),
{
    let am: u64 = if a < 0 {
        (-a) as u64
    } else {
        a as u64
    };
    let bm: u64 = if b < 0 {
        (-b) as u64
    } else {
        b as u64
    };
    let q: u64 = am / bm;
    proof {
        assert(am == abs(a as int));
        assert(bm == abs(b as int));
        assert(q <= am) by (nonlinear_arith)
            requires
                bm >= 1,
                q == am / bm,
        ;
    }
    if (a < 0) == (b < 0) {
        q as i64
    } else {
        -(q as i64)
    }
}

/// The dot product does not depend on the order of its operands.
pub proof fn lemma_dot_commutative(a: Vec3, b: Vec3)
    by (nonlinear_arith)
    ensures
        dot_spec(a, b) == dot_spec(b, a),
{
}

/// Swapping the operands of the cross product negates every component.
pub proof fn lemma_cross_antisymmetric(a: Vec3, b: Vec3)
    by (nonlinear_arith)
    ensures
        cross_spec(a, b).0 == -cross_spec(b, a).0,
        cross_spec(a, b).1 == -cross_spec(b, a).1,
        cross_spec(a, b).2 == -cross_spec(b, a).2,
{
}

proof fn lemma_mul_div_cancel(a: int, k: int)
    by (nonlinear_arith)
    requires
        k != 0,
    ensures
        trunc_div(a * k, k) == a,
{
}

/// Scaling by a nonzero factor and then dividing by the same factor
/// gives every component of the original vector back, exactly.
pub proof fn lemma_scale_divide_roundtrip(v: Vec3, k: int)
    requires
        k != 0,
    ensures
        trunc_div(v.x * k, k) == v.x,
        trunc_div(v.y * k, k) == v.y,
        trunc_div(v.z * k, k) == v.z,
{
    lemma_mul_div_cancel(v.x as int, k);
    lemma_mul_div_cancel(v.y as int, k);
    lemma_mul_div_cancel(v.z as int, k);
}

} // verus!
