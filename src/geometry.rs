use vstd::prelude::*;

verus! {

/// Largest magnitude of a scene coordinate (box corners, offsets, light position).
pub const COORD_LIMIT: i64 = 1048576;

/// Largest homogeneous weight of a ray origin.
pub const W_LIMIT: i128 = 68719476736;

/// Largest magnitude of a homogeneous ray-origin component.
pub const ORIGIN_LIMIT: i128 = 1152921504606846976;

/// Largest magnitude of a ray-direction component.
pub const DIR_LIMIT: i128 = 1152921504606846976;

/// Deepest nesting of composites that rays are guaranteed to traverse.
pub const MAX_HEIGHT: u64 = 8;

/// A point or vector with integer coordinates.
#[derive(Clone, Copy, Debug, PartialEq, Eq)]
pub struct Vec3 {
    pub x: i64,
    pub y: i64,
    pub z: i64,
}

pub open spec fn coord_ok(c: int) -> bool {
    -COORD_LIMIT <= c <= COORD_LIMIT
}

/// Integer triple.
pub type Triple = (int, int, int);

/// A ray as mathematics sees it: homogeneous origin, its weight, direction.
pub type RayModel = (Triple, int, Triple);

/// The ray `m` seen from a frame whose origin sits at `off`.
pub open spec fn shift_model(m: RayModel, off: Triple) -> RayModel {
    ((m.0.0 - off.0 * m.1, m.0.1 - off.1 * m.1, m.0.2 - off.2 * m.1), m.1, m.2)
}

impl Vec3 {
    pub open spec fn model(self) -> Triple {
        (self.x as int, self.y as int, self.z as int)
    }

    pub open spec fn wf(self) -> bool {
        coord_ok(self.x as int) && coord_ok(self.y as int) && coord_ok(self.z as int)
    }

    pub fn new(x: i64, y: i64, z: i64) -> (r: Vec3)
        ensures
            r.x == x && r.y == y && r.z == z,
    {
        Vec3 { x, y, z }
    }
}

/// An exact rational `num / den` with a positive denominator.
#[derive(Clone, Copy, Debug, PartialEq, Eq)]
pub struct Frac {
    pub num: i128,
    pub den: i128,
}

/// Bound on fraction parts that keeps every cross product inside `i128`.
pub open spec fn frac_ok(f: Frac) -> bool {
    0 < f.den <= DIR_LIMIT && -2 * ORIGIN_LIMIT <= f.num <= 2 * ORIGIN_LIMIT
}

/// `a < b` as rationals.
pub open spec fn frac_lt(a: Frac, b: Frac) -> bool {
    (a.num as int) * (b.den as int) < (b.num as int) * (a.den as int)
}

impl Frac {
    /// Exact comparison `self < other`.
    pub fn lt(&self, other: &Frac) -> (r: bool)
        requires
            frac_ok(*self),
            frac_ok(*other),
        ensures
            r == frac_lt(*self, *other),
    {
        proof {
            lemma_frac_product_fits(*self, *other);
            lemma_frac_product_fits(*other, *self);
        }
        self.num * other.den < other.num * self.den
    }
}

pub proof fn lemma_frac_product_fits(a: Frac, b: Frac)
    requires
        frac_ok(a),
        frac_ok(b),
    ensures
        -0x40000000000000000000000000000000 < (a.num as int) * (b.den as int)
            < 0x40000000000000000000000000000000,
{
    assert(-0x40000000000000000000000000000000 < (a.num as int) * (b.den as int)
        < 0x40000000000000000000000000000000) by (nonlinear_arith)
        requires
            -0x2000000000000000 <= a.num <= 0x2000000000000000,
            0 < b.den <= 0x1000000000000000,
    ;
}

/// A ray in homogeneous form: the point at parameter `t` is
/// `(origin + t * dir) / w`, with `w > 0`.
#[derive(Clone, Copy, Debug, PartialEq, Eq)]
pub struct Ray {
    pub ox: i128,
    pub oy: i128,
    pub oz: i128,
    pub w: i128,
    pub dx: i128,
    pub dy: i128,
    pub dz: i128,
}

pub open spec fn origin_ok(o: int, slack: nat) -> bool {
    -(ORIGIN_LIMIT - slack * (COORD_LIMIT * W_LIMIT)) <= o <= ORIGIN_LIMIT - slack * (
    COORD_LIMIT * W_LIMIT)
}

pub open spec fn dir_ok(d: int) -> bool {
    -DIR_LIMIT <= d <= DIR_LIMIT
}

impl Ray {
    /// The ray's numbers fit, with room left for `slack` more composite offsets.
    pub open spec fn fits(self, slack: nat) -> bool {
        &&& 0 < self.w <= W_LIMIT
        &&& origin_ok(self.ox as int, slack)
        &&& origin_ok(self.oy as int, slack)
        &&& origin_ok(self.oz as int, slack)
        &&& dir_ok(self.dx as int)
        &&& dir_ok(self.dy as int)
        &&& dir_ok(self.dz as int)
    }

    /// Whether the ray's numbers fit every scene that `Node::wf` admits.
    pub fn within_limits(&self) -> (r: bool)
        ensures
            r == self.fits(MAX_HEIGHT as nat),
    {
        let lim: i128 = ORIGIN_LIMIT - MAX_HEIGHT as i128 * (COORD_LIMIT as i128 * W_LIMIT);
        let o = |v: i128| -> (b: bool)
            ensures
                b == (-lim <= v <= lim),
            { -lim <= v && v <= lim };
        let d = |v: i128| -> (b: bool)
            ensures
                b == dir_ok(v as int),
            { -DIR_LIMIT <= v && v <= DIR_LIMIT };
        0 < self.w && self.w <= W_LIMIT && o(self.ox) && o(self.oy) && o(self.oz) && d(self.dx) && d(
            self.dy,
        ) && d(self.dz)
    }

    /// A ray from an integer point along an integer direction.
    pub fn new(origin: Vec3, dir: Vec3) -> (r: Ray)
        ensures
            r.ox == origin.x && r.oy == origin.y && r.oz == origin.z,
            r.w == 1,
            r.dx == dir.x && r.dy == dir.y && r.dz == dir.z,
    {
        Ray {
            ox: origin.x as i128,
            oy: origin.y as i128,
            oz: origin.z as i128,
            w: 1,
            dx: dir.x as i128,
            dy: dir.y as i128,
            dz: dir.z as i128,
        }
    }

    pub open spec fn model(self) -> RayModel {
        (
            (self.ox as int, self.oy as int, self.oz as int),
            self.w as int,
            (self.dx as int, self.dy as int, self.dz as int),
        )
    }

    /// Moves the ray into the local frame of a composite placed at `offset`.
    pub(crate) fn shift(&self, offset: &Vec3, Ghost(slack): Ghost<nat>) -> (r: Ray)
        requires
            self.fits(slack + 1),
            offset.wf(),
        ensures
            r.model() == shift_model(self.model(), offset.model()),
            r.fits(slack),
    {
        proof {
            assert(-COORD_LIMIT * W_LIMIT <= offset.x * self.w <= COORD_LIMIT * W_LIMIT)
                by (nonlinear_arith)
                requires
                    -COORD_LIMIT <= offset.x <= COORD_LIMIT,
                    0 < self.w <= W_LIMIT,
            ;
            assert(-COORD_LIMIT * W_LIMIT <= offset.y * self.w <= COORD_LIMIT * W_LIMIT)
                by (nonlinear_arith)
                requires
                    -COORD_LIMIT <= offset.y <= COORD_LIMIT,
                    0 < self.w <= W_LIMIT,
            ;
            assert(-COORD_LIMIT * W_LIMIT <= offset.z * self.w <= COORD_LIMIT * W_LIMIT)
                by (nonlinear_arith)
                requires
                    -COORD_LIMIT <= offset.z <= COORD_LIMIT,
                    0 < self.w <= W_LIMIT,
            ;
            assert((slack + 1) * (COORD_LIMIT * W_LIMIT) == slack * (COORD_LIMIT * W_LIMIT) + COORD_LIMIT * W_LIMIT)
                by (nonlinear_arith);
        }
        Ray {
            ox: self.ox - offset.x as i128 * self.w,
            oy: self.oy - offset.y as i128 * self.w,
            oz: self.oz - offset.z as i128 * self.w,
            ..*self
        }
    }
}

} // verus!
