use vstd::prelude::*;
use crate::geometry::{Vec3, Frac, Ray, Triple, RayModel, coord_ok, frac_ok, ORIGIN_LIMIT, W_LIMIT, COORD_LIMIT, DIR_LIMIT};
use crate::material::{Material, MaterialModel};

verus! {

/// A rational `(numerator, denominator)` with a positive denominator.
pub type Rat = (int, int);

/// A hit as the mathematics sees it: ray parameter, face normal, the hit
/// point in homogeneous form `(x, y, z, w)`, and the surface's material.
pub type HitModel = (Rat, (int, int, int), (int, int, int, int), MaterialModel);

pub open spec fn rat_lt(a: Rat, b: Rat) -> bool {
    a.0 * b.1 < b.0 * a.1
}

/// The parameters at which a ray crosses one axis' slab `[lo, hi]`.
pub enum Span {
    /// The ray never lies inside the slab (or grazes one of its planes).
    Empty,
    /// The ray runs parallel to the axis, strictly inside the slab.
    All,
    /// The ray is inside the slab for `t` in `[lo / den, hi / den]`.
    Range { lo: int, hi: int, den: int },
}

/// Slab crossing for plane coordinates `lo <= hi`, origin coordinate `o / w`,
/// direction coordinate `d`: `t = (plane * w - o) / d`, ordered.
pub open spec fn span(lo: int, hi: int, o: int, w: int, d: int) -> Span {
    let gap_lo = lo * w - o;
    let gap_hi = hi * w - o;
    if d > 0 {
        Span::Range { lo: gap_lo, hi: gap_hi, den: d }
    } else if d < 0 {
        Span::Range { lo: -gap_hi, hi: -gap_lo, den: -d }
    } else if gap_lo < 0 && 0 < gap_hi {
        Span::All
    } else {
        Span::Empty
    }
}

/// The later of a running entry parameter (`None`: minus infinity) and a slab's entry.
pub open spec fn later(e: Option<Rat>, s: Span) -> Option<Rat> {
    match s {
        Span::Range { lo, den, .. } => match e {
            None => Some((lo, den)),
            Some(t) => if rat_lt(t, (lo, den)) { Some((lo, den)) } else { e },
        },
        _ => e,
    }
}

/// The sooner of a running exit parameter (`None`: plus infinity) and a slab's exit.
pub open spec fn sooner(x: Option<Rat>, s: Span) -> Option<Rat> {
    match s {
        Span::Range { hi, den, .. } => match x {
            None => Some((hi, den)),
            Some(t) => if rat_lt((hi, den), t) { Some((hi, den)) } else { x },
        },
        _ => x,
    }
}

/// A box with the given corners, seen along a ray: the three slab crossings.
pub open spec fn spans(min: Triple, max: Triple, r: RayModel) -> (Span, Span, Span) {
    (
        span(min.0, max.0, r.0.0, r.1, r.2.0),
        span(min.1, max.1, r.0.1, r.1, r.2.1),
        span(min.2, max.2, r.0.2, r.1, r.2.2),
    )
}

/// Where a ray enters the box: the latest slab entry, provided every slab is
/// crossed, no slab is left before the entry, and the entry is not behind the
/// origin.
pub open spec fn box_entry(min: Triple, max: Triple, r: RayModel) -> Option<Rat> {
    let (sx, sy, sz) = spans(min, max, r);
    if sx is Empty || sy is Empty || sz is Empty {
        None
    } else {
        let e = later(later(later(None, sx), sy), sz);
        let x = sooner(sooner(sooner(None, sx), sy), sz);
        match e {
            None => None,
            Some(t) => if t.0 < 0 || (x matches Some(q) && rat_lt(q, t)) { None } else { Some(t) },
        }
    }
}

/// The point at parameter `t` along `r`, in homogeneous form.
pub open spec fn point_at(r: RayModel, t: Rat) -> (int, int, int, int) {
    (
        r.0.0 * t.1 + r.2.0 * t.0,
        r.0.1 * t.1 + r.2.1 * t.0,
        r.0.2 * t.1 + r.2.2 * t.0,
        r.1 * t.1,
    )
}

/// Faces within `1 / FACE_TOLERANCE_INV` of a point, in box units, count as
/// holding it.
pub const FACE_TOLERANCE_INV: i128 = 10000;

/// The homogeneous coordinate `pc / w` lies within tolerance of the plane at `c`.
pub open spec fn near_plane(pc: int, c: int, w: int) -> bool {
    -w < (pc - c * w) * FACE_TOLERANCE_INV < w
}

/// The outward normal of the first face, in the order -X, +X, -Y, +Y, -Z, +Z,
/// whose plane lies within tolerance of the homogeneous point `p`; +Z when none
/// of the others does.
pub open spec fn face_normal(min: Triple, max: Triple, p: (int, int, int, int)) -> (int, int, int) {
    if near_plane(p.0, min.0, p.3) {
        (-1, 0, 0)
    } else if near_plane(p.0, max.0, p.3) {
        (1, 0, 0)
    } else if near_plane(p.1, min.1, p.3) {
        (0, -1, 0)
    } else if near_plane(p.1, max.1, p.3) {
        (0, 1, 0)
    } else if near_plane(p.2, min.2, p.3) {
        (0, 0, -1)
    } else {
        (0, 0, 1)
    }
}

/// What a ray hitting the box `[min, max]` of material `m` reports, if it hits it.
pub open spec fn box_hit(min: Triple, max: Triple, m: MaterialModel, r: RayModel) -> Option<HitModel> {
    match box_entry(min, max, r) {
        None => None,
        Some(t) => Some((t, face_normal(min, max, point_at(r, t)), point_at(r, t), m)),
    }
}

/// The six axis-aligned unit vectors.
pub open spec fn is_axis_unit(n: (int, int, int)) -> bool {
    n == (-1int, 0int, 0int) || n == (1int, 0int, 0int) || n == (0int, -1int, 0int) || n == (
    0int, 1int, 0int) || n == (0int, 0int, -1int) || n == (0int, 0int, 1int)
}

/// Bounds that every reported hit respects.
pub open spec fn hit_ok(h: HitModel, slack: nat) -> bool {
    let (t, n, p, _) = h;
    &&& 0 <= t.0 <= 2 * ORIGIN_LIMIT
    &&& 0 < t.1 <= DIR_LIMIT
    &&& is_axis_unit(n)
    &&& 0 < p.3 <= W_LIMIT * DIR_LIMIT
    &&& -point_limit(slack) <= p.0 <= point_limit(slack)
    &&& -point_limit(slack) <= p.1 <= point_limit(slack)
    &&& -point_limit(slack) <= p.2 <= point_limit(slack)
}

/// Largest homogeneous point component after `slack` composite offsets.
pub open spec fn point_limit(slack: nat) -> int {
    4 * ORIGIN_LIMIT * DIR_LIMIT + slack * (COORD_LIMIT * W_LIMIT * DIR_LIMIT)
}

/// A homogeneous point `(x / w, y / w, z / w)`.
#[derive(Clone, Copy, Debug, PartialEq, Eq)]
pub struct HPoint {
    pub x: i128,
    pub y: i128,
    pub z: i128,
    pub w: i128,
}

/// The result of testing a ray against geometry. When `is_intersecting` is
/// false the other fields carry no meaning.
#[derive(Clone, Debug)]
pub struct Intersect {
    pub is_intersecting: bool,
    pub distance: Frac,
    pub normal: Vec3,
    pub point: HPoint,
    pub material: Material,
}

impl Intersect {
    /// The hit this value reports, if any.
    pub open spec fn view(self) -> Option<HitModel> {
        if self.is_intersecting {
            Some((
                (self.distance.num as int, self.distance.den as int),
                (self.normal.x as int, self.normal.y as int, self.normal.z as int),
                (self.point.x as int, self.point.y as int, self.point.z as int, self.point.w as int),
                self.material.model(),
            ))
        } else {
            None
        }
    }

    /// No hit.
    pub fn empty() -> (r: Intersect)
        ensures
            r.view() is None,
    {
        Intersect {
            is_intersecting: false,
            distance: Frac { num: 1, den: 1 },
            normal: Vec3 { x: 0, y: 0, z: 0 },
            point: HPoint { x: 0, y: 0, z: 0, w: 1 },
            material: Material::black(),
        }
    }
}

/// An axis-aligned box with a surface material.
#[derive(Clone, Debug)]
pub struct Cube {
    pub min: Vec3,
    pub max: Vec3,
    pub material: Material,
}

/// Exec form of `Span`.
enum Slab {
    Empty,
    All,
    Range { lo: i128, hi: i128, den: i128 },
}

impl Slab {
    spec fn view(self) -> Span {
        match self {
            Slab::Empty => Span::Empty,
            Slab::All => Span::All,
            Slab::Range { lo, hi, den } => Span::Range { lo: lo as int, hi: hi as int, den: den as int },
        }
    }

    spec fn ok(self) -> bool {
        self matches Slab::Range { lo, hi, den } ==> frac_ok(Frac { num: lo, den }) && frac_ok(
            Frac { num: hi, den },
        )
    }
}

fn slab(lo: i64, hi: i64, o: i128, w: i128, d: i128) -> (s: Slab)
    requires
        coord_ok(lo as int),
        coord_ok(hi as int),
        0 < w <= W_LIMIT,
        -ORIGIN_LIMIT <= o <= ORIGIN_LIMIT,
        -DIR_LIMIT <= d <= DIR_LIMIT,
    ensures
        s.view() == span(lo as int, hi as int, o as int, w as int, d as int),
        s.ok(),
{
    proof {
        assert(-COORD_LIMIT * W_LIMIT <= lo * w <= COORD_LIMIT * W_LIMIT) by (nonlinear_arith)
            requires -COORD_LIMIT <= lo <= COORD_LIMIT, 0 < w <= W_LIMIT;
        assert(-COORD_LIMIT * W_LIMIT <= hi * w <= COORD_LIMIT * W_LIMIT) by (nonlinear_arith)
            requires -COORD_LIMIT <= hi <= COORD_LIMIT, 0 < w <= W_LIMIT;
    }
    let gap_lo = lo as i128 * w - o;
    let gap_hi = hi as i128 * w - o;
    if d > 0 {
        Slab::Range { lo: gap_lo, hi: gap_hi, den: d }
    } else if d < 0 {
        Slab::Range { lo: -gap_hi, hi: -gap_lo, den: -d }
    } else if gap_lo < 0 && 0 < gap_hi {
        Slab::All
    } else {
        Slab::Empty
    }
}

fn later_exec(e: Option<Frac>, s: &Slab) -> (r: Option<Frac>)
    requires
        e matches Some(f) ==> frac_ok(f),
        s.ok(),
    ensures
        r matches Some(f) ==> frac_ok(f),
        frac_view(r) == later(frac_view(e), s.view()),
{
    match s {
        Slab::Range { lo, den, .. } => {
            let f = Frac { num: *lo, den: *den };
            match e {
                None => Some(f),
                Some(t) => if t.lt(&f) { Some(f) } else { e },
            }
        },
        _ => e,
    }
}

fn sooner_exec(x: Option<Frac>, s: &Slab) -> (r: Option<Frac>)
    requires
        x matches Some(f) ==> frac_ok(f),
        s.ok(),
    ensures
        r matches Some(f) ==> frac_ok(f),
        frac_view(r) == sooner(frac_view(x), s.view()),
{
    match s {
        Slab::Range { hi, den, .. } => {
            let f = Frac { num: *hi, den: *den };
            match x {
                None => Some(f),
                Some(t) => if f.lt(&t) { Some(f) } else { x },
            }
        },
        _ => x,
    }
}

pub open spec fn frac_view(f: Option<Frac>) -> Option<Rat> {
    match f {
        None => None,
        Some(q) => Some((q.num as int, q.den as int)),
    }
}

impl Cube {
    pub open spec fn wf(self) -> bool {
        &&& self.min.wf()
        &&& self.max.wf()
        &&& self.min.x <= self.max.x
        &&& self.min.y <= self.max.y
        &&& self.min.z <= self.max.z
    }

    pub fn new(min: Vec3, max: Vec3, material: Material) -> (c: Cube)
        ensures
            c.min == min,
            c.max == max,
            c.material == material,
    {
        Cube { min, max, material }
    }

    /// The entry parameter of `r` into this box, by the slab method.
    fn entry(&self, r: &Ray) -> (e: Option<Frac>)
        requires
            self.wf(),
            r.fits(0),
        ensures
            frac_view(e) == box_entry(self.min.model(), self.max.model(), r.model()),
            e matches Some(f) ==> frac_ok(f) && f.num >= 0,
    {
        let sx = slab(self.min.x, self.max.x, r.ox, r.w, r.dx);
        let sy = slab(self.min.y, self.max.y, r.oy, r.w, r.dy);
        let sz = slab(self.min.z, self.max.z, r.oz, r.w, r.dz);
        if matches!(sx, Slab::Empty) || matches!(sy, Slab::Empty) || matches!(sz, Slab::Empty) {
            return None;
        }
        let e = later_exec(later_exec(later_exec(None, &sx), &sy), &sz);
        let x = sooner_exec(sooner_exec(sooner_exec(None, &sx), &sy), &sz);
        match e {
            None => None,
            Some(t) => {
                let behind = t.num < 0;
                let left = match x {
                    Some(q) => q.lt(&t),
                    None => false,
                };
                if behind || left {
                    None
                } else {
                    Some(t)
                }
            },
        }
    }

    /// The normal of the first face within tolerance of the homogeneous point `p`.
    fn compute_normal(&self, p: &HPoint) -> (n: Vec3)
        requires
            self.wf(),
            0 < p.w <= W_LIMIT * DIR_LIMIT,
            -4 * ORIGIN_LIMIT * DIR_LIMIT <= p.x <= 4 * ORIGIN_LIMIT * DIR_LIMIT,
            -4 * ORIGIN_LIMIT * DIR_LIMIT <= p.y <= 4 * ORIGIN_LIMIT * DIR_LIMIT,
            -4 * ORIGIN_LIMIT * DIR_LIMIT <= p.z <= 4 * ORIGIN_LIMIT * DIR_LIMIT,
        ensures
            (n.x as int, n.y as int, n.z as int) == face_normal(
                self.min.model(),
                self.max.model(),
                (p.x as int, p.y as int, p.z as int, p.w as int),
            ),
    {
        if near(p.x, self.min.x, p.w) {
            Vec3::new(-1, 0, 0)
        } else if near(p.x, self.max.x, p.w) {
            Vec3::new(1, 0, 0)
        } else if near(p.y, self.min.y, p.w) {
            Vec3::new(0, -1, 0)
        } else if near(p.y, self.max.y, p.w) {
            Vec3::new(0, 1, 0)
        } else if near(p.z, self.min.z, p.w) {
            Vec3::new(0, 0, -1)
        } else {
            Vec3::new(0, 0, 1)
        }
    }

    /// Tests `r` against this box: the entry point and its face when the box
    /// lies ahead of the origin, no hit otherwise.
    pub fn ray_intersect(&self, r: &Ray) -> (i: Intersect)
        requires
            self.wf(),
            r.fits(0),
        ensures
            i.view() == box_hit(self.min.model(), self.max.model(), self.material.model(), r.model()),
            i.view() matches Some(h) ==> hit_ok(h, 0),
    {
        match self.entry(r) {
            None => Intersect::empty(),
            Some(t) => {
                proof {
                    lemma_point_fits(*r, t);
                }
                let point = HPoint {
                    x: r.ox * t.den + r.dx * t.num,
                    y: r.oy * t.den + r.dy * t.num,
                    z: r.oz * t.den + r.dz * t.num,
                    w: r.w * t.den,
                };
                let normal = self.compute_normal(&point);
                Intersect {
                    is_intersecting: true,
                    distance: t,
                    normal,
                    point,
                    material: self.material.clone(),
                }
            },
        }
    }
}

/// Whether the homogeneous coordinate `pc / w` lies within tolerance of `c`.
fn near(pc: i128, c: i64, w: i128) -> (r: bool)
    requires
        coord_ok(c as int),
        0 < w <= W_LIMIT * DIR_LIMIT,
        -4 * ORIGIN_LIMIT * DIR_LIMIT <= pc <= 4 * ORIGIN_LIMIT * DIR_LIMIT,
    ensures
        r == near_plane(pc as int, c as int, w as int),
{
    proof {
        lemma_scaled_coord_fits(c as int, w as int);
    }
    let diff = pc - c as i128 * w;
    if diff <= -w || diff >= w {
        proof {
            assert(!(-w < diff * FACE_TOLERANCE_INV < w)) by (nonlinear_arith)
                requires diff <= -w || diff >= w, w > 0, FACE_TOLERANCE_INV == 10000;
        }
        false
    } else {
        proof {
            assert(-w * FACE_TOLERANCE_INV < diff * FACE_TOLERANCE_INV < w * FACE_TOLERANCE_INV) by (nonlinear_arith)
                requires -w < diff < w, FACE_TOLERANCE_INV == 10000;
        }
        let scaled = diff * FACE_TOLERANCE_INV;
        -w < scaled && scaled < w
    }
}

proof fn lemma_scaled_coord_fits(c: int, w: int)
    requires
        coord_ok(c),
        0 < w <= W_LIMIT * DIR_LIMIT,
    ensures
        -COORD_LIMIT * (W_LIMIT * DIR_LIMIT) <= c * w <= COORD_LIMIT * (W_LIMIT * DIR_LIMIT),
{
    assert(-COORD_LIMIT * (W_LIMIT * DIR_LIMIT) <= c * w <= COORD_LIMIT * (W_LIMIT * DIR_LIMIT))
        by (nonlinear_arith)
        requires -COORD_LIMIT <= c <= COORD_LIMIT, 0 < w <= W_LIMIT * DIR_LIMIT;
}

proof fn lemma_point_fits(r: Ray, t: Frac)
    requires
        r.fits(0),
        frac_ok(t),
        t.num >= 0,
    ensures
        -2 * ORIGIN_LIMIT * DIR_LIMIT <= r.ox * t.den <= 2 * ORIGIN_LIMIT * DIR_LIMIT,
        -2 * ORIGIN_LIMIT * DIR_LIMIT <= r.dx * t.num <= 2 * ORIGIN_LIMIT * DIR_LIMIT,
        -2 * ORIGIN_LIMIT * DIR_LIMIT <= r.oy * t.den <= 2 * ORIGIN_LIMIT * DIR_LIMIT,
        -2 * ORIGIN_LIMIT * DIR_LIMIT <= r.dy * t.num <= 2 * ORIGIN_LIMIT * DIR_LIMIT,
        -2 * ORIGIN_LIMIT * DIR_LIMIT <= r.oz * t.den <= 2 * ORIGIN_LIMIT * DIR_LIMIT,
        -2 * ORIGIN_LIMIT * DIR_LIMIT <= r.dz * t.num <= 2 * ORIGIN_LIMIT * DIR_LIMIT,
        0 < r.w * t.den <= W_LIMIT * DIR_LIMIT,
{
    let (a, b) = (ORIGIN_LIMIT as int, DIR_LIMIT as int);
    assert(forall|o: int, d: int| -a <= o <= a && 0 < d <= b ==> -2 * a * b <= #[trigger] (o * d) <= 2 * a * b)
        by (nonlinear_arith) requires a > 0, b > 0;
    assert(forall|dd: int, n: int| -b <= dd <= b && 0 <= n <= 2 * a ==> -2 * a * b <= #[trigger] (dd * n) <= 2 * a * b)
        by (nonlinear_arith) requires a > 0, b > 0;
    assert(0 < r.w * t.den <= W_LIMIT * DIR_LIMIT) by (nonlinear_arith)
        requires 0 < r.w <= W_LIMIT, 0 < t.den <= DIR_LIMIT;
}

/// The ray's origin lies strictly outside the box on some axis, and on every
/// axis where it lies outside, the ray heads further away.
pub open spec fn outside_and_away(min: Triple, max: Triple, r: RayModel) -> bool {
    let (o, w, d) = r;
    &&& (o.0 < min.0 * w || o.0 > max.0 * w || o.1 < min.1 * w || o.1 > max.1 * w
        || o.2 < min.2 * w || o.2 > max.2 * w)
    &&& (o.0 < min.0 * w ==> d.0 <= 0) && (o.0 > max.0 * w ==> d.0 >= 0)
    &&& (o.1 < min.1 * w ==> d.1 <= 0) && (o.1 > max.1 * w ==> d.1 >= 0)
    &&& (o.2 < min.2 * w ==> d.2 <= 0) && (o.2 > max.2 * w ==> d.2 >= 0)
}

pub open spec fn neg_exit(x: Option<Rat>) -> bool {
    x matches Some(q) && q.0 < 0 && q.1 > 0
}

pub open spec fn exit_den_ok(x: Option<Rat>) -> bool {
    x matches Some(q) ==> q.1 > 0
}

pub open spec fn span_den_ok(s: Span) -> bool {
    s matches Span::Range { den, .. } ==> den > 0
}

proof fn lemma_sooner_sign(x: Option<Rat>, s: Span)
    requires
        exit_den_ok(x),
        span_den_ok(s),
    ensures
        exit_den_ok(sooner(x, s)),
        neg_exit(x) ==> neg_exit(sooner(x, s)),
        (s matches Span::Range { hi, .. } && hi < 0) ==> neg_exit(sooner(x, s)),
{
    if let Span::Range { hi, den, .. } = s {
        if let Some(q) = x {
            if rat_lt((hi, den), q) && q.0 < 0 {
                assert(hi < 0) by (nonlinear_arith)
                    requires hi * q.1 < q.0 * den, q.0 < 0, q.1 > 0, den > 0;
            }
            if !rat_lt((hi, den), q) && hi < 0 {
                assert(q.0 < 0) by (nonlinear_arith)
                    requires hi * q.1 >= q.0 * den, hi < 0, q.1 > 0, den > 0;
            }
        }
    }
}

proof fn lemma_span_away(lo: int, hi: int, o: int, w: int, d: int)
    requires
        lo <= hi,
        w > 0,
        o < lo * w ==> d <= 0,
        o > hi * w ==> d >= 0,
    ensures
        span_den_ok(span(lo, hi, o, w, d)),
        (o < lo * w || o > hi * w) ==> (span(lo, hi, o, w, d) is Empty || (span(lo, hi, o, w, d) matches Span::Range { hi: h, .. } && h < 0)),
{
    assert(lo * w <= hi * w) by (nonlinear_arith)
        requires lo <= hi, w > 0;
}

/// A ray whose origin lies strictly outside a box, and which heads away from
/// the box on every axis on which it lies outside, does not hit the box.
pub proof fn lemma_ray_away_misses(min: Triple, max: Triple, m: MaterialModel, r: RayModel)
    requires
        min.0 <= max.0 && min.1 <= max.1 && min.2 <= max.2,
        r.1 > 0,
        outside_and_away(min, max, r),
    ensures
        box_hit(min, max, m, r) is None,
{
    let (sx, sy, sz) = spans(min, max, r);
    lemma_span_away(min.0, max.0, r.0.0, r.1, r.2.0);
    lemma_span_away(min.1, max.1, r.0.1, r.1, r.2.1);
    lemma_span_away(min.2, max.2, r.0.2, r.1, r.2.2);
    if !(sx is Empty || sy is Empty || sz is Empty) {
        let x1 = sooner(None, sx);
        let x2 = sooner(x1, sy);
        let x3 = sooner(x2, sz);
        lemma_sooner_sign(None, sx);
        lemma_sooner_sign(x1, sy);
        lemma_sooner_sign(x2, sz);
        assert(neg_exit(x3));
        let e = later(later(later(None, sx), sy), sz);
        if let Some(t) = e {
            if t.0 >= 0 {
                let q = x3->Some_0;
                assert(t.1 > 0);
                assert(rat_lt(q, t)) by (nonlinear_arith)
                    requires q.0 < 0, q.1 > 0, t.0 >= 0, t.1 > 0;
            }
        }
    }
}

/// A box between two corners.
pub fn create_tronco(base: Vec3, top: Vec3, material: Material) -> (c: Cube)
    ensures
        c.min == base,
        c.max == top,
        c.material == material,
{
    Cube::new(base, top, material)
}

} // verus!
