use vstd::prelude::*;
use crate::geometry::{Vec3, Frac, Ray, RayModel, W_LIMIT, DIR_LIMIT, COORD_LIMIT, ORIGIN_LIMIT, MAX_HEIGHT, origin_ok, dir_ok};
use crate::cube::{Intersect, Rat};
use crate::scene::{Node, node_hit, list_hit, nearest_in};
use crate::material::Color;

verus! {

/// Deepest recursion level at which `cast_ray` still looks at the scene.
pub const MAX_DEPTH: u32 = 3;

/// The color of a ray that hits nothing.
pub fn skybox_color() -> (c: Color)
    ensures
        c == (Color { r: 102, g: 153, b: 255 }),
{
    Color::new(102, 153, 255)
}

/// The ray from the homogeneous point `p` towards `light`, scaled so that the
/// light sits at parameter 1.
pub open spec fn shadow_ray(p: (int, int, int, int), light: Vec3) -> RayModel {
    ((p.0, p.1, p.2), p.3, (light.x * p.3 - p.0, light.y * p.3 - p.1, light.z * p.3 - p.2))
}

/// The shadow ray's numbers are in range for every scene that `Node::wf` admits.
pub open spec fn shadow_fits(p: (int, int, int, int), light: Vec3) -> bool {
    &&& 0 < p.3 <= W_LIMIT
    &&& origin_ok(p.0, MAX_HEIGHT as nat)
    &&& origin_ok(p.1, MAX_HEIGHT as nat)
    &&& origin_ok(p.2, MAX_HEIGHT as nat)
    &&& dir_ok(light.x * p.3 - p.0)
    &&& dir_ok(light.y * p.3 - p.1)
    &&& dir_ok(light.z * p.3 - p.2)
}

/// Parameter of the first root, in scan order from `k`, that `r` hits strictly
/// between its origin and parameter 1. A hit at parameter 0 is the surface the
/// ray leaves.
pub open spec fn first_occluder(s: Seq<Node>, k: int, r: RayModel) -> Option<Rat>
    decreases s.len() - k,
{
    if k < 0 || k >= s.len() {
        None
    } else {
        match node_hit(s[k], r) {
            Some(h) if 0 < h.0.0 && h.0.0 < h.0.1 => Some(h.0),
            _ => first_occluder(s, k + 1, r),
        }
    }
}

/// How much the first occluder darkens the point: `1 - t^2` for an occluder at
/// fraction `t` of the way to the light, 0 when nothing occludes.
pub open spec fn shadow_intensity(s: Seq<Node>, p: (int, int, int, int), light: Vec3) -> Rat {
    match first_occluder(s, 0, shadow_ray(p, light)) {
        None => (0, 1),
        Some((n, d)) => (d * d - n * n, d * d),
    }
}

proof fn lemma_light_scaled(light: Vec3, w: int)
    requires
        light.wf(),
        0 < w <= W_LIMIT,
    ensures
        -COORD_LIMIT * W_LIMIT <= light.x * w <= COORD_LIMIT * W_LIMIT,
        -COORD_LIMIT * W_LIMIT <= light.y * w <= COORD_LIMIT * W_LIMIT,
        -COORD_LIMIT * W_LIMIT <= light.z * w <= COORD_LIMIT * W_LIMIT,
{
    assert(forall|c: int| -COORD_LIMIT <= c <= COORD_LIMIT ==> -COORD_LIMIT * W_LIMIT <= #[trigger] (c * w) <= COORD_LIMIT * W_LIMIT)
        by (nonlinear_arith) requires 0 < w <= W_LIMIT;
}

/// Whether the shadow ray of a hit point can be traced exactly.
pub fn shadow_ray_fits(intersect: &Intersect, light: &Vec3) -> (r: bool)
    requires
        intersect.view() is Some,
        light.wf(),
    ensures
        r == shadow_fits(
            (intersect.point.x as int, intersect.point.y as int, intersect.point.z as int, intersect.point.w as int),
            *light,
        ),
{
    let p = intersect.point;
    let lim: i128 = ORIGIN_LIMIT - MAX_HEIGHT as i128 * (COORD_LIMIT as i128 * W_LIMIT);
    if !(0 < p.w && p.w <= W_LIMIT) {
        return false;
    }
    if !(-lim <= p.x && p.x <= lim && -lim <= p.y && p.y <= lim && -lim <= p.z && p.z <= lim) {
        return false;
    }
    proof {
        lemma_light_scaled(*light, p.w as int);
    }
    let dx = light.x as i128 * p.w - p.x;
    let dy = light.y as i128 * p.w - p.y;
    let dz = light.z as i128 * p.w - p.z;
    -DIR_LIMIT <= dx && dx <= DIR_LIMIT && -DIR_LIMIT <= dy && dy <= DIR_LIMIT && -DIR_LIMIT <= dz
        && dz <= DIR_LIMIT
}

/// Shadow intensity at a hit point, as the exact fraction `1 - t^2` in `[0, 1]`
/// for the first root (in order) that blocks the way to the light at fraction
/// `t`, and 0 when none does.
pub fn cast_shadow(intersect: &Intersect, light: &Vec3, objects: &Vec<Node>) -> (s: Frac)
    requires
        intersect.view() is Some,
        light.wf(),
        forall|i: int| 0 <= i < objects@.len() ==> (#[trigger] objects@[i]).wf(),
        shadow_fits(
            (intersect.point.x as int, intersect.point.y as int, intersect.point.z as int, intersect.point.w as int),
            *light,
        ),
    ensures
        (s.num as int, s.den as int) == shadow_intensity(
            objects@,
            (intersect.point.x as int, intersect.point.y as int, intersect.point.z as int, intersect.point.w as int),
            *light,
        ),
        0 <= s.num <= s.den,
        0 < s.den,
{
    let p = intersect.point;
    let ghost pm = (p.x as int, p.y as int, p.z as int, p.w as int);
    proof {
        lemma_light_scaled(*light, p.w as int);
    }
    let ray = Ray {
        ox: p.x,
        oy: p.y,
        oz: p.z,
        w: p.w,
        dx: light.x as i128 * p.w - p.x,
        dy: light.y as i128 * p.w - p.y,
        dz: light.z as i128 * p.w - p.z,
    };
    assert(ray.model() == shadow_ray(pm, *light));
    let mut k: usize = 0;
    while k < objects.len()
        invariant
            k <= objects@.len(),
            ray.model() == shadow_ray(pm, *light),
            pm == (intersect.point.x as int, intersect.point.y as int, intersect.point.z as int, intersect.point.w as int),
            ray.fits(MAX_HEIGHT as nat),
            forall|i: int| 0 <= i < objects@.len() ==> (#[trigger] objects@[i]).wf(),
            first_occluder(objects@, 0, ray.model()) == first_occluder(objects@, k as int, ray.model()),
        decreases objects@.len() - k,
    {
        let hit = objects[k].ray_intersect(&ray);
        if hit.is_intersecting && 0 < hit.distance.num && hit.distance.num < hit.distance.den {
            let n = hit.distance.num;
            let d = hit.distance.den;
            proof {
                assert(0 < n * n < d * d <= DIR_LIMIT * DIR_LIMIT) by (nonlinear_arith)
                    requires 0 < n < d, d <= DIR_LIMIT;
                assert(first_occluder(objects@, k as int, ray.model()) == Some((n as int, d as int)));
            }
            return Frac { num: d * d - n * n, den: d * d };
        }
        k = k + 1;
    }
    assert(first_occluder(objects@, k as int, ray.model()) is None);
    Frac { num: 0, den: 1 }
}

proof fn lemma_first_occluder_push(s: Seq<Node>, o: Node, k: int, r: RayModel)
    requires
        0 <= k <= s.len(),
        first_occluder(s, k, r) is None,
    ensures
        first_occluder(s.push(o), k, r) == first_occluder(s.push(o), s.len() as int, r),
    decreases s.len() - k,
{
    if k < s.len() {
        assert(s.push(o)[k] == s[k]);
        lemma_first_occluder_push(s, o, k + 1, r);
    }
}

/// With no root between a point and the light the point is fully lit; adding a
/// root that blocks the way gives a shadow intensity above 0 and at most 1.
pub proof fn lemma_occluder_casts_shadow(s: Seq<Node>, o: Node, p: (int, int, int, int), light: Vec3)
    requires
        first_occluder(s, 0, shadow_ray(p, light)) is None,
        node_hit(o, shadow_ray(p, light)) matches Some(h) && 0 < h.0.0 < h.0.1,
    ensures
        shadow_intensity(s, p, light) == (0int, 1int),
        ({
            let (n, d) = shadow_intensity(s.push(o), p, light);
            0 < n <= d
        }),
{
    let r = shadow_ray(p, light);
    lemma_first_occluder_push(s, o, 0, r);
    assert(s.push(o)[s.len() as int] == o);
    let t = node_hit(o, r)->Some_0.0;
    assert(first_occluder(s.push(o), 0, r) == Some(t));
    assert(0 < t.1 * t.1 - t.0 * t.0 <= t.1 * t.1) by (nonlinear_arith)
        requires 0 < t.0 < t.1;
}

/// What `cast_ray` does next with a ray.
pub enum Step {
    /// Past the depth bound, or nothing hit: the background color.
    Background,
    /// Shade this, the nearest hit among the roots.
    Shade(Intersect),
}

/// The decision at the head of `cast_ray`: stop with the background past the
/// depth bound or when nothing is hit, otherwise shade the nearest hit.
pub fn trace_step(r: &Ray, objects: &Vec<Node>, depth: u32) -> (s: Step)
    requires
        forall|i: int| 0 <= i < objects@.len() ==> (#[trigger] objects@[i]).wf(),
        r.fits(MAX_HEIGHT as nat),
    ensures
        depth > MAX_DEPTH ==> s is Background,
        depth <= MAX_DEPTH ==> match s {
            Step::Background => list_hit(objects@, objects@.len() as int, r.model()) is None,
            Step::Shade(i) => i.view() is Some && i.view() == list_hit(objects@, objects@.len() as int, r.model()),
        },
{
    if depth > MAX_DEPTH {
        return Step::Background;
    }
    let i = nearest_in(objects, r);
    if i.is_intersecting {
        Step::Shade(i)
    } else {
        Step::Background
    }
}

} // verus!
