use vstd::prelude::*;
use crate::geometry::{Vec3, Ray, RayModel, shift_model, W_LIMIT, DIR_LIMIT, COORD_LIMIT, MAX_HEIGHT};
use crate::material::{Material, MaterialModel};
use crate::cube::{Cube, Intersect, HitModel, HPoint, box_hit, hit_ok, rat_lt, point_limit};

verus! {

broadcast use vstd::std_specs::vec::group_vec_axioms;

/// A piece of a scene: a box, a flat collection, or an offset group.
pub enum Node {
    Cube(Cube),
    Grid(Grid),
    Group(Group),
}

/// A flat collection of nodes with no transform.
pub struct Grid {
    pub objects: Vec<Node>,
}

/// Nodes authored in a local frame that sits at `offset` in the parent frame.
pub struct Group {
    pub elements: Vec<Node>,
    pub offset: Vec3,
}

/// The nearer of two hits; on equal distance the first one stays.
pub open spec fn nearer(a: Option<HitModel>, b: Option<HitModel>) -> Option<HitModel> {
    match b {
        None => a,
        Some(hb) => match a {
            None => b,
            Some(ha) => if rat_lt(hb.0, ha.0) { b } else { a },
        },
    }
}

/// A hit found in a frame placed at `offset`, seen from the parent frame.
pub open spec fn moved(h: Option<HitModel>, offset: (int, int, int)) -> Option<HitModel> {
    match h {
        None => None,
        Some((t, n, p, m)) => Some((t, n, (p.0 + offset.0 * p.3, p.1 + offset.1 * p.3, p.2 + offset.2 * p.3, p.3), m)),
    }
}

/// The nearest hit of `r` among the first `k` nodes of `s`.
pub open spec fn list_hit(s: Seq<Node>, k: int, r: RayModel) -> Option<HitModel>
    decreases s, k,
{
    if k <= 0 || k > s.len() {
        None
    } else {
        nearer(list_hit(s, k - 1, r), node_hit(s[k - 1], r))
    }
}

/// The nearest hit of `r` in the geometry under `n`.
pub open spec fn node_hit(n: Node, r: RayModel) -> Option<HitModel>
    decreases n, 0int,
{
    match n {
        Node::Cube(c) => box_hit(c.min.model(), c.max.model(), c.material.model(), r),
        Node::Grid(g) => list_hit(g.objects@, g.objects@.len() as int, r),
        Node::Group(g) => moved(list_hit(g.elements@, g.elements@.len() as int, shift_model(r, g.offset.model())), g.offset.model()),
    }
}

/// Every box and offset under `n` is well formed, and offset groups nest at
/// most `h` deep.
pub open spec fn node_ok(n: Node, h: nat) -> bool
    decreases n,
{
    match n {
        Node::Cube(c) => c.wf(),
        Node::Grid(g) => forall|i: int| 0 <= i < g.objects@.len() ==> node_ok(#[trigger] g.objects@[i], h),
        Node::Group(g) => h >= 1 && g.offset.wf() && forall|i: int| 0 <= i < g.elements@.len() ==> node_ok(#[trigger] g.elements@[i], (h - 1) as nat),
    }
}

pub open spec fn all_ok(s: Seq<Node>, h: nat) -> bool {
    forall|i: int| 0 <= i < s.len() ==> node_ok(#[trigger] s[i], h)
}

proof fn lemma_fits_weaker(r: Ray, a: nat, b: nat)
    requires
        r.fits(a),
        b <= a,
    ensures
        r.fits(b),
{
    assert(b * (COORD_LIMIT * W_LIMIT) <= a * (COORD_LIMIT * W_LIMIT)) by (nonlinear_arith)
        requires b <= a;
}

proof fn lemma_hit_ok_weaker(h: HitModel, a: nat, b: nat)
    requires
        hit_ok(h, a),
        a <= b,
    ensures
        hit_ok(h, b),
{
    assert(a * (COORD_LIMIT * W_LIMIT * DIR_LIMIT) <= b * (COORD_LIMIT * W_LIMIT * DIR_LIMIT)) by (nonlinear_arith)
        requires a <= b;
}

/// The nearest hit of `r` among `nodes`, first one on equal distance.
pub fn nearest_in(nodes: &Vec<Node>, r: &Ray) -> (i: Intersect)
    requires
        forall|k: int| 0 <= k < nodes@.len() ==> (#[trigger] nodes@[k]).wf(),
        r.fits(MAX_HEIGHT as nat),
    ensures
        i.view() == list_hit(nodes@, nodes@.len() as int, r.model()),
        i.view() matches Some(x) ==> hit_ok(x, MAX_HEIGHT as nat),
{
    nearest_within(nodes, r, Ghost(MAX_HEIGHT as nat))
}

pub(crate) fn nearest_within(nodes: &Vec<Node>, r: &Ray, Ghost(h): Ghost<nat>) -> (i: Intersect)
    requires
        all_ok(nodes@, h),
        r.fits(h),
    ensures
        i.view() == list_hit(nodes@, nodes@.len() as int, r.model()),
        i.view() matches Some(x) ==> hit_ok(x, h),
    decreases nodes, 1int,
{
    let mut best = Intersect::empty();
    let mut k: usize = 0;
    while k < nodes.len()
        invariant
            k <= nodes@.len(),
            all_ok(nodes@, h),
            r.fits(h),
            best.view() == list_hit(nodes@, k as int, r.model()),
            best.view() matches Some(x) ==> hit_ok(x, h),
        decreases nodes@.len() - k,
    {
        proof {
            assert(decreases_to!(nodes => nodes@[k as int]));
        }
        let hit = nodes[k].intersect_within(r, Ghost(h));
        if hit.is_intersecting && (!best.is_intersecting || hit.distance.lt(&best.distance)) {
            best = hit;
        }
        k = k + 1;
    }
    best
}

fn coord_fits(v: &Vec3) -> (r: bool)
    ensures
        r == v.wf(),
{
    -COORD_LIMIT <= v.x && v.x <= COORD_LIMIT && -COORD_LIMIT <= v.y && v.y <= COORD_LIMIT
        && -COORD_LIMIT <= v.z && v.z <= COORD_LIMIT
}

/// Whether every node of `nodes` is well formed with nesting depth at most `h`.
pub fn all_check(nodes: &Vec<Node>, h: u64) -> (r: bool)
    ensures
        r == all_ok(nodes@, h as nat),
    decreases nodes, 1int,
{
    let mut k: usize = 0;
    while k < nodes.len()
        invariant
            k <= nodes@.len(),
            forall|i: int| 0 <= i < k ==> node_ok(#[trigger] nodes@[i], h as nat),
        decreases nodes@.len() - k,
    {
        proof {
            assert(decreases_to!(nodes => nodes@[k as int]));
        }
        if !nodes[k].check(h) {
            return false;
        }
        k = k + 1;
    }
    true
}

impl Node {
    pub open spec fn wf(self) -> bool {
        node_ok(self, MAX_HEIGHT as nat)
    }

    /// Whether every box and offset under this node is well formed and offset
    /// groups nest at most `h` deep.
    pub fn check(&self, h: u64) -> (r: bool)
        ensures
            r == node_ok(*self, h as nat),
        decreases self, 0int,
    {
        match self {
            Node::Cube(c) => {
                coord_fits(&c.min) && coord_fits(&c.max) && c.min.x <= c.max.x && c.min.y <= c.max.y
                    && c.min.z <= c.max.z
            },
            Node::Grid(g) => all_check(&g.objects, h),
            Node::Group(g) => h >= 1 && coord_fits(&g.offset) && all_check(&g.elements, h - 1),
        }
    }

    pub(crate) fn intersect_within(&self, r: &Ray, Ghost(h): Ghost<nat>) -> (i: Intersect)
        requires
            node_ok(*self, h),
            r.fits(h),
        ensures
            i.view() == node_hit(*self, r.model()),
            i.view() matches Some(x) ==> hit_ok(x, h),
        decreases self, 0int,
    {
        match self {
            Node::Cube(c) => {
                proof {
                    lemma_fits_weaker(*r, h, 0);
                }
                let i = c.ray_intersect(r);
                proof {
                    if let Some(x) = i.view() {
                        lemma_hit_ok_weaker(x, 0, h);
                    }
                }
                i
            },
            Node::Grid(g) => nearest_within(&g.objects, r, Ghost(h)),
            Node::Group(g) => g.intersect_within(r, Ghost(h)),
        }
    }

    /// The nearest hit of `r` in the geometry under this node.
    pub fn ray_intersect(&self, r: &Ray) -> (i: Intersect)
        requires
            self.wf(),
            r.fits(MAX_HEIGHT as nat),
        ensures
            i.view() == node_hit(*self, r.model()),
            i.view() matches Some(x) ==> hit_ok(x, MAX_HEIGHT as nat),
    {
        self.intersect_within(r, Ghost(MAX_HEIGHT as nat))
    }
}

/// The corners of tile `(x, z)` in a floor of cubes of side `size` whose
/// first tile starts at `(ox, oy, oz)`.
pub open spec fn tile(x: int, z: int, size: int, ox: int, oy: int, oz: int) -> ((int, int, int), (int, int, int)) {
    ((x * size + ox, oy, z * size + oz), (x * size + ox + size, oy + size, z * size + oz + size))
}

pub open spec fn is_tile(n: Node, t: ((int, int, int), (int, int, int)), m: MaterialModel) -> bool {
    n matches Node::Cube(c) && c.min.model() == t.0 && c.max.model() == t.1 && c.material.model() == m
}

impl Grid {
    pub fn new(objects: Vec<Node>) -> (g: Grid)
        ensures
            g.objects == objects,
    {
        Grid { objects }
    }

    /// A `width` by `depth` floor of cubes of side `cube_size`, row by row
    /// along x, each row along z, every cube with a copy of `material`.
    pub fn create_cuadricula(
        width: usize,
        depth: usize,
        cube_size: i64,
        material: Material,
        offset_x: i64,
        offset_y: i64,
        offset_z: i64,
    ) -> (g: Grid)
        requires
            width <= COORD_LIMIT,
            depth <= COORD_LIMIT,
            0 <= cube_size <= COORD_LIMIT,
            -COORD_LIMIT <= offset_x <= COORD_LIMIT,
            -COORD_LIMIT <= offset_y <= COORD_LIMIT,
            -COORD_LIMIT <= offset_z <= COORD_LIMIT,
        ensures
            g.objects@.len() == width * depth,
            forall|x: int, z: int|
                0 <= x < width && 0 <= z < depth ==> is_tile(
                    #[trigger] g.objects@[x * depth + z],
                    tile(x, z, cube_size as int, offset_x as int, offset_y as int, offset_z as int),
                    material.model(),
                ),
    {
        let mut objects: Vec<Node> = Vec::new();
        let mut x: usize = 0;
        while x < width
            invariant
                x <= width,
                width <= COORD_LIMIT,
                depth <= COORD_LIMIT,
                0 <= cube_size <= COORD_LIMIT,
                -COORD_LIMIT <= offset_x <= COORD_LIMIT,
                -COORD_LIMIT <= offset_y <= COORD_LIMIT,
                -COORD_LIMIT <= offset_z <= COORD_LIMIT,
                objects@.len() == x * depth,
                forall|a: int, b: int|
                    0 <= a < x && 0 <= b < depth ==> is_tile(
                        #[trigger] objects@[a * depth + b],
                        tile(a, b, cube_size as int, offset_x as int, offset_y as int, offset_z as int),
                        material.model(),
                    ),
            decreases width - x,
        {
            let mut z: usize = 0;
            while z < depth
                invariant
                    x < width,
                    z <= depth,
                    width <= COORD_LIMIT,
                    depth <= COORD_LIMIT,
                    0 <= cube_size <= COORD_LIMIT,
                    -COORD_LIMIT <= offset_x <= COORD_LIMIT,
                    -COORD_LIMIT <= offset_y <= COORD_LIMIT,
                    -COORD_LIMIT <= offset_z <= COORD_LIMIT,
                    objects@.len() == x * depth + z,
                    forall|a: int, b: int|
                        0 <= a < x && 0 <= b < depth ==> is_tile(
                            #[trigger] objects@[a * depth + b],
                            tile(a, b, cube_size as int, offset_x as int, offset_y as int, offset_z as int),
                            material.model(),
                        ),
                    forall|b: int|
                        0 <= b < z ==> is_tile(
                            #[trigger] objects@[x * depth + b],
                            tile(x as int, b, cube_size as int, offset_x as int, offset_y as int, offset_z as int),
                            material.model(),
                        ),
                decreases depth - z,
            {
                proof {
                    assert(0 <= x * cube_size <= COORD_LIMIT * COORD_LIMIT) by (nonlinear_arith)
                        requires 0 <= x <= COORD_LIMIT, 0 <= cube_size <= COORD_LIMIT;
                    assert(0 <= z * cube_size <= COORD_LIMIT * COORD_LIMIT) by (nonlinear_arith)
                        requires 0 <= z <= COORD_LIMIT, 0 <= cube_size <= COORD_LIMIT;
                }
                let min = Vec3::new(
                    x as i64 * cube_size + offset_x,
                    offset_y,
                    z as i64 * cube_size + offset_z,
                );
                let max = Vec3::new(min.x + cube_size, min.y + cube_size, min.z + cube_size);
                let ghost before = objects@;
                objects.push(Node::Cube(Cube::new(min, max, material.clone())));
                proof {
                    assert forall|a: int, b: int|
                        0 <= a < x && 0 <= b < depth implies is_tile(
                            #[trigger] objects@[a * depth + b],
                            tile(a, b, cube_size as int, offset_x as int, offset_y as int, offset_z as int),
                            material.model(),
                        ) by {
                        assert(a * depth + b < x * depth) by (nonlinear_arith)
                            requires 0 <= a < x, 0 <= b < depth;
                        assert(objects@[a * depth + b] == before[a * depth + b]);
                    }
                    assert forall|b: int|
                        0 <= b < z + 1 implies is_tile(
                            #[trigger] objects@[x * depth + b],
                            tile(x as int, b, cube_size as int, offset_x as int, offset_y as int, offset_z as int),
                            material.model(),
                        ) by {
                        if b < z {
                            assert(objects@[x * depth + b] == before[x * depth + b]);
                        }
                    }
                }
                z = z + 1;
            }
            proof {
                assert((x + 1) * depth == x * depth + depth) by (nonlinear_arith);
                assert forall|a: int, b: int|
                    0 <= a < x + 1 && 0 <= b < depth implies is_tile(
                        #[trigger] objects@[a * depth + b],
                        tile(a, b, cube_size as int, offset_x as int, offset_y as int, offset_z as int),
                        material.model(),
                    ) by {
                    if a == x {
                        assert(objects@[x * depth + b] == objects@[a * depth + b]);
                    }
                }
            }
            x = x + 1;
        }
        Grid { objects }
    }

    /// The nearest hit of `r` among this collection's nodes.
    pub fn ray_intersect(&self, r: &Ray) -> (i: Intersect)
        requires
            forall|k: int| 0 <= k < self.objects@.len() ==> (#[trigger] self.objects@[k]).wf(),
            r.fits(MAX_HEIGHT as nat),
        ensures
            i.view() == list_hit(self.objects@, self.objects@.len() as int, r.model()),
    {
        nearest_in(&self.objects, r)
    }
}

impl Group {
    pub fn new(elements: Vec<Node>, offset: Vec3) -> (g: Group)
        ensures
            g.elements == elements,
            g.offset == offset,
    {
        Group { elements, offset }
    }

    pub fn add(&mut self, element: Node)
        ensures
            final(self).elements@ == old(self).elements@.push(element),
            final(self).offset == old(self).offset,
    {
        self.elements.push(element);
    }

    pub fn set_offset(&mut self, offset: Vec3)
        ensures
            final(self).elements == old(self).elements,
            final(self).offset == offset,
    {
        self.offset = offset;
    }

    /// The nearest hit of `r` among this group's nodes, found in the group's
    /// frame and reported in the parent frame.
    pub fn ray_intersect(&self, r: &Ray) -> (i: Intersect)
        requires
            node_ok(Node::Group(*self), MAX_HEIGHT as nat),
            r.fits(MAX_HEIGHT as nat),
        ensures
            i.view() == node_hit(Node::Group(*self), r.model()),
    {
        self.intersect_within(r, Ghost(MAX_HEIGHT as nat))
    }

    pub(crate) fn intersect_within(&self, r: &Ray, Ghost(h): Ghost<nat>) -> (i: Intersect)
        requires
            node_ok(Node::Group(*self), h),
            r.fits(h),
        ensures
            i.view() == node_hit(Node::Group(*self), r.model()),
            i.view() matches Some(x) ==> hit_ok(x, h),
        decreases self, 0int,
    {
        let hs = Ghost((h - 1) as nat);
        let local = r.shift(&self.offset, hs);
        let mut i = nearest_within(&self.elements, &local, hs);
        if i.is_intersecting {
            proof {
                let w = i.point.w as int;
                assert(-COORD_LIMIT * (W_LIMIT * DIR_LIMIT) <= self.offset.x * w <= COORD_LIMIT * (W_LIMIT * DIR_LIMIT)) by (nonlinear_arith)
                    requires -COORD_LIMIT <= self.offset.x <= COORD_LIMIT, 0 < w <= W_LIMIT * DIR_LIMIT;
                assert(-COORD_LIMIT * (W_LIMIT * DIR_LIMIT) <= self.offset.y * w <= COORD_LIMIT * (W_LIMIT * DIR_LIMIT)) by (nonlinear_arith)
                    requires -COORD_LIMIT <= self.offset.y <= COORD_LIMIT, 0 < w <= W_LIMIT * DIR_LIMIT;
                assert(-COORD_LIMIT * (W_LIMIT * DIR_LIMIT) <= self.offset.z * w <= COORD_LIMIT * (W_LIMIT * DIR_LIMIT)) by (nonlinear_arith)
                    requires -COORD_LIMIT <= self.offset.z <= COORD_LIMIT, 0 < w <= W_LIMIT * DIR_LIMIT;
                assert(point_limit(h) == point_limit((h - 1) as nat) + COORD_LIMIT * W_LIMIT * DIR_LIMIT) by (nonlinear_arith)
                    requires h >= 1;
            }
            let p = i.point;
            i.point = HPoint {
                x: p.x + self.offset.x as i128 * p.w,
                y: p.y + self.offset.y as i128 * p.w,
                z: p.z + self.offset.z as i128 * p.w,
                w: p.w,
            };
        }
        i
    }
}

} // verus!
