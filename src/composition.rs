use vstd::prelude::*;
use crate::geometry::{Triple, RayModel, shift_model};
use crate::material::MaterialModel;
use crate::cube::{HitModel, Rat, box_hit, is_axis_unit, box_entry, spans, later, rat_lt, point_at, face_normal};
use crate::scene::{Node, nearer, moved, node_hit, list_hit};

verus! {

broadcast use vstd::std_specs::vec::group_vec_axioms;

/// A box as a pair of absolute corners and its material.
pub type FlatBox = (Triple, Triple, MaterialModel);

pub open spec fn add3(a: Triple, b: Triple) -> Triple {
    (a.0 + b.0, a.1 + b.1, a.2 + b.2)
}

/// The boxes of `s`, each moved by `off`.
pub open spec fn shift_boxes(s: Seq<FlatBox>, off: Triple) -> Seq<FlatBox> {
    s.map_values(|b: FlatBox| (add3(b.0, off), add3(b.1, off), b.2))
}

/// Every box under `n`, in scan order, at its absolute position.
pub open spec fn flatten(n: Node) -> Seq<FlatBox>
    decreases n, 0int,
{
    match n {
        Node::Cube(c) => seq![(c.min.model(), c.max.model(), c.material.model())],
        Node::Grid(g) => flatten_list(g.objects@, g.objects@.len() as int),
        Node::Group(g) => shift_boxes(flatten_list(g.elements@, g.elements@.len() as int), g.offset.model()),
    }
}

/// Every box under the first `k` nodes of `s`, in scan order.
pub open spec fn flatten_list(s: Seq<Node>, k: int) -> Seq<FlatBox>
    decreases s, k,
{
    if k <= 0 || k > s.len() {
        seq![]
    } else {
        flatten_list(s, k - 1) + flatten(s[k - 1])
    }
}

/// The nearest hit of `r` among the first `k` boxes of `b`, first one on equal distance.
pub open spec fn flat_hit(b: Seq<FlatBox>, k: int, r: RayModel) -> Option<HitModel>
    decreases k,
{
    if k <= 0 || k > b.len() {
        None
    } else {
        nearer(flat_hit(b, k - 1, r), box_hit(b[k - 1].0, b[k - 1].1, b[k - 1].2, r))
    }
}

pub open spec fn den_pos(x: Option<HitModel>) -> bool {
    x matches Some(h) ==> h.0.1 > 0
}

proof fn lemma_box_hit_den(min: Triple, max: Triple, m: MaterialModel, r: RayModel)
    ensures
        den_pos(box_hit(min, max, m, r)),
{
    let (sx, sy, sz) = spans(min, max, r);
    let e1 = later(None, sx);
    let e2 = later(e1, sy);
    assert(e1 matches Some(t) ==> t.1 > 0);
    assert(e2 matches Some(t) ==> t.1 > 0);
}

proof fn lemma_rat_le_trans(a: Rat, b: Rat, c: Rat)
    requires
        a.1 > 0,
        b.1 > 0,
        c.1 > 0,
    ensures
        !rat_lt(b, a) && !rat_lt(c, b) ==> !rat_lt(c, a),
        rat_lt(a, b) && rat_lt(b, c) ==> rat_lt(a, c),
        rat_lt(a, b) && !rat_lt(c, b) ==> rat_lt(a, c),
        !rat_lt(b, a) && rat_lt(b, c) ==> rat_lt(a, c),
{
    assert(a.0 * b.1 <= b.0 * a.1 && b.0 * c.1 <= c.0 * b.1 ==> a.0 * c.1 <= c.0 * a.1) by (nonlinear_arith)
        requires a.1 > 0, b.1 > 0, c.1 > 0;
    assert(a.0 * b.1 < b.0 * a.1 && b.0 * c.1 <= c.0 * b.1 ==> a.0 * c.1 < c.0 * a.1) by (nonlinear_arith)
        requires a.1 > 0, b.1 > 0, c.1 > 0;
    assert(a.0 * b.1 <= b.0 * a.1 && b.0 * c.1 < c.0 * b.1 ==> a.0 * c.1 < c.0 * a.1) by (nonlinear_arith)
        requires a.1 > 0, b.1 > 0, c.1 > 0;
}

proof fn lemma_nearer_assoc(a: Option<HitModel>, b: Option<HitModel>, c: Option<HitModel>)
    requires
        den_pos(a),
        den_pos(b),
        den_pos(c),
    ensures
        nearer(nearer(a, b), c) == nearer(a, nearer(b, c)),
        den_pos(nearer(a, b)),
{
    if let (Some(x), Some(y), Some(z)) = (a, b, c) {
        lemma_rat_le_trans(x.0, y.0, z.0);
        lemma_rat_le_trans(z.0, y.0, x.0);
        lemma_rat_le_trans(y.0, x.0, z.0);
        lemma_rat_le_trans(x.0, z.0, y.0);
        lemma_rat_le_trans(y.0, z.0, x.0);
        lemma_rat_le_trans(z.0, x.0, y.0);
    }
}

proof fn lemma_flat_hit_den(b: Seq<FlatBox>, k: int, r: RayModel)
    ensures
        den_pos(flat_hit(b, k, r)),
    decreases k,
{
    if 0 < k <= b.len() {
        lemma_flat_hit_den(b, k - 1, r);
        lemma_box_hit_den(b[k - 1].0, b[k - 1].1, b[k - 1].2, r);
    }
}

proof fn lemma_flat_hit_prefix(a: Seq<FlatBox>, b: Seq<FlatBox>, k: int, r: RayModel)
    requires
        0 <= k <= a.len(),
    ensures
        flat_hit(a + b, k, r) == flat_hit(a, k, r),
    decreases k,
{
    if k > 0 {
        lemma_flat_hit_prefix(a, b, k - 1, r);
        assert((a + b)[k - 1] == a[k - 1]);
    }
}

proof fn lemma_flat_hit_concat(a: Seq<FlatBox>, b: Seq<FlatBox>, k: int, r: RayModel)
    requires
        0 <= k <= b.len(),
    ensures
        flat_hit(a + b, a.len() + k, r) == nearer(flat_hit(a, a.len() as int, r), flat_hit(b, k, r)),
    decreases k,
{
    if k == 0 {
        lemma_flat_hit_prefix(a, b, a.len() as int, r);
    } else {
        lemma_flat_hit_concat(a, b, k - 1, r);
        assert((a + b)[a.len() + k - 1] == b[k - 1]);
        lemma_flat_hit_den(a, a.len() as int, r);
        lemma_flat_hit_den(b, k - 1, r);
        lemma_box_hit_den(b[k - 1].0, b[k - 1].1, b[k - 1].2, r);
        lemma_nearer_assoc(
            flat_hit(a, a.len() as int, r),
            flat_hit(b, k - 1, r),
            box_hit(b[k - 1].0, b[k - 1].1, b[k - 1].2, r),
        );
    }
}

proof fn lemma_box_hit_shift(min: Triple, max: Triple, m: MaterialModel, r: RayModel, off: Triple)
    ensures
        moved(box_hit(min, max, m, shift_model(r, off)), off) == box_hit(add3(min, off), add3(max, off), m, r),
{
    let rs = shift_model(r, off);
    let w = r.1;
    assert(forall|m: int, f: int, o: int| #[trigger] (m * w - (o - f * w)) == (m + f) * w - o) by {
        assert forall|m: int, f: int, o: int| #[trigger] (m * w - (o - f * w)) == (m + f) * w - o by {
            assert((m + f) * w == m * w + f * w) by (nonlinear_arith);
        }
    }
    assert(spans(min, max, rs) == spans(add3(min, off), add3(max, off), r));
    assert(box_entry(min, max, rs) == box_entry(add3(min, off), add3(max, off), r));
    if let Some(t) = box_entry(min, max, rs) {
        let pl = point_at(rs, t);
        let pg = point_at(r, t);
        assert(pl.3 == pg.3);
        assert(forall|o: int, f: int, d: int| #[trigger] ((o - f * w) * t.1 + d * t.0 + f * (w * t.1)) == o * t.1 + d * t.0) by {
            assert forall|o: int, f: int, d: int| #[trigger] ((o - f * w) * t.1 + d * t.0 + f * (w * t.1)) == o * t.1 + d * t.0 by {
                assert((o - f * w) * t.1 == o * t.1 - f * (w * t.1)) by (nonlinear_arith);
            }
        }
        assert(pl.0 + off.0 * pl.3 == pg.0);
        assert(pl.1 + off.1 * pl.3 == pg.1);
        assert(pl.2 + off.2 * pl.3 == pg.2);
        let pw = pl.3;
        assert(forall|m: int, f: int| #[trigger] ((m + f) * pw) == m * pw + f * pw) by {
            assert forall|m: int, f: int| #[trigger] ((m + f) * pw) == m * pw + f * pw by {
                assert((m + f) * pw == m * pw + f * pw) by (nonlinear_arith);
            }
        }
        assert(face_normal(min, max, pl) == face_normal(add3(min, off), add3(max, off), pg));
    }
}

proof fn lemma_flat_hit_shift(b: Seq<FlatBox>, k: int, r: RayModel, off: Triple)
    requires
        0 <= k <= b.len(),
    ensures
        flat_hit(shift_boxes(b, off), k, r) == moved(flat_hit(b, k, shift_model(r, off)), off),
    decreases k,
{
    if k > 0 {
        lemma_flat_hit_shift(b, k - 1, r, off);
        lemma_box_hit_shift(b[k - 1].0, b[k - 1].1, b[k - 1].2, r, off);
    }
}

proof fn lemma_node_flat(n: Node, r: RayModel)
    ensures
        node_hit(n, r) == flat_hit(flatten(n), flatten(n).len() as int, r),
    decreases n, 0int,
{
    match n {
        Node::Cube(c) => {
            let b = flatten(n);
            assert(b.len() == 1);
            assert(flat_hit(b, 0, r) is None);
            assert(flat_hit(b, 1, r) == nearer(None, box_hit(c.min.model(), c.max.model(), c.material.model(), r)));
        },
        Node::Grid(g) => {
            lemma_list_flat(g.objects@, g.objects@.len() as int, r);
        },
        Node::Group(g) => {
            let rs = shift_model(r, g.offset.model());
            lemma_list_flat(g.elements@, g.elements@.len() as int, rs);
            let fl = flatten_list(g.elements@, g.elements@.len() as int);
            lemma_flat_hit_shift(fl, fl.len() as int, r, g.offset.model());
        },
    }
}

proof fn lemma_list_flat(s: Seq<Node>, k: int, r: RayModel)
    requires
        0 <= k <= s.len(),
    ensures
        list_hit(s, k, r) == flat_hit(flatten_list(s, k), flatten_list(s, k).len() as int, r),
    decreases s, k,
{
    if k > 0 {
        lemma_list_flat(s, k - 1, r);
        lemma_node_flat(s[k - 1], r);
        let a = flatten_list(s, k - 1);
        let b = flatten(s[k - 1]);
        lemma_flat_hit_concat(a, b, b.len() as int, r);
    }
}

/// Composition is transparent to the nearest-hit search: a node, however
/// deeply its composites nest, reports the same nearest hit as one flat
/// collection of its boxes placed at their absolute positions.
pub proof fn lemma_nested_equals_flat(n: Node, r: RayModel)
    ensures
        node_hit(n, r) == flat_hit(flatten(n), flatten(n).len() as int, r),
{
    lemma_node_flat(n, r);
}

proof fn lemma_flat_normals(b: Seq<FlatBox>, k: int, r: RayModel)
    ensures
        flat_hit(b, k, r) matches Some(h) ==> is_axis_unit(h.1),
    decreases k,
{
    if 0 < k <= b.len() {
        lemma_flat_normals(b, k - 1, r);
    }
}

/// Every hit that any node reports carries one of the six axis-aligned unit
/// normals, so its length is exactly 1.
pub proof fn lemma_normal_is_axis_unit(n: Node, r: RayModel)
    ensures
        node_hit(n, r) matches Some(h) ==> is_axis_unit(h.1) && h.1.0 * h.1.0 + h.1.1 * h.1.1 + h.1.2 * h.1.2 == 1,
{
    lemma_node_flat(n, r);
    lemma_flat_normals(flatten(n), flatten(n).len() as int, r);
}

/// The same for a list of roots.
pub proof fn lemma_roots_equal_flat(s: Seq<Node>, r: RayModel)
    ensures
        list_hit(s, s.len() as int, r) == flat_hit(flatten_list(s, s.len() as int), flatten_list(s, s.len() as int).len() as int, r),
{
    lemma_list_flat(s, s.len() as int, r);
}

} // verus!
