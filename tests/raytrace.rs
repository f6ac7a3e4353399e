use refractor::{
    all_check, cast_shadow, create_tronco, nearest_in, shadow_ray_fits, skybox_color, trace_step, Color, Cube,
    Grid, Group, Material, Node, Ray, Step, Texture, Vec3, UV_ONE,
};

fn plain() -> Material {
    Material::new(Color::new(200, 10, 10), 10, [1000, 0, 0, 0], 1000, None)
}

fn unit_box() -> Cube {
    Cube::new(Vec3::new(-1, -1, -1), Vec3::new(1, 1, 1), plain())
}

fn ray(o: (i64, i64, i64), d: (i64, i64, i64)) -> Ray {
    Ray::new(Vec3::new(o.0, o.1, o.2), Vec3::new(d.0, d.1, d.2))
}

#[test]
fn hit_along_minus_z_has_distance_four_and_normal_plus_z() {
    let i = unit_box().ray_intersect(&ray((0, 0, 5), (0, 0, -1)));
    assert!(i.is_intersecting);
    assert_eq!(i.distance.num, 4 * i.distance.den);
    assert_eq!(i.normal, Vec3::new(0, 0, 1));
    assert_eq!(i.point.z, i.point.w);
    assert_eq!(i.point.x, 0);
}

#[test]
fn ray_heading_away_misses() {
    assert!(!unit_box().ray_intersect(&ray((5, 0, 0), (1, 0, 0))).is_intersecting);
    assert!(!unit_box().ray_intersect(&ray((5, 5, 5), (1, 2, 0))).is_intersecting);
    assert!(!unit_box().ray_intersect(&ray((0, -3, 0), (0, -1, 0))).is_intersecting);
}

#[test]
fn box_behind_origin_is_not_hit() {
    assert!(!unit_box().ray_intersect(&ray((0, 0, 5), (0, 0, 1))).is_intersecting);
}

#[test]
fn origin_inside_box_is_not_hit() {
    assert!(!unit_box().ray_intersect(&ray((0, 0, 0), (0, 0, 1))).is_intersecting);
}

#[test]
fn zero_direction_component_grazing_a_plane_misses() {
    // The ray runs inside the plane x = 1 of the box: treated as no hit.
    assert!(!unit_box().ray_intersect(&ray((1, 0, 5), (0, 0, -1))).is_intersecting);
    // Strictly inside the x slab it hits.
    assert!(unit_box().ray_intersect(&ray((0, 0, 5), (0, 0, -1))).is_intersecting);
}

#[test]
fn normals_are_axis_unit_vectors() {
    let cases = [
        ((-5, 0, 0), (1, 0, 0), Vec3::new(-1, 0, 0)),
        ((5, 0, 0), (-1, 0, 0), Vec3::new(1, 0, 0)),
        ((0, -5, 0), (0, 1, 0), Vec3::new(0, -1, 0)),
        ((0, 5, 0), (0, -1, 0), Vec3::new(0, 1, 0)),
        ((0, 0, -5), (0, 0, 1), Vec3::new(0, 0, -1)),
        ((3, 4, 5), (-3, -4, -4), Vec3::new(0, 0, 1)),
    ];
    for (o, d, n) in cases {
        let i = unit_box().ray_intersect(&ray(o, d));
        assert!(i.is_intersecting);
        assert_eq!(i.normal, n);
        let len2 = i.normal.x * i.normal.x + i.normal.y * i.normal.y + i.normal.z * i.normal.z;
        assert_eq!(len2, 1);
    }
}

#[test]
fn diagonal_hit_is_exact() {
    // From (3, 3, 5) towards the origin: enters the +Z face at t = 4/5.
    let i = unit_box().ray_intersect(&ray((3, 3, 5), (-3, -3, -5)));
    assert!(i.is_intersecting);
    assert_eq!(i.distance.num * 5, 4 * i.distance.den);
    assert_eq!(i.normal, Vec3::new(0, 0, 1));
}

fn cube_at(x: i64, y: i64, z: i64) -> Node {
    Node::Cube(create_tronco(Vec3::new(x, y, z), Vec3::new(x + 1, y + 1, z + 1), plain()))
}

#[test]
fn nested_composites_match_flat_collection() {
    let inner = Group::new(vec![cube_at(0, 0, -8), cube_at(0, 0, -4)], Vec3::new(2, 0, 0));
    let mut outer = Group::new(vec![Node::Group(inner)], Vec3::new(0, 0, 0));
    outer.set_offset(Vec3::new(1, 1, 0));
    outer.add(cube_at(4, 0, -2));
    let nested = vec![Node::Grid(Grid::new(vec![Node::Group(outer)]))];
    let flat = vec![Node::Grid(Grid::new(vec![cube_at(3, 1, -8), cube_at(3, 1, -4), cube_at(5, 1, -2)]))];
    let rays = [ray((3, 1, 5), (1, 1, -10)), ray((5, 1, 5), (1, 1, -10)), ray((0, 0, 5), (0, 0, -1))];
    for r in rays.iter() {
        let a = nearest_in(&nested, r);
        let b = nearest_in(&flat, r);
        assert_eq!(a.is_intersecting, b.is_intersecting);
        if a.is_intersecting {
            assert_eq!(a.distance, b.distance);
            assert_eq!(a.normal, b.normal);
            assert_eq!(a.point, b.point);
        }
    }
    assert!(nearest_in(&nested, &rays[0]).is_intersecting);
}

#[test]
fn nearest_of_several_boxes_wins() {
    let roots = vec![cube_at(0, 0, -10), cube_at(0, 0, -3), cube_at(0, 0, -6)];
    let i = nearest_in(&roots, &ray((0, 0, 5), (1, 1, -20)));
    assert!(i.is_intersecting);
    // Enters the box at z in [-3, -2] through its +Z face: t = 7/20.
    assert_eq!(i.distance.num * 20, 7 * i.distance.den);
}

#[test]
fn past_depth_bound_gives_background() {
    let roots = vec![Node::Cube(unit_box())];
    let r = ray((0, 0, 5), (0, 0, -1));
    assert!(matches!(trace_step(&r, &roots, 4), Step::Background));
    assert!(matches!(trace_step(&r, &roots, 3), Step::Shade(_)));
    assert!(matches!(trace_step(&ray((0, 0, 5), (0, 0, 1)), &roots, 0), Step::Background));
    assert_eq!(skybox_color(), Color::new(102, 153, 255));
}

#[test]
fn occluder_casts_shadow_and_removal_clears_it() {
    let floor = Node::Cube(Cube::new(Vec3::new(-10, -1, -10), Vec3::new(10, 0, 10), plain()));
    let light = Vec3::new(0, 10, 0);
    let hit = floor.ray_intersect(&ray((0, 5, 0), (0, -1, 0)));
    assert!(hit.is_intersecting);
    assert!(shadow_ray_fits(&hit, &light));
    let occluder = Node::Cube(Cube::new(Vec3::new(-1, 4, -1), Vec3::new(1, 5, 1), plain()));
    let lit = cast_shadow(&hit, &light, &vec![floor]);
    assert_eq!(lit.num, 0);
    let floor2 = Node::Cube(Cube::new(Vec3::new(-10, -1, -10), Vec3::new(10, 0, 10), plain()));
    let shaded = cast_shadow(&hit, &light, &vec![floor2, occluder]);
    // Occluder entered at 4/10 of the way: intensity 1 - 0.16 = 84/100.
    assert!(shaded.num > 0 && shaded.num <= shaded.den);
    assert_eq!(shaded.num * 100, 84 * shaded.den);
}

fn texture() -> Texture {
    Texture::from_raw(2, 2, vec![1, 1, 1, 255, 2, 2, 2, 255, 3, 3, 3, 255, 4, 4, 4, 255]).unwrap()
}

#[test]
fn texture_needs_a_full_buffer() {
    assert!(Texture::from_raw(2, 2, vec![0; 15]).is_none());
    assert!(Texture::from_raw(2, 2, vec![0; 16]).is_some());
    assert!(Texture::from_raw(1, 1, vec![0; 9]).is_some());
}

#[test]
fn cloned_material_keeps_texture_samples() {
    let m = Material::new(Color::new(0, 0, 0), 1, [0, 0, 0, 0], 1000, Some(texture()));
    let c = m.clone();
    assert_eq!(c.shade((0, UV_ONE)), Color::new(1, 1, 1));
}

#[test]
fn texture_lookup_flips_v_and_clamps() {
    let t = texture();
    assert_eq!(t.get_color_at((0, 0)), [3, 3, 3, 255]);
    assert_eq!(t.get_color_at((UV_ONE, UV_ONE)), [2, 2, 2, 255]);
    assert_eq!(t.get_color_at((-5, 2 * UV_ONE)), [1, 1, 1, 255]);
    assert_eq!(t.get_color_at((UV_ONE / 2, UV_ONE / 4)), [4, 4, 4, 255]);
}

#[test]
fn shade_uses_texture_or_diffuse() {
    let m = Material::new(Color::new(9, 8, 7), 5, [500, 500, 0, 0], 1000, Some(texture()));
    assert_eq!(m.shade((UV_ONE, 0)), Color::new(4, 4, 4));
    assert_eq!(plain().shade((0, 0)), Color::new(200, 10, 10));
    let b = Material::black();
    assert_eq!(b.diffuse, Color::black());
    assert_eq!(b.albedo, [0, 0, 0, 0]);
    assert!(b.texture.is_none());
}

#[test]
fn floor_grid_lays_out_tiles_row_by_row() {
    let g = Grid::create_cuadricula(3, 2, 300, plain(), 100, -50, 7);
    assert_eq!(g.objects.len(), 6);
    match &g.objects[1 * 2 + 1] {
        Node::Cube(c) => {
            assert_eq!(c.min, Vec3::new(400, -50, 307));
            assert_eq!(c.max, Vec3::new(700, 250, 607));
        }
        _ => panic!("tile is not a cube"),
    }
    match &g.objects[0] {
        Node::Cube(c) => assert_eq!(c.min, Vec3::new(100, -50, 7)),
        _ => panic!("tile is not a cube"),
    }
    assert!(Grid::create_cuadricula(0, 5, 300, plain(), 0, 0, 0).objects.is_empty());
}

#[test]
fn grid_and_group_report_nearest_hit() {
    let g = Grid::create_cuadricula(2, 2, 1, plain(), 0, 0, 0);
    let i = g.ray_intersect(&ray((1, 5, 1), (1, -10, 1)));
    assert!(i.is_intersecting);
    assert_eq!(i.normal, Vec3::new(0, 1, 0));
    assert_eq!(i.distance.num * 10, 4 * i.distance.den);
    let group = Group::new(vec![cube_at(0, 0, 0)], Vec3::new(10, 0, 0));
    let h = group.ray_intersect(&ray((10, 5, 0), (1, -10, 1)));
    assert!(h.is_intersecting);
    // Hit point reported in the parent frame: (10.4, 1, 0.4).
    assert_eq!(h.point.y, h.point.w);
    assert_eq!(h.point.x * 10, 104 * h.point.w);
    assert!(!group.ray_intersect(&ray((0, 5, 0), (0, -1, 0))).is_intersecting);
}

#[test]
fn tracing_the_same_scene_twice_gives_identical_results() {
    let roots = vec![
        Node::Grid(Grid::create_cuadricula(4, 4, 2, plain(), -4, -1, -4)),
        Node::Group(Group::new(vec![cube_at(0, 0, 0)], Vec3::new(1, 2, -1))),
    ];
    let light = Vec3::new(3, 20, 2);
    for d in [(1, -6, -3), (0, -1, -1), (2, -3, -9), (0, 1, 0)] {
        let r = ray((0, 5, 5), d);
        let (a, b) = (trace_step(&r, &roots, 0), trace_step(&r, &roots, 0));
        match (a, b) {
            (Step::Shade(x), Step::Shade(y)) => {
                assert_eq!((x.distance, x.normal, x.point), (y.distance, y.normal, y.point));
                assert!(shadow_ray_fits(&x, &light));
                assert_eq!(cast_shadow(&x, &light, &roots), cast_shadow(&y, &light, &roots));
            }
            (Step::Background, Step::Background) => {}
            _ => panic!("two traces of one ray disagree"),
        }
    }
}

#[test]
fn scene_check_rejects_bad_boxes_and_deep_nesting() {
    assert!(all_check(&vec![cube_at(0, 0, 0)], 0));
    let inverted = Node::Cube(Cube::new(Vec3::new(1, 0, 0), Vec3::new(0, 1, 1), plain()));
    assert!(!all_check(&vec![inverted], 8));
    let far = Node::Cube(Cube::new(Vec3::new(0, 0, 0), Vec3::new(2_000_000, 1, 1), plain()));
    assert!(!all_check(&vec![far], 8));
    let nested = Node::Group(Group::new(vec![Node::Group(Group::new(vec![cube_at(0, 0, 0)], Vec3::new(1, 1, 1)))], Vec3::new(0, 0, 0)));
    assert!(all_check(&vec![nested], 2));
    let nested2 = Node::Group(Group::new(vec![Node::Group(Group::new(vec![cube_at(0, 0, 0)], Vec3::new(1, 1, 1)))], Vec3::new(0, 0, 0)));
    assert!(!all_check(&vec![nested2], 1));
}

#[test]
fn ray_limits_accept_scene_sized_rays_only() {
    assert!(ray((5, 5, 5), (1, -1, 0)).within_limits());
    let mut r = ray((0, 0, 0), (0, 0, 1));
    r.w = 0;
    assert!(!r.within_limits());
    let mut far = ray((0, 0, 0), (0, 0, 1));
    far.ox = 1 << 60;
    assert!(!far.within_limits());
    let mut steep = ray((0, 0, 0), (0, 0, 1));
    steep.dz = (1 << 60) + 1;
    assert!(!steep.within_limits());
}

#[test]
fn hit_within_tolerance_of_an_edge_takes_the_earlier_face() {
    let c = Cube::new(Vec3::new(0, 0, 0), Vec3::new(10, 10, 10), plain());
    // Straight down from (0.00001, 20, 5): lands on the top face 1e-5 from x = 0.
    let r = Ray { ox: 1, oy: 2_000_000, oz: 500_000, w: 100_000, dx: 0, dy: -1, dz: 0 };
    let i = c.ray_intersect(&r);
    assert!(i.is_intersecting);
    assert_eq!(i.normal, Vec3::new(-1, 0, 0));
    // 2e-4 from x = 0 is outside the tolerance: the top face wins.
    let r = Ray { ox: 20, oy: 2_000_000, oz: 500_000, w: 100_000, dx: 0, dy: -1, dz: 0 };
    assert_eq!(c.ray_intersect(&r).normal, Vec3::new(0, 1, 0));
    // Exactly on the edge x = 10, y = 10: -X is not near, +X comes first.
    let i = c.ray_intersect(&ray((15, 15, 5), (-1, -1, 0)));
    assert!(i.is_intersecting);
    assert_eq!(i.normal, Vec3::new(1, 0, 0));
}

fn tinted(r: u8) -> Material {
    Material::new(Color::new(r, 0, 0), 7, [900, 100, 0, 0], 1500, None)
}

#[test]
fn hits_carry_the_material_of_the_box_hit() {
    let near = Node::Cube(Cube::new(Vec3::new(-1, -1, -2), Vec3::new(1, 1, -1), tinted(10)));
    let far = Node::Cube(Cube::new(Vec3::new(-1, -1, -6), Vec3::new(1, 1, -5), tinted(20)));
    let roots = vec![far, near];
    let i = nearest_in(&roots, &ray((0, 0, 5), (0, 0, -1)));
    assert!(i.is_intersecting);
    assert_eq!(i.material.diffuse, Color::new(10, 0, 0));
    assert_eq!(i.material.specular, 7);
    assert_eq!(i.material.albedo, [900, 100, 0, 0]);
    assert_eq!(i.material.refractive_index, 1500);
    let g = Group::new(vec![Node::Cube(Cube::new(Vec3::new(0, 0, 0), Vec3::new(1, 1, 1), tinted(30)))], Vec3::new(0, 0, 0));
    let grid = Grid::new(vec![Node::Cube(Cube::new(Vec3::new(0, 0, 0), Vec3::new(1, 1, 1), tinted(30)))]);
    let r = ray((0, 5, 0), (1, -10, 1));
    let (a, b) = (g.ray_intersect(&r), grid.ray_intersect(&r));
    assert_eq!((a.distance, a.normal, a.point), (b.distance, b.normal, b.point));
    assert_eq!(a.material.diffuse, b.material.diffuse);
    assert_eq!(a.material.diffuse, Color::new(30, 0, 0));
}

#[test]
fn floor_tiles_carry_the_material() {
    let g = Grid::create_cuadricula(2, 2, 5, tinted(40), 0, 0, 0);
    for n in g.objects.iter() {
        match n {
            Node::Cube(c) => {
                assert_eq!(c.material.diffuse, Color::new(40, 0, 0));
                assert_eq!(c.material.refractive_index, 1500);
            }
            _ => panic!("tile is not a cube"),
        }
    }
}
