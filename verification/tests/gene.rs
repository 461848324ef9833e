use rand::SeedableRng;
use rand::rngs::SmallRng;
use shapeme::evolve::ShapeKind;
use shapeme::gene::{
    CircleGene, MutationConfig, PolygonGene, ShapeGene, TriangleGene, CIRCLE_COST, POLYGON_BASE_COST,
    POLYGON_VERTEX_COST, TRIANGLE_COST,
};
use shapeme::shapes::{MAXALPHA, MINALPHA};

type Lab = [f32; 3];

fn seeded() -> SmallRng {
    SmallRng::seed_from_u64(42)
}

fn black_oklab() -> Lab {
    [0.0, 0.0, 0.0]
}

/// The uniform `f32` in `[0, 1)` that `rand` makes from a 32-bit draw.
fn unit(raw: u32) -> f32 {
    (raw >> 8) as f32 * (1.0 / 16_777_216.0)
}

fn redraw(raw: [u32; 3]) -> Lab {
    [unit(raw[0]), (unit(raw[1]) * 2.0 - 1.0) * 0.4, (unit(raw[2]) * 2.0 - 1.0) * 0.4]
}

fn nudge(lab: Lab, raw: [u32; 3]) -> Lab {
    let dl = (unit(raw[0]) * 2.0 - 1.0) * 0.01;
    let da = (unit(raw[1]) * 2.0 - 1.0) * 0.05;
    let db = (unit(raw[2]) * 2.0 - 1.0) * 0.05;
    [(lab[0] + dl).clamp(0.0, 1.0), lab[1] + da, lab[2] + db]
}

fn centroid(v: &[(i16, i16)]) -> (f32, f32) {
    let n = v.len() as f32;
    let cx = v.iter().map(|(x, _)| *x as f32).sum::<f32>() / n;
    let cy = v.iter().map(|(_, y)| *y as f32).sum::<f32>() / n;
    (cx, cy)
}

/// An order-preserving `u32` image of a finite `f32`.
fn order_key(a: f32) -> u32 {
    let b = a.to_bits();
    if b >> 31 == 1 { !b } else { b | 0x8000_0000 }
}

fn angle_keys(v: &Vec<(i16, i16)>) -> Vec<u32> {
    let (cx, cy) = centroid(v);
    v.iter().map(|(x, y)| order_key((*y as f32 - cy).atan2(*x as f32 - cx))).collect()
}

fn diverge(c: Lab) -> (Lab, Lab) {
    ([c[0], c[1] + 0.05, c[2] - 0.05], [c[0], c[1] - 0.05, c[2] + 0.05])
}

fn halves(v: &Vec<(i16, i16)>, raw: u32, first: bool) -> Vec<bool> {
    let dividing = unit(raw) * std::f32::consts::TAU;
    let (cx, cy) = centroid(v);
    v.iter()
        .map(|(x, y)| {
            let angle = (*y as f32 - cy).atan2(*x as f32 - cx);
            let relative = (angle - dividing).rem_euclid(std::f32::consts::TAU);
            if first { relative < std::f32::consts::PI } else { relative >= std::f32::consts::PI }
        })
        .collect()
}

fn mid(a: Lab, b: Lab) -> Lab {
    [f32::midpoint(a[0], b[0]), f32::midpoint(a[1], b[1]), f32::midpoint(a[2], b[2])]
}

fn sample_triangle_gene() -> TriangleGene<Lab> {
    TriangleGene { x1: 0, y1: 0, x2: 50, y2: 0, x3: 25, y3: 50, oklab: [0.5, 0.0, 0.0], alpha: 50, z_order: 100 }
}

fn sample_config() -> MutationConfig {
    MutationConfig {
        width: 100,
        height: 100,
        margin: 0,
        mutation_rate: 500,
        use_triangles: true,
        use_circles: false,
        use_polygons: false,
        max_polygon_vertices: 64,
    }
}

fn polygon_config() -> MutationConfig {
    MutationConfig { use_triangles: false, use_circles: false, use_polygons: true, ..sample_config() }
}

fn small_polygon() -> PolygonGene<Lab> {
    PolygonGene { vertices: vec![(0, 0), (50, 0), (25, 50)], oklab: black_oklab(), alpha: 50, z_order: 0 }
}

#[test]
fn gene_triangle_normalise_sorts_by_y() {
    let mut g = TriangleGene { x1: 10, y1: 30, x2: 20, y2: 10, x3: 30, y3: 20, oklab: black_oklab(), alpha: 50, z_order: 0 };
    g.normalize(100, 100, 0);
    assert!(g.y1 <= g.y2 && g.y2 <= g.y3, "y values must be non-decreasing after normalise");
}

#[test]
fn circle_normalise_clamps_centre_only() {
    let mut g = CircleGene { cx: -200, cy: 300, radius: 100, oklab: black_oklab(), alpha: 50, z_order: 0 };
    g.normalize(50, 50, 0);
    assert_eq!(g.cx, 0, "cx should be clamped to 0");
    assert_eq!(g.cy, 49, "cy should be clamped to h-1");
    assert_eq!(g.radius, 100, "radius must be unchanged");
}

#[test]
fn polygon_normalise_clamps_vertices() {
    let mut g = PolygonGene { vertices: vec![(-200, 300), (100, 100), (50, -100)], oklab: black_oklab(), alpha: 50, z_order: 0 };
    g.normalize(50, 50, 0, &angle_keys);
    for (vx, vy) in &g.vertices {
        assert!(*vx >= 0 && *vx <= 49, "vx {vx} out of bounds [0,49]");
        assert!(*vy >= 0 && *vy <= 49, "vy {vy} out of bounds [0,49]");
    }
}

#[test]
fn gene_normalise_with_margin_allows_coords_outside_image() {
    let margin: i16 = 10;
    let mut g = TriangleGene { x1: -5, y1: -5, x2: 104, y2: 5, x3: 5, y3: 104, oklab: black_oklab(), alpha: 50, z_order: 0 };
    g.normalize(100, 100, margin);
    assert_eq!(g.x1, -5, "x1 within margin should be unchanged");
    assert_eq!(g.y1, -5, "y1 within margin should be unchanged");
    assert_eq!(g.x2, 104, "x2 within margin should be unchanged");
    assert_eq!(g.x3, 5, "x3 in-bounds should be unchanged");
    assert_eq!(g.y3, 104, "y3 within margin should be unchanged");
    assert!(g.y1 <= g.y2 && g.y2 <= g.y3, "y values must be non-decreasing");
}

#[test]
fn polygon_normalise_sorts_by_angle() {
    let mut g = PolygonGene { vertices: vec![(50, 0), (100, 50), (50, 100), (0, 50)], oklab: black_oklab(), alpha: 50, z_order: 0 };
    g.normalize(200, 200, 0, &angle_keys);
    let cx = 50.0f32;
    let cy = 50.0f32;
    let angles: Vec<f32> = g.vertices.iter().map(|(x, y)| (*y as f32 - cy).atan2(*x as f32 - cx)).collect();
    for w in angles.windows(2) {
        assert!(w[0] <= w[1], "angles not sorted: {:?} > {:?}", w[0], w[1]);
    }
}

#[test]
fn gene_alpha_mutation_stays_in_bounds() {
    let mut rng = seeded();
    let config = sample_config();
    let mut g = ShapeGene::Triangle(sample_triangle_gene());
    for _ in 0..1000 {
        g = g.mutate(&mut rng, &config, &redraw, &nudge, &angle_keys);
        if let ShapeGene::Triangle(t) = &g {
            assert!((MINALPHA..=MAXALPHA).contains(&t.alpha), "alpha {} out of bounds", t.alpha);
        }
    }
}

#[test]
fn polygon_mutation_vertex_count_minimum() {
    let mut rng = seeded();
    let config = polygon_config();
    let mut g = small_polygon();
    for _ in 0..1000 {
        g = g.mutate(&mut rng, &config, &redraw, &nudge, &angle_keys);
        assert!(g.vertices.len() >= 3, "polygon must never have fewer than 3 vertices, got {}", g.vertices.len());
    }
}

#[test]
fn polygon_mutation_split_increases_count() {
    let mut rng = seeded();
    let config = polygon_config();
    let mut g = small_polygon();
    let mut saw_split = false;
    for _ in 0..1000 {
        let before = g.vertices.len();
        g = g.mutate(&mut rng, &config, &redraw, &nudge, &angle_keys);
        let after = g.vertices.len();
        assert!(after >= 3, "vertex count must never fall below 3");
        if after > before {
            assert_eq!(after, before + 1, "split must add exactly one vertex (before={before}, after={after})");
            saw_split = true;
        }
    }
    assert!(saw_split, "expected at least one split in 1000 mutations");
}

#[test]
fn polygon_split_respects_vertex_cap() {
    let mut rng = seeded();
    let cap = 5usize;
    let config = MutationConfig { max_polygon_vertices: cap, ..polygon_config() };
    let mut g = small_polygon();
    for _ in 0..5000 {
        g = g.mutate(&mut rng, &config, &redraw, &nudge, &angle_keys);
        assert!(g.vertices.len() <= cap, "vertex count {} exceeds cap {cap}", g.vertices.len());
    }
}

#[test]
fn split_produces_two_valid_polygons() {
    let mut rng = seeded();
    let g = PolygonGene {
        vertices: vec![(0, 0), (50, 0), (100, 0), (100, 50), (50, 100), (0, 50)],
        oklab: [0.5, 0.0, 0.0],
        alpha: 50,
        z_order: 10,
    };
    let result = g.split(&mut rng, 200, 200, 0, &diverge, &angle_keys);
    assert!(result.is_some(), "split should succeed on a 6-vertex polygon");
    let (a, b) = result.unwrap();
    assert!(a.vertices.len() >= 3, "half A must have >= 3 vertices, got {}", a.vertices.len());
    assert!(b.vertices.len() >= 3, "half B must have >= 3 vertices, got {}", b.vertices.len());
    assert_eq!(a.vertices.len() + b.vertices.len(), 6, "total vertex count must equal original");
    assert_eq!(a.z_order, 10, "half A inherits parent z_order");
    assert_eq!(b.z_order, 11, "half B gets z_order + 1");
}

#[test]
fn split_rejects_small_polygon() {
    let mut rng = seeded();
    let g = PolygonGene { vertices: vec![(0, 0), (50, 0), (25, 50)], oklab: [0.5, 0.0, 0.0], alpha: 50, z_order: 0 };
    assert!(g.split(&mut rng, 100, 100, 0, &diverge, &angle_keys).is_none(), "split should return None for < 6 vertices");
}

#[test]
fn angle_crossover_produces_valid_shape() {
    let mut rng = seeded();
    let a = PolygonGene {
        vertices: vec![(0, 0), (50, 0), (100, 50), (50, 100), (0, 50)],
        oklab: [0.5, 0.1, 0.0],
        alpha: 50,
        z_order: 0,
    };
    let b = PolygonGene { vertices: vec![(25, 25), (75, 25), (75, 75), (25, 75)], oklab: [0.7, -0.1, 0.1], alpha: 70, z_order: 0 };
    let mut found = false;
    for _ in 0..200 {
        if let Some(result) = a.angle_crossover(&b, &mut rng, 200, 200, 0, &halves, &mid, &angle_keys) {
            assert!(result.vertices.len() >= 3, "crossover result must have >= 3 vertices");
            found = true;
            break;
        }
    }
    assert!(found, "expected at least one successful crossover in 200 tries");
}

#[test]
fn angle_crossover_takes_mean_alpha_and_own_z() {
    let mut rng = seeded();
    let a = PolygonGene { vertices: vec![(0, 0), (50, 0), (100, 50), (50, 100), (0, 50)], oklab: [0.5, 0.1, 0.0], alpha: 50, z_order: 7 };
    let b = PolygonGene { vertices: vec![(25, 25), (75, 25), (75, 75), (25, 75)], oklab: [0.7, -0.1, 0.1], alpha: 71, z_order: 99 };
    for _ in 0..200 {
        if let Some(c) = a.angle_crossover(&b, &mut rng, 200, 200, 0, &halves, &mid, &angle_keys) {
            assert_eq!(c.alpha, 60);
            assert_eq!(c.z_order, 7);
            assert!((c.oklab[0] - 0.6).abs() < 1e-6);
            return;
        }
    }
    panic!("no crossover succeeded");
}

#[test]
fn z_order_and_costs() {
    let mut g = ShapeGene::Triangle(sample_triangle_gene());
    assert_eq!(g.z_order(), 100);
    g.set_z_order(7);
    assert_eq!(g.z_order(), 7);
    assert_eq!(g.cost(), TRIANGLE_COST);
    let c = ShapeGene::Circle(CircleGene { cx: 1, cy: 2, radius: 3, oklab: black_oklab(), alpha: 50, z_order: 0 });
    assert_eq!(c.cost(), CIRCLE_COST);
    let p = ShapeGene::Polygon(small_polygon());
    assert_eq!(p.cost(), POLYGON_BASE_COST + 3 * POLYGON_VERTEX_COST);
    assert_eq!(p.cost(), 28);
}

#[test]
fn shape_recombine_takes_mean_z() {
    let mut rng = seeded();
    let a = ShapeGene::Triangle(TriangleGene { z_order: 10, ..sample_triangle_gene() });
    let b = ShapeGene::Circle(CircleGene { cx: 1, cy: 2, radius: 3, oklab: black_oklab(), alpha: 50, z_order: 21 });
    for _ in 0..20 {
        let c = a.recombine(&b, &mut rng);
        assert_eq!(c.z_order(), 15);
    }
}

#[test]
fn random_genes_respect_enabled_kinds_and_bounds() {
    let mut rng = seeded();
    let config = MutationConfig { use_triangles: false, use_circles: true, use_polygons: true, margin: 3, ..sample_config() };
    for _ in 0..500 {
        let g = ShapeGene::random(&mut rng, &config, &redraw, &angle_keys);
        match &g {
            ShapeGene::Triangle(_) => panic!("triangles are disabled"),
            ShapeGene::Circle(c) => {
                assert!((-3..=102).contains(&c.cx) && (-3..=102).contains(&c.cy));
                assert!((MINALPHA..=MAXALPHA).contains(&c.alpha));
            }
            ShapeGene::Polygon(p) => {
                assert!((3..=6).contains(&p.vertices.len()));
                for (x, y) in &p.vertices {
                    assert!((-3..=102).contains(x) && (-3..=102).contains(y));
                }
            }
        }
    }
}

#[test]
fn select_shape_type_only_enabled() {
    let mut rng = seeded();
    for _ in 0..100 {
        assert_eq!(shapeme::evolve::select_shape_type(&mut rng, false, false, true), ShapeKind::Polygon);
        let k = shapeme::evolve::select_shape_type(&mut rng, true, true, false);
        assert!(k == ShapeKind::Triangle || k == ShapeKind::Circle);
    }
}

#[test]
fn random_small_circle_radius_within_delta() {
    let mut rng = seeded();
    let config = MutationConfig { use_triangles: false, use_circles: true, use_polygons: false, ..sample_config() };
    for _ in 0..200 {
        match ShapeGene::random_small(&mut rng, &config, 5, 3, &redraw, &angle_keys) {
            ShapeGene::Circle(c) => {
                assert!((1..=5).contains(&c.radius));
                assert_eq!(c.z_order, 3);
            }
            _ => panic!("only circles are enabled"),
        }
    }
}

#[test]
fn map_colour_keeps_geometry() {
    let g = ShapeGene::Polygon(small_polygon());
    let h = g.map_colour(&|c: Lab| [(c[0] * 255.0) as u8, 1u8, 2u8]);
    match h {
        ShapeGene::Polygon(p) => {
            assert_eq!(p.vertices, vec![(0, 0), (50, 0), (25, 50)]);
            assert_eq!(p.oklab, [0, 1, 2]);
        }
        _ => panic!("kind changed"),
    }
}

#[test]
fn normalising_twice_changes_nothing() {
    let mut g = TriangleGene { x1: 300, y1: 40, x2: -20, y2: 5, x3: 60, y3: 90, oklab: black_oklab(), alpha: 50, z_order: 1 };
    g.normalize(100, 80, 3);
    let once = g;
    g.normalize(100, 80, 3);
    assert_eq!((g.x1, g.y1, g.x2, g.y2, g.x3, g.y3), (once.x1, once.y1, once.x2, once.y2, once.x3, once.y3));
    assert_eq!((g.x1, g.y1, g.x2, g.y2, g.x3, g.y3), (-3, 5, 102, 40, 60, 82));
}

#[test]
fn random_genes_vary() {
    let mut rng = seeded();
    let config = MutationConfig { use_triangles: true, use_circles: true, use_polygons: true, ..sample_config() };
    let zs: Vec<u16> = (0..50).map(|_| ShapeGene::random(&mut rng, &config, &redraw, &angle_keys).z_order()).collect();
    assert!(zs.iter().any(|z| *z != zs[0]), "draw orders should differ");
    let mut kinds = [false; 3];
    for _ in 0..200 {
        match ShapeGene::random_full(&mut rng, &config, 0, &redraw, &angle_keys) {
            ShapeGene::Triangle(_) => kinds[0] = true,
            ShapeGene::Circle(_) => kinds[1] = true,
            ShapeGene::Polygon(_) => kinds[2] = true,
        }
    }
    assert_eq!(kinds, [true, true, true]);
}
