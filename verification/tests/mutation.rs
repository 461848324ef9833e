use rand::SeedableRng;
use rand::rngs::SmallRng;
use shapeme::evolve::nudge_z_order;
use shapeme::gene::{CircleGene, MutationConfig, TriangleGene};
use shapeme::shapes::{apply_shape_mutation, mutate_shape, shape_from_draws, small_shape_from_draws, Shape};

fn tri() -> Shape {
    Shape::Triangle { x1: 10, y1: 5, x2: 20, y2: 15, x3: 30, y3: 25, r: 100, g: 150, b: 200, alpha: 50 }
}

#[test]
fn shape_redraw_uses_the_drawn_coordinates_then_normalises() {
    // Drawn vertices (x, y in turn), sorted by y and clamped to the 40x40 canvas.
    let r = apply_shape_mutation(tri(), 0, [1, 30, 2, 10, 50, 20], 40, 40, 0);
    assert_eq!(r, Shape::Triangle { x1: 2, y1: 10, x2: 39, y2: 20, x3: 1, y3: 30, r: 100, g: 150, b: 200, alpha: 50 });
}

#[test]
fn shape_move_adds_the_steps() {
    let r = apply_shape_mutation(tri(), 1, [-20, 3, 4, -5, 6, 7], 100, 100, 0);
    assert_eq!(r, Shape::Triangle { x1: 0, y1: 8, x2: 24, y2: 10, x3: 36, y3: 32, r: 100, g: 150, b: 200, alpha: 50 });
}

#[test]
fn shape_colour_draws_and_steps() {
    let r = apply_shape_mutation(tri(), 3, [1, 2, 3, 0, 0, 0], 100, 100, 0);
    assert_eq!(r, Shape::Triangle { x1: 10, y1: 5, x2: 20, y2: 15, x3: 30, y3: 25, r: 1, g: 2, b: 3, alpha: 50 });
    let r = apply_shape_mutation(tri(), 4, [-5, 5, 0, 0, 0, 0], 100, 100, 0);
    assert_eq!(r, Shape::Triangle { x1: 10, y1: 5, x2: 20, y2: 15, x3: 30, y3: 25, r: 95, g: 155, b: 200, alpha: 50 });
    let c = Shape::Circle { cx: 5, cy: 5, radius: 3, r: 2, g: 253, b: 9, alpha: 7 };
    let r = apply_shape_mutation(c, 4, [-5, 5, 0, 0, 0, 0], 100, 100, 0);
    assert_eq!(r, Shape::Circle { cx: 5, cy: 5, radius: 3, r: 0, g: 255, b: 9, alpha: 7 });
}

#[test]
fn shape_alpha_draw_replaces_alpha() {
    let r = apply_shape_mutation(tri(), 5, [77, 0, 0, 0, 0, 0], 100, 100, 0);
    assert_eq!(r, Shape::Triangle { x1: 10, y1: 5, x2: 20, y2: 15, x3: 30, y3: 25, r: 100, g: 150, b: 200, alpha: 77 });
}

#[test]
fn circle_move_shrinks_radius_to_fit() {
    let c = Shape::Circle { cx: 10, cy: 10, radius: 5, r: 0, g: 0, b: 0, alpha: 50 };
    let r = apply_shape_mutation(c, 2, [-5, 0, 5, 0, 0, 0], 100, 100, 0);
    // Centre (5, 10), radius 10 shrinks to 5 so that cx - radius >= 0.
    assert_eq!(r, Shape::Circle { cx: 5, cy: 10, radius: 5, r: 0, g: 0, b: 0, alpha: 50 });
}

#[test]
fn triangle_mutation_on_a_large_canvas() {
    let mut rng = SmallRng::seed_from_u64(7);
    let mut shape = tri();
    for _ in 0..200 {
        mutate_shape(&mut rng, &mut shape, 20000, 20000, 0);
    }
    if let Shape::Triangle { y1, y2, y3, .. } = shape {
        assert!(y1 <= y2 && y2 <= y3);
    } else {
        panic!("a triangle stays a triangle");
    }
}

#[test]
fn z_order_nudges_saturate() {
    assert_eq!(nudge_z_order(100, 30, true), 130);
    assert_eq!(nudge_z_order(100, 30, false), 70);
    assert_eq!(nudge_z_order(65500, 1000, true), u16::MAX);
    assert_eq!(nudge_z_order(10, 1000, false), 0);
    assert_eq!(nudge_z_order(10, 0, true), 10);
}

fn config() -> MutationConfig {
    MutationConfig {
        width: 100,
        height: 80,
        margin: 0,
        mutation_rate: 200,
        use_triangles: true,
        use_circles: true,
        use_polygons: false,
        max_polygon_vertices: 6,
    }
}

#[test]
fn triangle_gene_apply_mutation() {
    let t = TriangleGene { x1: 10, y1: 5, x2: 20, y2: 15, x3: 30, y3: 25, oklab: 1u8, alpha: 50, z_order: 4 };
    let r = t.apply_mutation(0, [150, 70, 5, -3, 7, 8], 9, &config());
    assert_eq!((r.x1, r.y1, r.x2, r.y2, r.x3, r.y3), (5, 0, 7, 8, 99, 70));
    assert_eq!((r.oklab, r.alpha, r.z_order), (1, 50, 4));
    let r = t.apply_mutation(3, [0; 6], 9, &config());
    assert_eq!((r.x1, r.oklab, r.alpha), (10, 9, 50));
    let r = t.apply_mutation(5, [33, 0, 0, 0, 0, 0], 9, &config());
    assert_eq!((r.oklab, r.alpha), (1, 33));
}

#[test]
fn circle_gene_apply_mutation() {
    let c = CircleGene { cx: 10, cy: 5, radius: 3, oklab: 1u8, alpha: 50, z_order: 4 };
    let r = c.apply_mutation(1, [-20, 20, 20, 0, 0, 0], 9, &config());
    assert_eq!((r.cx, r.cy, r.radius), (0, 25, 23));
    let r = c.apply_mutation(0, [120, 90, 40, 0, 0, 0], 9, &config());
    assert_eq!((r.cx, r.cy, r.radius), (99, 79, 40));
}

#[test]
fn fresh_shapes_from_draws() {
    let s = shape_from_draws(true, [5, 9, 1, 2, 7, 4], (1, 2, 3, 40), 10, 10, 0);
    assert_eq!(s, Shape::Triangle { x1: 1, y1: 2, x2: 7, y2: 4, x3: 5, y3: 9, r: 1, g: 2, b: 3, alpha: 40 });
    let s = shape_from_draws(false, [5, 5, 9, 0, 0, 0], (1, 2, 3, 40), 10, 10, 0);
    assert_eq!(s, Shape::Circle { cx: 5, cy: 5, radius: 4, r: 1, g: 2, b: 3, alpha: 40 });
    let s = small_shape_from_draws(true, 3, 3, [-5, 1, 2, -2, 4, 0], (9, 9, 9, 9), 10, 10, 0);
    assert_eq!(s, Shape::Triangle { x1: 5, y1: 1, x2: 7, y2: 3, x3: 0, y3: 4, r: 9, g: 9, b: 9, alpha: 9 });
    let s = small_shape_from_draws(false, 3, 4, [2, 0, 0, 0, 0, 0], (9, 9, 9, 9), 10, 10, 0);
    assert_eq!(s, Shape::Circle { cx: 3, cy: 4, radius: 2, r: 9, g: 9, b: 9, alpha: 9 });
}
