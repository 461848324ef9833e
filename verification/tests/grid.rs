use rand::SeedableRng;
use rand::rngs::SmallRng;
use shapeme::grid::GridGenome;

type Lab = [f32; 3];

fn seeded() -> SmallRng {
    SmallRng::seed_from_u64(42)
}

fn black_oklab() -> Lab {
    [0.0, 0.0, 0.0]
}

/// The uniform `f32` in `[0, 1)` that `rand` makes from a 32-bit draw.
fn unit(raw: u32) -> f32 {
    (raw >> 8) as f32 * (1.0 / 16_777_216.0)
}

fn redraw(raw: [u32; 3]) -> Lab {
    [unit(raw[0]), (unit(raw[1]) * 2.0 - 1.0) * 0.4, (unit(raw[2]) * 2.0 - 1.0) * 0.4]
}

fn nudge(lab: Lab, raw: [u32; 3]) -> Lab {
    let dl = (unit(raw[0]) * 2.0 - 1.0) * 0.01;
    let da = (unit(raw[1]) * 2.0 - 1.0) * 0.05;
    let db = (unit(raw[2]) * 2.0 - 1.0) * 0.05;
    [(lab[0] + dl).clamp(0.0, 1.0), lab[1] + da, lab[2] + db]
}

fn centroid(v: &[(i16, i16)]) -> (f32, f32) {
    let n = v.len() as f32;
    let cx = v.iter().map(|(x, _)| *x as f32).sum::<f32>() / n;
    let cy = v.iter().map(|(_, y)| *y as f32).sum::<f32>() / n;
    (cx, cy)
}

/// An order-preserving `u32` image of a finite `f32`.
fn order_key(a: f32) -> u32 {
    let b = a.to_bits();
    if b >> 31 == 1 { !b } else { b | 0x8000_0000 }
}

fn angle_keys(v: &Vec<(i16, i16)>) -> Vec<u32> {
    let (cx, cy) = centroid(v);
    v.iter().map(|(x, y)| order_key((*y as f32 - cy).atan2(*x as f32 - cx))).collect()
}

fn diverge(c: Lab) -> (Lab, Lab) {
    ([c[0], c[1] + 0.05, c[2] - 0.05], [c[0], c[1] - 0.05, c[2] + 0.05])
}

fn halves(v: &Vec<(i16, i16)>, raw: u32, first: bool) -> Vec<bool> {
    let dividing = unit(raw) * std::f32::consts::TAU;
    let (cx, cy) = centroid(v);
    v.iter()
        .map(|(x, y)| {
            let angle = (*y as f32 - cy).atan2(*x as f32 - cx);
            let relative = (angle - dividing).rem_euclid(std::f32::consts::TAU);
            if first { relative < std::f32::consts::PI } else { relative >= std::f32::consts::PI }
        })
        .collect()
}

fn mid(a: Lab, b: Lab) -> Lab {
    [f32::midpoint(a[0], b[0]), f32::midpoint(a[1], b[1]), f32::midpoint(a[2], b[2])]
}

fn blur_step(r: f32, raw: u32, up: bool) -> f32 {
    let delta = unit(raw) * 2.0;
    if up { r + delta } else { r - delta }
}

fn blur_kept(r: f32) -> bool {
    !(r < 0.1)
}

fn margin_of(r: f32) -> i16 {
    r.ceil() as i16
}

fn mid_radius(a: f32, b: f32) -> f32 {
    f32::midpoint(a, b)
}

const GREY: Lab = [0.5, 0.0, 0.0];

fn grid(cols: u16, rows: u16, width: u32, height: u32, blur: Option<f32>) -> GridGenome<Lab, f32> {
    GridGenome::new(cols, rows, width, height, blur.map_or(0, |r| r.ceil() as i32), blur, GREY)
}

#[test]
fn new_grid_has_correct_dimensions() {
    let g = grid(4, 3, 64, 64, None);
    assert_eq!(g.points.len(), 5 * 4, "points: (cols+1)*(rows+1)");
    assert_eq!(g.colors.len(), 4 * 3, "colors: cols*rows");
}

#[test]
fn new_grid_places_points_evenly() {
    let g = grid(2, 2, 64, 64, Some(4.0));
    assert_eq!(g.points[0], (-4, -4));
    assert_eq!(g.points[1], (-4 + 71 / 2, -4));
    assert_eq!(g.points[8], (67, 67));
    assert!(g.colors.iter().all(|c| *c == GREY));
}

#[test]
fn normalize_pins_corners() {
    let mut g = grid(2, 2, 64, 64, Some(4.0));
    g.points[0] = (100, 100);
    let margin = 4i16;
    g.normalize(64, 64, margin);
    assert_eq!(g.points[0], (-margin, -margin));
}

#[test]
fn normalize_pins_edges() {
    let mut g = grid(2, 2, 64, 64, Some(4.0));
    let margin = 4i16;
    let top_mid = g.points[0 * 3 + 1];
    g.points[0 * 3 + 1] = (100, 100);
    g.normalize(64, 64, margin);
    let (x, y) = g.points[0 * 3 + 1];
    assert_eq!(y, -margin, "top edge y must be pinned");
    assert!(x != top_mid.0 || x.clamp(-margin, 63 + margin) == x, "x should be clamped");
}

#[test]
fn normalize_clamps_interior_and_pins_far_edges() {
    let mut g = grid(2, 2, 64, 64, None);
    g.points[4] = (500, -500);
    g.points[5] = (10, 10);
    g.normalize(64, 64, 2);
    assert_eq!(g.points[4], (65, -2));
    assert_eq!(g.points[5], (65, 10));
    assert_eq!(g.points[8], (65, 65));
}

#[test]
fn mutate_preserves_dimensions() {
    let mut rng = SmallRng::seed_from_u64(42);
    let g = grid(4, 3, 64, 64, None);
    for _ in 0..200 {
        let m = g.mutate(&mut rng, 64, 64, &redraw, &nudge, &blur_step, &blur_kept, 0.5, &margin_of);
        assert_eq!(m.cols, g.cols);
        assert_eq!(m.rows, g.rows);
        assert_eq!(m.points.len(), g.points.len());
        assert_eq!(m.colors.len(), g.colors.len());
    }
}

#[test]
fn recombine_preserves_dimensions() {
    let mut rng = SmallRng::seed_from_u64(42);
    let a = grid(4, 3, 64, 64, None);
    let b = grid(4, 3, 64, 64, Some(2.0));
    for _ in 0..50 {
        let child = a.recombine(&b, &mut rng, &mid_radius);
        assert_eq!(child.cols, a.cols);
        assert_eq!(child.points.len(), a.points.len());
        assert_eq!(child.colors.len(), a.colors.len());
    }
}

#[test]
fn grid_cost_is_cell_count() {
    let g = grid(4, 3, 64, 64, Some(1.5));
    assert_eq!(g.total_cost(), 12);
    assert_eq!(g.blur_radius(), Some(1.5));
}


#[test]
fn mutation_keeps_corners_on_the_margin_line() {
    let mut rng = SmallRng::seed_from_u64(9);
    let mut g = grid(3, 2, 40, 30, Some(2.0));
    for _ in 0..300 {
        g = g.mutate(&mut rng, 40, 30, &redraw, &nudge, &blur_step, &blur_kept, 0.5, &margin_of);
        let m = g.blur_radius().map_or(0, margin_of);
        assert_eq!(g.points[0], (-m, -m));
        assert_eq!(g.points[3], (39 + m, -m));
        assert_eq!(g.points[8], (-m, 29 + m));
        assert_eq!(g.points[11], (39 + m, 29 + m));
        for (x, y) in &g.points {
            assert!((-m..=39 + m).contains(x) && (-m..=29 + m).contains(y));
        }
    }
}

#[test]
fn map_colours_converts_every_cell() {
    let g = grid(2, 2, 16, 16, None);
    let h = g.map_colours(&|c: Lab| [(c[0] * 200.0) as u8, 0u8, 0u8]);
    assert_eq!(h.points, g.points);
    assert!(h.colors.iter().all(|c| *c == [100, 0, 0]));
}
