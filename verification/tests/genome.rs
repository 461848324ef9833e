use rand::SeedableRng;
use rand::rngs::SmallRng;
use shapeme::budget::trim_genome_to_budget;
use shapeme::gene::{BackgroundGene, BlurGene, CircleGene, MutationConfig, PolygonGene, ShapeGene, TriangleGene, TRIANGLE_COST};
use shapeme::genome::{CostBudget, ShapeGenome};
use shapeme::svg::{build_svg, svg_to_data_url};

type Lab = [f32; 3];

fn seeded() -> SmallRng {
    SmallRng::seed_from_u64(42)
}

fn black_oklab() -> Lab {
    [0.0, 0.0, 0.0]
}

/// The uniform `f32` in `[0, 1)` that `rand` makes from a 32-bit draw.
fn unit(raw: u32) -> f32 {
    (raw >> 8) as f32 * (1.0 / 16_777_216.0)
}

fn redraw(raw: [u32; 3]) -> Lab {
    [unit(raw[0]), (unit(raw[1]) * 2.0 - 1.0) * 0.4, (unit(raw[2]) * 2.0 - 1.0) * 0.4]
}

fn nudge(lab: Lab, raw: [u32; 3]) -> Lab {
    let dl = (unit(raw[0]) * 2.0 - 1.0) * 0.01;
    let da = (unit(raw[1]) * 2.0 - 1.0) * 0.05;
    let db = (unit(raw[2]) * 2.0 - 1.0) * 0.05;
    [(lab[0] + dl).clamp(0.0, 1.0), lab[1] + da, lab[2] + db]
}

fn centroid(v: &[(i16, i16)]) -> (f32, f32) {
    let n = v.len() as f32;
    let cx = v.iter().map(|(x, _)| *x as f32).sum::<f32>() / n;
    let cy = v.iter().map(|(_, y)| *y as f32).sum::<f32>() / n;
    (cx, cy)
}

/// An order-preserving `u32` image of a finite `f32`.
fn order_key(a: f32) -> u32 {
    let b = a.to_bits();
    if b >> 31 == 1 { !b } else { b | 0x8000_0000 }
}

fn angle_keys(v: &Vec<(i16, i16)>) -> Vec<u32> {
    let (cx, cy) = centroid(v);
    v.iter().map(|(x, y)| order_key((*y as f32 - cy).atan2(*x as f32 - cx))).collect()
}

fn diverge(c: Lab) -> (Lab, Lab) {
    ([c[0], c[1] + 0.05, c[2] - 0.05], [c[0], c[1] - 0.05, c[2] + 0.05])
}

fn halves(v: &Vec<(i16, i16)>, raw: u32, first: bool) -> Vec<bool> {
    let dividing = unit(raw) * std::f32::consts::TAU;
    let (cx, cy) = centroid(v);
    v.iter()
        .map(|(x, y)| {
            let angle = (*y as f32 - cy).atan2(*x as f32 - cx);
            let relative = (angle - dividing).rem_euclid(std::f32::consts::TAU);
            if first { relative < std::f32::consts::PI } else { relative >= std::f32::consts::PI }
        })
        .collect()
}

fn mid(a: Lab, b: Lab) -> Lab {
    [f32::midpoint(a[0], b[0]), f32::midpoint(a[1], b[1]), f32::midpoint(a[2], b[2])]
}

fn blur_step(r: f32, raw: u32, up: bool) -> f32 {
    let delta = unit(raw) * 2.0;
    if up { r + delta } else { r - delta }
}

fn blur_kept(r: f32) -> bool {
    !(r < 0.1)
}

fn mid_radius(a: f32, b: f32) -> f32 {
    f32::midpoint(a, b)
}

fn sample_config() -> MutationConfig {
    MutationConfig {
        width: 100,
        height: 100,
        margin: 0,
        mutation_rate: 500,
        use_triangles: true,
        use_circles: false,
        use_polygons: false,
        max_polygon_vertices: 64,
    }
}

fn triangle(x: i16, y: i16, oklab: Lab, z: u16) -> ShapeGene<Lab> {
    ShapeGene::Triangle(TriangleGene { x1: x, y1: y, x2: x + 50, y2: y, x3: x + 25, y3: y + 50, oklab, alpha: 50, z_order: z })
}

fn sample_genome() -> ShapeGenome<Lab, f32> {
    ShapeGenome {
        shapes: vec![triangle(0, 0, [0.6279, -0.2516, 0.0], 100), triangle(10, 10, [0.8664, -0.2334, 0.1795], 200)],
        blur: None,
        background: BackgroundGene { oklab: [0.0, 0.0, 0.0] },
    }
}

fn mutate(g: &ShapeGenome<Lab, f32>, rng: &mut SmallRng, budget: &CostBudget, config: &MutationConfig) -> ShapeGenome<Lab, f32> {
    g.mutate(rng, budget, config, &redraw, &nudge, &angle_keys, &diverge, &blur_step, &blur_kept, 0.5)
}

#[test]
fn mutate_never_empties_genome() {
    let mut rng = SmallRng::seed_from_u64(42);
    let mut genome = ShapeGenome { shapes: vec![triangle(0, 0, [0.5987, 0.0, 0.0], 0)], blur: None, background: BackgroundGene { oklab: [0.0, 0.0, 0.0] } };
    let config = sample_config();
    let budget = CostBudget::from_shape_count(64, 1);
    for _ in 0..500 {
        genome = mutate(&genome, &mut rng, &budget, &config);
        assert!(!genome.shapes.is_empty(), "genome must never be empty");
    }
}

#[test]
fn recombine_preserves_non_empty() {
    let mut rng = SmallRng::seed_from_u64(42);
    let a = sample_genome();
    let b = sample_genome();
    for _ in 0..100 {
        let child = a.recombine(&b, &mut rng, &mid, &mid_radius);
        assert!(!child.shapes.is_empty(), "recombined genome must not be empty");
    }
}

#[test]
fn split_mutation_increases_gene_count() {
    let mut rng = SmallRng::seed_from_u64(42);
    let polygon_config = MutationConfig { use_polygons: true, use_triangles: false, use_circles: false, ..sample_config() };
    let budget = CostBudget::from_shape_count(64, 10);
    let genome = ShapeGenome {
        shapes: vec![ShapeGene::Polygon(PolygonGene {
            vertices: vec![(0, 0), (50, 0), (100, 0), (100, 50), (100, 100), (50, 100), (0, 100), (0, 50)],
            oklab: [0.5, 0.0, 0.0],
            alpha: 50,
            z_order: 0,
        })],
        blur: None,
        background: BackgroundGene { oklab: [0.0, 0.0, 0.0] },
    };
    let mut found_split = false;
    for _ in 0..500 {
        let mutated = mutate(&genome, &mut rng, &budget, &polygon_config);
        if mutated.shapes.len() > 1 {
            found_split = true;
            break;
        }
    }
    assert!(found_split, "split mutation should fire within 500 attempts");
}

#[test]
fn sorted_genes_respects_z_order() {
    let genome: ShapeGenome<Lab, f32> = ShapeGenome {
        shapes: vec![
            ShapeGene::Circle(CircleGene { cx: 20, cy: 20, radius: 5, oklab: [0.5, 0.0, 0.0], alpha: 50, z_order: 200 }),
            ShapeGene::Circle(CircleGene { cx: 10, cy: 10, radius: 5, oklab: [0.5, 0.0, 0.0], alpha: 50, z_order: 100 }),
        ],
        blur: None,
        background: BackgroundGene { oklab: [0.0, 0.0, 0.0] },
    };
    let sorted = genome.sorted_genes();
    assert_eq!(sorted[0].z_order(), 100);
    assert_eq!(sorted[1].z_order(), 200);
}

#[test]
fn gene_costs_sum_correctly() {
    let genome = sample_genome();
    let expected = TRIANGLE_COST * 2;
    assert_eq!(genome.total_cost(), expected);
}

#[test]
fn sorted_genes_keeps_equal_z_in_list_order() {
    let genome: ShapeGenome<Lab, f32> = ShapeGenome {
        shapes: vec![triangle(3, 0, [0.0; 3], 5), triangle(1, 0, [0.0; 3], 5), triangle(2, 0, [0.0; 3], 1)],
        blur: None,
        background: BackgroundGene { oklab: [0.0; 3] },
    };
    let xs: Vec<i16> = genome
        .sorted_genes()
        .iter()
        .map(|g| match g {
            ShapeGene::Triangle(t) => t.x1,
            _ => unreachable!(),
        })
        .collect();
    assert_eq!(xs, vec![2, 3, 1]);
}

#[test]
fn mutation_growth_stays_within_budget() {
    let mut rng = SmallRng::seed_from_u64(7);
    let config = MutationConfig { use_circles: true, use_polygons: true, ..sample_config() };
    let budget = CostBudget { max_cost: 200, max_cost_incremental: 120 };
    let mut genome = sample_genome();
    for _ in 0..2000 {
        let before = genome.shapes.len();
        genome = mutate(&genome, &mut rng, &budget, &config);
        let after = genome.shapes.len();
        assert!(after + 1 >= before && after <= before + 1);
        if after == before + 1 {
            assert!(genome.total_cost() <= 120);
        }
    }
}

#[test]
fn crossover_child_is_prefix_of_a_and_suffix_of_b() {
    let mut rng = SmallRng::seed_from_u64(3);
    let a: ShapeGenome<Lab, f32> = ShapeGenome {
        shapes: (0..5).map(|i| triangle(i, 0, [0.0; 3], (i * 10) as u16)).collect(),
        blur: Some(BlurGene { radius: 2.0 }),
        background: BackgroundGene { oklab: [0.2, 0.0, 0.0] },
    };
    let b: ShapeGenome<Lab, f32> = ShapeGenome {
        shapes: (0..5).map(|i| triangle(100 + i, 0, [0.0; 3], (i * 10 + 5) as u16)).collect(),
        blur: Some(BlurGene { radius: 4.0 }),
        background: BackgroundGene { oklab: [0.4, 0.0, 0.0] },
    };
    for _ in 0..50 {
        let child = a.recombine(&b, &mut rng, &mid, &mid_radius);
        let xs: Vec<i16> = child
            .shapes
            .iter()
            .map(|g| match g {
                ShapeGene::Triangle(t) => t.x1,
                _ => unreachable!(),
            })
            .collect();
        assert_eq!(xs.len(), 5);
        let k = xs.iter().take_while(|x| **x < 100).count();
        assert!((1..5).contains(&k));
        for (i, x) in xs.iter().enumerate() {
            assert_eq!(*x, if i < k { i as i16 } else { 100 + i as i16 });
        }
        assert_eq!(child.blur.map(|b| b.radius), Some(3.0));
        assert!((child.background.oklab[0] - 0.3).abs() < 1e-6);
    }
}

#[test]
fn budget_grows_every_thousand_generations() {
    let b = CostBudget { max_cost: 100, max_cost_incremental: 21 };
    assert_eq!(b.grown(1000, 10).max_cost_incremental, 42);
    assert_eq!(b.grown(999, 10).max_cost_incremental, 21);
    assert_eq!(b.grown(2000, 0).max_cost_incremental, 21);
    let full = CostBudget { max_cost: 21, max_cost_incremental: 21 };
    assert_eq!(full.grown(1000, 10).max_cost_incremental, 21);
}

#[test]
fn trim_drops_blur_then_top_genes() {
    let genome: ShapeGenome<Lab, f32> = ShapeGenome {
        shapes: (0..4).map(|i| triangle(i, 0, [0.0; 3], (40 - i * 10) as u16)).collect(),
        blur: Some(BlurGene { radius: 3.0 }),
        background: BackgroundGene { oklab: [0.0; 3] },
    };
    let to_srgb = |c: Lab| [(c[0] * 255.0) as u8, 0u8, 0u8];
    let text = |r: f32| format!("{r}");
    let full = trim_genome_to_budget(&genome, 100, 100, usize::MAX, &to_srgb, &text);
    assert_eq!(full.shapes.len(), 4);
    assert!(full.blur.is_some());
    let tiny = trim_genome_to_budget(&genome, 100, 100, 10, &to_srgb, &text);
    assert_eq!(tiny.shapes.len(), 0);
    assert!(tiny.blur.is_some(), "with no gene left the blur is kept");
    // The limit is exactly the URL of the two lowest genes without blur.
    let sorted = genome.sorted_genes();
    let two: Vec<ShapeGene<[u8; 3]>> = sorted[..2].iter().map(|g| g.map_colour(&to_srgb)).collect();
    let limit = svg_to_data_url(&build_svg(&two, 100, 100, None, [0, 0, 0], true)).len();
    let trimmed = trim_genome_to_budget(&genome, 100, 100, limit, &to_srgb, &text);
    assert_eq!(trimmed.shapes.len(), 2);
    assert!(trimmed.blur.is_none());
    assert_eq!(trimmed.shapes[0].z_order(), 10);
    assert_eq!(trimmed.shapes[1].z_order(), 20);
}

#[test]
fn zero_mutation_rate_leaves_the_only_gene_alone() {
    let mut rng = SmallRng::seed_from_u64(11);
    let config = MutationConfig { mutation_rate: 0, ..sample_config() };
    let budget = CostBudget::from_shape_count(1, 1);
    let start = triangle(10, 10, [0.5, 0.0, 0.0], 7);
    let mut genome = ShapeGenome { shapes: vec![start.clone()], blur: None, background: BackgroundGene { oklab: [0.0, 0.0, 0.0] } };
    for _ in 0..300 {
        genome = mutate(&genome, &mut rng, &budget, &config);
        assert_eq!(genome.shapes.len(), 1);
        match (&genome.shapes[0], &start) {
            (ShapeGene::Triangle(a), ShapeGene::Triangle(b)) => {
                assert_eq!((a.x1, a.y1, a.x2, a.y2, a.x3, a.y3, a.alpha, a.z_order), (b.x1, b.y1, b.x2, b.y2, b.x3, b.y3, b.alpha, b.z_order));
                assert_eq!(a.oklab, b.oklab);
            }
            _ => panic!("the gene must stay a triangle"),
        }
    }
}
