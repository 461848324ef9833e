use rand::SeedableRng;
use rand::rngs::SmallRng;
use shapeme::annealing::{mutate_shapes, ShapeSet};
use shapeme::shapes::{random_shape, Shape, MAXALPHA, MINALPHA};

fn unit(raw: u32) -> f32 {
    (raw >> 8) as f32 * (1.0 / 16_777_216.0)
}

fn blur_step(r: f32, raw: u32, up: bool) -> f32 {
    let delta = unit(raw) * 2.0;
    if up { r + delta } else { r - delta }
}

fn blur_kept(r: f32) -> bool {
    !(r < 0.1)
}

fn margin_of(r: f32) -> i16 {
    r.ceil() as i16
}

fn alpha(s: &Shape) -> u8 {
    match *s {
        Shape::Triangle { alpha, .. } => alpha,
        Shape::Circle { alpha, .. } => alpha,
    }
}

#[test]
fn shape_set_starts_empty() {
    let set: ShapeSet<f32> = ShapeSet::new(8);
    assert_eq!(set.len(), 0);
    assert!(set.active().is_empty());
    assert_eq!(set.capacity, 8);
}

#[test]
fn mutate_shapes_respects_capacity_and_keeps_one() {
    let mut rng = SmallRng::seed_from_u64(5);
    let mut set: ShapeSet<f32> = ShapeSet::new(6);
    set.shapes.push(random_shape(&mut rng, 64, 64, true, true, 0));
    let mut grew = false;
    for _ in 0..3000 {
        let before = set.len();
        mutate_shapes(&mut rng, &mut set, 5, 64, 64, 500, true, true, &blur_step, &blur_kept, 0.5, &margin_of);
        let after = set.len();
        assert!(after >= 1, "the set must never become empty");
        assert!(after <= 5, "the set may not grow past the incremental cap");
        assert!(after + 1 >= before && after <= before + 1);
        grew |= after > before;
        for s in set.active() {
            assert!((MINALPHA..=MAXALPHA).contains(&alpha(s)));
        }
    }
    assert!(grew, "shapes should be added now and then");
}

#[test]
fn mutate_shapes_blur_appears_at_initial_radius() {
    let mut rng = SmallRng::seed_from_u64(11);
    let mut set: ShapeSet<f32> = ShapeSet::new(4);
    set.shapes.push(random_shape(&mut rng, 32, 32, true, false, 0));
    for _ in 0..2000 {
        let had = set.blur_radius;
        mutate_shapes(&mut rng, &mut set, 1, 32, 32, 0, true, false, &blur_step, &blur_kept, 0.5, &margin_of);
        if had.is_none() && set.blur_radius.is_some() {
            assert_eq!(set.blur_radius, Some(0.5));
            return;
        }
    }
    panic!("the blur never appeared");
}

#[test]
fn zero_mutation_rate_leaves_a_lone_shape_alone() {
    let mut rng = SmallRng::seed_from_u64(3);
    let mut set: ShapeSet<f32> = ShapeSet::new(1);
    let start = random_shape(&mut rng, 64, 64, true, true, 0);
    set.shapes.push(start);
    for _ in 0..300 {
        mutate_shapes(&mut rng, &mut set, 1, 64, 64, 0, true, true, &blur_step, &blur_kept, 0.5, &margin_of);
        assert_eq!(set.shapes, vec![start]);
    }
}
