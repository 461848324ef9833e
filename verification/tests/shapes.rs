use rand::SeedableRng;
use rand::rngs::SmallRng;
use shapeme::shapes::{MAXALPHA, MINALPHA, Shape, mutate_shape, normalize};

fn seeded() -> SmallRng {
    SmallRng::seed_from_u64(42)
}

#[test]
fn shapes_triangle_normalise_sorts_by_y() {
    let mut shape = Shape::Triangle {
        x1: 10,
        y1: 30,
        x2: 20,
        y2: 10,
        x3: 30,
        y3: 20,
        r: 0,
        g: 0,
        b: 0,
        alpha: 50,
    };
    normalize(&mut shape, 100, 100, 0);
    if let Shape::Triangle { y1, y2, y3, .. } = shape {
        assert!(y1 <= y2 && y2 <= y3, "y values must be non-decreasing after normalise");
    } else {
        panic!("expected Triangle");
    }
}

#[test]
fn circle_normalise_clamps_radius() {
    let mut shape = Shape::Circle { cx: 5, cy: 5, radius: 100, r: 0, g: 0, b: 0, alpha: 50 };
    normalize(&mut shape, 50, 50, 0);
    if let Shape::Circle { cx, cy, radius, .. } = shape {
        assert!(cx - radius >= 0);
        assert!(cx + radius < 50);
        assert!(cy - radius >= 0);
        assert!(cy + radius < 50);
    } else {
        panic!("expected Circle");
    }
}

#[test]
fn shapes_alpha_mutation_stays_in_bounds() {
    let mut rng = seeded();
    let mut shape = Shape::Triangle {
        x1: 10,
        y1: 10,
        x2: 20,
        y2: 20,
        x3: 30,
        y3: 30,
        r: 128,
        g: 128,
        b: 128,
        alpha: 50,
    };
    for _ in 0..1000 {
        mutate_shape(&mut rng, &mut shape, 100, 100, 0);
        if let Shape::Triangle { alpha, .. } = shape {
            assert!((MINALPHA..=MAXALPHA).contains(&alpha), "alpha {alpha} out of bounds");
        }
    }
}

#[test]
fn shapes_normalise_with_margin_allows_coords_outside_image() {
    let margin: i16 = 10;
    let mut shape = Shape::Triangle {
        x1: -5,
        y1: -5,
        x2: 104,
        y2: 5,
        x3: 5,
        y3: 104,
        r: 0,
        g: 0,
        b: 0,
        alpha: 50,
    };
    normalize(&mut shape, 100, 100, margin);
    if let Shape::Triangle { x1, y1, x2, y2, x3, y3, .. } = shape {
        assert_eq!(x1, -5, "x1 within margin should be unchanged");
        assert_eq!(y1, -5, "y1 within margin should be unchanged");
        assert_eq!(x2, 104, "x2 within margin should be unchanged");
        assert_eq!(x3, 5, "x3 in-bounds should be unchanged");
        assert_eq!(y3, 104, "y3 within margin should be unchanged");
        assert!(y1 <= y2 && y2 <= y3, "y values must be non-decreasing");
    } else {
        panic!("expected Triangle");
    }
}
