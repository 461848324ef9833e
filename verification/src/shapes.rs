//! Shapes of the integer model: triangles and circles with 8-bit RGB colour
//! and an integer alpha percentage, their normalisation against the canvas,
//! random generation and mutation.
use vstd::prelude::*;

use rand::rngs::SmallRng;

use crate::rng::{coin_flip, rand_between, random_below_u32, random_u32, random_u8};

verus! {

/// Smallest alpha percentage a generated or mutated shape receives.
pub const MINALPHA: u8 = 1;

/// Largest alpha percentage a generated or mutated shape receives.
pub const MAXALPHA: u8 = 100;

/// A filled shape.  Triangle vertices are kept sorted by `y` by
/// [`normalize`]; `alpha` is a percentage in `[MINALPHA, MAXALPHA]`.
#[derive(Clone, Copy, Debug, PartialEq, Eq, Structural)]
pub enum Shape {
    /// A filled triangle.
    Triangle { x1: i16, y1: i16, x2: i16, y2: i16, x3: i16, y3: i16, r: u8, g: u8, b: u8, alpha: u8 },
    /// A filled circle.
    Circle { cx: i16, cy: i16, radius: i16, r: u8, g: u8, b: u8, alpha: u8 },
}

/// `v` limited to `[lo, hi]`.
pub open spec fn clamp_spec(v: int, lo: int, hi: int) -> int {
    if v < lo {
        lo
    } else if v > hi {
        hi
    } else {
        v
    }
}

/// Clamp a coordinate into `[min, max]`.
pub fn clamp_coord(v: i16, min: i16, max: i16) -> (r: i16)
    requires
        min <= max,
    ensures
        r == clamp_spec(v as int, min as int, max as int),
{
    if v < min {
        min
    } else if v > max {
        max
    } else {
        v
    }
}

/// The canvas width or height as the `i16` that normalisation works with
/// (the same truncating conversion as `width as i16`).
pub open spec fn dim16(d: u32) -> int {
    (d as i16) as int
}

/// Lowest valid coordinate for a margin.
pub open spec fn lo_bound(margin: i16) -> int {
    -(margin as int)
}

/// Highest valid coordinate along an axis of size `d`.
pub open spec fn hi_bound(d: u32, margin: i16) -> int {
    dim16(d) - 1 + margin
}

/// The bounds arithmetic of normalisation stays within `i16` and the
/// clamping interval is non-empty along both axes.
pub open spec fn bounds_ok(width: u32, height: u32, margin: i16) -> bool {
    &&& margin > i16::MIN
    &&& dim16(width) > i16::MIN
    &&& dim16(height) > i16::MIN
    &&& i16::MIN <= hi_bound(width, margin) <= i16::MAX
    &&& i16::MIN <= hi_bound(height, margin) <= i16::MAX
    &&& i16::MIN <= dim16(width) + margin <= i16::MAX
    &&& i16::MIN <= dim16(height) + margin <= i16::MAX
    &&& lo_bound(margin) <= hi_bound(width, margin)
    &&& lo_bound(margin) <= hi_bound(height, margin)
}

/// The three vertices of a triangle, stably sorted by `y` (vertices with
/// equal `y` keep their order).
pub open spec fn sort3_by_y(p1: (i16, i16), p2: (i16, i16), p3: (i16, i16)) -> ((i16, i16), (i16, i16), (i16, i16)) {
    if p1.1 <= p2.1 && p2.1 <= p3.1 {
        (p1, p2, p3)
    } else if p1.1 <= p3.1 && p3.1 < p2.1 {
        (p1, p3, p2)
    } else if p2.1 < p1.1 && p1.1 <= p3.1 {
        (p2, p1, p3)
    } else if p2.1 <= p3.1 && p3.1 < p1.1 {
        (p2, p3, p1)
    } else if p3.1 < p1.1 && p1.1 <= p2.1 {
        (p3, p1, p2)
    } else {
        (p3, p2, p1)
    }
}

/// Largest radius a circle centred at `(cx, cy)` may have and still lie in
/// the margin-extended canvas.
pub open spec fn fit_radius(cx: int, cy: int, width: u32, height: u32, margin: i16) -> int {
    let a = cx + margin;
    let b = dim16(width) + margin - 1 - cx;
    let c = cy + margin;
    let d = dim16(height) + margin - 1 - cy;
    let ab = if a < b { a } else { b };
    let cd = if c < d { c } else { d };
    if ab < cd { ab } else { cd }
}

/// A normalised circle's centre, given the centre before normalisation.
pub open spec fn clamp_x(x: i16, width: u32, margin: i16) -> int {
    clamp_spec(x as int, lo_bound(margin), hi_bound(width, margin))
}

/// Exact result of normalising `s`: triangle vertices stably sorted by `y`
/// and each coordinate clamped to the margin-extended canvas; circle centre
/// clamped and a positive radius shrunk to the largest radius that fits
/// (a radius `<= 0` is left as it is).
pub open spec fn normalized(s: Shape, width: u32, height: u32, margin: i16) -> Shape {
    match s {
        Shape::Triangle { x1, y1, x2, y2, x3, y3, r, g, b, alpha } => {
            let (p1, p2, p3) = sort3_by_y((x1, y1), (x2, y2), (x3, y3));
            Shape::Triangle {
                x1: clamp_x(p1.0, width, margin) as i16,
                y1: clamp_x(p1.1, height, margin) as i16,
                x2: clamp_x(p2.0, width, margin) as i16,
                y2: clamp_x(p2.1, height, margin) as i16,
                x3: clamp_x(p3.0, width, margin) as i16,
                y3: clamp_x(p3.1, height, margin) as i16,
                r,
                g,
                b,
                alpha,
            }
        },
        Shape::Circle { cx, cy, radius, r, g, b, alpha } => {
            let ncx = clamp_x(cx, width, margin);
            let ncy = clamp_x(cy, height, margin);
            let fit = fit_radius(ncx, ncy, width, height, margin);
            Shape::Circle {
                cx: ncx as i16,
                cy: ncy as i16,
                radius: if radius <= 0 || radius <= fit { radius } else { fit as i16 },
                r,
                g,
                b,
                alpha,
            }
        },
    }
}

/// Normalisation can run without `i16` overflow: the bounds fit, and for a
/// circle with a positive radius the centre plus or minus the radius fits.
pub open spec fn normalize_ok(s: Shape, width: u32, height: u32, margin: i16) -> bool {
    &&& bounds_ok(width, height, margin)
    &&& match s {
        Shape::Triangle { .. } => true,
        Shape::Circle { cx, cy, radius, .. } => radius > 0 ==> {
            &&& i16::MIN <= clamp_x(cx, width, margin) - radius
            &&& clamp_x(cx, width, margin) + radius <= i16::MAX
            &&& i16::MIN <= clamp_x(cy, height, margin) - radius
            &&& clamp_x(cy, height, margin) + radius <= i16::MAX
        },
    }
}

/// `s` lies in the margin-extended canvas: every triangle coordinate and a
/// circle's centre are within bounds, triangle `y`s are non-decreasing, and
/// a circle with a positive radius lies entirely inside.
pub open spec fn is_normalized(s: Shape, width: u32, height: u32, margin: i16) -> bool {
    let lo = lo_bound(margin);
    let hx = hi_bound(width, margin);
    let hy = hi_bound(height, margin);
    match s {
        Shape::Triangle { x1, y1, x2, y2, x3, y3, .. } => {
            &&& lo <= x1 <= hx && lo <= x2 <= hx && lo <= x3 <= hx
            &&& lo <= y1 <= hy && lo <= y2 <= hy && lo <= y3 <= hy
            &&& y1 <= y2 <= y3
        },
        Shape::Circle { cx, cy, radius, .. } => {
            &&& lo <= cx <= hx && lo <= cy <= hy
            &&& radius > 0 ==> {
                &&& cx - radius >= lo
                &&& cx + radius < dim16(width) + margin
                &&& cy - radius >= lo
                &&& cy + radius < dim16(height) + margin
            }
        },
    }
}

/// The three vertices stably sorted by `y`, by bubble sort.
pub fn sort3(p1: (i16, i16), p2: (i16, i16), p3: (i16, i16)) -> (r: ((i16, i16), (i16, i16), (i16, i16)))
    ensures
        r == sort3_by_y(p1, p2, p3),
{
    // Bubble sort: two passes of adjacent compare-and-swap sort three items.
    let (mut a, mut b, mut c) = (p1, p2, p3);
    if a.1 > b.1 {
        let t = a;
        a = b;
        b = t;
    }
    if b.1 > c.1 {
        let t = b;
        b = c;
        c = t;
    }
    if a.1 > b.1 {
        let t = a;
        a = b;
        b = t;
    }
    (a, b, c)
}

/// Bring `shape` into the margin-extended canvas `[-margin, dim - 1 + margin]`:
/// sort triangle vertices by `y` and clamp them, clamp a circle's centre and
/// shrink its radius until the circle fits.
pub fn normalize(shape: &mut Shape, width: u32, height: u32, margin: i16)
    requires
        normalize_ok(*old(shape), width, height, margin),
    ensures
        *final(shape) == normalized(*old(shape), width, height, margin),
        is_normalized(*final(shape), width, height, margin),
{
    let w = #[verifier::truncate] (width as i16);
    let h = #[verifier::truncate] (height as i16);
    let lo = -margin;
    let hx = w - 1 + margin;
    let hy = h - 1 + margin;
    let s = *shape;
    match s {
        Shape::Triangle { x1, y1, x2, y2, x3, y3, r, g, b, alpha } => {
            let (p1, p2, p3) = sort3((x1, y1), (x2, y2), (x3, y3));
            assert(w as int == dim16(width));
            assert(hx as int == hi_bound(width, margin));
            assert(lo as int == lo_bound(margin));
            *shape = Shape::Triangle {
                x1: clamp_coord(p1.0, lo, hx),
                y1: clamp_coord(p1.1, lo, hy),
                x2: clamp_coord(p2.0, lo, hx),
                y2: clamp_coord(p2.1, lo, hy),
                x3: clamp_coord(p3.0, lo, hx),
                y3: clamp_coord(p3.1, lo, hy),
                r,
                g,
                b,
                alpha,
            };
        },
        Shape::Circle { cx, cy, radius, r, g, b, alpha } => {
            let ncx = clamp_coord(cx, lo, hx);
            let ncy = clamp_coord(cy, lo, hy);
            let wm = w + margin;
            let hm = h + margin;
            let ghost fit = fit_radius(ncx as int, ncy as int, width, height, margin);
            let mut rad = radius;
            while rad > 0 && (ncx - rad < lo || ncx + rad >= wm || ncy - rad < lo || ncy + rad >= hm)
                invariant
                    radius > 0 ==> 0 <= rad <= radius,
                    radius <= 0 ==> rad == radius,
                    radius > 0 ==> (rad >= fit || rad == radius),
                    fit >= 0,
                    fit == fit_radius(ncx as int, ncy as int, width, height, margin),
                    lo == -margin,
                    wm == w + margin,
                    hm == h + margin,
                    w == dim16(width),
                    h == dim16(height),
                    lo <= ncx <= w - 1 + margin,
                    lo <= ncy <= h - 1 + margin,
                    radius > 0 ==> {
                        &&& i16::MIN <= ncx - radius && ncx + radius <= i16::MAX
                        &&& i16::MIN <= ncy - radius && ncy + radius <= i16::MAX
                    },
                decreases rad,
            {
                rad = rad - 1;
            }
            *shape = Shape::Circle { cx: ncx, cy: ncy, radius: rad, r, g, b, alpha };
        },
    }
}

/// `v` limited to the `i16` range.
pub open spec fn sat16(v: int) -> int {
    clamp_spec(v, i16::MIN as int, i16::MAX as int)
}

/// `a + b` saturating at the bounds of `i16` (the behaviour of
/// `i16::saturating_add`).
pub fn sat_add_i16(a: i16, b: i16) -> (r: i16)
    ensures
        r == sat16(a + b),
{
    let s: i32 = a as i32 + b as i32;
    if s > i16::MAX as i32 {
        i16::MAX
    } else if s < i16::MIN as i32 {
        i16::MIN
    } else {
        s as i16
    }
}

/// Canvas and margin small enough that every coordinate the generators and
/// mutators compute, and every sum normalisation forms, stays within `i16`.
pub open spec fn canvas_ok(width: u32, height: u32, margin: i16) -> bool {
    &&& 1 <= width <= 8192
    &&& 1 <= height <= 8192
    &&& 0 <= margin <= 8192
}

/// A circle's radius is small enough for mutation to renormalise it without
/// overflow (triangles are always fine).
pub open spec fn radius_ok(s: Shape) -> bool {
    match s {
        Shape::Triangle { .. } => true,
        Shape::Circle { radius, .. } => radius <= 16000,
    }
}

/// `a` and `b` are the same kind of shape with the same colour and alpha.
pub open spec fn same_paint(a: Shape, b: Shape) -> bool {
    match (a, b) {
        (
            Shape::Triangle { r: r1, g: g1, b: b1, alpha: a1, .. },
            Shape::Triangle { r: r2, g: g2, b: b2, alpha: a2, .. },
        ) => r1 == r2 && g1 == g2 && b1 == b2 && a1 == a2,
        (
            Shape::Circle { r: r1, g: g1, b: b1, alpha: a1, .. },
            Shape::Circle { r: r2, g: g2, b: b2, alpha: a2, .. },
        ) => r1 == r2 && g1 == g2 && b1 == b2 && a1 == a2,
        _ => false,
    }
}

/// `a` and `b` are the same kind of shape with the same geometry.
pub open spec fn same_geometry(a: Shape, b: Shape) -> bool {
    match (a, b) {
        (
            Shape::Triangle { x1: p1, y1: q1, x2: p2, y2: q2, x3: p3, y3: q3, .. },
            Shape::Triangle { x1: s1, y1: t1, x2: s2, y2: t2, x3: s3, y3: t3, .. },
        ) => p1 == s1 && q1 == t1 && p2 == s2 && q2 == t2 && p3 == s3 && q3 == t3,
        (
            Shape::Circle { cx: c1, cy: d1, radius: e1, .. },
            Shape::Circle { cx: c2, cy: d2, radius: e2, .. },
        ) => c1 == c2 && d1 == d2 && e1 == e2,
        _ => false,
    }
}

/// `|a - b| <= d`.
pub open spec fn near(a: int, b: int, d: int) -> bool {
    a - d <= b <= a + d
}

/// Every coordinate (and a circle's radius) of `u` lies within `d` of the
/// same coordinate of `s`.
pub open spec fn geometry_near(s: Shape, u: Shape, d: int) -> bool {
    match (s, u) {
        (
            Shape::Triangle { x1: p1, y1: q1, x2: p2, y2: q2, x3: p3, y3: q3, .. },
            Shape::Triangle { x1: s1, y1: t1, x2: s2, y2: t2, x3: s3, y3: t3, .. },
        ) => near(p1 as int, s1 as int, d) && near(q1 as int, t1 as int, d) && near(p2 as int, s2 as int, d)
            && near(q2 as int, t2 as int, d) && near(p3 as int, s3 as int, d) && near(q3 as int, t3 as int, d),
        (
            Shape::Circle { cx: c1, cy: d1, radius: e1, .. },
            Shape::Circle { cx: c2, cy: d2, radius: e2, .. },
        ) => near(c1 as int, c2 as int, d) && near(d1 as int, d2 as int, d) && near(e1 as int, e2 as int, d),
        _ => false,
    }
}

/// Every coordinate of `u` is a fresh draw on the canvas: `x` drawn modulo
/// the width, `y` modulo the height, a circle's radius modulo the width.
pub open spec fn geometry_in_canvas(u: Shape, width: u32, height: u32) -> bool {
    match u {
        Shape::Triangle { x1, y1, x2, y2, x3, y3, .. } => {
            &&& coord_drawn(x1, width) && coord_drawn(x2, width) && coord_drawn(x3, width)
            &&& coord_drawn(y1, height) && coord_drawn(y2, height) && coord_drawn(y3, height)
        },
        Shape::Circle { cx, cy, radius, .. } => coord_drawn(cx, width) && coord_drawn(cy, height) && coord_drawn(
            radius,
            width,
        ),
    }
}

/// Colour channels of a shape.
pub open spec fn rgb_of(s: Shape) -> (u8, u8, u8) {
    match s {
        Shape::Triangle { r, g, b, .. } => (r, g, b),
        Shape::Circle { r, g, b, .. } => (r, g, b),
    }
}

/// Alpha percentage of a shape.
pub open spec fn alpha_of(s: Shape) -> u8 {
    match s {
        Shape::Triangle { alpha, .. } => alpha,
        Shape::Circle { alpha, .. } => alpha,
    }
}

/// `t` is `s` with its colour and alpha replaced.
pub open spec fn repainted(s: Shape, t: Shape) -> bool {
    same_geometry(s, t) && match (s, t) {
        (Shape::Triangle { .. }, Shape::Triangle { .. }) => true,
        (Shape::Circle { .. }, Shape::Circle { .. }) => true,
        _ => false,
    }
}

/// The outcomes a single mutation can have: geometry redrawn inside the
/// canvas, or moved by at most 20 per coordinate, and renormalised; the RGB
/// colour changed (redrawn, or nudged by at most 5 per channel); or the alpha
/// redrawn from `[MINALPHA, MAXALPHA]`.  Only one aspect changes.
pub open spec fn mutation_outcome(s: Shape, t: Shape, width: u32, height: u32, margin: i16) -> bool {
    ||| exists|u: Shape|
        #![trigger normalized(u, width, height, margin)]
        same_paint(u, s) && geometry_in_canvas(u, width, height) && t == normalized(u, width, height, margin)
    ||| exists|u: Shape|
        #![trigger normalized(u, width, height, margin)]
        same_paint(u, s) && geometry_near(s, u, 20) && t == normalized(u, width, height, margin)
    ||| repainted(s, t) && alpha_of(t) == alpha_of(s)
    ||| repainted(s, t) && rgb_of(t) == rgb_of(s) && MINALPHA <= alpha_of(t) <= MAXALPHA
}

/// Alpha percentage drawn uniformly from `[MINALPHA, MAXALPHA]`.
fn random_alpha(rng: &mut SmallRng) -> (a: u8)
    ensures
        MINALPHA <= a <= MAXALPHA,
{
    rand_between(rng, MINALPHA as i32, MAXALPHA as i32) as u8
}

/// Decide the kind of a new shape: a triangle when only triangles are
/// enabled, a circle when triangles are disabled, a fair coin when both are.
pub fn select_shape_type(rng: &mut SmallRng, use_triangles: bool, use_circles: bool) -> (is_triangle: bool)
    ensures
        use_triangles && !use_circles ==> is_triangle,
        !use_triangles ==> !is_triangle,
{
    if use_triangles && use_circles {
        coin_flip(rng)
    } else {
        use_triangles
    }
}

/// A random colour: uniform RGB channels and an alpha percentage in
/// `[MINALPHA, MAXALPHA]`.
pub fn random_color(rng: &mut SmallRng) -> (c: (u8, u8, u8, u8))
    ensures
        MINALPHA <= c.3 <= MAXALPHA,
{
    let r = random_u8(rng);
    let g = random_u8(rng);
    let b = random_u8(rng);
    let alpha = random_alpha(rng);
    (r, g, b, alpha)
}

/// A coordinate drawn as `random u32 % bound`, converted to `i16`.
fn random_coord(rng: &mut SmallRng, bound: u32) -> (v: i16)
    requires
        1 <= bound,
    ensures
        coord_drawn(v, bound),
        bound <= 32768 ==> 0 <= v < bound,
{
    let u = random_u32(rng) % bound;
    let v = #[verifier::truncate] (u as i16);
    assert(v == wrapped_i16(u));
    assert(u < 32768 ==> v == u) by (bit_vector)
        requires
            v == #[verifier::truncate] (u as i16),
    ;
    v
}

/// The kind chosen for a new shape agrees with the enabled kinds.
pub open spec fn kind_allowed(s: Shape, use_triangles: bool, use_circles: bool) -> bool {
    &&& (use_triangles && !use_circles ==> s is Triangle)
    &&& (!use_triangles ==> s is Circle)
}

/// A circle centred at `(cx, cy)` with radius `r` normalises without `i16`
/// overflow.
pub open spec fn circle_fits(cx: i16, cy: i16, r: i16, width: u32, height: u32, margin: i16) -> bool {
    r > 0 ==> {
        &&& i16::MIN <= clamp_x(cx, width, margin) - r
        &&& clamp_x(cx, width, margin) + r <= i16::MAX
        &&& i16::MIN <= clamp_x(cy, height, margin) - r
        &&& clamp_x(cy, height, margin) + r <= i16::MAX
    }
}

/// New shapes can be drawn on the canvas and normalised without overflow:
/// the sides are not empty, the bounds fit, and when circles can be drawn,
/// every circle `random_shape` can draw fits.
pub open spec fn fresh_ok(width: u32, height: u32, margin: i16, use_triangles: bool, use_circles: bool) -> bool {
    &&& width >= 1 && height >= 1
    &&& bounds_ok(width, height, margin)
    &&& (!use_triangles || use_circles) ==> forall|cx: i16, cy: i16, r: i16|
        coord_drawn(cx, width) && coord_drawn(cy, height) && coord_drawn(r, width) ==> #[trigger] circle_fits(
            cx,
            cy,
            r,
            width,
            height,
            margin,
        )
}

/// Small shapes of spread `delta` can be drawn and normalised without
/// overflow: the sides are not empty, the bounds fit, and when circles can
/// be drawn, `delta >= 1` and every circle of radius at most `delta`
/// centred on a drawn point fits.
pub open spec fn small_fresh_ok(width: u32, height: u32, margin: i16, delta: i32, use_triangles: bool, use_circles: bool) -> bool {
    &&& width >= 1 && height >= 1
    &&& bounds_ok(width, height, margin)
    &&& (!use_triangles || use_circles) ==> delta >= 1 && forall|cx: i16, cy: i16, r: i16|
        coord_drawn(cx, width) && coord_drawn(cy, height) && 1 <= r <= delta ==> #[trigger] circle_fits(
            cx,
            cy,
            r,
            width,
            height,
            margin,
        )
}

/// On a canvas within `canvas_ok`, new shapes of any kind, full size or of
/// spread up to 8192, can be drawn and normalised.
pub proof fn lemma_small_canvas_fresh(width: u32, height: u32, margin: i16, delta: i32, use_triangles: bool, use_circles: bool)
    requires
        canvas_ok(width, height, margin),
        1 <= delta <= 8192,
    ensures
        fresh_ok(width, height, margin, use_triangles, use_circles),
        small_fresh_ok(width, height, margin, delta, use_triangles, use_circles),
{
    assert forall|cx: i16, cy: i16, r: i16|
        coord_drawn(cx, width) && coord_drawn(cy, height) && coord_drawn(r, width) implies #[trigger] circle_fits(
        cx,
        cy,
        r,
        width,
        height,
        margin,
    ) by {
        lemma_coord_drawn_small(r, width);
    }
}

/// The shape a full-size draw makes: a triangle with vertices `(d[0],
/// d[1])`, `(d[2], d[3])`, `(d[4], d[5])`, or a circle centred at `(d[0],
/// d[1])` with radius `d[2]`, painted with `paint` (red, green, blue,
/// alpha).
pub open spec fn drawn_shape(is_triangle: bool, d: [i16; 6], paint: (u8, u8, u8, u8)) -> Shape {
    if is_triangle {
        Shape::Triangle {
            x1: d[0],
            y1: d[1],
            x2: d[2],
            y2: d[3],
            x3: d[4],
            y3: d[5],
            r: paint.0,
            g: paint.1,
            b: paint.2,
            alpha: paint.3,
        }
    } else {
        Shape::Circle { cx: d[0], cy: d[1], radius: d[2], r: paint.0, g: paint.1, b: paint.2, alpha: paint.3 }
    }
}

/// Build the shape of drawn values `d` and `paint` (see `drawn_shape`) and
/// normalise it.
pub fn shape_from_draws(is_triangle: bool, d: [i16; 6], paint: (u8, u8, u8, u8), width: u32, height: u32, margin: i16) -> (s:
    Shape)
    requires
        normalize_ok(drawn_shape(is_triangle, d, paint), width, height, margin),
    ensures
        s == normalized(drawn_shape(is_triangle, d, paint), width, height, margin),
{
    let (r, g, b, alpha) = paint;
    let mut shape = if is_triangle {
        Shape::Triangle { x1: d[0], y1: d[1], x2: d[2], y2: d[3], x3: d[4], y3: d[5], r, g, b, alpha }
    } else {
        Shape::Circle { cx: d[0], cy: d[1], radius: d[2], r, g, b, alpha }
    };
    normalize(&mut shape, width, height, margin);
    shape
}

/// A random shape anywhere in the canvas, normalised.
pub fn random_shape(
    rng: &mut SmallRng,
    width: u32,
    height: u32,
    use_triangles: bool,
    use_circles: bool,
    margin: i16,
) -> (s: Shape)
    requires
        fresh_ok(width, height, margin, use_triangles, use_circles),
    ensures
        kind_allowed(s, use_triangles, use_circles),
        MINALPHA <= alpha_of(s) <= MAXALPHA,
        is_normalized(s, width, height, margin),
        canvas_ok(width, height, margin) ==> radius_ok(s),
        exists|u: Shape|
            #![trigger normalized(u, width, height, margin)]
            geometry_in_canvas(u, width, height) && same_paint(u, s) && s == normalized(u, width, height, margin),
{
    let is_triangle = select_shape_type(rng, use_triangles, use_circles);
    let paint = random_color(rng);
    let d: [i16; 6] = if is_triangle {
        [
            random_coord(rng, width),
            random_coord(rng, height),
            random_coord(rng, width),
            random_coord(rng, height),
            random_coord(rng, width),
            random_coord(rng, height),
        ]
    } else {
        [random_coord(rng, width), random_coord(rng, height), random_coord(rng, width), 0, 0, 0]
    };
    let ghost u = drawn_shape(is_triangle, d, paint);
    proof {
        if !is_triangle {
            assert(circle_fits(d[0], d[1], d[2], width, height, margin));
        }
    }
    let shape = shape_from_draws(is_triangle, d, paint, width, height, margin);
    proof {
        assert(same_paint(u, shape));
        if canvas_ok(width, height, margin) {
            if let Shape::Circle { radius, .. } = u {
                lemma_coord_drawn_small(radius, width);
            }
        }
    }
    shape
}

/// `v` is `x + e` for some `e` in `[-delta, delta]`, converted to `i16`
/// (wrapping, as `as i16` does).
pub open spec fn offset_within(v: i16, x: int, delta: int) -> bool {
    exists|e: int| -delta <= e <= delta && v == #[trigger] wrap_i16(x + e)
}

/// `v` converted to `i16` as `as i16` does.
pub open spec fn wrap_i16(v: int) -> i16 {
    v as i16
}

/// A random shape of size about `delta` around a random point, normalised:
/// triangle vertices offset by at most `delta` from the point on each axis,
/// or a circle centred on it with radius in `[1, delta]`.
pub fn random_small_shape(
    rng: &mut SmallRng,
    width: u32,
    height: u32,
    delta: i32,
    use_triangles: bool,
    use_circles: bool,
    margin: i16,
) -> (s: Shape)
    requires
        small_fresh_ok(width, height, margin, delta, use_triangles, use_circles),
        0 <= delta <= i16::MAX,
    ensures
        kind_allowed(s, use_triangles, use_circles),
        MINALPHA <= alpha_of(s) <= MAXALPHA,
        is_normalized(s, width, height, margin),
        canvas_ok(width, height, margin) ==> radius_ok(s),
        exists|u: Shape, x: int, y: int|
            #![trigger normalized(u, width, height, margin), small_around(u, x, y, delta as int)]
            coord_drawn(x as i16, width) && coord_drawn(y as i16, height) && i16::MIN <= x <= i16::MAX && i16::MIN <= y
                <= i16::MAX && same_paint(u, s) && small_around(u, x, y, delta as int) && s == normalized(
                u,
                width,
                height,
                margin,
            ),
{
    let is_triangle = select_shape_type(rng, use_triangles, use_circles);
    let xs = random_coord(rng, width);
    let ys = random_coord(rng, height);
    let paint = random_color(rng);
    let e: [i32; 6] = if is_triangle {
        [
            rand_between(rng, -delta, delta),
            rand_between(rng, -delta, delta),
            rand_between(rng, -delta, delta),
            rand_between(rng, -delta, delta),
            rand_between(rng, -delta, delta),
            rand_between(rng, -delta, delta),
        ]
    } else {
        [rand_between(rng, 1, delta), 0, 0, 0, 0, 0]
    };
    let ghost u = small_drawn_shape(is_triangle, xs, ys, e, paint);
    proof {
        if !is_triangle {
            assert(circle_fits(xs, ys, e[0] as i16, width, height, margin));
        }
    }
    let shape = small_shape_from_draws(is_triangle, xs, ys, e, paint, width, height, margin);
    proof {
        assert(same_paint(u, shape));
        if is_triangle {
            assert(-delta <= e[0] <= delta && -delta <= e[1] <= delta && -delta <= e[2] <= delta);
            assert(-delta <= e[3] <= delta && -delta <= e[4] <= delta && -delta <= e[5] <= delta);
        }
        assert(small_around(u, xs as int, ys as int, delta as int));
        assert(shape == normalized(u, width, height, margin));
    }
    shape
}

/// The shape a small draw around `(x, y)` makes: a triangle with vertices
/// `(x + e[0], y + e[1])`, `(x + e[2], y + e[3])`, `(x + e[4], y + e[5])`
/// (each converted to `i16`), or a circle centred at `(x, y)` with radius
/// `e[0]`, painted with `paint`.
pub open spec fn small_drawn_shape(is_triangle: bool, x: i16, y: i16, e: [i32; 6], paint: (u8, u8, u8, u8)) -> Shape {
    if is_triangle {
        Shape::Triangle {
            x1: wrap_i16(x + e[0]),
            y1: wrap_i16(y + e[1]),
            x2: wrap_i16(x + e[2]),
            y2: wrap_i16(y + e[3]),
            x3: wrap_i16(x + e[4]),
            y3: wrap_i16(y + e[5]),
            r: paint.0,
            g: paint.1,
            b: paint.2,
            alpha: paint.3,
        }
    } else {
        Shape::Circle { cx: x, cy: y, radius: e[0] as i16, r: paint.0, g: paint.1, b: paint.2, alpha: paint.3 }
    }
}

/// Build the shape of a small draw (see `small_drawn_shape`) and normalise
/// it.
pub fn small_shape_from_draws(
    is_triangle: bool,
    x: i16,
    y: i16,
    e: [i32; 6],
    paint: (u8, u8, u8, u8),
    width: u32,
    height: u32,
    margin: i16,
) -> (s: Shape)
    requires
        is_triangle ==> forall|k: int| 0 <= k < 6 ==> i16::MIN <= #[trigger] e[k] <= i16::MAX,
        normalize_ok(small_drawn_shape(is_triangle, x, y, e, paint), width, height, margin),
    ensures
        s == normalized(small_drawn_shape(is_triangle, x, y, e, paint), width, height, margin),
{
    let (r, g, b, alpha) = paint;
    let xi = x as i32;
    let yi = y as i32;
    let mut shape = if is_triangle {
        assert(i16::MIN <= e[0] <= i16::MAX && i16::MIN <= e[1] <= i16::MAX && i16::MIN <= e[2] <= i16::MAX);
        assert(i16::MIN <= e[3] <= i16::MAX && i16::MIN <= e[4] <= i16::MAX && i16::MIN <= e[5] <= i16::MAX);
        Shape::Triangle {
            x1: #[verifier::truncate] ((xi + e[0]) as i16),
            y1: #[verifier::truncate] ((yi + e[1]) as i16),
            x2: #[verifier::truncate] ((xi + e[2]) as i16),
            y2: #[verifier::truncate] ((yi + e[3]) as i16),
            x3: #[verifier::truncate] ((xi + e[4]) as i16),
            y3: #[verifier::truncate] ((yi + e[5]) as i16),
            r,
            g,
            b,
            alpha,
        }
    } else {
        Shape::Circle { cx: x, cy: y, radius: #[verifier::truncate] (e[0] as i16), r, g, b, alpha }
    };
    assert(shape == small_drawn_shape(is_triangle, x, y, e, paint));
    normalize(&mut shape, width, height, margin);
    shape
}

/// `u` lies around `(x, y)` with size `delta`: triangle coordinates offset
/// from the point by at most `delta` on each axis (converted to `i16`), or a
/// circle centred on the point with radius in `[1, delta]`.
pub open spec fn small_around(u: Shape, x: int, y: int, delta: int) -> bool {
    match u {
        Shape::Triangle { x1, y1, x2, y2, x3, y3, .. } => {
            &&& offset_within(x1, x, delta) && offset_within(x2, x, delta) && offset_within(x3, x, delta)
            &&& offset_within(y1, y, delta) && offset_within(y2, y, delta) && offset_within(y3, y, delta)
        },
        Shape::Circle { cx, cy, radius, .. } => cx == x && cy == y && 1 <= radius <= delta,
    }
}

/// `v` converted to `i16` as `as i16` does: the low 16 bits, read as two's
/// complement.
pub open spec fn wrapped_i16(v: u32) -> i16 {
    #[verifier::truncate] (v as i16)
}

/// `v` is a coordinate drawn as `random % dim`, converted to `i16`.
pub open spec fn coord_drawn(v: i16, dim: u32) -> bool {
    exists|u: u32| u < dim && v == #[trigger] wrapped_i16(u)
}

/// Each of the first `n` draws lies in `[-d, d]`.
pub open spec fn steps_within(draws: [i16; 6], n: int, d: int) -> bool {
    forall|k: int| 0 <= k < n ==> -d <= #[trigger] draws[k] <= d
}

/// `s` with its RGB colour replaced.
pub open spec fn with_rgb(s: Shape, nr: u8, ng: u8, nb: u8) -> Shape {
    match s {
        Shape::Triangle { x1, y1, x2, y2, x3, y3, alpha, .. } => Shape::Triangle {
            x1,
            y1,
            x2,
            y2,
            x3,
            y3,
            r: nr,
            g: ng,
            b: nb,
            alpha,
        },
        Shape::Circle { cx, cy, radius, alpha, .. } => Shape::Circle { cx, cy, radius, r: nr, g: ng, b: nb, alpha },
    }
}

/// `s` with its alpha replaced.
pub open spec fn with_alpha(s: Shape, na: u8) -> Shape {
    match s {
        Shape::Triangle { x1, y1, x2, y2, x3, y3, r, g, b, .. } => Shape::Triangle {
            x1,
            y1,
            x2,
            y2,
            x3,
            y3,
            r,
            g,
            b,
            alpha: na,
        },
        Shape::Circle { cx, cy, radius, r, g, b, .. } => Shape::Circle { cx, cy, radius, r, g, b, alpha: na },
    }
}

/// The shape a geometric mutation hands to normalisation: for `choice` 0
/// the drawn coordinates (a circle's radius drawn like an `x`), otherwise
/// every coordinate (and a circle's radius) moved by its draw, saturating at
/// the `i16` bounds.  Triangles use all six draws, `x` and `y` in turn;
/// circles the first three.
pub open spec fn moved_shape(s: Shape, choice: u32, d: [i16; 6]) -> Shape {
    match s {
        Shape::Triangle { x1, y1, x2, y2, x3, y3, r, g, b, alpha } => if choice == 0 {
            Shape::Triangle { x1: d[0], y1: d[1], x2: d[2], y2: d[3], x3: d[4], y3: d[5], r, g, b, alpha }
        } else {
            Shape::Triangle {
                x1: sat16(x1 + d[0]) as i16,
                y1: sat16(y1 + d[1]) as i16,
                x2: sat16(x2 + d[2]) as i16,
                y2: sat16(y2 + d[3]) as i16,
                x3: sat16(x3 + d[4]) as i16,
                y3: sat16(y3 + d[5]) as i16,
                r,
                g,
                b,
                alpha,
            }
        },
        Shape::Circle { cx, cy, radius, r, g, b, alpha } => if choice == 0 {
            Shape::Circle { cx: d[0], cy: d[1], radius: d[2], r, g, b, alpha }
        } else {
            Shape::Circle {
                cx: sat16(cx + d[0]) as i16,
                cy: sat16(cy + d[1]) as i16,
                radius: sat16(radius + d[2]) as i16,
                r,
                g,
                b,
                alpha,
            }
        },
    }
}

/// The result of a shape mutation with aspect `choice` and drawn values
/// `d`: 0 redraws the geometry, 1 and 2 move it (both renormalise), 3
/// redraws the RGB colour from the first three draws, 4 moves each channel
/// by its draw (clamped to `[0, 255]`), and any other choice sets the alpha
/// to the first draw.
pub open spec fn shape_mutated(s: Shape, choice: u32, d: [i16; 6], width: u32, height: u32, margin: i16) -> Shape {
    let (r, g, b) = rgb_of(s);
    if choice <= 2 {
        normalized(moved_shape(s, choice, d), width, height, margin)
    } else if choice == 3 {
        with_rgb(s, d[0] as u8, d[1] as u8, d[2] as u8)
    } else if choice == 4 {
        with_rgb(
            s,
            clamp_spec(r + d[0], 0, 255) as u8,
            clamp_spec(g + d[1], 0, 255) as u8,
            clamp_spec(b + d[2], 0, 255) as u8,
        )
    } else {
        with_alpha(s, d[0] as u8)
    }
}

/// The draws a mutation with aspect `choice` can make for `s`: canvas
/// coordinates for 0 (`x`, `y` in turn; a circle's radius like an `x`),
/// steps in `[-20, 20]` for 1 and `[-5, 5]` for 2, channels in `[0, 255]`
/// for 3, steps in `[-5, 5]` for 4, an alpha in `[MINALPHA, MAXALPHA]` for
/// the rest.  Draws a mutation does not use are unconstrained.
pub open spec fn draws_in_range(s: Shape, choice: u32, d: [i16; 6], width: u32, height: u32) -> bool {
    if choice == 0 {
        match s {
            Shape::Triangle { .. } => {
                &&& coord_drawn(d[0], width) && coord_drawn(d[2], width) && coord_drawn(d[4], width)
                &&& coord_drawn(d[1], height) && coord_drawn(d[3], height) && coord_drawn(d[5], height)
            },
            Shape::Circle { .. } => coord_drawn(d[0], width) && coord_drawn(d[1], height) && coord_drawn(d[2], width),
        }
    } else if choice == 1 {
        steps_within(d, 6, 20)
    } else if choice == 2 {
        steps_within(d, 6, 5)
    } else if choice == 3 {
        forall|k: int| 0 <= k < 3 ==> 0 <= #[trigger] d[k] <= 255
    } else if choice == 4 {
        steps_within(d, 3, 5)
    } else {
        MINALPHA <= d[0] <= MAXALPHA
    }
}

/// Every geometric mutation of `s` normalises without `i16` overflow, and
/// the canvas is not empty (coordinates are drawn modulo its sides).
pub open spec fn mutation_ok(s: Shape, width: u32, height: u32, margin: i16) -> bool {
    &&& width >= 1 && height >= 1
    &&& forall|choice: u32, d: [i16; 6]|
        choice <= 2 && draws_in_range(s, choice, d, width, height) ==> normalize_ok(
            #[trigger] moved_shape(s, choice, d),
            width,
            height,
            margin,
        )
}

/// Apply the mutation with aspect `choice` and drawn values `draws` to
/// `shape` (see `shape_mutated`).
pub fn apply_shape_mutation(shape: Shape, choice: u32, draws: [i16; 6], width: u32, height: u32, margin: i16) -> (r:
    Shape)
    requires
        choice <= 2 ==> normalize_ok(moved_shape(shape, choice, draws), width, height, margin),
    ensures
        r == shape_mutated(shape, choice, draws, width, height, margin),
{
    if choice <= 2 {
        let mut u = if choice == 0 {
            match shape {
                Shape::Triangle { r, g, b, alpha, .. } => Shape::Triangle {
                    x1: draws[0],
                    y1: draws[1],
                    x2: draws[2],
                    y2: draws[3],
                    x3: draws[4],
                    y3: draws[5],
                    r,
                    g,
                    b,
                    alpha,
                },
                Shape::Circle { r, g, b, alpha, .. } => Shape::Circle {
                    cx: draws[0],
                    cy: draws[1],
                    radius: draws[2],
                    r,
                    g,
                    b,
                    alpha,
                },
            }
        } else {
            match shape {
                Shape::Triangle { x1, y1, x2, y2, x3, y3, r, g, b, alpha } => Shape::Triangle {
                    x1: sat_add_i16(x1, draws[0]),
                    y1: sat_add_i16(y1, draws[1]),
                    x2: sat_add_i16(x2, draws[2]),
                    y2: sat_add_i16(y2, draws[3]),
                    x3: sat_add_i16(x3, draws[4]),
                    y3: sat_add_i16(y3, draws[5]),
                    r,
                    g,
                    b,
                    alpha,
                },
                Shape::Circle { cx, cy, radius, r, g, b, alpha } => Shape::Circle {
                    cx: sat_add_i16(cx, draws[0]),
                    cy: sat_add_i16(cy, draws[1]),
                    radius: sat_add_i16(radius, draws[2]),
                    r,
                    g,
                    b,
                    alpha,
                },
            }
        };
        assert(u == moved_shape(shape, choice, draws));
        normalize(&mut u, width, height, margin);
        u
    } else if choice == 3 {
        match shape {
            Shape::Triangle { x1, y1, x2, y2, x3, y3, alpha, .. } => Shape::Triangle {
                x1,
                y1,
                x2,
                y2,
                x3,
                y3,
                r: #[verifier::truncate] (draws[0] as u8),
                g: #[verifier::truncate] (draws[1] as u8),
                b: #[verifier::truncate] (draws[2] as u8),
                alpha,
            },
            Shape::Circle { cx, cy, radius, alpha, .. } => Shape::Circle {
                cx,
                cy,
                radius,
                r: #[verifier::truncate] (draws[0] as u8),
                g: #[verifier::truncate] (draws[1] as u8),
                b: #[verifier::truncate] (draws[2] as u8),
                alpha,
            },
        }
    } else if choice == 4 {
        match shape {
            Shape::Triangle { x1, y1, x2, y2, x3, y3, r, g, b, alpha } => Shape::Triangle {
                x1,
                y1,
                x2,
                y2,
                x3,
                y3,
                r: shift_channel(r, draws[0]),
                g: shift_channel(g, draws[1]),
                b: shift_channel(b, draws[2]),
                alpha,
            },
            Shape::Circle { cx, cy, radius, r, g, b, alpha } => Shape::Circle {
                cx,
                cy,
                radius,
                r: shift_channel(r, draws[0]),
                g: shift_channel(g, draws[1]),
                b: shift_channel(b, draws[2]),
                alpha,
            },
        }
    } else {
        match shape {
            Shape::Triangle { x1, y1, x2, y2, x3, y3, r, g, b, .. } => Shape::Triangle {
                x1,
                y1,
                x2,
                y2,
                x3,
                y3,
                r,
                g,
                b,
                alpha: #[verifier::truncate] (draws[0] as u8),
            },
            Shape::Circle { cx, cy, radius, r, g, b, .. } => Shape::Circle {
                cx,
                cy,
                radius,
                r,
                g,
                b,
                alpha: #[verifier::truncate] (draws[0] as u8),
            },
        }
    }
}

/// A colour channel moved by `d` and clamped to `[0, 255]`.
fn shift_channel(c: u8, d: i16) -> (r: u8)
    ensures
        r == clamp_spec(c + d, 0, 255) as u8,
{
    let v: i32 = c as i32 + d as i32;
    if v < 0 {
        0
    } else if v > 255 {
        255
    } else {
        v as u8
    }
}

/// Mutate one aspect of `shape`, chosen uniformly from six: redraw its
/// geometry inside the canvas, move every coordinate by up to 20 or by up to
/// 5 (all three renormalise), redraw its RGB colour, nudge each channel by up
/// to 5, or redraw its alpha.  The values are drawn here, in that order, and
/// applied by `apply_shape_mutation`.
pub fn mutate_shape(rng: &mut SmallRng, shape: &mut Shape, width: u32, height: u32, margin: i16)
    requires
        mutation_ok(*old(shape), width, height, margin),
    ensures
        exists|choice: u32, d: [i16; 6]|
            choice < 6 && draws_in_range(*old(shape), choice, d, width, height) && *final(shape)
                == #[trigger] shape_mutated(*old(shape), choice, d, width, height, margin),
        mutation_outcome(*old(shape), *final(shape), width, height, margin),
        is_normalized(*old(shape), width, height, margin) ==> is_normalized(*final(shape), width, height, margin),
        MINALPHA <= alpha_of(*old(shape)) <= MAXALPHA ==> MINALPHA <= alpha_of(*final(shape)) <= MAXALPHA,
{
    let choice = random_below_u32(rng, 0, 6);
    let s = *shape;
    let draws = draw_shape_mutation(rng, &s, choice, width, height);
    assert(draws_in_range(s, choice, draws, width, height));
    proof {
        if choice <= 2 {
            assert(normalize_ok(moved_shape(s, choice, draws), width, height, margin));
        }
    }
    let r = apply_shape_mutation(s, choice, draws, width, height, margin);
    proof {
        lemma_mutation_keeps_invariants(s, choice, draws, width, height, margin);
        lemma_mutation_outcome(s, choice, draws, width, height, margin);
    }
    *shape = r;
}

/// Draw the values a mutation with aspect `choice` of `s` uses, in the
/// order the mutation draws them.
fn draw_shape_mutation(rng: &mut SmallRng, s: &Shape, choice: u32, width: u32, height: u32) -> (d: [i16; 6])
    requires
        width >= 1,
        height >= 1,
    ensures
        draws_in_range(*s, choice, d, width, height),
{
    let is_triangle = match *s {
        Shape::Triangle { .. } => true,
        Shape::Circle { .. } => false,
    };
    let draws: [i16; 6] = if choice == 0 {
        if is_triangle {
            [
                random_coord(rng, width),
                random_coord(rng, height),
                random_coord(rng, width),
                random_coord(rng, height),
                random_coord(rng, width),
                random_coord(rng, height),
            ]
        } else {
            [random_coord(rng, width), random_coord(rng, height), random_coord(rng, width), 0, 0, 0]
        }
    } else if choice <= 2 {
        let d: i32 = if choice == 1 { 20 } else { 5 };
        if is_triangle {
            [
                draw_step(rng, d),
                draw_step(rng, d),
                draw_step(rng, d),
                draw_step(rng, d),
                draw_step(rng, d),
                draw_step(rng, d),
            ]
        } else {
            [draw_step(rng, d), draw_step(rng, d), draw_step(rng, d), 0, 0, 0]
        }
    } else if choice == 3 {
        [random_u8(rng) as i16, random_u8(rng) as i16, random_u8(rng) as i16, 0, 0, 0]
    } else if choice == 4 {
        [draw_step(rng, 5), draw_step(rng, 5), draw_step(rng, 5), 0, 0, 0]
    } else {
        [random_alpha(rng) as i16, 0, 0, 0, 0, 0]
    };
    draws
}

/// A step drawn from `[-d, d]`.
fn draw_step(rng: &mut SmallRng, d: i32) -> (r: i16)
    requires
        0 <= d <= 20,
    ensures
        -d <= r <= d,
{
    rand_between(rng, -d, d) as i16
}

/// A drawn value below `2^15` converts to `i16` unchanged.
pub proof fn lemma_wrapped_small(u: u32)
    ensures
        u < 32768 ==> wrapped_i16(u) == u,
{
    let v = wrapped_i16(u);
    assert(u < 32768 ==> v == u) by (bit_vector)
        requires
            v == #[verifier::truncate] (u as i16),
    ;
}

/// On a canvas within `canvas_ok`, a coordinate drawn modulo a side lies in
/// `[0, side)`.
proof fn lemma_coord_drawn_small(v: i16, dim: u32)
    requires
        coord_drawn(v, dim),
        dim <= 8192,
    ensures
        0 <= v < dim,
{
    let u = choose|u: u32| u < dim && v == #[trigger] wrapped_i16(u);
    lemma_wrapped_small(u);
}

/// On a canvas within `canvas_ok`, every mutation of a shape whose radius
/// is within `radius_ok` normalises without overflow, and its result's
/// radius is again within `radius_ok`.
pub proof fn lemma_small_canvas_mutation(s: Shape, width: u32, height: u32, margin: i16)
    requires
        canvas_ok(width, height, margin),
        radius_ok(s),
    ensures
        mutation_ok(s, width, height, margin),
        forall|choice: u32, d: [i16; 6]|
            draws_in_range(s, choice, d, width, height) ==> radius_ok(
                #[trigger] shape_mutated(s, choice, d, width, height, margin),
            ),
{
    assert forall|choice: u32, d: [i16; 6]|
        choice <= 2 && draws_in_range(s, choice, d, width, height) implies normalize_ok(
        #[trigger] moved_shape(s, choice, d),
        width,
        height,
        margin,
    ) by {
        if choice == 0 {
            if s is Circle {
                lemma_coord_drawn_small(d[0], width);
                lemma_coord_drawn_small(d[1], height);
                lemma_coord_drawn_small(d[2], width);
            }
        }
    }
    assert forall|choice: u32, d: [i16; 6]|
        draws_in_range(s, choice, d, width, height) implies radius_ok(
        #[trigger] shape_mutated(s, choice, d, width, height, margin),
    ) by {
        if choice == 0 {
            if s is Circle {
                lemma_coord_drawn_small(d[0], width);
                lemma_coord_drawn_small(d[1], height);
                lemma_coord_drawn_small(d[2], width);
            }
        }
    }
}

/// A shape mutation with draws in range has one of the outcomes
/// `mutation_outcome` lists.
pub proof fn lemma_mutation_outcome(s: Shape, choice: u32, d: [i16; 6], width: u32, height: u32, margin: i16)
    requires
        draws_in_range(s, choice, d, width, height),
    ensures
        mutation_outcome(s, shape_mutated(s, choice, d, width, height, margin), width, height, margin),
{
    let t = shape_mutated(s, choice, d, width, height, margin);
    let u = moved_shape(s, choice, d);
    lemma_normalize_keeps_paint(u, width, height, margin);
    if choice == 0 {
        assert(geometry_in_canvas(u, width, height));
        assert(t == normalized(u, width, height, margin));
    } else if choice <= 2 {
        assert(-20 <= d[0] <= 20 && -20 <= d[1] <= 20 && -20 <= d[2] <= 20);
        if s is Triangle {
            assert(-20 <= d[3] <= 20 && -20 <= d[4] <= 20 && -20 <= d[5] <= 20);
        }
        assert(geometry_near(s, u, 20));
        assert(t == normalized(u, width, height, margin));
    } else if choice == 3 {
        assert(0 <= d[0] <= 255 && 0 <= d[1] <= 255 && 0 <= d[2] <= 255);
    }
}

/// A mutation keeps a shape normalised and its alpha in range.
pub proof fn lemma_mutation_keeps_invariants(s: Shape, choice: u32, d: [i16; 6], width: u32, height: u32, margin: i16)
    requires
        draws_in_range(s, choice, d, width, height),
        choice <= 2 ==> normalize_ok(moved_shape(s, choice, d), width, height, margin),
    ensures
        is_normalized(s, width, height, margin) ==> is_normalized(
            shape_mutated(s, choice, d, width, height, margin),
            width,
            height,
            margin,
        ),
        MINALPHA <= alpha_of(s) <= MAXALPHA ==> MINALPHA <= alpha_of(shape_mutated(s, choice, d, width, height, margin))
            <= MAXALPHA,
{
    if choice <= 2 {
        lemma_normalized_is_normalized(moved_shape(s, choice, d), width, height, margin);
        lemma_normalize_keeps_paint(moved_shape(s, choice, d), width, height, margin);
    }
}

/// A normalised shape is left as it is by normalisation.
pub proof fn lemma_normalize_fixes_normalized(s: Shape, width: u32, height: u32, margin: i16)
    requires
        bounds_ok(width, height, margin),
        is_normalized(s, width, height, margin),
    ensures
        normalized(s, width, height, margin) == s,
{
}

/// Normalisation yields a normalised shape.
pub proof fn lemma_normalized_is_normalized(s: Shape, width: u32, height: u32, margin: i16)
    requires
        normalize_ok(s, width, height, margin),
    ensures
        is_normalized(normalized(s, width, height, margin), width, height, margin),
{
}

/// Normalising twice gives the same shape as normalising once.
pub proof fn lemma_normalize_idempotent(s: Shape, width: u32, height: u32, margin: i16)
    requires
        normalize_ok(s, width, height, margin),
    ensures
        normalized(normalized(s, width, height, margin), width, height, margin) == normalized(s, width, height, margin),
{
    lemma_normalized_is_normalized(s, width, height, margin);
    lemma_normalize_fixes_normalized(normalized(s, width, height, margin), width, height, margin);
}

/// Normalisation changes only geometry: the kind, colour and alpha stay.
pub proof fn lemma_normalize_keeps_paint(s: Shape, width: u32, height: u32, margin: i16)
    ensures
        same_paint(normalized(s, width, height, margin), s),
{
}

} // verus!
