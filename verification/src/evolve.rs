//! Creating, mutating and recombining whole genes: shape genes of any kind,
//! the background gene and the blur gene.
use vstd::prelude::*;

use rand::rngs::SmallRng;

use crate::gene::{
    circle_mutated, circle_mutation, circle_normalized, gene_draws_ok, triangle_mutated, colour_changed, config_ok, drawn_coord, random_coord, nudge_oklab, point_in_bounds, random_oklab_color,
    triangle_drawn, triangle_is_normalized, triangle_mutation, triangle_normalized, vertices_in_bounds, z_of, BackgroundGene,
    BlurGene, CircleGene, MutationConfig, PolygonGene, ShapeGene, TriangleGene,
};
use crate::polygon::{normalized_by, polygon_mutation, random_vertices};
use crate::rng::{
    coin_flip, rand_between, random_below_u32, random_below_usize, random_between_u16, random_between_usize,
    random_u16, random_u32,
};
use crate::shapes::{MAXALPHA, MINALPHA};

verus! {

/// The three kinds of shape gene.
#[derive(Clone, Copy, Debug, PartialEq, Eq, Structural)]
pub enum ShapeKind {
    Triangle,
    Circle,
    Polygon,
}

/// The kind is one the configuration enables.
pub open spec fn kind_enabled(k: ShapeKind, config: MutationConfig) -> bool {
    match k {
        ShapeKind::Triangle => config.use_triangles,
        ShapeKind::Circle => config.use_circles,
        ShapeKind::Polygon => config.use_polygons,
    }
}

/// At least one kind is enabled.
pub open spec fn some_kind_enabled(config: MutationConfig) -> bool {
    config.use_triangles || config.use_circles || config.use_polygons
}

/// The kind of a gene.
pub open spec fn kind_of<C>(g: ShapeGene<C>) -> ShapeKind {
    match g {
        ShapeGene::Triangle(_) => ShapeKind::Triangle,
        ShapeGene::Circle(_) => ShapeKind::Circle,
        ShapeGene::Polygon(_) => ShapeKind::Polygon,
    }
}

/// Pick a kind uniformly among the enabled ones (in the order triangle,
/// circle, polygon).
pub fn select_shape_type(rng: &mut SmallRng, use_triangles: bool, use_circles: bool, use_polygons: bool) -> (k: ShapeKind)
    requires
        use_triangles || use_circles || use_polygons,
    ensures
        k == ShapeKind::Triangle ==> use_triangles,
        k == ShapeKind::Circle ==> use_circles,
        k == ShapeKind::Polygon ==> use_polygons,
{
    let mut kinds: Vec<ShapeKind> = Vec::new();
    if use_triangles {
        kinds.push(ShapeKind::Triangle);
    }
    if use_circles {
        kinds.push(ShapeKind::Circle);
    }
    if use_polygons {
        kinds.push(ShapeKind::Polygon);
    }
    assert(forall|i: int|
        0 <= i < kinds@.len() ==> kinds@[i] == ShapeKind::Triangle && use_triangles || kinds@[i] == ShapeKind::Circle
            && use_circles || kinds@[i] == ShapeKind::Polygon && use_polygons);
    let idx = random_below_usize(rng, 0, kinds.len());
    kinds.remove(idx)
}

/// A gene is usable: every polygon has at least one vertex.
pub open spec fn gene_wf<C>(g: ShapeGene<C>) -> bool {
    match g {
        ShapeGene::Polygon(p) => p.vertices@.len() >= 1,
        _ => true,
    }
}

/// The invariant genes keep: alpha in `[MINALPHA, MAXALPHA]`, geometry
/// normalised for the configuration, polygons with at least three vertices.
pub open spec fn gene_ok<C>(g: ShapeGene<C>, config: MutationConfig) -> bool {
    let (w, h, m) = (config.width, config.height, config.margin);
    match g {
        ShapeGene::Triangle(t) => MINALPHA <= t.alpha <= MAXALPHA && triangle_is_normalized(t, w, h, m),
        ShapeGene::Circle(c) => MINALPHA <= c.alpha <= MAXALPHA && point_in_bounds(c.cx, c.cy, w, h, m),
        ShapeGene::Polygon(p) => MINALPHA <= p.alpha <= MAXALPHA && p.vertices@.len() >= 3 && vertices_in_bounds(
            p.vertices@,
            w,
            h,
            m,
        ),
    }
}

/// `r` equals `g` in everything but perhaps the draw order (polygons
/// compared by their vertex lists).
pub open spec fn same_but_z<C>(g: ShapeGene<C>, r: ShapeGene<C>) -> bool {
    match (g, r) {
        (ShapeGene::Triangle(a), ShapeGene::Triangle(b)) => b == TriangleGene { z_order: b.z_order, ..a },
        (ShapeGene::Circle(a), ShapeGene::Circle(b)) => b == CircleGene { z_order: b.z_order, ..a },
        (ShapeGene::Polygon(a), ShapeGene::Polygon(b)) => a.vertices@ == b.vertices@ && a.oklab == b.oklab && a.alpha
            == b.alpha,
        _ => false,
    }
}

/// `g` and `r` are the same gene (polygons compared by their vertex lists).
pub open spec fn same_gene<C>(g: ShapeGene<C>, r: ShapeGene<C>) -> bool {
    same_but_z(g, r) && z_of(g) == z_of(r)
}

/// The geometry, colour or alpha mutation of a gene's own kind: for a
/// triangle or circle, `triangle_mutated` / `circle_mutated` of draws in
/// range (one of the outcomes `triangle_mutation` / `circle_mutation` list),
/// for a polygon a `polygon_mutation`; the draw order is kept.
pub open spec fn kind_mutation<
    C,
    RD: Fn([u32; 3]) -> C,
    ND: Fn(C, [u32; 3]) -> C,
    AK: Fn(&Vec<(i16, i16)>) -> Vec<u32>,
>(g: ShapeGene<C>, r: ShapeGene<C>, config: MutationConfig, redraw: RD, nudge: ND, angle_keys: AK) -> bool {
    match (g, r) {
        (ShapeGene::Triangle(a), ShapeGene::Triangle(b)) => {
            &&& triangle_mutation(a, b, config, redraw, nudge) && b.z_order == a.z_order
            &&& exists|choice: u32, d: [i16; 6], c: C|
                choice < 6 && gene_draws_ok(choice, d, 6, a.oklab, c, config, redraw, nudge) && b
                    == #[trigger] triangle_mutated(a, choice, d, c, config)
        },
        (ShapeGene::Circle(a), ShapeGene::Circle(b)) => {
            &&& circle_mutation(a, b, config, redraw, nudge) && b.z_order == a.z_order
            &&& exists|choice: u32, d: [i16; 6], c: C|
                choice < 6 && gene_draws_ok(choice, d, 3, a.oklab, c, config, redraw, nudge) && b
                    == #[trigger] circle_mutated(a, choice, d, c, config)
        },
        (ShapeGene::Polygon(a), ShapeGene::Polygon(b)) => polygon_mutation(a, b, config, redraw, nudge, angle_keys),
        _ => false,
    }
}

/// `z + d` saturating at `u16::MAX`.
pub open spec fn z_plus(z: u16, d: u16) -> u16 {
    if z + d > u16::MAX { u16::MAX } else { (z + d) as u16 }
}

/// `z - d` saturating at 0.
pub open spec fn z_minus(z: u16, d: u16) -> u16 {
    if z < d { 0 } else { (z - d) as u16 }
}

/// Largest change of a draw-order nudge.
pub const Z_ORDER_NUDGE: u16 = 1000;

/// A draw order moved up (`up`) or down by `d`, saturating.
pub open spec fn z_nudged(z: u16, d: u16, up: bool) -> u16 {
    if up { z_plus(z, d) } else { z_minus(z, d) }
}

/// Move a draw order up (`up`) or down by `delta`, saturating at the
/// bounds of `u16`.
pub fn nudge_z_order(z: u16, delta: u16, up: bool) -> (r: u16)
    ensures
        r == z_nudged(z, delta, up),
{
    if up {
        if z as u32 + delta as u32 > u16::MAX as u32 { u16::MAX } else { z + delta }
    } else {
        if z < delta { 0 } else { z - delta }
    }
}

/// The outcomes of one gene mutation: the same gene with its draw order
/// nudged by at most `Z_ORDER_NUDGE` up or down, or a mutation of its kind.
pub open spec fn gene_mutated<
    C,
    RD: Fn([u32; 3]) -> C,
    ND: Fn(C, [u32; 3]) -> C,
    AK: Fn(&Vec<(i16, i16)>) -> Vec<u32>,
>(g: ShapeGene<C>, r: ShapeGene<C>, config: MutationConfig, redraw: RD, nudge: ND, angle_keys: AK) -> bool {
    ||| same_but_z(g, r) && exists|d: u16, up: bool|
        d <= Z_ORDER_NUDGE && z_of(r) == #[trigger] z_nudged(z_of(g), d, up)
    ||| kind_mutation(g, r, config, redraw, nudge, angle_keys)
}

impl<C: Copy> ShapeGene<C> {
    /// An exact copy.
    pub fn duplicate(&self) -> (r: Self)
        ensures
            same_gene(*self, r),
            gene_wf(*self) ==> gene_wf(r),
    {
        match self {
            ShapeGene::Triangle(t) => ShapeGene::Triangle(*t),
            ShapeGene::Circle(c) => ShapeGene::Circle(*c),
            ShapeGene::Polygon(p) => ShapeGene::Polygon(p.duplicate()),
        }
    }

    /// Mutate: one time in ten move the draw order up or down by up to
    /// `Z_ORDER_NUDGE` (saturating), otherwise mutate the shape as its kind
    /// does.
    pub fn mutate<RD: Fn([u32; 3]) -> C, ND: Fn(C, [u32; 3]) -> C, AK: Fn(&Vec<(i16, i16)>) -> Vec<u32>>(
        &self,
        rng: &mut SmallRng,
        config: &MutationConfig,
        redraw: &RD,
        nudge: &ND,
        angle_keys: &AK,
    ) -> (r: Self)
        requires
            config_ok(*config),
            gene_wf(*self),
            forall|raw: [u32; 3]| redraw.requires((raw,)),
            forall|c: C, raw: [u32; 3]| nudge.requires((c, raw)),
            forall|w: &Vec<(i16, i16)>| angle_keys.requires((w,)),
        ensures
            kind_of(r) == kind_of(*self),
            gene_wf(r),
            gene_ok(*self, *config) ==> gene_ok(r, *config),
            gene_mutated(*self, r, *config, *redraw, *nudge, *angle_keys),
    {
        if random_below_u32(rng, 0, 10) == 0 {
            let delta = random_between_u16(rng, 0, Z_ORDER_NUDGE);
            let up = coin_flip(rng);
            let new_z = nudge_z_order(self.z_order(), delta, up);
            let mut result = self.duplicate();
            result.set_z_order(new_z);
            proof {
                assert(z_of(result) == z_nudged(z_of(*self), delta, up));
            }
            return result;
        }
        match self {
            ShapeGene::Triangle(t) => ShapeGene::Triangle(t.mutate(rng, config, redraw, nudge)),
            ShapeGene::Circle(c) => ShapeGene::Circle(c.mutate(rng, config, redraw, nudge)),
            ShapeGene::Polygon(p) => {
                let q = p.mutate(rng, config, redraw, nudge, angle_keys);
                ShapeGene::Polygon(q)
            },
        }
    }

    /// Recombine with another gene: a copy of one of the two (a fair coin)
    /// with the mean of their draw orders (rounded down).
    pub fn recombine(&self, other: &Self, rng: &mut SmallRng) -> (r: Self)
        requires
            gene_wf(*self),
            gene_wf(*other),
        ensures
            same_but_z(*self, r) || same_but_z(*other, r),
            z_of(r) == (z_of(*self) + z_of(*other)) / 2,
            gene_wf(r),
    {
        let z_mid = ((self.z_order() as u32 + other.z_order() as u32) / 2) as u16;
        let mut child = if coin_flip(rng) { self.duplicate() } else { other.duplicate() };
        child.set_z_order(z_mid);
        child
    }
}

/// The colour of a gene.
pub open spec fn colour_of<C>(g: ShapeGene<C>) -> C {
    match g {
        ShapeGene::Triangle(t) => t.oklab,
        ShapeGene::Circle(c) => c.oklab,
        ShapeGene::Polygon(p) => p.oklab,
    }
}

/// Every vertex drawn inside the canvas.
pub open spec fn all_drawn(u: Seq<(i16, i16)>, config: MutationConfig) -> bool {
    forall|i: int| 0 <= i < u.len() ==> drawn_coord(#[trigger] u[i].0, config.width) && drawn_coord(u[i].1, config.height)
}

/// A new gene: of an enabled kind, normalised, with the given draw order,
/// an alpha in range, a colour `redraw` may return, and (for a polygon)
/// three to six vertices.
pub open spec fn fresh_gene<C, RD: Fn([u32; 3]) -> C>(g: ShapeGene<C>, config: MutationConfig, z: u16, redraw: RD) -> bool {
    &&& kind_enabled(kind_of(g), config)
    &&& gene_ok(g, config)
    &&& z_of(g) == z
    &&& exists|raw: [u32; 3]| redraw.ensures((raw,), colour_of(g))
    &&& g matches ShapeGene::Polygon(p) ==> p.vertices@.len() <= 6
}

/// `c` is `x + e` for some `e` in `[-d, d]`, converted to `i16` (wrapping).
pub open spec fn offset_of(c: i16, x: int, d: int) -> bool {
    exists|e: int| -d <= e <= d && c == #[trigger] ((x + e) as i16)
}

/// `g` was made around the canvas point `(x, y)`: a triangle or polygon
/// from coordinates within `delta` of it (before normalisation), a circle
/// centred on it with a radius in `[1, delta]`.
pub open spec fn small_around<C, AK: Fn(&Vec<(i16, i16)>) -> Vec<u32>>(
    g: ShapeGene<C>,
    x: int,
    y: int,
    delta: int,
    config: MutationConfig,
    angle_keys: AK,
) -> bool {
    &&& 0 <= x < config.width && 0 <= y < config.height
    &&& match g {
        ShapeGene::Triangle(t) => exists|u: TriangleGene<C>|
            offset_of(u.x1, x, delta) && offset_of(u.y1, y, delta) && offset_of(u.x2, x, delta) && offset_of(u.y2, y, delta)
                && offset_of(u.x3, x, delta) && offset_of(u.y3, y, delta) && t == #[trigger] triangle_normalized(
                u,
                config.width,
                config.height,
                config.margin,
            ),
        ShapeGene::Circle(c) => c == circle_normalized(
            CircleGene { cx: x as i16, cy: y as i16, ..c },
            config.width,
            config.height,
            config.margin,
        ) && 1 <= c.radius <= delta,
        ShapeGene::Polygon(p) => polygon_around(p.vertices@, x, y, delta, config, angle_keys),
    }
}

/// Polygon vertices that normalise vertices within `delta` of `(x, y)`.
pub open spec fn polygon_around<AK: Fn(&Vec<(i16, i16)>) -> Vec<u32>>(
    v: Seq<(i16, i16)>,
    x: int,
    y: int,
    delta: int,
    config: MutationConfig,
    angle_keys: AK,
) -> bool {
    exists|u: Seq<(i16, i16)>|
        #![trigger normalized_by(u, v, config.width, config.height, config.margin, angle_keys)]
        3 <= u.len() <= 6 && (forall|i: int| 0 <= i < u.len() ==> offset_of(#[trigger] u[i].0, x, delta) && offset_of(u[i].1, y, delta))
            && normalized_by(u, v, config.width, config.height, config.margin, angle_keys)
}

/// `x` moved by a draw from `[-d, d]`, converted to `i16` (wrapping).
fn random_offset(rng: &mut SmallRng, x: i64, d: i32) -> (c: i16)
    requires
        0 <= x <= u32::MAX,
        1 <= d <= i16::MAX,
    ensures
        offset_of(c, x as int, d as int),
{
    let e = rand_between(rng, -d, d);
    let c = #[verifier::truncate] ((x + e as i64) as i16);
    assert(c == ((x + e) as i16));
    c
}

/// `n` vertices, each coordinate an offset of the centre `(x, y)`.
fn random_vertices_around(rng: &mut SmallRng, n: usize, x: i64, y: i64, d: i32) -> (v: Vec<(i16, i16)>)
    requires
        0 <= x <= u32::MAX,
        0 <= y <= u32::MAX,
        1 <= d <= i16::MAX,
    ensures
        v@.len() == n,
        forall|i: int| 0 <= i < n ==> offset_of(#[trigger] v@[i].0, x as int, d as int) && offset_of(v@[i].1, y as int, d as int),
{
    let mut v: Vec<(i16, i16)> = Vec::new();
    let mut i: usize = 0;
    while i < n
        invariant
            i <= n,
            v@.len() == i,
            0 <= x <= u32::MAX,
            0 <= y <= u32::MAX,
            1 <= d <= i16::MAX,
            forall|j: int| 0 <= j < i ==> offset_of(#[trigger] v@[j].0, x as int, d as int) && offset_of(v@[j].1, y as int, d as int),
        decreases n - i,
    {
        let vx = random_offset(rng, x, d);
        let vy = random_offset(rng, y, d);
        v.push((vx, vy));
        i = i + 1;
    }
    v
}

impl<C: Copy> ShapeGene<C> {
    /// A random gene with a random draw order: one time in five spread over
    /// the whole canvas, otherwise small, around a random point (spread 5,
    /// 10, 25 or 2).
    pub fn random<RD: Fn([u32; 3]) -> C, AK: Fn(&Vec<(i16, i16)>) -> Vec<u32>>(
        rng: &mut SmallRng,
        config: &MutationConfig,
        redraw: &RD,
        angle_keys: &AK,
    ) -> (g: Self)
        requires
            config_ok(*config),
            some_kind_enabled(*config),
            forall|raw: [u32; 3]| redraw.requires((raw,)),
            forall|w: &Vec<(i16, i16)>| angle_keys.requires((w,)),
        ensures
            fresh_gene(g, *config, z_of(g), *redraw),
    {
        let z_order = random_u16(rng);
        let choice = random_below_u32(rng, 0, 5);
        if choice == 0 {
            Self::random_full(rng, config, z_order, redraw, angle_keys)
        } else if choice == 1 {
            Self::random_small(rng, config, 5, z_order, redraw, angle_keys)
        } else if choice == 2 {
            Self::random_small(rng, config, 10, z_order, redraw, angle_keys)
        } else if choice == 3 {
            Self::random_small(rng, config, 25, z_order, redraw, angle_keys)
        } else {
            Self::random_small(rng, config, 2, z_order, redraw, angle_keys)
        }
    }

    /// A random gene anywhere in the canvas: colour and alpha first, then
    /// the kind, then its coordinates (a circle's radius below the width, a
    /// polygon's three to six vertices), normalised.
    pub fn random_full<RD: Fn([u32; 3]) -> C, AK: Fn(&Vec<(i16, i16)>) -> Vec<u32>>(
        rng: &mut SmallRng,
        config: &MutationConfig,
        z_order: u16,
        redraw: &RD,
        angle_keys: &AK,
    ) -> (g: Self)
        requires
            config_ok(*config),
            some_kind_enabled(*config),
            forall|raw: [u32; 3]| redraw.requires((raw,)),
            forall|w: &Vec<(i16, i16)>| angle_keys.requires((w,)),
        ensures
            fresh_gene(g, *config, z_order, *redraw),
            g matches ShapeGene::Triangle(t) ==> exists|u: TriangleGene<C>|
                triangle_drawn(u, *config) && t == #[trigger] triangle_normalized(u, config.width, config.height, config.margin),
            g matches ShapeGene::Circle(c) ==> exists|u: CircleGene<C>|
                drawn_coord(u.cx, config.width) && drawn_coord(u.cy, config.height) && drawn_coord(u.radius, config.width)
                    && c == #[trigger] circle_normalized(u, config.width, config.height, config.margin),
            g matches ShapeGene::Polygon(p) ==> exists|u: Seq<(i16, i16)>|
                #![trigger normalized_by(u, p.vertices@, config.width, config.height, config.margin, *angle_keys)]
                3 <= u.len() <= 6 && all_drawn(u, *config) && normalized_by(
                    u,
                    p.vertices@,
                    config.width,
                    config.height,
                    config.margin,
                    *angle_keys,
                ),
    {
        let (oklab, alpha) = random_oklab_color(rng, redraw);
        let width = config.width;
        let height = config.height;
        let margin = config.margin;
        let kind = select_shape_type(rng, config.use_triangles, config.use_circles, config.use_polygons);
        let g = match kind {
            ShapeKind::Triangle => {
                let mut g = TriangleGene {
                    x1: random_coord(rng, width),
                    y1: random_coord(rng, height),
                    x2: random_coord(rng, width),
                    y2: random_coord(rng, height),
                    x3: random_coord(rng, width),
                    y3: random_coord(rng, height),
                    oklab,
                    alpha,
                    z_order,
                };
                let ghost u = g;
                g.normalize(width, height, margin);
                ShapeGene::Triangle(g)
            },
            ShapeKind::Circle => {
                let mut g = CircleGene {
                    cx: random_coord(rng, width),
                    cy: random_coord(rng, height),
                    radius: random_coord(rng, width),
                    oklab,
                    alpha,
                    z_order,
                };
                let ghost u = g;
                g.normalize(width, height, margin);
                ShapeGene::Circle(g)
            },
            ShapeKind::Polygon => {
                let n = random_between_usize(rng, 3, 6);
                let vertices = random_vertices(rng, n, width, height);
                let mut g = PolygonGene { vertices, oklab, alpha, z_order };
                let ghost u = g.vertices@;
                g.normalize(width, height, margin, angle_keys);
                assert(all_drawn(u, *config));
                ShapeGene::Polygon(g)
            },
        };
        proof {
            let raw = choose|raw: [u32; 3]| redraw.ensures((raw,), oklab);
            assert(redraw.ensures((raw,), colour_of(g)));
        }
        g
    }

    /// A small random gene around a random point `(x, y)` of the canvas:
    /// colour and alpha first, then the point, the kind, and coordinates
    /// within `delta` of the point (a circle centred on it with a radius in
    /// `[1, delta]`), normalised.
    pub fn random_small<RD: Fn([u32; 3]) -> C, AK: Fn(&Vec<(i16, i16)>) -> Vec<u32>>(
        rng: &mut SmallRng,
        config: &MutationConfig,
        delta: i32,
        z_order: u16,
        redraw: &RD,
        angle_keys: &AK,
    ) -> (g: Self)
        requires
            config_ok(*config),
            some_kind_enabled(*config),
            1 <= delta <= i16::MAX,
            forall|raw: [u32; 3]| redraw.requires((raw,)),
            forall|w: &Vec<(i16, i16)>| angle_keys.requires((w,)),
        ensures
            fresh_gene(g, *config, z_order, *redraw),
            exists|x: int, y: int| #[trigger] small_around(g, x, y, delta as int, *config, *angle_keys),
    {
        let (oklab, alpha) = random_oklab_color(rng, redraw);
        let width = config.width;
        let height = config.height;
        let margin = config.margin;
        let x: i64 = (random_u32(rng) % width) as i64;
        let y: i64 = (random_u32(rng) % height) as i64;
        let kind = select_shape_type(rng, config.use_triangles, config.use_circles, config.use_polygons);
        let g = match kind {
            ShapeKind::Triangle => {
                let mut g = TriangleGene {
                    x1: random_offset(rng, x, delta),
                    y1: random_offset(rng, y, delta),
                    x2: random_offset(rng, x, delta),
                    y2: random_offset(rng, y, delta),
                    x3: random_offset(rng, x, delta),
                    y3: random_offset(rng, y, delta),
                    oklab,
                    alpha,
                    z_order,
                };
                let ghost u = g;
                g.normalize(width, height, margin);
                let r = ShapeGene::Triangle(g);
                assert(g == triangle_normalized(u, config.width, config.height, config.margin));
                assert(small_around(r, x as int, y as int, delta as int, *config, *angle_keys));
                r
            },
            ShapeKind::Circle => {
                let cx = #[verifier::truncate] (x as i16);
                let cy = #[verifier::truncate] (y as i16);
                let radius = rand_between(rng, 1, delta) as i16;
                let mut g = CircleGene { cx, cy, radius, oklab, alpha, z_order };
                g.normalize(width, height, margin);
                let r = ShapeGene::Circle(g);
                assert(small_around(r, x as int, y as int, delta as int, *config, *angle_keys));
                r
            },
            ShapeKind::Polygon => {
                let n = random_between_usize(rng, 3, 6);
                let vertices = random_vertices_around(rng, n, x, y, delta);
                let mut g = PolygonGene { vertices, oklab, alpha, z_order };
                let ghost u = g.vertices@;
                g.normalize(width, height, margin, angle_keys);
                assert(normalized_by(u, g.vertices@, config.width, config.height, config.margin, *angle_keys));
                assert(polygon_around(g.vertices@, x as int, y as int, delta as int, *config, *angle_keys));
                let r = ShapeGene::Polygon(g);
                assert(small_around(r, x as int, y as int, delta as int, *config, *angle_keys));
                r
            },
        };
        proof {
            let raw = choose|raw: [u32; 3]| redraw.ensures((raw,), oklab);
            assert(redraw.ensures((raw,), colour_of(g)));
        }
        g
    }
}

impl<C: Copy> BackgroundGene<C> {
    /// Mutate: a fair coin chooses between a redrawn colour (the alpha that
    /// comes with it is discarded) and a nudged one.
    pub fn mutate<RD: Fn([u32; 3]) -> C, ND: Fn(C, [u32; 3]) -> C>(&self, rng: &mut SmallRng, redraw: &RD, nudge: &ND) -> (r: Self)
        requires
            forall|raw: [u32; 3]| redraw.requires((raw,)),
            forall|c: C, raw: [u32; 3]| nudge.requires((c, raw)),
        ensures
            colour_changed(self.oklab, r.oklab, *redraw, *nudge),
    {
        if coin_flip(rng) {
            let (c, _) = random_oklab_color(rng, redraw);
            BackgroundGene { oklab: c }
        } else {
            BackgroundGene { oklab: nudge_oklab(rng, nudge, self.oklab) }
        }
    }

    /// The colour `mid` gives for the two parents' colours.
    pub fn recombine<MD: Fn(C, C) -> C>(&self, other: &Self, mid: &MD) -> (r: Self)
        requires
            mid.requires((self.oklab, other.oklab)),
        ensures
            mid.ensures((self.oklab, other.oklab), r.oklab),
    {
        BackgroundGene { oklab: mid(self.oklab, other.oklab) }
    }
}

impl<R: Copy> BlurGene<R> {
    /// Mutate: draw a raw step size and a fair coin for its direction, and
    /// let `step` apply them to the radius (the caller drops the blur when
    /// the radius becomes too small).
    pub fn mutate<BS: Fn(R, u32, bool) -> R>(&self, rng: &mut SmallRng, step: &BS) -> (r: Self)
        requires
            forall|x: R, raw: u32, up: bool| step.requires((x, raw, up)),
        ensures
            exists|raw: u32, up: bool| step.ensures((self.radius, raw, up), r.radius),
    {
        let raw = random_u32(rng);
        let up = coin_flip(rng);
        let r = BlurGene { radius: step(self.radius, raw, up) };
        assert(step.ensures((self.radius, raw, up), r.radius));
        r
    }

    /// The radius `mid` gives for the two parents' radii.
    pub fn recombine<MR: Fn(R, R) -> R>(&self, other: &Self, mid: &MR) -> (r: Self)
        requires
            mid.requires((self.radius, other.radius)),
        ensures
            mid.ensures((self.radius, other.radius), r.radius),
    {
        BlurGene { radius: mid(self.radius, other.radius) }
    }
}

/// Genes equal but for the draw order are equally usable and valid.
pub proof fn lemma_same_but_z_ok<C>(g: ShapeGene<C>, r: ShapeGene<C>, config: MutationConfig)
    requires
        same_but_z(g, r),
    ensures
        gene_ok(g, config) == gene_ok(r, config),
        gene_wf(g) == gene_wf(r),
        kind_of(g) == kind_of(r),
{
}

impl<C: Copy> TriangleGene<C> {
    /// One of the two parents, by a fair coin.
    pub fn recombine(&self, other: &Self, rng: &mut SmallRng) -> (r: Self)
        ensures
            r == *self || r == *other,
    {
        if coin_flip(rng) { *self } else { *other }
    }
}

impl<C: Copy> CircleGene<C> {
    /// One of the two parents, by a fair coin.
    pub fn recombine(&self, other: &Self, rng: &mut SmallRng) -> (r: Self)
        ensures
            r == *self || r == *other,
    {
        if coin_flip(rng) { *self } else { *other }
    }
}

impl<C: Copy> PolygonGene<C> {
    /// A copy of one of the two parents, by a fair coin.
    pub fn recombine(&self, other: &Self, rng: &mut SmallRng) -> (r: Self)
        ensures
            (r.vertices@ == self.vertices@ && r.oklab == self.oklab && r.alpha == self.alpha && r.z_order == self.z_order)
                || (r.vertices@ == other.vertices@ && r.oklab == other.oklab && r.alpha == other.alpha && r.z_order
                == other.z_order),
    {
        if coin_flip(rng) { self.duplicate() } else { other.duplicate() }
    }
}

} // verus!
