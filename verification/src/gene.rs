//! Genes: the units of a candidate solution.  A `ShapeGene` is a triangle,
//! circle or polygon with a colour, an alpha percentage and a draw-order key.
//!
//! The colour type `C` is a parameter: the logic here carries colours without
//! looking at them (the application stores `OKlab` `[f32; 3]` colours; SVG
//! output uses the same genes with 8-bit sRGB colours).
use vstd::prelude::*;

use rand::rngs::SmallRng;

use crate::rng::{rand_between, random_below_u32, random_u32};
use crate::shapes::{
    bounds_ok, clamp_coord, clamp_x, hi_bound, lo_bound, near, sat_add_i16, sort3, sort3_by_y, wrapped_i16, coord_drawn, sat16, steps_within, lemma_wrapped_small, MAXALPHA,
    MINALPHA,
};

verus! {

/// Approximate encoded byte cost of a triangle gene: the unit of the cost
/// budget (`max_shapes` shapes cost `max_shapes * TRIANGLE_COST`).
pub const TRIANGLE_COST: usize = 21;

/// Approximate encoded byte cost of a circle gene.
pub const CIRCLE_COST: usize = 18;

/// Approximate encoded byte cost of a polygon gene, excluding its vertices.
pub const POLYGON_BASE_COST: usize = 16;

/// Additional cost of each polygon vertex.
pub const POLYGON_VERTEX_COST: usize = 4;

/// Parameters of gene-level mutation.
#[derive(Clone, Copy, Debug)]
pub struct MutationConfig {
    /// Canvas width in pixels.
    pub width: u32,
    /// Canvas height in pixels.
    pub height: u32,
    /// Blur-derived margin: coordinates in `[-margin, dim - 1 + margin]` are valid.
    pub margin: i16,
    /// Mutation probability per shape per generation, out of 1000.
    pub mutation_rate: u32,
    /// Whether triangles are in use.
    pub use_triangles: bool,
    /// Whether circles are in use.
    pub use_circles: bool,
    /// Whether polygons are in use.
    pub use_polygons: bool,
    /// Largest number of vertices a polygon may grow to by splitting an edge.
    pub max_polygon_vertices: usize,
}

/// A filled triangle; normalisation keeps `y1 <= y2 <= y3`.
#[derive(Clone, Copy, Debug)]
pub struct TriangleGene<C> {
    pub x1: i16,
    pub y1: i16,
    pub x2: i16,
    pub y2: i16,
    pub x3: i16,
    pub y3: i16,
    /// Colour.
    pub oklab: C,
    /// Alpha as a percentage in `[1, 100]`.
    pub alpha: u8,
    /// Draw-order key; lower values are drawn first.
    pub z_order: u16,
}

/// A filled circle; the centre is clamped to the canvas, the radius is not.
#[derive(Clone, Copy, Debug)]
pub struct CircleGene<C> {
    pub cx: i16,
    pub cy: i16,
    pub radius: i16,
    /// Colour.
    pub oklab: C,
    /// Alpha as a percentage in `[1, 100]`.
    pub alpha: u8,
    /// Draw-order key; lower values are drawn first.
    pub z_order: u16,
}

/// A filled polygon with at least three vertices.
#[derive(Clone, Debug)]
pub struct PolygonGene<C> {
    /// Vertices in drawing order.
    pub vertices: Vec<(i16, i16)>,
    /// Colour.
    pub oklab: C,
    /// Alpha as a percentage in `[1, 100]`.
    pub alpha: u8,
    /// Draw-order key; lower values are drawn first.
    pub z_order: u16,
}

/// A geometric gene.
#[derive(Clone, Debug)]
pub enum ShapeGene<C> {
    Triangle(TriangleGene<C>),
    Circle(CircleGene<C>),
    Polygon(PolygonGene<C>),
}

/// Draw-order key of a gene.
pub open spec fn z_of<C>(g: ShapeGene<C>) -> u16 {
    match g {
        ShapeGene::Triangle(t) => t.z_order,
        ShapeGene::Circle(c) => c.z_order,
        ShapeGene::Polygon(p) => p.z_order,
    }
}

/// `g` with its draw-order key replaced by `z`.
pub open spec fn with_z<C>(g: ShapeGene<C>, z: u16) -> ShapeGene<C> {
    match g {
        ShapeGene::Triangle(t) => ShapeGene::Triangle(TriangleGene { z_order: z, ..t }),
        ShapeGene::Circle(c) => ShapeGene::Circle(CircleGene { z_order: z, ..c }),
        ShapeGene::Polygon(p) => ShapeGene::Polygon(PolygonGene { z_order: z, ..p }),
    }
}

/// Approximate encoded byte cost of a gene.
pub open spec fn cost_of<C>(g: ShapeGene<C>) -> int {
    match g {
        ShapeGene::Triangle(_) => TRIANGLE_COST as int,
        ShapeGene::Circle(_) => CIRCLE_COST as int,
        ShapeGene::Polygon(p) => POLYGON_BASE_COST + POLYGON_VERTEX_COST * p.vertices@.len(),
    }
}

/// Polygons small enough that their cost is a `usize`.
pub open spec fn cost_fits<C>(g: ShapeGene<C>) -> bool {
    cost_of(g) <= usize::MAX
}

impl<C: Copy> ShapeGene<C> {
    /// Draw-order key; lower values are drawn first (behind higher ones).
    pub fn z_order(&self) -> (z: u16)
        ensures
            z == z_of(*self),
    {
        match self {
            ShapeGene::Triangle(t) => t.z_order,
            ShapeGene::Circle(c) => c.z_order,
            ShapeGene::Polygon(p) => p.z_order,
        }
    }

    /// Set the draw-order key, changing nothing else.
    pub fn set_z_order(&mut self, z: u16)
        ensures
            *final(self) == with_z(*old(self), z),
    {
        match self {
            ShapeGene::Triangle(t) => t.z_order = z,
            ShapeGene::Circle(c) => c.z_order = z,
            ShapeGene::Polygon(p) => p.z_order = z,
        }
    }

    /// Approximate encoded byte cost, used for budget accounting: a fixed
    /// cost for triangles and circles, a base plus a per-vertex cost for
    /// polygons.
    pub fn cost(&self) -> (c: usize)
        requires
            cost_fits(*self),
        ensures
            c == cost_of(*self),
    {
        match self {
            ShapeGene::Triangle(_) => TRIANGLE_COST,
            ShapeGene::Circle(_) => CIRCLE_COST,
            ShapeGene::Polygon(p) => POLYGON_BASE_COST + POLYGON_VERTEX_COST * p.vertices.len(),
        }
    }
}

/// Exact result of normalising a triangle gene: vertices stably sorted by
/// `y`, each coordinate clamped to the margin-extended canvas.
pub open spec fn triangle_normalized<C>(g: TriangleGene<C>, width: u32, height: u32, margin: i16) -> TriangleGene<C> {
    let (p1, p2, p3) = sort3_by_y((g.x1, g.y1), (g.x2, g.y2), (g.x3, g.y3));
    TriangleGene {
        x1: clamp_x(p1.0, width, margin) as i16,
        y1: clamp_x(p1.1, height, margin) as i16,
        x2: clamp_x(p2.0, width, margin) as i16,
        y2: clamp_x(p2.1, height, margin) as i16,
        x3: clamp_x(p3.0, width, margin) as i16,
        y3: clamp_x(p3.1, height, margin) as i16,
        ..g
    }
}

/// The point lies in the margin-extended canvas.
pub open spec fn point_in_bounds(x: i16, y: i16, width: u32, height: u32, margin: i16) -> bool {
    lo_bound(margin) <= x <= hi_bound(width, margin) && lo_bound(margin) <= y <= hi_bound(height, margin)
}

/// A normalised triangle: vertices in bounds and sorted by `y`.
pub open spec fn triangle_is_normalized<C>(g: TriangleGene<C>, width: u32, height: u32, margin: i16) -> bool {
    &&& point_in_bounds(g.x1, g.y1, width, height, margin)
    &&& point_in_bounds(g.x2, g.y2, width, height, margin)
    &&& point_in_bounds(g.x3, g.y3, width, height, margin)
    &&& g.y1 <= g.y2 <= g.y3
}

impl<C: Copy> TriangleGene<C> {
    /// Sort the vertices by `y` (keeping each `(x, y)` pair together, equal
    /// `y`s in their order) and clamp every coordinate to
    /// `[-margin, dim - 1 + margin]`.
    pub fn normalize(&mut self, width: u32, height: u32, margin: i16)
        requires
            bounds_ok(width, height, margin),
        ensures
            *final(self) == triangle_normalized(*old(self), width, height, margin),
            triangle_is_normalized(*final(self), width, height, margin),
    {
        let w = #[verifier::truncate] (width as i16);
        let h = #[verifier::truncate] (height as i16);
        let lo = -margin;
        let hx = w - 1 + margin;
        let hy = h - 1 + margin;
        let (p1, p2, p3) = sort3((self.x1, self.y1), (self.x2, self.y2), (self.x3, self.y3));
        self.x1 = clamp_coord(p1.0, lo, hx);
        self.y1 = clamp_coord(p1.1, lo, hy);
        self.x2 = clamp_coord(p2.0, lo, hx);
        self.y2 = clamp_coord(p2.1, lo, hy);
        self.x3 = clamp_coord(p3.0, lo, hx);
        self.y3 = clamp_coord(p3.1, lo, hy);
    }
}

/// Exact result of normalising a circle gene: the centre clamped, the radius
/// unchanged (the rasteriser clips at the canvas edge).
pub open spec fn circle_normalized<C>(g: CircleGene<C>, width: u32, height: u32, margin: i16) -> CircleGene<C> {
    CircleGene { cx: clamp_x(g.cx, width, margin) as i16, cy: clamp_x(g.cy, height, margin) as i16, ..g }
}

impl<C: Copy> CircleGene<C> {
    /// Clamp the centre to `[-margin, dim - 1 + margin]`; the radius is left
    /// as it is.
    pub fn normalize(&mut self, width: u32, height: u32, margin: i16)
        requires
            bounds_ok(width, height, margin),
        ensures
            *final(self) == circle_normalized(*old(self), width, height, margin),
            point_in_bounds(final(self).cx, final(self).cy, width, height, margin),
    {
        let w = #[verifier::truncate] (width as i16);
        let h = #[verifier::truncate] (height as i16);
        self.cx = clamp_coord(self.cx, -margin, w - 1 + margin);
        self.cy = clamp_coord(self.cy, -margin, h - 1 + margin);
    }
}

/// Every vertex clamped to the margin-extended canvas.
pub open spec fn clamped_vertices(v: Seq<(i16, i16)>, width: u32, height: u32, margin: i16) -> Seq<(i16, i16)> {
    Seq::new(v.len(), |i: int| (clamp_x(v[i].0, width, margin) as i16, clamp_x(v[i].1, height, margin) as i16))
}

/// Every vertex lies in the margin-extended canvas.
pub open spec fn vertices_in_bounds(v: Seq<(i16, i16)>, width: u32, height: u32, margin: i16) -> bool {
    forall|i: int| 0 <= i < v.len() ==> point_in_bounds(#[trigger] v[i].0, v[i].1, width, height, margin)
}

impl<C: Copy> PolygonGene<C> {
    /// Clamp every vertex to `[-margin, dim - 1 + margin]`, keeping their
    /// order (the first step of polygon normalisation; ordering the vertices
    /// by angle around their centroid is floating-point work done by the
    /// caller).
    pub fn clamp_vertices(&mut self, width: u32, height: u32, margin: i16)
        requires
            bounds_ok(width, height, margin),
        ensures
            final(self).vertices@ == clamped_vertices(old(self).vertices@, width, height, margin),
            final(self).oklab == old(self).oklab,
            final(self).alpha == old(self).alpha,
            final(self).z_order == old(self).z_order,
            vertices_in_bounds(final(self).vertices@, width, height, margin),
    {
        let w = #[verifier::truncate] (width as i16);
        let h = #[verifier::truncate] (height as i16);
        let ghost orig = self.vertices@;
        let mut i: usize = 0;
        while i < self.vertices.len()
            invariant
                bounds_ok(width, height, margin),
                w == crate::shapes::dim16(width),
                h == crate::shapes::dim16(height),
                self.vertices@.len() == orig.len(),
                i <= orig.len(),
                forall|j: int| 0 <= j < i ==> self.vertices@[j] == clamped_vertices(orig, width, height, margin)[j],
                forall|j: int| i <= j < orig.len() ==> self.vertices@[j] == orig[j],
                self.oklab == old(self).oklab,
                self.alpha == old(self).alpha,
                self.z_order == old(self).z_order,
            decreases orig.len() - i,
        {
            let (vx, vy) = self.vertices[i];
            let p = (clamp_coord(vx, -margin, w - 1 + margin), clamp_coord(vy, -margin, h - 1 + margin));
            self.vertices.set(i, p);
            i = i + 1;
        }
        assert(self.vertices@ =~= clamped_vertices(orig, width, height, margin));
    }
}

/// A copy of a vertex list.
pub fn copy_vertices(v: &Vec<(i16, i16)>) -> (r: Vec<(i16, i16)>)
    ensures
        r@ == v@,
{
    let mut r: Vec<(i16, i16)> = Vec::new();
    let mut i: usize = 0;
    while i < v.len()
        invariant
            i <= v@.len(),
            r@ == v@.take(i as int),
        decreases v@.len() - i,
    {
        r.push(v[i]);
        i = i + 1;
        assert(r@ =~= v@.take(i as int));
    }
    assert(v@.take(v@.len() as int) =~= v@);
    r
}

/// `h` is `g` with every colour `c` replaced by a `d` that `f` may return
/// for `c`; geometry, alpha and draw order are the same.
pub open spec fn recoloured<C, D, F: Fn(C) -> D>(g: ShapeGene<C>, h: ShapeGene<D>, f: F) -> bool {
    match (g, h) {
        (ShapeGene::Triangle(a), ShapeGene::Triangle(b)) => {
            &&& a.x1 == b.x1 && a.y1 == b.y1 && a.x2 == b.x2 && a.y2 == b.y2 && a.x3 == b.x3 && a.y3 == b.y3
            &&& a.alpha == b.alpha && a.z_order == b.z_order
            &&& f.ensures((a.oklab,), b.oklab)
        },
        (ShapeGene::Circle(a), ShapeGene::Circle(b)) => {
            &&& a.cx == b.cx && a.cy == b.cy && a.radius == b.radius
            &&& a.alpha == b.alpha && a.z_order == b.z_order
            &&& f.ensures((a.oklab,), b.oklab)
        },
        (ShapeGene::Polygon(a), ShapeGene::Polygon(b)) => {
            &&& a.vertices@ == b.vertices@
            &&& a.alpha == b.alpha && a.z_order == b.z_order
            &&& f.ensures((a.oklab,), b.oklab)
        },
        _ => false,
    }
}

impl<C: Copy> ShapeGene<C> {
    /// The same gene with its colour converted by `f` (for example from
    /// `OKlab` to 8-bit sRGB for output).
    pub fn map_colour<D: Copy, F: Fn(C) -> D>(&self, f: &F) -> (r: ShapeGene<D>)
        requires
            forall|c: C| f.requires((c,)),
        ensures
            recoloured(*self, r, *f),
    {
        match self {
            ShapeGene::Triangle(t) => ShapeGene::Triangle(TriangleGene {
                x1: t.x1,
                y1: t.y1,
                x2: t.x2,
                y2: t.y2,
                x3: t.x3,
                y3: t.y3,
                oklab: f(t.oklab),
                alpha: t.alpha,
                z_order: t.z_order,
            }),
            ShapeGene::Circle(c) => ShapeGene::Circle(CircleGene {
                cx: c.cx,
                cy: c.cy,
                radius: c.radius,
                oklab: f(c.oklab),
                alpha: c.alpha,
                z_order: c.z_order,
            }),
            ShapeGene::Polygon(p) => ShapeGene::Polygon(PolygonGene {
                vertices: copy_vertices(&p.vertices),
                oklab: f(p.oklab),
                alpha: p.alpha,
                z_order: p.z_order,
            }),
        }
    }
}

/// The configuration is usable for generating and mutating genes: a
/// non-empty canvas whose margin-extended bounds fit in `i16`.
pub open spec fn config_ok(config: MutationConfig) -> bool {
    &&& config.width >= 1
    &&& config.height >= 1
    &&& bounds_ok(config.width, config.height, config.margin)
}

/// Three raw 32-bit draws, the bits from which `rand` makes three uniform
/// `f32` values in `[0, 1)` (`(bits >> 8) * 2^-24`).
pub fn draw_raw3(rng: &mut SmallRng) -> (raw: [u32; 3]) {
    let a = random_u32(rng);
    let b = random_u32(rng);
    let c = random_u32(rng);
    [a, b, c]
}

/// Alpha percentage drawn uniformly from `[MINALPHA, MAXALPHA]`.
pub fn random_alpha(rng: &mut SmallRng) -> (a: u8)
    ensures
        MINALPHA <= a <= MAXALPHA,
{
    rand_between(rng, MINALPHA as i32, MAXALPHA as i32) as u8
}

/// A random colour and alpha: the colour made by `redraw` from three raw
/// draws (uniform in `OKlab` space for the application's `redraw`), then an
/// alpha percentage in `[MINALPHA, MAXALPHA]`.
pub fn random_oklab_color<C, RD: Fn([u32; 3]) -> C>(rng: &mut SmallRng, redraw: &RD) -> (r: (C, u8))
    requires
        forall|raw: [u32; 3]| redraw.requires((raw,)),
    ensures
        exists|raw: [u32; 3]| redraw.ensures((raw,), r.0),
        MINALPHA <= r.1 <= MAXALPHA,
{
    let raw = draw_raw3(rng);
    let c = redraw(raw);
    let alpha = random_alpha(rng);
    let r = (c, alpha);
    assert(redraw.ensures((raw,), r.0));
    r
}

/// A colour nudged by `nudge` with three raw draws.
pub fn nudge_oklab<C, ND: Fn(C, [u32; 3]) -> C>(rng: &mut SmallRng, nudge: &ND, lab: C) -> (r: C)
    requires
        forall|c: C, raw: [u32; 3]| nudge.requires((c, raw)),
    ensures
        exists|raw: [u32; 3]| nudge.ensures((lab, raw), r),
{
    let raw = draw_raw3(rng);
    let r = nudge(lab, raw);
    assert(nudge.ensures((lab, raw), r));
    r
}

/// A coordinate drawn as `random % dim` and converted to `i16`: inside
/// `[0, dim)` whenever `dim` fits in `i16`.
pub open spec fn drawn_coord(x: i16, dim: u32) -> bool {
    dim <= i16::MAX ==> 0 <= x < dim
}

/// `random % dim` converted to `i16` (wrapping, as `as i16` does).
pub fn random_coord(rng: &mut SmallRng, dim: u32) -> (x: i16)
    requires
        dim >= 1,
    ensures
        drawn_coord(x, dim),
        exists|v: u32| v < dim && x == #[trigger] wrapped_i16(v),
{
    let r = random_u32(rng) % dim;
    let x = #[verifier::truncate] (r as i16);
    assert(x == wrapped_i16(r));
    x
}

/// The colour changes a single gene mutation can make: redrawn by `redraw`,
/// or nudged by `nudge`, from some raw draws.
pub open spec fn colour_changed<C, RD: Fn([u32; 3]) -> C, ND: Fn(C, [u32; 3]) -> C>(
    old_c: C,
    new_c: C,
    redraw: RD,
    nudge: ND,
) -> bool {
    ||| exists|raw: [u32; 3]| redraw.ensures((raw,), new_c)
    ||| exists|raw: [u32; 3]| nudge.ensures((old_c, raw), new_c)
}

/// Every coordinate of `u` is within `d` of the same coordinate of `t`.
pub open spec fn triangle_near<C>(t: TriangleGene<C>, u: TriangleGene<C>, d: int) -> bool {
    &&& near(t.x1 as int, u.x1 as int, d) && near(t.y1 as int, u.y1 as int, d)
    &&& near(t.x2 as int, u.x2 as int, d) && near(t.y2 as int, u.y2 as int, d)
    &&& near(t.x3 as int, u.x3 as int, d) && near(t.y3 as int, u.y3 as int, d)
}

/// Every vertex of `u` drawn inside the canvas.
pub open spec fn triangle_drawn<C>(u: TriangleGene<C>, config: MutationConfig) -> bool {
    &&& drawn_coord(u.x1, config.width) && drawn_coord(u.y1, config.height)
    &&& drawn_coord(u.x2, config.width) && drawn_coord(u.y2, config.height)
    &&& drawn_coord(u.x3, config.width) && drawn_coord(u.y3, config.height)
}

/// The outcomes of one triangle mutation: geometry redrawn or moved by at
/// most 20 per coordinate and renormalised, the colour changed, or the
/// alpha redrawn; only one aspect changes, the draw order never.
pub open spec fn triangle_mutation<C, RD: Fn([u32; 3]) -> C, ND: Fn(C, [u32; 3]) -> C>(
    t: TriangleGene<C>,
    r: TriangleGene<C>,
    config: MutationConfig,
    redraw: RD,
    nudge: ND,
) -> bool {
    ||| exists|u: TriangleGene<C>|
        #![trigger triangle_normalized(u, config.width, config.height, config.margin)]
        u.oklab == t.oklab && u.alpha == t.alpha && u.z_order == t.z_order && triangle_near(t, u, 20)
            && r == triangle_normalized(u, config.width, config.height, config.margin)
    ||| exists|u: TriangleGene<C>|
        #![trigger triangle_normalized(u, config.width, config.height, config.margin)]
        u.oklab == t.oklab && u.alpha == t.alpha && u.z_order == t.z_order && triangle_drawn(u, config)
            && r == triangle_normalized(u, config.width, config.height, config.margin)
    ||| r == TriangleGene { oklab: r.oklab, ..t } && colour_changed(t.oklab, r.oklab, redraw, nudge)
    ||| r == TriangleGene { alpha: r.alpha, ..t } && MINALPHA <= r.alpha <= MAXALPHA
}

/// The values a triangle or circle gene mutation with aspect `choice` can
/// draw: canvas coordinates for 0 (`x`, `y` in turn, a circle's radius like
/// an `x`), steps in `[-20, 20]` for 1 and `[-5, 5]` for 2 (for the first `n`
/// draws), a colour `redraw` makes for 3, a colour `nudge` makes of the old
/// one for 4, and an alpha in `[MINALPHA, MAXALPHA]` for the rest.
pub open spec fn gene_draws_ok<C, RD: Fn([u32; 3]) -> C, ND: Fn(C, [u32; 3]) -> C>(
    choice: u32,
    d: [i16; 6],
    n: int,
    old_colour: C,
    colour: C,
    config: MutationConfig,
    redraw: RD,
    nudge: ND,
) -> bool {
    if choice == 0 {
        forall|k: int| 0 <= k < n ==> coord_drawn(#[trigger] d[k], if k % 2 == 0 { config.width } else { config.height })
    } else if choice == 1 {
        steps_within(d, n, 20)
    } else if choice == 2 {
        steps_within(d, n, 5)
    } else if choice == 3 {
        exists|raw: [u32; 3]| redraw.ensures((raw,), colour)
    } else if choice == 4 {
        exists|raw: [u32; 3]| nudge.ensures((old_colour, raw), colour)
    } else {
        MINALPHA <= d[0] <= MAXALPHA
    }
}

/// The triangle a geometric mutation hands to normalisation: the drawn
/// vertices for `choice` 0, otherwise each coordinate moved by its draw,
/// saturating.
pub open spec fn moved_triangle<C>(t: TriangleGene<C>, choice: u32, d: [i16; 6]) -> TriangleGene<C> {
    if choice == 0 {
        TriangleGene { x1: d[0], y1: d[1], x2: d[2], y2: d[3], x3: d[4], y3: d[5], ..t }
    } else {
        TriangleGene {
            x1: sat16(t.x1 + d[0]) as i16,
            y1: sat16(t.y1 + d[1]) as i16,
            x2: sat16(t.x2 + d[2]) as i16,
            y2: sat16(t.y2 + d[3]) as i16,
            x3: sat16(t.x3 + d[4]) as i16,
            y3: sat16(t.y3 + d[5]) as i16,
            ..t
        }
    }
}

/// The result of a triangle gene mutation with aspect `choice`, drawn
/// values `d` and new colour `colour`: 0 to 2 renormalise the moved
/// triangle, 3 and 4 take the colour, the rest set the alpha to `d[0]`.
pub open spec fn triangle_mutated<C>(t: TriangleGene<C>, choice: u32, d: [i16; 6], colour: C, config: MutationConfig) -> TriangleGene<C> {
    if choice <= 2 {
        triangle_normalized(moved_triangle(t, choice, d), config.width, config.height, config.margin)
    } else if choice <= 4 {
        TriangleGene { oklab: colour, ..t }
    } else {
        TriangleGene { alpha: d[0] as u8, ..t }
    }
}

/// A coordinate drawn on a side of at most `i16::MAX` is a `drawn_coord`.
proof fn lemma_coord_drawn_is_drawn(v: i16, dim: u32)
    requires
        coord_drawn(v, dim),
    ensures
        drawn_coord(v, dim),
{
    let u = choose|u: u32| u < dim && v == #[trigger] wrapped_i16(u);
    lemma_wrapped_small(u);
}

/// `sat16(x + e)` lies within `|e|` of `x`.
proof fn lemma_sat_near(x: i16, e: i16, d: int)
    requires
        -d <= e <= d,
    ensures
        near(x as int, sat16(x + e), d),
{
}

/// A triangle mutation with draws in range is one of the outcomes
/// `triangle_mutation` lists, keeps the draw order, an alpha in range and a
/// normalised triangle.
pub proof fn lemma_triangle_mutated<C, RD: Fn([u32; 3]) -> C, ND: Fn(C, [u32; 3]) -> C>(
    t: TriangleGene<C>,
    choice: u32,
    d: [i16; 6],
    c: C,
    config: MutationConfig,
    redraw: RD,
    nudge: ND,
)
    requires
        config_ok(config),
        gene_draws_ok(choice, d, 6, t.oklab, c, config, redraw, nudge),
    ensures
        ({
            let r = triangle_mutated(t, choice, d, c, config);
            &&& triangle_mutation(t, r, config, redraw, nudge)
            &&& r.z_order == t.z_order
            &&& MINALPHA <= t.alpha <= MAXALPHA ==> MINALPHA <= r.alpha <= MAXALPHA
            &&& triangle_is_normalized(t, config.width, config.height, config.margin)
                ==> triangle_is_normalized(r, config.width, config.height, config.margin)
        }),
{
    let r = triangle_mutated(t, choice, d, c, config);
    let u = moved_triangle(t, choice, d);
    if choice == 0 {
        assert(coord_drawn(d[0], config.width) && coord_drawn(d[2], config.width) && coord_drawn(d[4], config.width));
        assert(coord_drawn(d[1], config.height) && coord_drawn(d[3], config.height) && coord_drawn(d[5], config.height));
        lemma_coord_drawn_is_drawn(d[0], config.width);
        lemma_coord_drawn_is_drawn(d[1], config.height);
        lemma_coord_drawn_is_drawn(d[2], config.width);
        lemma_coord_drawn_is_drawn(d[3], config.height);
        lemma_coord_drawn_is_drawn(d[4], config.width);
        lemma_coord_drawn_is_drawn(d[5], config.height);
        assert(triangle_drawn(u, config));
        assert(r == triangle_normalized(u, config.width, config.height, config.margin));
    } else if choice <= 2 {
        assert(-20 <= d[0] <= 20 && -20 <= d[1] <= 20 && -20 <= d[2] <= 20);
        assert(-20 <= d[3] <= 20 && -20 <= d[4] <= 20 && -20 <= d[5] <= 20);
        lemma_sat_near(t.x1, d[0], 20);
        lemma_sat_near(t.y1, d[1], 20);
        lemma_sat_near(t.x2, d[2], 20);
        lemma_sat_near(t.y2, d[3], 20);
        lemma_sat_near(t.x3, d[4], 20);
        lemma_sat_near(t.y3, d[5], 20);
        assert(triangle_near(t, u, 20));
        assert(r == triangle_normalized(u, config.width, config.height, config.margin));
    }
}

impl<C: Copy> TriangleGene<C> {
    /// Apply the mutation with aspect `choice`, drawn values `draws` and new
    /// colour `colour` (see `triangle_mutated`).
    pub fn apply_mutation(&self, choice: u32, draws: [i16; 6], colour: C, config: &MutationConfig) -> (r: Self)
        requires
            config_ok(*config),
        ensures
            r == triangle_mutated(*self, choice, draws, colour, *config),
    {
        let mut g = *self;
        if choice <= 2 {
            if choice == 0 {
                g.x1 = draws[0];
                g.y1 = draws[1];
                g.x2 = draws[2];
                g.y2 = draws[3];
                g.x3 = draws[4];
                g.y3 = draws[5];
            } else {
                g.x1 = sat_add_i16(g.x1, draws[0]);
                g.y1 = sat_add_i16(g.y1, draws[1]);
                g.x2 = sat_add_i16(g.x2, draws[2]);
                g.y2 = sat_add_i16(g.y2, draws[3]);
                g.x3 = sat_add_i16(g.x3, draws[4]);
                g.y3 = sat_add_i16(g.y3, draws[5]);
            }
            assert(g == moved_triangle(*self, choice, draws));
            g.normalize(config.width, config.height, config.margin);
        } else if choice <= 4 {
            g.oklab = colour;
        } else {
            g.alpha = #[verifier::truncate] (draws[0] as u8);
        }
        g
    }

    /// Mutate one aspect, chosen uniformly from six: redraw the vertices
    /// inside the canvas, move each coordinate by up to 20 or by up to 5
    /// (all three renormalise), redraw the colour, nudge it, or redraw the
    /// alpha.  The values are drawn here and applied by `apply_mutation`.
    pub fn mutate<RD: Fn([u32; 3]) -> C, ND: Fn(C, [u32; 3]) -> C>(
        &self,
        rng: &mut SmallRng,
        config: &MutationConfig,
        redraw: &RD,
        nudge: &ND,
    ) -> (r: Self)
        requires
            config_ok(*config),
            forall|raw: [u32; 3]| redraw.requires((raw,)),
            forall|c: C, raw: [u32; 3]| nudge.requires((c, raw)),
        ensures
            exists|choice: u32, d: [i16; 6], c: C|
                choice < 6 && gene_draws_ok(choice, d, 6, self.oklab, c, *config, *redraw, *nudge) && r
                    == #[trigger] triangle_mutated(*self, choice, d, c, *config),
            triangle_mutation(*self, r, *config, *redraw, *nudge),
            r.z_order == self.z_order,
            MINALPHA <= self.alpha <= MAXALPHA ==> MINALPHA <= r.alpha <= MAXALPHA,
            triangle_is_normalized(*self, config.width, config.height, config.margin)
                ==> triangle_is_normalized(r, config.width, config.height, config.margin),
    {
        let choice = random_below_u32(rng, 0, 6);
        let draws: [i16; 6] = if choice == 0 {
            [
                random_coord(rng, config.width),
                random_coord(rng, config.height),
                random_coord(rng, config.width),
                random_coord(rng, config.height),
                random_coord(rng, config.width),
                random_coord(rng, config.height),
            ]
        } else if choice <= 2 {
            let d: i32 = if choice == 1 { 20 } else { 5 };
            [step(rng, d), step(rng, d), step(rng, d), step(rng, d), step(rng, d), step(rng, d)]
        } else if choice <= 4 {
            [0, 0, 0, 0, 0, 0]
        } else {
            [random_alpha(rng) as i16, 0, 0, 0, 0, 0]
        };
        let colour = if choice == 3 {
            let (c, _) = random_oklab_color(rng, redraw);
            c
        } else if choice == 4 {
            nudge_oklab(rng, nudge, self.oklab)
        } else {
            self.oklab
        };
        proof {
            if choice == 0 {
                assert(coord_drawn(draws[0], config.width) && coord_drawn(draws[2], config.width) && coord_drawn(draws[4], config.width));
                assert(coord_drawn(draws[1], config.height) && coord_drawn(draws[3], config.height) && coord_drawn(draws[5], config.height));
            }
            assert(gene_draws_ok(choice, draws, 6, self.oklab, colour, *config, *redraw, *nudge));
        }
        let r = self.apply_mutation(choice, draws, colour, config);
        proof {
            lemma_triangle_mutated(*self, choice, draws, colour, *config, *redraw, *nudge);
        }
        r
    }
}

/// A step drawn from `[-d, d]`.
fn step(rng: &mut SmallRng, d: i32) -> (r: i16)
    requires
        0 <= d <= 20,
    ensures
        -d <= r <= d,
{
    rand_between(rng, -d, d) as i16
}

/// The outcomes of one circle mutation: centre and radius redrawn, or moved
/// by at most 20, with the centre renormalised; the colour changed; or the
/// alpha redrawn.  The draw order never changes.
pub open spec fn circle_mutation<C, RD: Fn([u32; 3]) -> C, ND: Fn(C, [u32; 3]) -> C>(
    c: CircleGene<C>,
    r: CircleGene<C>,
    config: MutationConfig,
    redraw: RD,
    nudge: ND,
) -> bool {
    ||| exists|u: CircleGene<C>|
        #![trigger circle_normalized(u, config.width, config.height, config.margin)]
        u.oklab == c.oklab && u.alpha == c.alpha && u.z_order == c.z_order && near(c.cx as int, u.cx as int, 20)
            && near(c.cy as int, u.cy as int, 20) && near(c.radius as int, u.radius as int, 20)
            && r == circle_normalized(u, config.width, config.height, config.margin)
    ||| exists|u: CircleGene<C>|
        #![trigger circle_normalized(u, config.width, config.height, config.margin)]
        u.oklab == c.oklab && u.alpha == c.alpha && u.z_order == c.z_order && drawn_coord(u.cx, config.width)
            && drawn_coord(u.cy, config.height) && drawn_coord(u.radius, config.width)
            && r == circle_normalized(u, config.width, config.height, config.margin)
    ||| r == CircleGene { oklab: r.oklab, ..c } && colour_changed(c.oklab, r.oklab, redraw, nudge)
    ||| r == CircleGene { alpha: r.alpha, ..c } && MINALPHA <= r.alpha <= MAXALPHA
}

/// The circle a geometric mutation hands to normalisation: the drawn
/// centre and radius for `choice` 0, otherwise each moved by its draw,
/// saturating.
pub open spec fn moved_circle<C>(c: CircleGene<C>, choice: u32, d: [i16; 6]) -> CircleGene<C> {
    if choice == 0 {
        CircleGene { cx: d[0], cy: d[1], radius: d[2], ..c }
    } else {
        CircleGene {
            cx: sat16(c.cx + d[0]) as i16,
            cy: sat16(c.cy + d[1]) as i16,
            radius: sat16(c.radius + d[2]) as i16,
            ..c
        }
    }
}

/// The result of a circle gene mutation with aspect `choice`, drawn values
/// `d` and new colour `colour`: 0 to 2 renormalise the moved circle, 3 and
/// 4 take the colour, the rest set the alpha to `d[0]`.
pub open spec fn circle_mutated<C>(c: CircleGene<C>, choice: u32, d: [i16; 6], colour: C, config: MutationConfig) -> CircleGene<C> {
    if choice <= 2 {
        circle_normalized(moved_circle(c, choice, d), config.width, config.height, config.margin)
    } else if choice <= 4 {
        CircleGene { oklab: colour, ..c }
    } else {
        CircleGene { alpha: d[0] as u8, ..c }
    }
}

/// A circle mutation with draws in range is one of the outcomes
/// `circle_mutation` lists, keeps the draw order, an alpha in range and a
/// centre in bounds.
pub proof fn lemma_circle_mutated<C, RD: Fn([u32; 3]) -> C, ND: Fn(C, [u32; 3]) -> C>(
    g: CircleGene<C>,
    choice: u32,
    d: [i16; 6],
    c: C,
    config: MutationConfig,
    redraw: RD,
    nudge: ND,
)
    requires
        config_ok(config),
        gene_draws_ok(choice, d, 3, g.oklab, c, config, redraw, nudge),
    ensures
        ({
            let r = circle_mutated(g, choice, d, c, config);
            &&& circle_mutation(g, r, config, redraw, nudge)
            &&& r.z_order == g.z_order
            &&& MINALPHA <= g.alpha <= MAXALPHA ==> MINALPHA <= r.alpha <= MAXALPHA
            &&& point_in_bounds(g.cx, g.cy, config.width, config.height, config.margin)
                ==> point_in_bounds(r.cx, r.cy, config.width, config.height, config.margin)
        }),
{
    let r = circle_mutated(g, choice, d, c, config);
    let u = moved_circle(g, choice, d);
    if choice == 0 {
        assert(coord_drawn(d[0], config.width) && coord_drawn(d[2], config.width));
        assert(coord_drawn(d[1], config.height));
        lemma_coord_drawn_is_drawn(d[0], config.width);
        lemma_coord_drawn_is_drawn(d[1], config.height);
        lemma_coord_drawn_is_drawn(d[2], config.width);
        assert(r == circle_normalized(u, config.width, config.height, config.margin));
    } else if choice <= 2 {
        assert(-20 <= d[0] <= 20 && -20 <= d[1] <= 20 && -20 <= d[2] <= 20);
        lemma_sat_near(g.cx, d[0], 20);
        lemma_sat_near(g.cy, d[1], 20);
        lemma_sat_near(g.radius, d[2], 20);
        assert(r == circle_normalized(u, config.width, config.height, config.margin));
    }
    if point_in_bounds(g.cx, g.cy, config.width, config.height, config.margin) && choice > 2 {
        assert(r.cx == g.cx && r.cy == g.cy);
    }
}

impl<C: Copy> CircleGene<C> {
    /// Apply the mutation with aspect `choice`, drawn values `draws` and new
    /// colour `colour` (see `circle_mutated`).
    pub fn apply_mutation(&self, choice: u32, draws: [i16; 6], colour: C, config: &MutationConfig) -> (r: Self)
        requires
            config_ok(*config),
        ensures
            r == circle_mutated(*self, choice, draws, colour, *config),
    {
        let mut g = *self;
        if choice <= 2 {
            if choice == 0 {
                g.cx = draws[0];
                g.cy = draws[1];
                g.radius = draws[2];
            } else {
                g.cx = sat_add_i16(g.cx, draws[0]);
                g.cy = sat_add_i16(g.cy, draws[1]);
                g.radius = sat_add_i16(g.radius, draws[2]);
            }
            assert(g == moved_circle(*self, choice, draws));
            g.normalize(config.width, config.height, config.margin);
        } else if choice <= 4 {
            g.oklab = colour;
        } else {
            g.alpha = #[verifier::truncate] (draws[0] as u8);
        }
        g
    }

    /// Mutate one aspect, chosen uniformly from six: redraw centre and radius,
    /// move them by up to 20 or by up to 5 (all three renormalise), redraw
    /// the colour, nudge it, or redraw the alpha.  The values are drawn here
    /// and applied by `apply_mutation`.
    pub fn mutate<RD: Fn([u32; 3]) -> C, ND: Fn(C, [u32; 3]) -> C>(
        &self,
        rng: &mut SmallRng,
        config: &MutationConfig,
        redraw: &RD,
        nudge: &ND,
    ) -> (r: Self)
        requires
            config_ok(*config),
            forall|raw: [u32; 3]| redraw.requires((raw,)),
            forall|c: C, raw: [u32; 3]| nudge.requires((c, raw)),
        ensures
            exists|choice: u32, d: [i16; 6], c: C|
                choice < 6 && gene_draws_ok(choice, d, 3, self.oklab, c, *config, *redraw, *nudge) && r
                    == #[trigger] circle_mutated(*self, choice, d, c, *config),
            circle_mutation(*self, r, *config, *redraw, *nudge),
            r.z_order == self.z_order,
            MINALPHA <= self.alpha <= MAXALPHA ==> MINALPHA <= r.alpha <= MAXALPHA,
            point_in_bounds(self.cx, self.cy, config.width, config.height, config.margin)
                ==> point_in_bounds(r.cx, r.cy, config.width, config.height, config.margin),
    {
        let choice = random_below_u32(rng, 0, 6);
        let draws: [i16; 6] = if choice == 0 {
            [random_coord(rng, config.width), random_coord(rng, config.height), random_coord(rng, config.width), 0, 0, 0]
        } else if choice <= 2 {
            let d: i32 = if choice == 1 { 20 } else { 5 };
            [step(rng, d), step(rng, d), step(rng, d), 0, 0, 0]
        } else if choice <= 4 {
            [0, 0, 0, 0, 0, 0]
        } else {
            [random_alpha(rng) as i16, 0, 0, 0, 0, 0]
        };
        let colour = if choice == 3 {
            let (c, _) = random_oklab_color(rng, redraw);
            c
        } else if choice == 4 {
            nudge_oklab(rng, nudge, self.oklab)
        } else {
            self.oklab
        };
        proof {
            if choice == 0 {
                assert(coord_drawn(draws[0], config.width) && coord_drawn(draws[2], config.width));
                assert(coord_drawn(draws[1], config.height));
            }
            assert(gene_draws_ok(choice, draws, 3, self.oklab, colour, *config, *redraw, *nudge));
        }
        let r = self.apply_mutation(choice, draws, colour, config);
        proof {
            lemma_circle_mutated(*self, choice, draws, colour, *config, *redraw, *nudge);
        }
        r
    }
}

} // verus!

verus! {

/// An evolving background colour (always opaque).
#[derive(Clone, Copy, Debug)]
pub struct BackgroundGene<C> {
    /// Colour.
    pub oklab: C,
}

/// An evolving global blur radius; `R` is the radius type (the
/// application's is `f32`, always positive).
#[derive(Clone, Copy, Debug)]
pub struct BlurGene<R> {
    /// Gaussian sigma in pixels.
    pub radius: R,
}


/// Normalising a normalised triangle leaves it as it is.
pub proof fn lemma_triangle_normalize_idempotent<C>(t: TriangleGene<C>, width: u32, height: u32, margin: i16)
    requires
        bounds_ok(width, height, margin),
        triangle_is_normalized(t, width, height, margin),
    ensures
        triangle_normalized(t, width, height, margin) == t,
{
}

/// Normalising a circle whose centre is in bounds leaves it as it is.
pub proof fn lemma_circle_normalize_idempotent<C>(c: CircleGene<C>, width: u32, height: u32, margin: i16)
    requires
        bounds_ok(width, height, margin),
        point_in_bounds(c.cx, c.cy, width, height, margin),
    ensures
        circle_normalized(c, width, height, margin) == c,
{
}

} // verus!
