//! Grid genome: a shared-vertex quad mesh covering the whole canvas.
//!
//! Adjacent cells share their border points, so moving a point moves every
//! cell that touches it.  Border points are pinned to the margin line rather
//! than clamped, so the cells always cover the canvas.
use vstd::prelude::*;

use rand::rngs::SmallRng;

use crate::gene::{colour_changed, copy_vertices, nudge_oklab, random_oklab_color, BlurGene};
use crate::genome::{blur_mutated, blur_recombined, mutate_blur, recombine_blur};
use crate::raster::trunc_div;
use crate::rng::{coin_flip, rand_between, random_below_u32, random_below_usize};
use crate::shapes::{clamp_coord, clamp_spec, dim16, near, sat_add_i16};

verus! {

/// A quad-mesh genome: `(cols + 1) * (rows + 1)` control points and
/// `cols * rows` cell colours, both row-major.
#[derive(Clone, Debug)]
pub struct GridGenome<C, R> {
    /// Number of cell columns.
    pub cols: u16,
    /// Number of cell rows.
    pub rows: u16,
    /// Control points; point `(c, r)` is at `r * (cols + 1) + c`.
    pub points: Vec<(i16, i16)>,
    /// Cell colours; cell `(c, r)` is at `r * cols + c`.
    pub colors: Vec<C>,
    /// Optional global blur.
    pub blur: Option<BlurGene<R>>,
}

/// The point and colour lists have the sizes the dimensions call for.
pub open spec fn grid_wf<C, R>(g: GridGenome<C, R>) -> bool {
    &&& g.points@.len() == (g.cols + 1) * (g.rows + 1)
    &&& g.colors@.len() == g.cols * g.rows
}

/// Normalisation's bounds arithmetic stays within `i16` and the clamping
/// intervals are non-empty.
pub open spec fn grid_bounds_ok(width: u32, height: u32, margin: i16) -> bool {
    &&& margin > i16::MIN
    &&& i16::MIN <= dim16(width) - 1 + margin <= i16::MAX
    &&& i16::MIN <= dim16(height) - 1 + margin <= i16::MAX
    &&& -margin <= dim16(width) - 1 + margin
    &&& -margin <= dim16(height) - 1 + margin
}

/// Where normalisation puts one coordinate of point `i` of `n + 1` along an
/// axis of size `d`: pinned to the margin line at either end, clamped in
/// between.
pub open spec fn pinned_coord(v: i16, i: int, n: int, d: u32, margin: i16) -> i16 {
    let lo = -margin;
    let hi = dim16(d) - 1 + margin;
    if i == 0 {
        lo as i16
    } else if i == n {
        hi as i16
    } else {
        clamp_spec(v as int, lo, hi) as i16
    }
}

/// Exact result of normalising point `(c, r)`: each axis pinned at the
/// border of the mesh along that axis, clamped inside.
pub open spec fn grid_point_normalized(p: (i16, i16), c: int, r: int, cols: int, rows: int, width: u32, height: u32, margin: i16) -> (i16, i16) {
    (pinned_coord(p.0, c, cols, width, margin), pinned_coord(p.1, r, rows, height, margin))
}

/// Every point normalised: `points` is `orig` normalised.
pub open spec fn grid_normalized_from(
    orig: Seq<(i16, i16)>,
    points: Seq<(i16, i16)>,
    cols: int,
    rows: int,
    width: u32,
    height: u32,
    margin: i16,
) -> bool {
    &&& points.len() == orig.len()
    &&& forall|i: int|
        0 <= i < points.len() ==> #[trigger] points[i] == grid_point_normalized(
            orig[i],
            i % (cols + 1),
            i / (cols + 1),
            cols,
            rows,
            width,
            height,
            margin,
        )
}

/// Point `i` of a mesh with `cols + 1` points per row lies at column
/// `i % (cols + 1)`, row `i / (cols + 1)`.
proof fn lemma_grid_index(r: int, c: int, cols: int)
    requires
        0 <= c <= cols,
        0 <= r,
    ensures
        (r * (cols + 1) + c) % (cols + 1) == c,
        (r * (cols + 1) + c) / (cols + 1) == r,
{
    vstd::arithmetic::div_mod::lemma_fundamental_div_mod_converse(r * (cols + 1) + c, cols + 1, r, c);
}

impl<C: Copy, R: Copy> GridGenome<C, R> {
    /// Re-apply the point constraints: corners fixed at the margin line,
    /// edge points pinned on their edge's axis and clamped on the other,
    /// interior points clamped to `[-margin, dim - 1 + margin]` on both.
    pub fn normalize(&mut self, width: u32, height: u32, margin: i16)
        requires
            grid_wf(*old(self)),
            grid_bounds_ok(width, height, margin),
        ensures
            grid_normalized_from(
                old(self).points@,
                final(self).points@,
                old(self).cols as int,
                old(self).rows as int,
                width,
                height,
                margin,
            ),
            final(self).cols == old(self).cols,
            final(self).rows == old(self).rows,
            final(self).colors@ == old(self).colors@,
            final(self).blur == old(self).blur,
            grid_wf(*final(self)),
    {
        let w = #[verifier::truncate] (width as i16);
        let h = #[verifier::truncate] (height as i16);
        let m = margin;
        let lo = -m;
        let hx = (w as i32 - 1 + m as i32) as i16;
        let hy = (h as i32 - 1 + m as i32) as i16;
        let cols = self.cols as usize;
        let rows = self.rows as usize;
        let npts = self.points.len();
        let ghost orig = self.points@;
        let ghost (ci, ri) = (cols as int, rows as int);
        let mut r: usize = 0;
        while r <= rows
            invariant
                grid_bounds_ok(width, height, margin),
                w == dim16(width),
                h == dim16(height),
                lo == -margin,
                hx == dim16(width) - 1 + margin,
                hy == dim16(height) - 1 + margin,
                cols == self.cols,
                rows == self.rows,
                self.cols == old(self).cols,
                self.rows == old(self).rows,
                self.colors@ == old(self).colors@,
                self.blur == old(self).blur,
                orig == old(self).points@,
                self.points@.len() == orig.len(),
                orig.len() == (cols + 1) * (rows + 1),
                npts == orig.len(),
                ci == cols as int,
                ri == rows as int,
                r <= rows + 1,
                forall|i: int|
                    0 <= i < r * (cols + 1) ==> #[trigger] self.points@[i] == grid_point_normalized(
                        orig[i],
                        i % (ci + 1),
                        i / (ci + 1),
                        ci,
                        ri,
                        width,
                        height,
                        margin,
                    ),
                forall|i: int| r * (cols + 1) <= i < orig.len() ==> #[trigger] self.points@[i] == orig[i],
            decreases rows + 1 - r,
        {
            let mut c: usize = 0;
            while c <= cols
                invariant
                    grid_bounds_ok(width, height, margin),
                    w == dim16(width),
                    h == dim16(height),
                    lo == -margin,
                    hx == dim16(width) - 1 + margin,
                    hy == dim16(height) - 1 + margin,
                    cols == self.cols,
                    rows == self.rows,
                    self.cols == old(self).cols,
                    self.rows == old(self).rows,
                    self.colors@ == old(self).colors@,
                    self.blur == old(self).blur,
                    orig == old(self).points@,
                    self.points@.len() == orig.len(),
                    orig.len() == (cols + 1) * (rows + 1),
                    npts == orig.len(),
                    ci == cols as int,
                    ri == rows as int,
                    r <= rows,
                    c <= cols + 1,
                    forall|i: int|
                        0 <= i < r * (cols + 1) + c ==> #[trigger] self.points@[i] == grid_point_normalized(
                            orig[i],
                            i % (ci + 1),
                            i / (ci + 1),
                            ci,
                            ri,
                            width,
                            height,
                            margin,
                        ),
                    forall|i: int| r * (cols + 1) + c <= i < orig.len() ==> #[trigger] self.points@[i] == orig[i],
                decreases cols + 1 - c,
            {
                proof {
                    vstd::arithmetic::mul::lemma_mul_inequality(r as int, rows as int, cols as int + 1);
                    assert(r * (cols + 1) + c < (cols + 1) * (rows + 1)) by (nonlinear_arith)
                        requires
                            r <= rows,
                            c <= cols,
                    ;
                }
                let idx = r * (cols + 1) + c;
                let (x, y) = self.points[idx];
                let nx = if c == 0 {
                    lo
                } else if c == cols {
                    hx
                } else {
                    clamp_coord(x, lo, hx)
                };
                let ny = if r == 0 {
                    lo
                } else if r == rows {
                    hy
                } else {
                    clamp_coord(y, lo, hy)
                };
                let ghost before = self.points@;
                self.points.set(idx, (nx, ny));
                proof {
                    lemma_grid_index(r as int, c as int, cols as int);
                    assert(orig[idx as int] == (x, y));
                    assert(self.points@[idx as int] == grid_point_normalized(
                        orig[idx as int],
                        idx as int % (ci + 1),
                        idx as int / (ci + 1),
                        ci,
                        ri,
                        width,
                        height,
                        margin,
                    ));
                    assert forall|i: int| 0 <= i < idx + 1 implies #[trigger] self.points@[i] == grid_point_normalized(
                        orig[i],
                        i % (ci + 1),
                        i / (ci + 1),
                        ci,
                        ri,
                        width,
                        height,
                        margin,
                    ) by {
                        if i < idx {
                            assert(self.points@[i] == before[i]);
                        }
                    }
                    assert forall|i: int| idx + 1 <= i < orig.len() implies #[trigger] self.points@[i] == orig[i] by {
                        assert(self.points@[i] == before[i]);
                    }
                }
                c = c + 1;
            }
            assert((r + 1) * (cols + 1) == r * (cols + 1) + (cols + 1)) by (nonlinear_arith);
            r = r + 1;
        }
        assert((rows + 1) * (cols + 1) == (cols + 1) * (rows + 1)) by (nonlinear_arith);
    }
}

/// Coordinate of mesh line `i` of `n` along an axis of size `d` with
/// margin `m`: `-m + i * (d - 1 + 2m) / n` in `i32` (division rounding toward
/// zero), converted to `i16` (wrapping).
pub open spec fn grid_axis(i: int, n: int, d: u32, m: i32) -> i16 {
    (-m + trunc_div(i * ((d as i32) - 1 + 2 * m), n)) as i16
}

/// The `i32` arithmetic that places the mesh lines along an axis cannot
/// overflow.
pub open spec fn axis_fits(n: u16, d: u32, m: i32) -> bool {
    let span = (d as i32) - 1 + 2 * m;
    &&& n >= 1
    &&& (d as i32) > i32::MIN
    &&& i32::MIN < m
    &&& i32::MIN <= 2 * m <= i32::MAX
    &&& i32::MIN <= span <= i32::MAX
    &&& i32::MIN <= n * span <= i32::MAX
    &&& forall|i: int| 0 <= i <= n ==> i32::MIN <= -m + #[trigger] trunc_div(i * span, n as int) <= i32::MAX
}

/// One mesh coordinate.
fn axis_coord(i: u16, n: u16, d: u32, m: i32) -> (v: i16)
    requires
        i <= n,
        axis_fits(n, d, m),
    ensures
        v == grid_axis(i as int, n as int, d, m),
{
    let dd = #[verifier::truncate] (d as i32);
    let span = dd - 1 + 2 * m;
    proof {
        assert(i * span <= n * span || i * span >= n * span);
        if span >= 0 {
            assert(0 <= i * span <= n * span) by (nonlinear_arith)
                requires
                    0 <= i <= n,
                    span >= 0,
            ;
        } else {
            assert(n * span <= i * span <= 0) by (nonlinear_arith)
                requires
                    0 <= i <= n,
                    span < 0,
            ;
        }
    }
    let p: i64 = (i as i64) * (span as i64);
    let q: i64 = if p >= 0 { p / (n as i64) } else { -((-p) / (n as i64)) };
    assert(q == trunc_div(i * span, n as int));
    assert(i32::MIN <= -m + trunc_div(i * span, n as int) <= i32::MAX);
    let v = #[verifier::truncate] ((q - m as i64) as i16);
    assert(v == grid_axis(i as int, n as int, d, m)) by {
        assert(q - m == -m + trunc_div(i * span, n as int));
    }
    v
}

/// The cell colours, copied.
fn copy_colors<C: Copy>(v: &Vec<C>) -> (r: Vec<C>)
    ensures
        r@ == v@,
{
    let mut r: Vec<C> = Vec::new();
    let mut i: usize = 0;
    while i < v.len()
        invariant
            i <= v@.len(),
            r@ == v@.take(i as int),
        decreases v@.len() - i,
    {
        r.push(v[i]);
        i = i + 1;
        assert(r@ =~= v@.take(i as int));
    }
    assert(v@.take(v@.len() as int) =~= v@);
    r
}

/// At most one point moved, each of its coordinates by at most 20.
pub open spec fn points_step(p: Seq<(i16, i16)>, u: Seq<(i16, i16)>) -> bool {
    ||| u == p
    ||| exists|i: int|
        0 <= i < p.len() && u == p.update(i, u[i]) && near(#[trigger] p[i].0 as int, u[i].0 as int, 20) && near(
            p[i].1 as int,
            u[i].1 as int,
            20,
        )
}

/// At most one cell colour changed, redrawn or nudged.
pub open spec fn colors_step<C, RD: Fn([u32; 3]) -> C, ND: Fn(C, [u32; 3]) -> C>(
    c: Seq<C>,
    d: Seq<C>,
    redraw: RD,
    nudge: ND,
) -> bool {
    ||| d == c
    ||| exists|i: int| 0 <= i < c.len() && d == c.update(i, d[i]) && colour_changed(#[trigger] c[i], d[i], redraw, nudge)
}

/// The margin normalisation uses for a blur: 0 without one, else one that
/// `margin_of` may give for its radius.
pub open spec fn margin_for<R, MG: Fn(R) -> i16>(blur: Option<BlurGene<R>>, m: i16, margin_of: MG) -> bool {
    match blur {
        None => m == 0,
        Some(b) => margin_of.ensures((b.radius,), m),
    }
}

impl<C: Copy, R: Copy> GridGenome<C, R> {
    /// A regular mesh with every cell coloured `grey`: point `(c, r)` at
    /// `(-m + c * (W - 1 + 2m) / cols, -m + r * (H - 1 + 2m) / rows)`,
    /// where `m` is the margin of the initial blur (0 without one).
    pub fn new(cols: u16, rows: u16, width: u32, height: u32, margin: i32, blur: Option<R>, grey: C) -> (g: Self)
        requires
            axis_fits(cols, width, margin),
            axis_fits(rows, height, margin),
            (cols + 1) * (rows + 1) <= usize::MAX,
        ensures
            g.cols == cols && g.rows == rows,
            grid_wf(g),
            forall|i: int|
                0 <= i < g.points@.len() ==> #[trigger] g.points@[i] == (
                    grid_axis(i % (cols + 1), cols as int, width, margin),
                    grid_axis(i / (cols + 1), rows as int, height, margin),
                ),
            forall|i: int| 0 <= i < g.colors@.len() ==> #[trigger] g.colors@[i] == grey,
            g.blur == (match blur {
                Some(r) => Some(BlurGene { radius: r }),
                None => None,
            }),
    {
        let mut points: Vec<(i16, i16)> = Vec::new();
        let mut r: u16 = 0;
        let mut done_rows = false;
        while !done_rows
            invariant
                axis_fits(cols, width, margin),
                axis_fits(rows, height, margin),
                (cols + 1) * (rows + 1) <= usize::MAX,
                r <= rows,
                !done_rows ==> points@.len() == r * (cols + 1),
                done_rows ==> points@.len() == (rows + 1) * (cols + 1),
                forall|i: int|
                    0 <= i < points@.len() ==> #[trigger] points@[i] == (
                        grid_axis(i % (cols + 1), cols as int, width, margin),
                        grid_axis(i / (cols + 1), rows as int, height, margin),
                    ),
            decreases rows - r + (if done_rows { 0int } else { 1int }),
        {
            let y = axis_coord(r, rows, height, margin);
            let mut c: u16 = 0;
            let mut done_cols = false;
            while !done_cols
                invariant
                    axis_fits(cols, width, margin),
                    axis_fits(rows, height, margin),
                    (cols + 1) * (rows + 1) <= usize::MAX,
                    r <= rows,
                    c <= cols,
                    y == grid_axis(r as int, rows as int, height, margin),
                    !done_cols ==> points@.len() == r * (cols + 1) + c,
                    done_cols ==> points@.len() == r * (cols + 1) + cols + 1,
                    forall|i: int|
                        0 <= i < points@.len() ==> #[trigger] points@[i] == (
                            grid_axis(i % (cols + 1), cols as int, width, margin),
                            grid_axis(i / (cols + 1), rows as int, height, margin),
                        ),
                decreases cols - c + (if done_cols { 0int } else { 1int }),
            {
                let x = axis_coord(c, cols, width, margin);
                proof {
                    lemma_grid_index(r as int, c as int, cols as int);
                    assert(r * (cols + 1) + c < (cols + 1) * (rows + 1)) by (nonlinear_arith)
                        requires
                            r <= rows,
                            c <= cols,
                    ;
                }
                points.push((x, y));
                if c == cols {
                    done_cols = true;
                } else {
                    c = c + 1;
                }
            }
            assert((r + 1) * (cols + 1) == r * (cols + 1) + (cols + 1)) by (nonlinear_arith);
            if r == rows {
                done_rows = true;
            } else {
                r = r + 1;
            }
        }
        assert((rows + 1) * (cols + 1) == (cols + 1) * (rows + 1)) by (nonlinear_arith);
        assert(cols * rows <= (cols + 1) * (rows + 1)) by (nonlinear_arith);
        let ncells = (cols as usize) * (rows as usize);
        let mut colors: Vec<C> = Vec::new();
        let mut k: usize = 0;
        while k < ncells
            invariant
                k <= ncells,
                colors@.len() == k,
                forall|i: int| 0 <= i < k ==> #[trigger] colors@[i] == grey,
            decreases ncells - k,
        {
            colors.push(grey);
            k = k + 1;
        }
        let blur = match blur {
            Some(r) => Some(BlurGene { radius: r }),
            None => None,
        };
        GridGenome { cols, rows, points, colors, blur }
    }
}

impl<C: Copy, R: Copy> GridGenome<C, R> {
    /// Mutate one thing, by a draw out of 100: below 60 move a random point
    /// (each coordinate by up to 5, or one time in five by up to 20), below
    /// 90 nudge a random cell's colour, below 95 redraw one, otherwise
    /// mutate the blur.  Then renormalise with the margin of the resulting
    /// blur (`margin_of` of its radius, 0 without one).
    pub fn mutate<
        RD: Fn([u32; 3]) -> C,
        ND: Fn(C, [u32; 3]) -> C,
        BS: Fn(R, u32, bool) -> R,
        BK: Fn(R) -> bool,
        MG: Fn(R) -> i16,
    >(
        &self,
        rng: &mut SmallRng,
        width: u32,
        height: u32,
        redraw: &RD,
        nudge: &ND,
        blur_step: &BS,
        blur_kept: &BK,
        initial_blur: R,
        margin_of: &MG,
    ) -> (r: Self)
        requires
            grid_wf(*self),
            grid_bounds_ok(width, height, 0),
            forall|x: R, m: i16| margin_of.ensures((x,), m) ==> grid_bounds_ok(width, height, m),
            forall|raw: [u32; 3]| redraw.requires((raw,)),
            forall|c: C, raw: [u32; 3]| nudge.requires((c, raw)),
            forall|x: R, raw: u32, up: bool| blur_step.requires((x, raw, up)),
            forall|x: R| blur_kept.requires((x,)),
            forall|x: R| margin_of.requires((x,)),
        ensures
            r.cols == self.cols && r.rows == self.rows,
            grid_wf(r),
            exists|u: Seq<(i16, i16)>, m: i16|
                #![trigger grid_normalized_from(u, r.points@, self.cols as int, self.rows as int, width, height, m)]
                points_step(self.points@, u) && margin_for(r.blur, m, *margin_of) && grid_normalized_from(
                    u,
                    r.points@,
                    self.cols as int,
                    self.rows as int,
                    width,
                    height,
                    m,
                ),
            colors_step(self.colors@, r.colors@, *redraw, *nudge),
            r.blur == self.blur || blur_mutated(self.blur, r.blur, *blur_step, *blur_kept, initial_blur),
    {
        let mut points = copy_vertices(&self.points);
        let mut colors = copy_colors(&self.colors);
        let mut blur = self.blur;
        let roll = random_below_u32(rng, 0, 100);
        if roll < 60 {
            if points.len() > 0 {
                let idx = random_below_usize(rng, 0, points.len());
                let delta: i32 = if random_below_u32(rng, 0, 5) == 0 { 20 } else { 5 };
                let (x, y) = points[idx];
                let nx = sat_add_i16(x, rand_between(rng, -delta, delta) as i16);
                let ny = sat_add_i16(y, rand_between(rng, -delta, delta) as i16);
                let ghost before = points@;
                points.set(idx, (nx, ny));
                assert(near(before[idx as int].0 as int, points@[idx as int].0 as int, 20));
            }
        } else if roll < 90 {
            if colors.len() > 0 {
                let idx = random_below_usize(rng, 0, colors.len());
                let c = nudge_oklab(rng, nudge, colors[idx]);
                let ghost before = colors@;
                colors.set(idx, c);
                assert(colour_changed(before[idx as int], colors@[idx as int], *redraw, *nudge));
            }
        } else if roll < 95 {
            if colors.len() > 0 {
                let idx = random_below_usize(rng, 0, colors.len());
                let (c, _) = random_oklab_color(rng, redraw);
                let ghost before = colors@;
                colors.set(idx, c);
                assert(colour_changed(before[idx as int], colors@[idx as int], *redraw, *nudge));
            }
        } else {
            blur = mutate_blur(rng, blur, blur_step, blur_kept, initial_blur);
        }
        let margin: i16 = match blur {
            None => 0,
            Some(b) => margin_of(b.radius),
        };
        let mut child = GridGenome { cols: self.cols, rows: self.rows, points, colors, blur };
        let ghost u = child.points@;
        child.normalize(width, height, margin);
        assert(margin_for(child.blur, margin, *margin_of));
        child
    }

    /// Recombine: a fair coin takes the points of one parent and the
    /// colours of the other; the blurs recombine through `mid_radius`.  The
    /// dimensions are those of `self`.
    pub fn recombine<MR: Fn(R, R) -> R>(&self, other: &Self, rng: &mut SmallRng, mid_radius: &MR) -> (r: Self)
        requires
            forall|x: R, y: R| mid_radius.requires((x, y)),
        ensures
            r.cols == self.cols && r.rows == self.rows,
            (r.points@ == self.points@ && r.colors@ == other.colors@) || (r.points@ == other.points@ && r.colors@
                == self.colors@),
            blur_recombined(self.blur, other.blur, r.blur, *mid_radius),
            grid_wf(*self) && grid_wf(*other) && self.cols == other.cols && self.rows == other.rows ==> grid_wf(r),
    {
        let (points, colors) = if coin_flip(rng) {
            (copy_vertices(&self.points), copy_colors(&other.colors))
        } else {
            (copy_vertices(&other.points), copy_colors(&self.colors))
        };
        let blur = recombine_blur(rng, &self.blur, &other.blur, mid_radius);
        GridGenome { cols: self.cols, rows: self.rows, points, colors, blur }
    }

    /// The approximate cost: one unit per cell.
    pub fn total_cost(&self) -> (c: usize)
        ensures
            c == self.cols * self.rows,
    {
        assert(self.cols * self.rows <= 65535 * 65535) by (nonlinear_arith)
            requires
                self.cols <= 65535,
                self.rows <= 65535,
        ;
        (self.cols as usize) * (self.rows as usize)
    }

    /// The blur radius, if any.
    pub fn blur_radius(&self) -> (r: Option<R>)
        ensures
            r == (match self.blur {
                Some(b) => Some(b.radius),
                None => None,
            }),
    {
        match self.blur {
            Some(b) => Some(b.radius),
            None => None,
        }
    }
}

impl<C: Copy, R: Copy> GridGenome<C, R> {
    /// The same grid with every cell colour converted by `f`.
    pub fn map_colours<D: Copy, F: Fn(C) -> D>(&self, f: &F) -> (r: GridGenome<D, R>)
        requires
            forall|c: C| f.requires((c,)),
        ensures
            r.cols == self.cols && r.rows == self.rows,
            r.points@ == self.points@,
            r.colors@.len() == self.colors@.len(),
            forall|i: int| 0 <= i < r.colors@.len() ==> f.ensures((self.colors@[i],), #[trigger] r.colors@[i]),
            r.blur == self.blur,
    {
        let mut colors: Vec<D> = Vec::new();
        let mut i: usize = 0;
        while i < self.colors.len()
            invariant
                i <= self.colors@.len(),
                colors@.len() == i,
                forall|c: C| f.requires((c,)),
                forall|j: int| 0 <= j < i ==> f.ensures((self.colors@[j],), #[trigger] colors@[j]),
            decreases self.colors@.len() - i,
        {
            colors.push(f(self.colors[i]));
            i = i + 1;
        }
        GridGenome { cols: self.cols, rows: self.rows, points: copy_vertices(&self.points), colors, blur: self.blur }
    }
}


/// After normalisation the four corners sit on the margin line and every
/// point lies in `[-margin, dim - 1 + margin]` on both axes, so the cells
/// cover the whole canvas.
pub proof fn lemma_normalized_grid_covers_canvas(
    orig: Seq<(i16, i16)>,
    points: Seq<(i16, i16)>,
    cols: int,
    rows: int,
    width: u32,
    height: u32,
    margin: i16,
)
    requires
        grid_bounds_ok(width, height, margin),
        cols >= 1,
        rows >= 1,
        orig.len() == (cols + 1) * (rows + 1),
        grid_normalized_from(orig, points, cols, rows, width, height, margin),
    ensures
        points[0] == (-margin as i16, -margin as i16),
        points[cols] == ((dim16(width) - 1 + margin) as i16, -margin as i16),
        points[rows * (cols + 1)] == (-margin as i16, (dim16(height) - 1 + margin) as i16),
        points[rows * (cols + 1) + cols] == ((dim16(width) - 1 + margin) as i16, (dim16(height) - 1 + margin) as i16),
        forall|i: int|
            0 <= i < points.len() ==> -margin <= #[trigger] points[i].0 <= dim16(width) - 1 + margin && -margin
                <= points[i].1 <= dim16(height) - 1 + margin,
{
    lemma_grid_index(0, 0, cols);
    lemma_grid_index(0, cols, cols);
    lemma_grid_index(rows, 0, cols);
    lemma_grid_index(rows, cols, cols);
    assert(rows * (cols + 1) + cols < (cols + 1) * (rows + 1)) by (nonlinear_arith)
        requires
            cols >= 0,
            rows >= 0,
    ;
    assert(0 <= rows * (cols + 1)) by (nonlinear_arith)
        requires
            cols >= 0,
            rows >= 0,
    ;
    let last = rows * (cols + 1) + cols;
    let bl = rows * (cols + 1);
    assert(points[0] == grid_point_normalized(orig[0], 0, 0, cols, rows, width, height, margin));
    assert(points[cols] == grid_point_normalized(orig[cols], cols, 0, cols, rows, width, height, margin));
    assert(points[bl] == grid_point_normalized(orig[bl], 0, rows, cols, rows, width, height, margin));
    assert(points[last] == grid_point_normalized(orig[last], cols, rows, cols, rows, width, height, margin));
    assert forall|i: int| 0 <= i < points.len() implies -margin <= #[trigger] points[i].0 <= dim16(width) - 1 + margin
        && -margin <= points[i].1 <= dim16(height) - 1 + margin by {
        assert(points[i] == grid_point_normalized(orig[i], i % (cols + 1), i / (cols + 1), cols, rows, width, height, margin));
    }
}

} // verus!
