//! Polygon genes: normalisation, mutation, splitting and crossover.
//!
//! A polygon's vertices are kept in angular order around their centroid.
//! The angles are floating-point values; the caller supplies them as
//! integer sort keys (an order-preserving image of each angle), and the
//! ordering, clamping, and all vertex-list surgery are done here.
use vstd::prelude::*;
use vstd::relations::{sorted_by, total_ordering};

use rand::rngs::SmallRng;

use crate::gene::{
    clamped_vertices, colour_changed, config_ok, drawn_coord, random_coord, copy_vertices, nudge_oklab, point_in_bounds, random_alpha,
    random_oklab_color, vertices_in_bounds, MutationConfig, PolygonGene,
};
use crate::raster::{div_toward_zero, trunc_div};
use crate::rng::{rand_between, random_below_u32, random_below_usize, random_u32};
use crate::shapes::{bounds_ok, near, sat16, sat_add_i16, MAXALPHA, MINALPHA};

verus! {

/// A vertex tagged with its angle key.
pub type KeyedVertex = (u32, i16, i16);

/// Order of keyed vertices: by key, ties broken by the coordinates.
pub open spec fn key_le() -> spec_fn(KeyedVertex, KeyedVertex) -> bool {
    |a: KeyedVertex, b: KeyedVertex| a.0 < b.0 || (a.0 == b.0 && (a.1 < b.1 || (a.1 == b.1 && a.2 <= b.2)))
}

proof fn lemma_key_le_total()
    ensures
        total_ordering(key_le()),
{
}

/// The vertices tagged with their keys, position by position.
pub open spec fn keyed(v: Seq<(i16, i16)>, keys: Seq<u32>) -> Seq<KeyedVertex> {
    Seq::new(v.len(), |i: int| (keys[i], v[i].0, v[i].1))
}

/// The vertices of keyed vertices.
pub open spec fn unkeyed(s: Seq<KeyedVertex>) -> Seq<(i16, i16)> {
    Seq::new(s.len(), |i: int| (s[i].1, s[i].2))
}

/// The vertices ordered by their keys (one key per vertex); with a key list
/// of the wrong length the vertices keep their order.
pub open spec fn angle_sorted(v: Seq<(i16, i16)>, keys: Seq<u32>) -> Seq<(i16, i16)> {
    if keys.len() == v.len() {
        unkeyed(keyed(v, keys).sort_by(key_le()))
    } else {
        v
    }
}

fn key_leq(a: KeyedVertex, b: KeyedVertex) -> (r: bool)
    ensures
        r == key_le()(a, b),
{
    a.0 < b.0 || (a.0 == b.0 && (a.1 < b.1 || (a.1 == b.1 && a.2 <= b.2)))
}

/// Order vertices by their keys (ties by coordinates): insertion sort.
fn sort_by_keys(v: &Vec<(i16, i16)>, keys: &Vec<u32>) -> (r: Vec<(i16, i16)>)
    requires
        keys@.len() == v@.len(),
    ensures
        r@ == angle_sorted(v@, keys@),
{
    broadcast use vstd::seq_lib::group_to_multiset_ensures;
    let ghost all = keyed(v@, keys@);
    let mut out: Vec<KeyedVertex> = Vec::new();
    let mut i: usize = 0;
    while i < v.len()
        invariant
            i <= v@.len(),
            keys@.len() == v@.len(),
            all == keyed(v@, keys@),
            sorted_by(out@, key_le()),
            out@.to_multiset() == all.take(i as int).to_multiset(),
        decreases v@.len() - i,
    {
        let x: KeyedVertex = (keys[i], v[i].0, v[i].1);
        assert(x == all[i as int]);
        let mut p: usize = 0;
        while p < out.len() && key_leq(out[p], x)
            invariant
                p <= out@.len(),
                forall|j: int| 0 <= j < p ==> #[trigger] key_le()(out@[j], x),
            decreases out@.len() - p,
        {
            p = p + 1;
        }
        let ghost before = out@;
        out.insert(p, x);
        proof {
            lemma_key_le_total();
            assert forall|a: int, b: int| 0 <= a < b < out@.len() implies #[trigger] key_le()(out@[a], out@[b]) by {
                if b < p {
                    assert(key_le()(before[a], before[b]));
                } else if b == p {
                    assert(key_le()(before[a], x));
                } else if a < p {
                    assert(key_le()(before[a], before[b - 1]));
                } else if a == p {
                    if b - 1 > p {
                        assert(key_le()(before[p as int], before[b - 1]));
                    }
                    assert(!key_le()(before[p as int], x));
                } else {
                    assert(key_le()(before[a - 1], before[b - 1]));
                }
            }
            assert(all.take(i + 1) =~= all.take(i as int).push(x));
            vstd::seq_lib::to_multiset_insert(before, p as int, x);
            vstd::seq_lib::to_multiset_build(all.take(i as int), x);
        }
        i = i + 1;
    }
    proof {
        assert(all.take(all.len() as int) =~= all);
        lemma_key_le_total();
        all.lemma_sort_by_ensures(key_le());
        vstd::seq_lib::lemma_sorted_unique(out@, all.sort_by(key_le()), key_le());
    }
    let mut r: Vec<(i16, i16)> = Vec::new();
    let mut j: usize = 0;
    while j < out.len()
        invariant
            j <= out@.len(),
            r@ == unkeyed(out@).take(j as int),
        decreases out@.len() - j,
    {
        r.push((out[j].1, out[j].2));
        j = j + 1;
        assert(r@ =~= unkeyed(out@).take(j as int));
    }
    assert(unkeyed(out@).take(out@.len() as int) =~= unkeyed(out@));
    r
}

/// Ordering by keys keeps the number of vertices and introduces none.
pub proof fn lemma_angle_sorted(v: Seq<(i16, i16)>, keys: Seq<u32>)
    ensures
        angle_sorted(v, keys).len() == v.len(),
        forall|i: int| 0 <= i < v.len() ==> #[trigger] v.contains(angle_sorted(v, keys)[i]),
{
    if keys.len() == v.len() {
        broadcast use vstd::seq_lib::group_to_multiset_ensures;
        let all = keyed(v, keys);
        let s = all.sort_by(key_le());
        lemma_key_le_total();
        all.lemma_sort_by_ensures(key_le());
        assert(s.len() == all.len()) by {
            vstd::seq_lib::to_multiset_len(s);
            vstd::seq_lib::to_multiset_len(all);
        }
        assert forall|i: int| 0 <= i < v.len() implies #[trigger] v.contains(angle_sorted(v, keys)[i]) by {
            assert(s.contains(s[i]));
            assert(all.contains(s[i]));
            let j = choose|j: int| 0 <= j < all.len() && all[j] == s[i];
            assert(v[j] == angle_sorted(v, keys)[i]);
        }
    } else {
        assert forall|i: int| 0 <= i < v.len() implies #[trigger] v.contains(angle_sorted(v, keys)[i]) by {
            assert(v[i] == angle_sorted(v, keys)[i]);
        }
    }
}

/// Vertices all inside the bounds stay inside after being ordered.
pub proof fn lemma_angle_sorted_in_bounds(v: Seq<(i16, i16)>, keys: Seq<u32>, width: u32, height: u32, margin: i16)
    requires
        vertices_in_bounds(v, width, height, margin),
    ensures
        vertices_in_bounds(angle_sorted(v, keys), width, height, margin),
        angle_sorted(v, keys).len() == v.len(),
{
    lemma_angle_sorted(v, keys);
    assert forall|i: int| 0 <= i < angle_sorted(v, keys).len() implies point_in_bounds(
        #[trigger] angle_sorted(v, keys)[i].0,
        angle_sorted(v, keys)[i].1,
        width,
        height,
        margin,
    ) by {
        assert(v.contains(angle_sorted(v, keys)[i]));
        let j = choose|j: int| 0 <= j < v.len() && v[j] == angle_sorted(v, keys)[i];
        assert(point_in_bounds(v[j].0, v[j].1, width, height, margin));
    }
}

/// The result of normalising vertices `v` when the caller's angle keys for
/// the clamped vertices are `keys`.
pub open spec fn polygon_normalized(v: Seq<(i16, i16)>, keys: Seq<u32>, width: u32, height: u32, margin: i16) -> Seq<(i16, i16)> {
    angle_sorted(clamped_vertices(v, width, height, margin), keys)
}

/// `r` is a normalisation of `v` under some keys that `angle_keys` may
/// return for the clamped vertices.
pub open spec fn normalized_by<AK: Fn(&Vec<(i16, i16)>) -> Vec<u32>>(
    v: Seq<(i16, i16)>,
    r: Seq<(i16, i16)>,
    width: u32,
    height: u32,
    margin: i16,
    angle_keys: AK,
) -> bool {
    exists|w: Vec<(i16, i16)>, keys: Vec<u32>|
        #![trigger angle_keys.ensures((&w,), keys)]
        w@ == clamped_vertices(v, width, height, margin) && angle_keys.ensures((&w,), keys)
            && r == polygon_normalized(v, keys@, width, height, margin)
}

impl<C: Copy> PolygonGene<C> {
    /// Clamp every vertex to `[-margin, dim - 1 + margin]`, then order the
    /// vertices by the angle keys that `angle_keys` gives for the clamped
    /// list (one key per vertex, in an order that follows the angle of the
    /// vertex around the centroid).
    pub fn normalize<AK: Fn(&Vec<(i16, i16)>) -> Vec<u32>>(
        &mut self,
        width: u32,
        height: u32,
        margin: i16,
        angle_keys: &AK,
    )
        requires
            bounds_ok(width, height, margin),
            forall|w: &Vec<(i16, i16)>| angle_keys.requires((w,)),
        ensures
            normalized_by(old(self).vertices@, final(self).vertices@, width, height, margin, *angle_keys),
            final(self).vertices@.len() == old(self).vertices@.len(),
            vertices_in_bounds(final(self).vertices@, width, height, margin),
            final(self).oklab == old(self).oklab,
            final(self).alpha == old(self).alpha,
            final(self).z_order == old(self).z_order,
    {
        let ghost orig = self.vertices@;
        self.clamp_vertices(width, height, margin);
        let keys = angle_keys(&self.vertices);
        let ghost w = self.vertices;
        if keys.len() == self.vertices.len() {
            self.vertices = sort_by_keys(&self.vertices, &keys);
        }
        proof {
            lemma_angle_sorted_in_bounds(w@, keys@, width, height, margin);
            assert(angle_keys.ensures((&w,), keys));
        }
    }
}

} // verus!

verus! {

/// The pre-normalisation vertex lists one geometry mutation can make from
/// `v`: all vertices redrawn inside the canvas, every coordinate moved by at
/// most 20, an edge split by a new vertex near its midpoint (only below the
/// vertex cap), or a vertex removed (only above three vertices).
pub open spec fn geometry_step(v: Seq<(i16, i16)>, u: Seq<(i16, i16)>, config: MutationConfig) -> bool {
    ||| redrawn(v, u, config)
    ||| moved(v, u, 20)
    ||| edge_split(v, u, config)
    ||| vertex_removed(v, u)
}

/// Every vertex redrawn inside the canvas.
pub open spec fn redrawn(v: Seq<(i16, i16)>, u: Seq<(i16, i16)>, config: MutationConfig) -> bool {
    u.len() == v.len() && forall|i: int|
        0 <= i < v.len() ==> drawn_coord(#[trigger] u[i].0, config.width) && drawn_coord(u[i].1, config.height)
}

/// Every coordinate moved by at most `d`.
pub open spec fn moved(v: Seq<(i16, i16)>, u: Seq<(i16, i16)>, d: int) -> bool {
    u.len() == v.len() && forall|i: int|
        0 <= i < v.len() ==> near(#[trigger] v[i].0 as int, u[i].0 as int, d) && near(v[i].1 as int, u[i].1 as int, d)
}

/// A vertex inserted after vertex `e`, within 20 of the edge's midpoint
/// (rounded toward zero, limited to `i16`); only below the vertex cap.
pub open spec fn edge_split(v: Seq<(i16, i16)>, u: Seq<(i16, i16)>, config: MutationConfig) -> bool {
    let n = v.len() as int;
    n < config.max_polygon_vertices && exists|e: int, m: (i16, i16)|
        #![trigger v.insert(e + 1, m)]
        0 <= e < n && near(sat16(trunc_div(v[e].0 + v[(e + 1) % n].0, 2)), m.0 as int, 20) && near(
            sat16(trunc_div(v[e].1 + v[(e + 1) % n].1, 2)),
            m.1 as int,
            20,
        ) && u == v.insert(e + 1, m)
}

/// One vertex removed; only above three vertices.
pub open spec fn vertex_removed(v: Seq<(i16, i16)>, u: Seq<(i16, i16)>) -> bool {
    v.len() > 3 && exists|i: int| 0 <= i < v.len() && u == #[trigger] v.remove(i)
}

/// The outcomes of one polygon mutation: the geometry changed as
/// `geometry_step` allows and renormalised, the colour changed, or the alpha
/// redrawn; one aspect at a time, the draw order never.
pub open spec fn polygon_mutation<
    C,
    RD: Fn([u32; 3]) -> C,
    ND: Fn(C, [u32; 3]) -> C,
    AK: Fn(&Vec<(i16, i16)>) -> Vec<u32>,
>(p: PolygonGene<C>, r: PolygonGene<C>, config: MutationConfig, redraw: RD, nudge: ND, angle_keys: AK) -> bool {
    &&& r.z_order == p.z_order
    &&& {
        ||| r.oklab == p.oklab && r.alpha == p.alpha && exists|u: Seq<(i16, i16)>|
            #![trigger geometry_step(p.vertices@, u, config)]
            geometry_step(p.vertices@, u, config) && normalized_by(
                u,
                r.vertices@,
                config.width,
                config.height,
                config.margin,
                angle_keys,
            )
        ||| r.vertices@ == p.vertices@ && r.alpha == p.alpha && colour_changed(p.oklab, r.oklab, redraw, nudge)
        ||| r.vertices@ == p.vertices@ && r.oklab == p.oklab && MINALPHA <= r.alpha <= MAXALPHA
    }
}

/// `n` vertices drawn uniformly inside the canvas, `x` then `y` for each.
pub(crate) fn random_vertices(rng: &mut SmallRng, n: usize, width: u32, height: u32) -> (v: Vec<(i16, i16)>)
    requires
        width >= 1,
        height >= 1,
    ensures
        v@.len() == n,
        forall|i: int| 0 <= i < n ==> drawn_coord(#[trigger] v@[i].0, width) && drawn_coord(v@[i].1, height),
{
    let mut v: Vec<(i16, i16)> = Vec::new();
    let mut i: usize = 0;
    while i < n
        invariant
            i <= n,
            v@.len() == i,
            width >= 1,
            height >= 1,
            forall|j: int| 0 <= j < i ==> drawn_coord(#[trigger] v@[j].0, width) && drawn_coord(v@[j].1, height),
        decreases n - i,
    {
        let x = random_coord(rng, width);
        let y = random_coord(rng, height);
        v.push((x, y));
        i = i + 1;
    }
    v
}

/// Move every coordinate by a draw from `[-d, d]`, saturating at the `i16`
/// bounds; `x` then `y` for each vertex.
fn nudge_vertices(rng: &mut SmallRng, v: &mut Vec<(i16, i16)>, d: i32)
    requires
        0 <= d <= 20,
    ensures
        moved(old(v)@, final(v)@, d as int),
{
    let ghost orig = v@;
    let mut i: usize = 0;
    while i < v.len()
        invariant
            0 <= d <= 20,
            v@.len() == orig.len(),
            i <= orig.len(),
            forall|j: int|
                0 <= j < i ==> near(#[trigger] orig[j].0 as int, v@[j].0 as int, d as int) && near(
                    orig[j].1 as int,
                    v@[j].1 as int,
                    d as int,
                ),
            forall|j: int| i <= j < orig.len() ==> v@[j] == orig[j],
        decreases orig.len() - i,
    {
        let (vx, vy) = v[i];
        let nx = sat_add_i16(vx, rand_between(rng, -d, d) as i16);
        let ny = sat_add_i16(vy, rand_between(rng, -d, d) as i16);
        v.set(i, (nx, ny));
        i = i + 1;
    }
}

/// `(a + b) / 2` rounded toward zero.
fn half_sum(a: i16, b: i16) -> (m: i32)
    ensures
        m == trunc_div(a + b, 2),
        i16::MIN <= m <= i16::MAX,
{
    div_toward_zero(a as i32 + b as i32, 2)
}

/// `v` limited to the `i16` range.
fn clamp_to_i16(v: i32) -> (r: i16)
    ensures
        r == sat16(v as int),
{
    if v < i16::MIN as i32 {
        i16::MIN
    } else if v > i16::MAX as i32 {
        i16::MAX
    } else {
        v as i16
    }
}

/// Insert a new vertex after a randomly chosen one, at the midpoint of that
/// edge moved by up to 20 in each direction.
fn split_random_edge(rng: &mut SmallRng, v: &mut Vec<(i16, i16)>)
    requires
        1 <= old(v)@.len() < usize::MAX,
    ensures
        exists|e: int, m: (i16, i16)|
            #![trigger old(v)@.insert(e + 1, m)]
            0 <= e < old(v)@.len() && near(
                sat16(trunc_div(old(v)@[e].0 + old(v)@[(e + 1) % (old(v)@.len() as int)].0, 2)),
                m.0 as int,
                20,
            ) && near(
                sat16(trunc_div(old(v)@[e].1 + old(v)@[(e + 1) % (old(v)@.len() as int)].1, 2)),
                m.1 as int,
                20,
            ) && final(v)@ == old(v)@.insert(e + 1, m),
{
    let n = v.len();
    let edge = random_below_usize(rng, 0, n);
    let (x1, y1) = v[edge];
    let (x2, y2) = v[(edge + 1) % n];
    let mx = clamp_to_i16(half_sum(x1, x2) + rand_between(rng, -20, 20));
    let my = clamp_to_i16(half_sum(y1, y2) + rand_between(rng, -20, 20));
    let ghost before = v@;
    v.insert(edge + 1, (mx, my));
    proof {
        let m = (mx, my);
        assert(before.insert(edge + 1, m) == v@);
        assert(near(sat16(trunc_div(before[edge as int].0 + before[(edge + 1) % (n as int)].0, 2)), m.0 as int, 20));
    }
}

impl<C: Copy> PolygonGene<C> {
    /// An exact copy.
    pub fn duplicate(&self) -> (r: Self)
        ensures
            r.vertices@ == self.vertices@,
            r.oklab == self.oklab,
            r.alpha == self.alpha,
            r.z_order == self.z_order,
    {
        PolygonGene { vertices: copy_vertices(&self.vertices), oklab: self.oklab, alpha: self.alpha, z_order: self.z_order }
    }
}

/// A move by at most `d1` is a move by at most any larger `d2`.
pub proof fn lemma_moved_weaken(v: Seq<(i16, i16)>, u: Seq<(i16, i16)>, d1: int, d2: int)
    requires
        moved(v, u, d1),
        d1 <= d2,
    ensures
        moved(v, u, d2),
{
    assert forall|i: int| 0 <= i < v.len() implies near(#[trigger] v[i].0 as int, u[i].0 as int, d2) && near(
        v[i].1 as int,
        u[i].1 as int,
        d2,
    ) by {
        assert(near(v[i].0 as int, u[i].0 as int, d1));
    }
}

/// Normalisation keeps the number of vertices and puts them all in bounds.
pub proof fn lemma_normalized_by<AK: Fn(&Vec<(i16, i16)>) -> Vec<u32>>(
    u: Seq<(i16, i16)>,
    r: Seq<(i16, i16)>,
    width: u32,
    height: u32,
    margin: i16,
    angle_keys: AK,
)
    requires
        bounds_ok(width, height, margin),
        normalized_by(u, r, width, height, margin, angle_keys),
    ensures
        r.len() == u.len(),
        vertices_in_bounds(r, width, height, margin),
{
    let (w, keys) = choose|w: Vec<(i16, i16)>, keys: Vec<u32>|
        #![trigger angle_keys.ensures((&w,), keys)]
        w@ == clamped_vertices(u, width, height, margin) && angle_keys.ensures((&w,), keys)
            && r == polygon_normalized(u, keys@, width, height, margin);
    let c = clamped_vertices(u, width, height, margin);
    assert(vertices_in_bounds(c, width, height, margin));
    lemma_angle_sorted_in_bounds(c, keys@, width, height, margin);
}

impl<C: Copy> PolygonGene<C> {
    /// Mutate one aspect, chosen from 32 equally likely cases: redraw every
    /// vertex (4), move every coordinate by up to 20 (4) or by up to 5 (4),
    /// redraw the colour (4), nudge it (4), redraw the alpha (4), split an
    /// edge at its moved midpoint (1; below the vertex cap, else a small
    /// move), or remove a vertex (7; above three vertices, else a small
    /// move).  Geometry changes renormalise.
    pub fn mutate<RD: Fn([u32; 3]) -> C, ND: Fn(C, [u32; 3]) -> C, AK: Fn(&Vec<(i16, i16)>) -> Vec<u32>>(
        &self,
        rng: &mut SmallRng,
        config: &MutationConfig,
        redraw: &RD,
        nudge: &ND,
        angle_keys: &AK,
    ) -> (r: Self)
        requires
            config_ok(*config),
            self.vertices@.len() >= 1,
            forall|raw: [u32; 3]| redraw.requires((raw,)),
            forall|c: C, raw: [u32; 3]| nudge.requires((c, raw)),
            forall|w: &Vec<(i16, i16)>| angle_keys.requires((w,)),
        ensures
            polygon_mutation(*self, r, *config, *redraw, *nudge, *angle_keys),
            MINALPHA <= self.alpha <= MAXALPHA ==> MINALPHA <= r.alpha <= MAXALPHA,
            vertices_in_bounds(self.vertices@, config.width, config.height, config.margin)
                ==> vertices_in_bounds(r.vertices@, config.width, config.height, config.margin),
            r.vertices@.len() == self.vertices@.len()
                || (r.vertices@.len() == self.vertices@.len() + 1 && self.vertices@.len() < config.max_polygon_vertices)
                || (r.vertices@.len() + 1 == self.vertices@.len() && self.vertices@.len() > 3),
    {
        let ghost v = self.vertices@;
        let mut g = self.duplicate();
        let n = g.vertices.len();
        let choice = random_below_u32(rng, 0, 32);
        if choice < 12 {
            if choice < 4 {
                g.vertices = random_vertices(rng, n, config.width, config.height);
                assert(redrawn(v, g.vertices@, *config));
            } else if choice < 8 {
                nudge_vertices(rng, &mut g.vertices, 20);
            } else {
                nudge_vertices(rng, &mut g.vertices, 5);
                proof { lemma_moved_weaken(v, g.vertices@, 5, 20); }
            }
            let ghost u = g.vertices@;
            assert(geometry_step(v, u, *config));
            g.normalize(config.width, config.height, config.margin, angle_keys);
            proof { lemma_normalized_by(u, g.vertices@, config.width, config.height, config.margin, *angle_keys); }
        } else if choice < 16 {
            let (c, _) = random_oklab_color(rng, redraw);
            g.oklab = c;
        } else if choice < 20 {
            g.oklab = nudge_oklab(rng, nudge, g.oklab);
        } else if choice < 24 {
            g.alpha = random_alpha(rng);
        } else {
            if choice == 24 && n < config.max_polygon_vertices {
                split_random_edge(rng, &mut g.vertices);
                assert(geometry_step(v, g.vertices@, *config));
            } else if choice != 24 && n > 3 {
                let idx = random_below_usize(rng, 0, n);
                g.vertices.remove(idx);
                assert(g.vertices@ == v.remove(idx as int));
                assert(geometry_step(v, g.vertices@, *config));
            } else {
                nudge_vertices(rng, &mut g.vertices, 5);
                proof { lemma_moved_weaken(v, g.vertices@, 5, 20); }
                assert(geometry_step(v, g.vertices@, *config));
            }
            let ghost u = g.vertices@;
            assert(geometry_step(v, u, *config));
            g.normalize(config.width, config.height, config.margin, angle_keys);
            proof { lemma_normalized_by(u, g.vertices@, config.width, config.height, config.margin, *angle_keys); }
        }
        g
    }
}

/// The vertex list read cyclically from position `s`.
pub open spec fn rotated(v: Seq<(i16, i16)>, s: int) -> Seq<(i16, i16)> {
    Seq::new(v.len(), |i: int| v[(s + i) % (v.len() as int)])
}

/// `z + 1`, saturating at `u16::MAX`.
pub open spec fn z_above(z: u16) -> u16 {
    if z == u16::MAX { z } else { (z + 1) as u16 }
}

/// The vertices at positions `s + from .. s + to` read cyclically.
fn cyclic_run(v: &Vec<(i16, i16)>, s: usize, from: usize, to: usize) -> (r: Vec<(i16, i16)>)
    requires
        s < v@.len(),
        from <= to <= v@.len(),
    ensures
        r@ == rotated(v@, s as int).subrange(from as int, to as int),
{
    let n = v.len();
    let mut r: Vec<(i16, i16)> = Vec::new();
    let mut i: usize = from;
    while i < to
        invariant
            n == v@.len(),
            s < n,
            from <= i <= to <= n,
            r@ == rotated(v@, s as int).subrange(from as int, i as int),
        decreases to - i,
    {
        let j = if i < n - s { s + i } else { i - (n - s) };
        assert(j == (s + i) % (n as int)) by {
            if i < n - s {
                vstd::arithmetic::div_mod::lemma_small_mod((s + i) as nat, n as nat);
            } else {
                vstd::arithmetic::div_mod::lemma_mod_add_multiples_vanish((s + i - n) as int, n as int);
                vstd::arithmetic::div_mod::lemma_small_mod((s + i - n) as nat, n as nat);
            }
        }
        r.push(v[j]);
        i = i + 1;
        assert(r@ =~= rotated(v@, s as int).subrange(from as int, i as int));
    }
    r
}

impl<C: Copy> PolygonGene<C> {
    /// Split into two polygons by dividing the vertex list, read cyclically
    /// from a random start, into its first `n / 2` vertices and the rest.
    /// `diverge` gives the two colours; both halves keep the alpha, the
    /// second is drawn one step above the first.  Polygons with fewer than
    /// six vertices are not split.
    pub fn split<DV: Fn(C) -> (C, C), AK: Fn(&Vec<(i16, i16)>) -> Vec<u32>>(
        &self,
        rng: &mut SmallRng,
        width: u32,
        height: u32,
        margin: i16,
        diverge: &DV,
        angle_keys: &AK,
    ) -> (r: Option<(Self, Self)>)
        requires
            bounds_ok(width, height, margin),
            forall|c: C| diverge.requires((c,)),
            forall|w: &Vec<(i16, i16)>| angle_keys.requires((w,)),
        ensures
            r is None <==> self.vertices@.len() < 6,
            r matches Some((a, b)) ==> {
                let v = self.vertices@;
                let n = v.len() as int;
                &&& exists|s: int|
                    0 <= s < n && normalized_by(
                        #[trigger] rotated(v, s).take(n / 2),
                        a.vertices@,
                        width,
                        height,
                        margin,
                        *angle_keys,
                    ) && normalized_by(rotated(v, s).skip(n / 2), b.vertices@, width, height, margin, *angle_keys)
                &&& diverge.ensures((self.oklab,), (a.oklab, b.oklab))
                &&& a.alpha == self.alpha && b.alpha == self.alpha
                &&& a.z_order == self.z_order && b.z_order == z_above(self.z_order)
                &&& a.vertices@.len() == n / 2 && b.vertices@.len() == n - n / 2
                &&& vertices_in_bounds(a.vertices@, width, height, margin)
                &&& vertices_in_bounds(b.vertices@, width, height, margin)
            },
    {
        let n = self.vertices.len();
        if n < 6 {
            return None;
        }
        let s = random_below_usize(rng, 0, n);
        let half = n / 2;
        let verts_a = cyclic_run(&self.vertices, s, 0, half);
        let verts_b = cyclic_run(&self.vertices, s, half, n);
        let (ca, cb) = diverge(self.oklab);
        let zb = if self.z_order == u16::MAX { self.z_order } else { self.z_order + 1 };
        let mut gene_a = PolygonGene { vertices: verts_a, oklab: ca, alpha: self.alpha, z_order: self.z_order };
        let mut gene_b = PolygonGene { vertices: verts_b, oklab: cb, alpha: self.alpha, z_order: zb };
        let ghost ua = gene_a.vertices@;
        let ghost ub = gene_b.vertices@;
        gene_a.normalize(width, height, margin, angle_keys);
        gene_b.normalize(width, height, margin, angle_keys);
        proof {
            let rot = rotated(self.vertices@, s as int);
            assert(ua =~= rot.take(half as int));
            assert(ub =~= rot.skip(half as int));
            lemma_normalized_by(ua, gene_a.vertices@, width, height, margin, *angle_keys);
            lemma_normalized_by(ub, gene_b.vertices@, width, height, margin, *angle_keys);
        }
        Some((gene_a, gene_b))
    }
}

/// The vertices whose flag in `mask` is set (a vertex without a flag is
/// dropped).
pub open spec fn kept(v: Seq<(i16, i16)>, mask: Seq<bool>) -> Seq<(i16, i16)>
    decreases v.len(),
{
    if v.len() == 0 {
        Seq::empty()
    } else {
        let i = v.len() - 1;
        let rest = kept(v.drop_last(), mask);
        if i < mask.len() && mask[i] {
            rest.push(v[i])
        } else {
            rest
        }
    }
}

/// The flagged vertices, in order.
fn keep_flagged(v: &Vec<(i16, i16)>, mask: &Vec<bool>) -> (r: Vec<(i16, i16)>)
    ensures
        r@ == kept(v@, mask@),
{
    let mut r: Vec<(i16, i16)> = Vec::new();
    let mut i: usize = 0;
    while i < v.len()
        invariant
            i <= v@.len(),
            r@ == kept(v@.take(i as int), mask@),
        decreases v@.len() - i,
    {
        assert(v@.take(i + 1).drop_last() =~= v@.take(i as int));
        if i < mask.len() && mask[i] {
            r.push(v[i]);
        }
        i = i + 1;
    }
    assert(v@.take(v@.len() as int) =~= v@);
    r
}

/// Mean of two alpha percentages rounded down, at least `MINALPHA`.
pub open spec fn mid_alpha(a: u8, b: u8) -> u8 {
    let m = (a + b) / 2;
    if m < MINALPHA { MINALPHA } else { m as u8 }
}

/// The vertices an angle crossover keeps: those of `a` that `halves` puts
/// in the first half-plane of the dividing angle `raw`, then those of `b`
/// it puts in the second.
pub open spec fn crossover_vertices<HV: Fn(&Vec<(i16, i16)>, u32, bool) -> Vec<bool>>(
    a: &Vec<(i16, i16)>,
    b: &Vec<(i16, i16)>,
    raw: u32,
    mask_a: Vec<bool>,
    mask_b: Vec<bool>,
    halves: HV,
) -> Option<Seq<(i16, i16)>> {
    if halves.ensures((a, raw, true), mask_a) && halves.ensures((b, raw, false), mask_b) {
        Some(kept(a@, mask_a@) + kept(b@, mask_b@))
    } else {
        None
    }
}

impl<C: Copy> PolygonGene<C> {
    /// Angle crossover: draw a dividing angle (as the raw 32-bit draw that
    /// `rand` turns into a uniform `f32`), keep the vertices of `self` that
    /// `halves` places in the half-plane starting at that angle and those of
    /// `other` it places in the opposite one.  Fewer than three kept
    /// vertices give `None`; otherwise the child has the colour `mid` gives,
    /// the mean alpha (at least `MINALPHA`), the draw order of `self`, and
    /// is normalised.
    pub fn angle_crossover<
        MD: Fn(C, C) -> C,
        HV: Fn(&Vec<(i16, i16)>, u32, bool) -> Vec<bool>,
        AK: Fn(&Vec<(i16, i16)>) -> Vec<u32>,
    >(
        &self,
        other: &Self,
        rng: &mut SmallRng,
        width: u32,
        height: u32,
        margin: i16,
        halves: &HV,
        mid: &MD,
        angle_keys: &AK,
    ) -> (r: Option<Self>)
        requires
            bounds_ok(width, height, margin),
            self.vertices@.len() + other.vertices@.len() <= usize::MAX,
            forall|w: &Vec<(i16, i16)>, raw: u32, first: bool| halves.requires((w, raw, first)),
            forall|x: C, y: C| mid.requires((x, y)),
            forall|w: &Vec<(i16, i16)>| angle_keys.requires((w,)),
        ensures
            exists|raw: u32, mask_a: Vec<bool>, mask_b: Vec<bool>|
                #![trigger crossover_vertices(&self.vertices, &other.vertices, raw, mask_a, mask_b, *halves)]
                crossover_vertices(&self.vertices, &other.vertices, raw, mask_a, mask_b, *halves) matches Some(
                    u,
                ) && {
                    &&& (r is None <==> u.len() < 3)
                    &&& r matches Some(c) ==> {
                        &&& normalized_by(u, c.vertices@, width, height, margin, *angle_keys)
                        &&& mid.ensures((self.oklab, other.oklab), c.oklab)
                        &&& c.alpha == mid_alpha(self.alpha, other.alpha)
                        &&& c.z_order == self.z_order
                        &&& c.vertices@.len() == u.len()
                        &&& vertices_in_bounds(c.vertices@, width, height, margin)
                    }
                },
    {
        let raw = random_u32(rng);
        let mask_a = halves(&self.vertices, raw, true);
        let mask_b = halves(&other.vertices, raw, false);
        let mut combined = keep_flagged(&self.vertices, &mask_a);
        let mut from_b = keep_flagged(&other.vertices, &mask_b);
        proof {
            lemma_kept_len(self.vertices@, mask_a@);
            lemma_kept_len(other.vertices@, mask_b@);
        }
        combined.append(&mut from_b);
        let ghost u = combined@;
        assert(crossover_vertices(&self.vertices, &other.vertices, raw, mask_a, mask_b, *halves) == Some(u));
        if combined.len() < 3 {
            return None;
        }
        let oklab = mid(self.oklab, other.oklab);
        let m: u16 = (self.alpha as u16 + other.alpha as u16) / 2;
        let alpha: u8 = if m < MINALPHA as u16 { MINALPHA } else { m as u8 };
        let mut child = PolygonGene { vertices: combined, oklab, alpha, z_order: self.z_order };
        child.normalize(width, height, margin, angle_keys);
        proof {
            lemma_normalized_by(u, child.vertices@, width, height, margin, *angle_keys);
        }
        Some(child)
    }
}

/// Keeping flagged vertices keeps at most all of them.
pub proof fn lemma_kept_len(v: Seq<(i16, i16)>, mask: Seq<bool>)
    ensures
        kept(v, mask).len() <= v.len(),
    decreases v.len(),
{
    if v.len() > 0 {
        lemma_kept_len(v.drop_last(), mask);
    }
}


/// One polygon mutation changes the vertex count by at most one: it grows
/// only below the vertex cap (so never past it) and shrinks only above three
/// vertices (so never below three).
pub proof fn lemma_polygon_mutation_vertex_count<
    C,
    RD: Fn([u32; 3]) -> C,
    ND: Fn(C, [u32; 3]) -> C,
    AK: Fn(&Vec<(i16, i16)>) -> Vec<u32>,
>(p: PolygonGene<C>, r: PolygonGene<C>, config: MutationConfig, redraw: RD, nudge: ND, angle_keys: AK)
    requires
        config_ok(config),
        polygon_mutation(p, r, config, redraw, nudge, angle_keys),
    ensures
        r.vertices@.len() == p.vertices@.len() || (r.vertices@.len() == p.vertices@.len() + 1
            && p.vertices@.len() < config.max_polygon_vertices) || (r.vertices@.len() + 1 == p.vertices@.len()
            && p.vertices@.len() > 3),
        p.vertices@.len() >= 3 ==> r.vertices@.len() >= 3,
        p.vertices@.len() <= config.max_polygon_vertices ==> r.vertices@.len() <= config.max_polygon_vertices,
{
    if r.oklab == p.oklab && r.alpha == p.alpha && exists|u: Seq<(i16, i16)>|
        #![trigger geometry_step(p.vertices@, u, config)]
        geometry_step(p.vertices@, u, config) && normalized_by(
            u,
            r.vertices@,
            config.width,
            config.height,
            config.margin,
            angle_keys,
        ) {
        let u = choose|u: Seq<(i16, i16)>|
            #![trigger geometry_step(p.vertices@, u, config)]
            geometry_step(p.vertices@, u, config) && normalized_by(
                u,
                r.vertices@,
                config.width,
                config.height,
                config.margin,
                angle_keys,
            );
        lemma_normalized_by(u, r.vertices@, config.width, config.height, config.margin, angle_keys);
    }
}

/// Reading the vertex list cyclically from `s` gives the vertices from
/// `s` to the end followed by those before `s`.  So however the rotated
/// list is cut in two (as a split cuts it into its halves), the two parts
/// together hold every vertex of the original exactly as often as it does.
pub proof fn lemma_rotated_is_rotation(v: Seq<(i16, i16)>, s: int, h: int)
    requires
        0 <= s < v.len(),
        0 <= h <= v.len(),
    ensures
        rotated(v, s) == v.subrange(s, v.len() as int) + v.subrange(0, s),
        (rotated(v, s).take(h) + rotated(v, s).skip(h)).to_multiset() == v.to_multiset(),
{
    let n = v.len() as int;
    let r = rotated(v, s);
    let w = v.subrange(s, n) + v.subrange(0, s);
    assert forall|i: int| 0 <= i < n implies r[i] == w[i] by {
        if i < n - s {
            vstd::arithmetic::div_mod::lemma_small_mod((s + i) as nat, n as nat);
        } else {
            vstd::arithmetic::div_mod::lemma_mod_add_multiples_vanish((s + i - n) as int, n as int);
            vstd::arithmetic::div_mod::lemma_small_mod((s + i - n) as nat, n as nat);
        }
    }
    assert(r =~= w);
    assert(r.take(h) + r.skip(h) =~= r);
    vstd::seq_lib::lemma_multiset_commutative(v.subrange(s, n), v.subrange(0, s));
    vstd::seq_lib::lemma_multiset_commutative(v.subrange(0, s), v.subrange(s, n));
    assert(v.subrange(0, s) + v.subrange(s, n) =~= v);
    assert(v.subrange(s, n).to_multiset().add(v.subrange(0, s).to_multiset()) =~= v.subrange(0, s).to_multiset().add(
        v.subrange(s, n).to_multiset(),
    ));
}

} // verus!
