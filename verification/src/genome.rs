//! Genomes: complete candidate solutions made of shape genes, an optional
//! blur and a background, with their mutation and recombination.
use vstd::prelude::*;
use vstd::relations::{sorted_by, total_ordering};

use rand::rngs::SmallRng;

use crate::evolve::{
    fresh_gene, gene_mutated, gene_ok, gene_wf, kind_of, lemma_same_but_z_ok, same_but_z, same_gene, some_kind_enabled,
};
use crate::gene::{
    colour_changed, config_ok, cost_of, recoloured, with_z, z_of, BackgroundGene, BlurGene, MutationConfig, PolygonGene, ShapeGene,
};
use crate::polygon::{mid_alpha, z_above};
use crate::rng::{coin_flip, random_below_u32, random_below_usize};

verus! {

/// A candidate solution: shape genes (drawn in `z_order` order), an optional
/// global blur and a background colour.  Mutation and recombination keep the
/// shape list non-empty.
#[derive(Clone, Debug)]
pub struct ShapeGenome<C, R> {
    /// Shapes in any order; sorted by draw order before drawing.
    pub shapes: Vec<ShapeGene<C>>,
    /// Optional global blur applied after drawing.
    pub blur: Option<BlurGene<R>>,
    /// Background colour, painted before any shape.
    pub background: BackgroundGene<C>,
}

/// The cost limits a mutation respects when it adds genes.
#[derive(Clone, Copy, Debug)]
pub struct CostBudget {
    /// Total cost budget of the run.
    pub max_cost: usize,
    /// Current cap, growing toward `max_cost` as the run goes on.
    pub max_cost_incremental: usize,
}

/// Sum of the gene costs.
pub open spec fn total_cost_of<C>(s: Seq<ShapeGene<C>>) -> int
    decreases s.len(),
{
    if s.len() == 0 {
        0
    } else {
        total_cost_of(s.drop_last()) + cost_of(s.last())
    }
}

/// Costs are positive, so totals are too.
pub proof fn lemma_total_cost_nonneg<C>(s: Seq<ShapeGene<C>>)
    ensures
        total_cost_of(s) >= 0,
        s.len() > 0 ==> total_cost_of(s) > 0,
    decreases s.len(),
{
    if s.len() > 0 {
        lemma_total_cost_nonneg(s.drop_last());
    }
}

/// Appending a gene adds its cost.
pub proof fn lemma_total_cost_push<C>(s: Seq<ShapeGene<C>>, g: ShapeGene<C>)
    ensures
        total_cost_of(s.push(g)) == total_cost_of(s) + cost_of(g),
{
    assert(s.push(g).drop_last() =~= s);
}

/// Replacing a gene swaps its cost for the new one's.
pub proof fn lemma_total_cost_update<C>(s: Seq<ShapeGene<C>>, i: int, g: ShapeGene<C>)
    requires
        0 <= i < s.len(),
    ensures
        total_cost_of(s.update(i, g)) == total_cost_of(s) - cost_of(s[i]) + cost_of(g),
    decreases s.len(),
{
    if i < s.len() - 1 {
        assert(s.update(i, g).drop_last() =~= s.drop_last().update(i, g));
        lemma_total_cost_update(s.drop_last(), i, g);
    } else {
        assert(s.update(i, g).drop_last() =~= s.drop_last());
    }
}

/// The cost of one gene, as a wide integer.
fn gene_cost_wide<C: Copy>(g: &ShapeGene<C>) -> (c: u128)
    ensures
        c == cost_of(*g),
        c <= 16 + 4 * (usize::MAX as int),
{
    match g {
        ShapeGene::Triangle(_) => 21,
        ShapeGene::Circle(_) => 18,
        ShapeGene::Polygon(p) => 16 + 4 * (p.vertices.len() as u128),
    }
}

/// The total splits at any position.
pub proof fn lemma_total_cost_split<C>(s: Seq<ShapeGene<C>>, k: int)
    requires
        0 <= k <= s.len(),
    ensures
        total_cost_of(s) == total_cost_of(s.take(k)) + total_cost_of(s.skip(k)),
    decreases s.len(),
{
    if k == s.len() {
        assert(s.take(k) =~= s);
        assert(s.skip(k) =~= Seq::<ShapeGene<C>>::empty());
    } else {
        lemma_total_cost_split(s.drop_last(), k);
        assert(s.drop_last().take(k) =~= s.take(k));
        assert(s.drop_last().skip(k) =~= s.skip(k).drop_last());
        assert(s.skip(k).last() == s.last());
    }
}

/// Whether the total cost of `shapes` plus `extra` is at most `limit`.
fn cost_total_within<C: Copy>(shapes: &Vec<ShapeGene<C>>, extra: u128, limit: u128) -> (b: bool)
    requires
        extra <= 64 + 8 * (usize::MAX as int),
        limit <= 128 + 16 * (usize::MAX as int),
    ensures
        b == (total_cost_of(shapes@) + extra <= limit),
{
    if extra > limit {
        proof { lemma_total_cost_nonneg(shapes@); }
        return false;
    }
    let mut sum: u128 = extra;
    let mut i: usize = 0;
    while i < shapes.len()
        invariant
            i <= shapes@.len(),
            extra <= 64 + 8 * (usize::MAX as int),
            limit <= 128 + 16 * (usize::MAX as int),
            sum == total_cost_of(shapes@.take(i as int)) + extra,
            sum <= limit,
        decreases shapes@.len() - i,
    {
        assert(shapes@.take(i + 1).drop_last() =~= shapes@.take(i as int));
        let c = gene_cost_wide(&shapes[i]);
        sum = sum + c;
        i = i + 1;
        if sum > limit {
            proof {
                lemma_total_cost_nonneg(shapes@.skip(i as int));
                lemma_total_cost_split(shapes@, i as int);
            }
            return false;
        }
    }
    assert(shapes@.take(shapes@.len() as int) =~= shapes@);
    true
}

/// Whether the total cost of `shapes` other than the one at `skip` (if
/// any), plus `extra`, is at most `limit`.
pub fn cost_within<C: Copy>(shapes: &Vec<ShapeGene<C>>, skip: Option<usize>, extra: u128, limit: usize) -> (b: bool)
    requires
        extra <= 64 + 8 * (usize::MAX as int),
        skip matches Some(k) ==> k < shapes@.len(),
    ensures
        b == (total_cost_of(shapes@) - (if let Some(k) = skip { cost_of(shapes@[k as int]) } else { 0 }) + extra <= limit),
{
    let allowance: u128 = match skip {
        Some(k) => gene_cost_wide(&shapes[k]),
        None => 0,
    };
    cost_total_within(shapes, extra, limit as u128 + allowance)
}

impl<C: Copy, R: Copy> ShapeGenome<C, R> {
    /// Total approximate encoded cost of the shape genes.
    pub fn total_cost(&self) -> (c: usize)
        requires
            total_cost_of(self.shapes@) <= usize::MAX,
        ensures
            c == total_cost_of(self.shapes@),
    {
        let mut sum: u128 = 0;
        let mut i: usize = 0;
        while i < self.shapes.len()
            invariant
                i <= self.shapes@.len(),
                total_cost_of(self.shapes@) <= usize::MAX,
                sum == total_cost_of(self.shapes@.take(i as int)),
            decreases self.shapes@.len() - i,
        {
            assert(self.shapes@.take(i + 1).drop_last() =~= self.shapes@.take(i as int));
            proof {
                lemma_total_cost_split(self.shapes@, i + 1);
                lemma_total_cost_nonneg(self.shapes@.skip(i + 1));
            }
            sum = sum + gene_cost_wide(&self.shapes[i]);
            i = i + 1;
        }
        assert(self.shapes@.take(self.shapes@.len() as int) =~= self.shapes@);
        sum as usize
    }
}

/// Order of (draw order, position) keys: by draw order, then position.
pub open spec fn z_le() -> spec_fn((u16, usize), (u16, usize)) -> bool {
    |a: (u16, usize), b: (u16, usize)| a.0 < b.0 || (a.0 == b.0 && a.1 <= b.1)
}

proof fn lemma_z_le_total()
    ensures
        total_ordering(z_le()),
{
}

/// Each gene's draw order with its position.
pub open spec fn z_keys<C>(s: Seq<ShapeGene<C>>) -> Seq<(u16, usize)> {
    Seq::new(s.len(), |i: int| (z_of(s[i]), i as usize))
}

/// Positions of the genes in drawing order: by draw order, equal draw
/// orders in list order.
pub open spec fn z_order_positions<C>(s: Seq<ShapeGene<C>>) -> Seq<usize> {
    let o = z_keys(s).sort_by(z_le());
    Seq::new(o.len(), |k: int| o[k].1)
}

/// The genes in drawing order.
pub open spec fn z_sorted<C>(s: Seq<ShapeGene<C>>) -> Seq<ShapeGene<C>> {
    let p = z_order_positions(s);
    Seq::new(p.len(), |k: int| s[p[k] as int])
}

/// Drawing order lists every gene once and orders them by draw order.
pub proof fn lemma_z_sorted<C>(s: Seq<ShapeGene<C>>)
    requires
        s.len() <= usize::MAX,
    ensures
        z_order_positions(s).len() == s.len(),
        z_sorted(s).len() == s.len(),
        forall|k: int| 0 <= k < s.len() ==> #[trigger] z_order_positions(s)[k] < s.len(),
        forall|a: int, b: int| 0 <= a < b < s.len() ==> z_of(#[trigger] z_sorted(s)[a]) <= z_of(#[trigger] z_sorted(s)[b]),
        forall|i: int| 0 <= i < s.len() ==> #[trigger] z_order_positions(s).contains(i as usize),
{
    broadcast use vstd::seq_lib::group_to_multiset_ensures;
    let keys = z_keys(s);
    let o = keys.sort_by(z_le());
    lemma_z_le_total();
    keys.lemma_sort_by_ensures(z_le());
    vstd::seq_lib::to_multiset_len(o);
    vstd::seq_lib::to_multiset_len(keys);
    assert forall|k: int| 0 <= k < s.len() implies (#[trigger] o[k]).1 < s.len() && o[k] == keys[o[k].1 as int] by {
        assert(o.contains(o[k]));
        assert(keys.contains(o[k]));
    }
    assert forall|k: int| 0 <= k < s.len() implies #[trigger] z_order_positions(s)[k] < s.len() by {
        assert(o[k].1 < s.len());
    }
    assert forall|a: int, b: int| 0 <= a < b < s.len() implies z_of(#[trigger] z_sorted(s)[a]) <= z_of(
        #[trigger] z_sorted(s)[b],
    ) by {
        assert(z_le()(o[a], o[b]));
        assert(o[a] == keys[o[a].1 as int]);
        assert(o[b] == keys[o[b].1 as int]);
    }
    assert forall|i: int| 0 <= i < s.len() implies #[trigger] z_order_positions(s).contains(i as usize) by {
        assert(keys.contains(keys[i]));
        assert(keys.to_multiset().count(keys[i]) > 0);
        assert(o.contains(keys[i]));
        let k = choose|k: int| 0 <= k < o.len() && o[k] == keys[i];
        assert(z_order_positions(s)[k] == i as usize);
    }
}

fn z_leq(a: (u16, usize), b: (u16, usize)) -> (r: bool)
    ensures
        r == z_le()(a, b),
{
    a.0 < b.0 || (a.0 == b.0 && a.1 <= b.1)
}

/// Positions of the genes in drawing order (insertion sort, stable).
fn z_positions<C: Copy>(shapes: &Vec<ShapeGene<C>>) -> (r: Vec<usize>)
    ensures
        r@ == z_order_positions(shapes@),
{
    broadcast use vstd::seq_lib::group_to_multiset_ensures;
    let ghost all = z_keys(shapes@);
    let mut out: Vec<(u16, usize)> = Vec::new();
    let mut i: usize = 0;
    while i < shapes.len()
        invariant
            i <= shapes@.len(),
            all == z_keys(shapes@),
            sorted_by(out@, z_le()),
            out@.to_multiset() == all.take(i as int).to_multiset(),
        decreases shapes@.len() - i,
    {
        let x: (u16, usize) = (shapes[i].z_order(), i);
        assert(x == all[i as int]);
        let mut p: usize = 0;
        while p < out.len() && z_leq(out[p], x)
            invariant
                p <= out@.len(),
                forall|j: int| 0 <= j < p ==> #[trigger] z_le()(out@[j], x),
            decreases out@.len() - p,
        {
            p = p + 1;
        }
        let ghost before = out@;
        out.insert(p, x);
        proof {
            lemma_z_le_total();
            assert forall|a: int, b: int| 0 <= a < b < out@.len() implies #[trigger] z_le()(out@[a], out@[b]) by {
                if b < p {
                    assert(z_le()(before[a], before[b]));
                } else if b == p {
                    assert(z_le()(before[a], x));
                } else if a < p {
                    assert(z_le()(before[a], before[b - 1]));
                } else if a == p {
                    if b - 1 > p {
                        assert(z_le()(before[p as int], before[b - 1]));
                    }
                    assert(!z_le()(before[p as int], x));
                } else {
                    assert(z_le()(before[a - 1], before[b - 1]));
                }
            }
            assert(all.take(i + 1) =~= all.take(i as int).push(x));
            vstd::seq_lib::to_multiset_insert(before, p as int, x);
            vstd::seq_lib::to_multiset_build(all.take(i as int), x);
        }
        i = i + 1;
    }
    proof {
        assert(all.take(all.len() as int) =~= all);
        lemma_z_le_total();
        all.lemma_sort_by_ensures(z_le());
        vstd::seq_lib::lemma_sorted_unique(out@, all.sort_by(z_le()), z_le());
    }
    let mut r: Vec<usize> = Vec::new();
    let mut j: usize = 0;
    while j < out.len()
        invariant
            j <= out@.len(),
            out@ == all.sort_by(z_le()),
            all == z_keys(shapes@),
            r@ =~= z_order_positions(shapes@).take(j as int),
        decreases out@.len() - j,
    {
        r.push(out[j].1);
        j = j + 1;
    }
    assert(z_order_positions(shapes@).take(out@.len() as int) =~= z_order_positions(shapes@));
    r
}

/// Two gene lists hold the same genes position by position (polygons
/// compared by their vertex lists).
pub open spec fn genes_same<C>(a: Seq<ShapeGene<C>>, b: Seq<ShapeGene<C>>) -> bool {
    a.len() == b.len() && forall|i: int| 0 <= i < a.len() ==> same_gene(#[trigger] a[i], b[i])
}

/// Every gene is usable (polygons have vertices).
pub open spec fn all_wf<C>(s: Seq<ShapeGene<C>>) -> bool {
    forall|i: int| 0 <= i < s.len() ==> gene_wf(#[trigger] s[i])
}

/// Copies of the genes in drawing order.
pub fn sorted_copies<C: Copy>(shapes: &Vec<ShapeGene<C>>) -> (r: Vec<ShapeGene<C>>)
    requires
        all_wf(shapes@),
    ensures
        genes_same(r@, z_sorted(shapes@)),
        all_wf(r@),
{
    let order = z_positions(shapes);
    let _len = shapes.len();
    proof { lemma_z_sorted(shapes@); }
    let mut r: Vec<ShapeGene<C>> = Vec::new();
    let mut k: usize = 0;
    while k < order.len()
        invariant
            k <= order@.len(),
            order@ == z_order_positions(shapes@),
            order@.len() == shapes@.len(),
            all_wf(shapes@),
            forall|j: int| 0 <= j < shapes@.len() ==> #[trigger] z_order_positions(shapes@)[j] < shapes@.len(),
            r@.len() == k,
            forall|j: int| 0 <= j < k ==> same_gene(#[trigger] r@[j], z_sorted(shapes@)[j]),
            all_wf(r@),
        decreases order@.len() - k,
    {
        let g = shapes[order[k]].duplicate();
        r.push(g);
        k = k + 1;
    }
    r
}

impl<C: Copy, R: Copy> ShapeGenome<C, R> {
    /// The genes in drawing order (by draw order; equal draw orders in list
    /// order).
    pub fn sorted_genes(&self) -> (r: Vec<&ShapeGene<C>>)
        ensures
            r@.len() == self.shapes@.len(),
            forall|k: int| 0 <= k < r@.len() ==> *#[trigger] r@[k] == z_sorted(self.shapes@)[k],
    {
        let order = z_positions(&self.shapes);
        let _len = self.shapes.len();
        proof { lemma_z_sorted(self.shapes@); }
        let mut r: Vec<&ShapeGene<C>> = Vec::new();
        let mut k: usize = 0;
        while k < order.len()
            invariant
                k <= order@.len(),
                order@ == z_order_positions(self.shapes@),
                order@.len() == self.shapes@.len(),
                forall|j: int| 0 <= j < self.shapes@.len() ==> #[trigger] z_order_positions(self.shapes@)[j] < self.shapes@.len(),
                r@.len() == k,
                forall|j: int| 0 <= j < k ==> *#[trigger] r@[j] == z_sorted(self.shapes@)[j],
            decreases order@.len() - k,
        {
            r.push(&self.shapes[order[k]]);
            k = k + 1;
        }
        r
    }
}

/// Single-point crossover of two gene lists at `k`: the longer list when
/// either has at most one gene, otherwise the first `k` genes of `a` and the
/// genes of `b` from position `k` on.
pub open spec fn crossover_of<C>(a: Seq<ShapeGene<C>>, b: Seq<ShapeGene<C>>, k: int) -> Seq<ShapeGene<C>> {
    if a.len() <= 1 || b.len() <= 1 {
        if a.len() >= b.len() { a } else { b }
    } else {
        a.take(k) + b.skip(k)
    }
}

/// `k` is a crossover point the crossover may draw: any, when no split
/// happens, else in `[1, min(|a|, |b|))`.
pub open spec fn crossover_point<C>(a: Seq<ShapeGene<C>>, b: Seq<ShapeGene<C>>, k: int) -> bool {
    a.len() <= 1 || b.len() <= 1 || (1 <= k < a.len() && k < b.len())
}

/// What recombination makes of the two blurs: both present, the radius `mid`
/// gives; one present, it or none (a fair coin); none, none.
pub open spec fn blur_recombined<R, MR: Fn(R, R) -> R>(
    a: Option<BlurGene<R>>,
    b: Option<BlurGene<R>>,
    r: Option<BlurGene<R>>,
    mid: MR,
) -> bool {
    match (a, b) {
        (Some(x), Some(y)) => r matches Some(z) && mid.ensures((x.radius, y.radius), z.radius),
        (Some(x), None) => r == Some(x) || r is None,
        (None, Some(y)) => r == Some(y) || r is None,
        (None, None) => r is None,
    }
}

/// Crossover of lists holding the same genes holds the same genes.
pub proof fn lemma_crossover_same<C>(a: Seq<ShapeGene<C>>, a2: Seq<ShapeGene<C>>, b: Seq<ShapeGene<C>>, b2: Seq<ShapeGene<C>>, k: int)
    requires
        genes_same(a, a2),
        genes_same(b, b2),
        crossover_point(a, b, k),
    ensures
        genes_same(crossover_of(a, b, k), crossover_of(a2, b2, k)),
{
    if !(a.len() <= 1 || b.len() <= 1) {
        let x = crossover_of(a, b, k);
        let y = crossover_of(a2, b2, k);
        assert forall|i: int| 0 <= i < x.len() implies same_gene(#[trigger] x[i], y[i]) by {
            if i < k {
                assert(same_gene(a[i], a2[i]));
            } else {
                assert(same_gene(b[i], b2[i]));
            }
        }
    }
}

/// Crossover of a non-empty parent is non-empty, and keeps genes usable.
pub proof fn lemma_crossover_nonempty<C>(a: Seq<ShapeGene<C>>, b: Seq<ShapeGene<C>>, k: int)
    requires
        crossover_point(a, b, k),
    ensures
        a.len() >= 1 || b.len() >= 1 ==> crossover_of(a, b, k).len() >= 1,
        all_wf(a) && all_wf(b) ==> all_wf(crossover_of(a, b, k)),
{
    if all_wf(a) && all_wf(b) && !(a.len() <= 1 || b.len() <= 1) {
        let x = crossover_of(a, b, k);
        assert forall|i: int| 0 <= i < x.len() implies gene_wf(#[trigger] x[i]) by {
            if i < k {
                assert(gene_wf(a[i]));
            } else {
                assert(gene_wf(b[i]));
            }
        }
    }
}

/// Single-point crossover with a random point (no draw when either list
/// has at most one gene); returns the child and the point (0 when none).
fn crossover_genes<C: Copy>(rng: &mut SmallRng, a: Vec<ShapeGene<C>>, b: Vec<ShapeGene<C>>) -> (r: (
    Vec<ShapeGene<C>>,
    usize,
))
    ensures
        crossover_point(a@, b@, r.1 as int),
        r.0@ == crossover_of(a@, b@, r.1 as int),
        (a@.len() <= 1 || b@.len() <= 1) <==> r.1 == 0,
{
    let mut a = a;
    let mut b = b;
    let min_len = if a.len() < b.len() { a.len() } else { b.len() };
    if min_len <= 1 {
        if a.len() >= b.len() {
            (a, 0)
        } else {
            (b, 0)
        }
    } else {
        let k = random_below_usize(rng, 1, min_len);
        let ghost a0 = a@;
        let ghost b0 = b@;
        a.truncate(k);
        let mut tail = b.split_off(k);
        a.append(&mut tail);
        assert(a@ =~= a0.take(k as int) + b0.skip(k as int));
        (a, k)
    }
}

/// Recombine the optional blurs.
pub(crate) fn recombine_blur<R: Copy, MR: Fn(R, R) -> R>(
    rng: &mut SmallRng,
    a: &Option<BlurGene<R>>,
    b: &Option<BlurGene<R>>,
    mid: &MR,
) -> (r: Option<BlurGene<R>>)
    requires
        forall|x: R, y: R| mid.requires((x, y)),
    ensures
        blur_recombined(*a, *b, r, *mid),
{
    match (a, b) {
        (Some(x), Some(y)) => Some(x.recombine(y, mid)),
        (Some(x), None) => if coin_flip(rng) { Some(*x) } else { None },
        (None, Some(y)) => if coin_flip(rng) { Some(*y) } else { None },
        (None, None) => None,
    }
}

impl<C: Copy, R: Copy> ShapeGenome<C, R> {
    /// Single-point crossover in drawing order: both parents' genes sorted
    /// by draw order, then the first `k` of `self` and the rest of `other`
    /// from position `k` (or the longer parent when either has at most one
    /// gene).  The blurs recombine as `blur_recombined` says, the
    /// backgrounds through `mid_colour`.
    pub fn recombine<MD: Fn(C, C) -> C, MR: Fn(R, R) -> R>(
        &self,
        other: &Self,
        rng: &mut SmallRng,
        mid_colour: &MD,
        mid_radius: &MR,
    ) -> (r: Self)
        requires
            all_wf(self.shapes@),
            all_wf(other.shapes@),
            forall|x: C, y: C| mid_colour.requires((x, y)),
            forall|x: R, y: R| mid_radius.requires((x, y)),
        ensures
            exists|k: int|
                crossover_point(z_sorted(self.shapes@), z_sorted(other.shapes@), k) && genes_same(
                    r.shapes@,
                    #[trigger] crossover_of(z_sorted(self.shapes@), z_sorted(other.shapes@), k),
                ),
            self.shapes@.len() >= 1 || other.shapes@.len() >= 1 ==> r.shapes@.len() >= 1,
            all_wf(r.shapes@),
            blur_recombined(self.blur, other.blur, r.blur, *mid_radius),
            mid_colour.ensures((self.background.oklab, other.background.oklab), r.background.oklab),
    {
        let a_sorted = sorted_copies(&self.shapes);
        let b_sorted = sorted_copies(&other.shapes);
        let ghost (sa, sb) = (a_sorted@, b_sorted@);
        let (shapes, k) = crossover_genes(rng, a_sorted, b_sorted);
        let blur = recombine_blur(rng, &self.blur, &other.blur, mid_radius);
        let background = self.background.recombine(&other.background, mid_colour);
        let (_len_a, _len_b) = (self.shapes.len(), other.shapes.len());
        proof {
            lemma_z_sorted(self.shapes@);
            lemma_z_sorted(other.shapes@);
            lemma_crossover_same(sa, z_sorted(self.shapes@), sb, z_sorted(other.shapes@), k as int);
            lemma_crossover_nonempty(sa, sb, k as int);
        }
        ShapeGenome { shapes, blur, background }
    }
}

/// `r` is the crossover `x` with perhaps the gene before the crossover
/// point `k` replaced by a polygon drawn at the mean draw order of the two
/// polygons meeting there.
pub open spec fn crossover_with_hybrid<C, MD: Fn(C, C) -> C>(x: Seq<ShapeGene<C>>, r: Seq<ShapeGene<C>>, k: int, mid: MD) -> bool {
    ||| genes_same(r, x)
    ||| {
        &&& 1 <= k < x.len() && r.len() == x.len()
        &&& hybrid_of(x[k - 1], x[k], r[k - 1], mid)
        &&& forall|i: int| 0 <= i < x.len() && i != k - 1 ==> same_gene(#[trigger] r[i], x[i])
    }
}

/// `h` is an angle-crossover hybrid of polygons `a` and `b`: at least three
/// vertices, the colour `mid` gives, the mean alpha (at least `MINALPHA`),
/// and the mean draw order.
pub open spec fn hybrid_of<C, MD: Fn(C, C) -> C>(a: ShapeGene<C>, b: ShapeGene<C>, h: ShapeGene<C>, mid: MD) -> bool {
    match (a, b, h) {
        (ShapeGene::Polygon(a), ShapeGene::Polygon(b), ShapeGene::Polygon(h)) => {
            &&& h.vertices@.len() >= 3
            &&& mid.ensures((a.oklab, b.oklab), h.oklab)
            &&& h.alpha == mid_alpha(a.alpha, b.alpha)
            &&& h.z_order == (a.z_order + b.z_order) / 2
        },
        _ => false,
    }
}

impl<C: Copy, R: Copy> ShapeGenome<C, R> {
    /// `recombine`, except that when the crossover splits both parents, a
    /// fair coin decides whether to try an angle crossover of the two genes
    /// meeting at the crossover point; when both are polygons and it
    /// succeeds, the hybrid (at the mean of their draw orders) replaces the
    /// gene from `self`.
    pub fn recombine_configured<
        MD: Fn(C, C) -> C,
        MR: Fn(R, R) -> R,
        HV: Fn(&Vec<(i16, i16)>, u32, bool) -> Vec<bool>,
        AK: Fn(&Vec<(i16, i16)>) -> Vec<u32>,
    >(
        &self,
        other: &Self,
        rng: &mut SmallRng,
        config: &MutationConfig,
        mid_colour: &MD,
        mid_radius: &MR,
        halves: &HV,
        angle_keys: &AK,
    ) -> (r: Self)
        requires
            config_ok(*config),
            all_wf(self.shapes@),
            all_wf(other.shapes@),
            forall|x: C, y: C| mid_colour.requires((x, y)),
            forall|x: R, y: R| mid_radius.requires((x, y)),
            forall|w: &Vec<(i16, i16)>, raw: u32, first: bool| halves.requires((w, raw, first)),
            forall|w: &Vec<(i16, i16)>| angle_keys.requires((w,)),
        ensures
            exists|k: int|
                crossover_point(z_sorted(self.shapes@), z_sorted(other.shapes@), k) && crossover_with_hybrid(
                    #[trigger] crossover_of(z_sorted(self.shapes@), z_sorted(other.shapes@), k),
                    r.shapes@,
                    k,
                    *mid_colour,
                ),
            self.shapes@.len() >= 1 || other.shapes@.len() >= 1 ==> r.shapes@.len() >= 1,
            self.shapes@.len() <= 1 || other.shapes@.len() <= 1 ==> genes_same(
                r.shapes@,
                if self.shapes@.len() >= other.shapes@.len() {
                    z_sorted(self.shapes@)
                } else {
                    z_sorted(other.shapes@)
                },
            ),
            all_wf(r.shapes@),
            blur_recombined(self.blur, other.blur, r.blur, *mid_radius),
            mid_colour.ensures((self.background.oklab, other.background.oklab), r.background.oklab),
    {
        let a_sorted = sorted_copies(&self.shapes);
        let b_sorted = sorted_copies(&other.shapes);
        let ghost (sa, sb) = (a_sorted@, b_sorted@);
        let (mut shapes, k) = crossover_genes(rng, a_sorted, b_sorted);
        let ghost x = shapes@;
        let (_len_a, _len_b) = (self.shapes.len(), other.shapes.len());
        proof {
            lemma_z_sorted(self.shapes@);
            lemma_z_sorted(other.shapes@);
            lemma_crossover_same(sa, z_sorted(self.shapes@), sb, z_sorted(other.shapes@), k as int);
            lemma_crossover_nonempty(sa, sb, k as int);
        }
        if k > 0 && coin_flip(rng) {
            let hybrid = match (&shapes[k - 1], &shapes[k]) {
                (ShapeGene::Polygon(pa), ShapeGene::Polygon(pb)) => {
                    if pa.vertices.len() <= usize::MAX - pb.vertices.len() {
                        match pa.angle_crossover(
                            pb,
                            rng,
                            config.width,
                            config.height,
                            config.margin,
                            halves,
                            mid_colour,
                            angle_keys,
                        ) {
                            Some(h) => {
                                let z = ((pa.z_order as u32 + pb.z_order as u32) / 2) as u16;
                                Some(PolygonGene { z_order: z, ..h })
                            },
                            None => None,
                        }
                    } else {
                        None
                    }
                },
                _ => None,
            };
            if let Some(h) = hybrid {
                shapes.set(k - 1, ShapeGene::Polygon(h));
                proof {
                    let z = z_sorted(self.shapes@);
                    let w = z_sorted(other.shapes@);
                    assert(crossover_with_hybrid(crossover_of(z, w, k as int), shapes@, k as int, *mid_colour)) by {
                        assert forall|i: int| 0 <= i < x.len() && i != k - 1 implies same_gene(
                            #[trigger] shapes@[i],
                            crossover_of(z, w, k as int)[i],
                        ) by {
                            assert(shapes@[i] == x[i]);
                        }
                    }
                    assert forall|i: int| 0 <= i < shapes@.len() implies gene_wf(#[trigger] shapes@[i]) by {
                        if i != k - 1 {
                            assert(shapes@[i] == x[i]);
                        }
                    }
                }
            }
        }
        let blur = recombine_blur(rng, &self.blur, &other.blur, mid_radius);
        let background = self.background.recombine(&other.background, mid_colour);
        ShapeGenome { shapes, blur, background }
    }
}

/// Every gene satisfies the gene invariant.
pub open spec fn all_ok<C>(s: Seq<ShapeGene<C>>, config: MutationConfig) -> bool {
    forall|i: int| 0 <= i < s.len() ==> gene_ok(#[trigger] s[i], config)
}

/// Two polygon genes are the halves a split of `p` makes: colours that
/// `diverge` gives for its colour, its alpha, its draw order and the one
/// above, and its vertices shared between them.
pub open spec fn split_halves<C, DV: Fn(C) -> (C, C)>(p: ShapeGene<C>, a: ShapeGene<C>, b: ShapeGene<C>, diverge: DV) -> bool {
    match (p, a, b) {
        (ShapeGene::Polygon(p), ShapeGene::Polygon(a), ShapeGene::Polygon(b)) => {
            &&& diverge.ensures((p.oklab,), (a.oklab, b.oklab))
            &&& a.alpha == p.alpha && b.alpha == p.alpha
            &&& a.z_order == p.z_order && b.z_order == z_above(p.z_order)
            &&& a.vertices@.len() + b.vertices@.len() == p.vertices@.len()
        },
        _ => false,
    }
}

/// `s` with the draw orders of the genes at `a` and `b` exchanged.
pub open spec fn z_swapped<C>(s: Seq<ShapeGene<C>>, a: int, b: int) -> Seq<ShapeGene<C>> {
    s.update(a, with_z(s[a], z_of(s[b]))).update(b, with_z(s[b], z_of(s[a])))
}

/// `t` is `s` after the first `n` mutation attempts recorded in `picks` and
/// `rolls`: attempt `k` picks the gene at `picks[k]` and rolls `rolls[k]`
/// (see `gene_attempt`).
pub open spec fn gene_attempts<C, RD: Fn([u32; 3]) -> C, ND: Fn(C, [u32; 3]) -> C, AK: Fn(&Vec<(i16, i16)>) -> Vec<u32>>(
    s: Seq<ShapeGene<C>>,
    t: Seq<ShapeGene<C>>,
    n: nat,
    picks: Seq<int>,
    rolls: Seq<int>,
    rate: int,
    config: MutationConfig,
    redraw: RD,
    nudge: ND,
    angle_keys: AK,
) -> bool
    decreases n,
{
    if n == 0 {
        t == s
    } else {
        exists|c: Seq<ShapeGene<C>>|
            #![trigger gene_attempt(c, t, picks[n - 1], rolls[n - 1], rate, config, redraw, nudge, angle_keys)]
            gene_attempts(s, c, (n - 1) as nat, picks, rolls, rate, config, redraw, nudge, angle_keys) && gene_attempt(
                c,
                t,
                picks[n - 1],
                rolls[n - 1],
                rate,
                config,
                redraw,
                nudge,
                angle_keys,
            )
    }
}

/// Attempts past the first `n` do not matter to the first `n`.
pub proof fn lemma_gene_attempts_extend<C, RD: Fn([u32; 3]) -> C, ND: Fn(C, [u32; 3]) -> C, AK: Fn(&Vec<(i16, i16)>) -> Vec<u32>>(
    s: Seq<ShapeGene<C>>,
    t: Seq<ShapeGene<C>>,
    n: nat,
    picks: Seq<int>,
    rolls: Seq<int>,
    p: int,
    r: int,
    rate: int,
    config: MutationConfig,
    redraw: RD,
    nudge: ND,
    angle_keys: AK,
)
    requires
        gene_attempts(s, t, n, picks, rolls, rate, config, redraw, nudge, angle_keys),
        n <= picks.len(),
        n <= rolls.len(),
    ensures
        gene_attempts(s, t, n, picks.push(p), rolls.push(r), rate, config, redraw, nudge, angle_keys),
    decreases n,
{
    if n > 0 {
        let c = choose|c: Seq<ShapeGene<C>>|
            #![trigger gene_attempt(c, t, picks[n - 1], rolls[n - 1], rate, config, redraw, nudge, angle_keys)]
            gene_attempts(s, c, (n - 1) as nat, picks, rolls, rate, config, redraw, nudge, angle_keys) && gene_attempt(
                c,
                t,
                picks[n - 1],
                rolls[n - 1],
                rate,
                config,
                redraw,
                nudge,
                angle_keys,
            );
        lemma_gene_attempts_extend(s, c, (n - 1) as nat, picks, rolls, p, r, rate, config, redraw, nudge, angle_keys);
        assert(picks.push(p)[n - 1] == picks[n - 1] && rolls.push(r)[n - 1] == rolls[n - 1]);
    }
}

/// One mutation attempt on `c` giving `t`: the gene at `p` is picked and
/// `r` rolled in `[0, 1000)`; exactly when `r` is below `rate` the gene is
/// replaced by an outcome `gene_mutated` allows, else nothing changes.
pub open spec fn gene_attempt<C, RD: Fn([u32; 3]) -> C, ND: Fn(C, [u32; 3]) -> C, AK: Fn(&Vec<(i16, i16)>) -> Vec<u32>>(
    c: Seq<ShapeGene<C>>,
    t: Seq<ShapeGene<C>>,
    p: int,
    r: int,
    rate: int,
    config: MutationConfig,
    redraw: RD,
    nudge: ND,
    angle_keys: AK,
) -> bool {
    &&& 0 <= p < c.len()
    &&& 0 <= r < 1000
    &&& if r < rate {
        exists|m: ShapeGene<C>|
            #![trigger c.update(p, m)]
            gene_mutated(c[p], m, config, redraw, nudge, angle_keys) && t == c.update(p, m)
    } else {
        t == c
    }
}

/// With a mutation rate of 0 no attempt mutates: the genes stay as they were.
pub proof fn lemma_zero_rate_gene_attempts<C, RD: Fn([u32; 3]) -> C, ND: Fn(C, [u32; 3]) -> C, AK: Fn(&Vec<(i16, i16)>) -> Vec<u32>>(
    s: Seq<ShapeGene<C>>,
    t: Seq<ShapeGene<C>>,
    n: nat,
    picks: Seq<int>,
    rolls: Seq<int>,
    config: MutationConfig,
    redraw: RD,
    nudge: ND,
    angle_keys: AK,
)
    requires
        gene_attempts(s, t, n, picks, rolls, 0, config, redraw, nudge, angle_keys),
    ensures
        t == s,
    decreases n,
{
    if n > 0 {
        let c = choose|c: Seq<ShapeGene<C>>|
            #![trigger gene_attempt(c, t, picks[n - 1], rolls[n - 1], 0, config, redraw, nudge, angle_keys)]
            gene_attempts(s, c, (n - 1) as nat, picks, rolls, 0, config, redraw, nudge, angle_keys) && gene_attempt(
                c,
                t,
                picks[n - 1],
                rolls[n - 1],
                0,
                config,
                redraw,
                nudge,
                angle_keys,
            );
        lemma_zero_rate_gene_attempts(s, c, (n - 1) as nat, picks, rolls, config, redraw, nudge, angle_keys);
    }
}

/// One more mutation attempt extends the record: the picked gene replaced
/// by `m` when the roll is below the rate, nothing changed otherwise.
pub proof fn lemma_gene_attempt_step<C, RD: Fn([u32; 3]) -> C, ND: Fn(C, [u32; 3]) -> C, AK: Fn(&Vec<(i16, i16)>) -> Vec<u32>>(
    s: Seq<ShapeGene<C>>,
    c: Seq<ShapeGene<C>>,
    t: Seq<ShapeGene<C>>,
    picks: Seq<int>,
    rolls: Seq<int>,
    p: int,
    r: int,
    m: ShapeGene<C>,
    rate: int,
    config: MutationConfig,
    redraw: RD,
    nudge: ND,
    angle_keys: AK,
)
    requires
        gene_attempts(s, c, picks.len(), picks, rolls, rate, config, redraw, nudge, angle_keys),
        rolls.len() == picks.len(),
        0 <= p < c.len(),
        0 <= r < 1000,
        r < rate ==> gene_mutated(c[p], m, config, redraw, nudge, angle_keys) && t == c.update(p, m),
        !(r < rate) ==> t == c,
    ensures
        gene_attempts(s, t, picks.len() + 1, picks.push(p), rolls.push(r), rate, config, redraw, nudge, angle_keys),
{
    lemma_gene_attempts_extend(s, c, picks.len(), picks, rolls, p, r, rate, config, redraw, nudge, angle_keys);
    let p2 = picks.push(p);
    let r2 = rolls.push(r);
    assert(p2[picks.len() as int] == p && r2[picks.len() as int] == r);
    if r < rate {
        assert(t == c.update(p, m));
    }
    assert(gene_attempt(c, t, p, r, rate, config, redraw, nudge, angle_keys));
    assert(((picks.len() + 1) - 1) as nat == picks.len());
}

/// What one genome mutation does to the gene list: a fresh gene appended
/// within the budget; one gene removed (of two or more); a polygon of six
/// or more vertices replaced by one half of a split and the other half
/// appended, within the budget (only when polygons are in use); or, after
/// perhaps exchanging the draw orders of two genes, ten mutation attempts,
/// each mutating its picked gene exactly when its roll out of 1000 is below
/// the mutation rate (so the same number of genes, each of the same kind as
/// before).  The first three change
/// nothing else.
pub open spec fn genome_step<
    C,
    R,
    RD: Fn([u32; 3]) -> C,
    ND: Fn(C, [u32; 3]) -> C,
    AK: Fn(&Vec<(i16, i16)>) -> Vec<u32>,
    DV: Fn(C) -> (C, C),
>(
    g: ShapeGenome<C, R>,
    r: ShapeGenome<C, R>,
    config: MutationConfig,
    budget: CostBudget,
    redraw: RD,
    nudge: ND,
    angle_keys: AK,
    diverge: DV,
) -> bool {
    let s = g.shapes@;
    let t = r.shapes@;
    let within = total_cost_of(t) <= budget.max_cost && total_cost_of(t) <= budget.max_cost_incremental;
    let rest_same = r.blur == g.blur && r.background == g.background;
    ||| rest_same && within && exists|x: ShapeGene<C>|
        #![trigger s.push(x)]
        genes_same(t, s.push(x)) && fresh_gene(x, config, z_of(x), redraw)
    ||| rest_same && s.len() > 1 && exists|i: int| 0 <= i < s.len() && genes_same(t, #[trigger] s.remove(i))
    ||| rest_same && within && config.use_polygons && exists|i: int, a: ShapeGene<C>, b: ShapeGene<C>|
        #![trigger s.update(i, a).push(b)]
        0 <= i < s.len() && big_polygon(s[i]) && split_halves(s[i], a, b, diverge) && genes_same(t, s.update(i, a).push(b))
    ||| {
        &&& t.len() == s.len()
        &&& forall|i: int| 0 <= i < s.len() ==> kind_of(#[trigger] t[i]) == kind_of(s[i])
        &&& exists|mid: Seq<ShapeGene<C>>, picks: Seq<int>, rolls: Seq<int>|
            #![trigger gene_attempts(mid, t, 10, picks, rolls, config.mutation_rate as int, config, redraw, nudge, angle_keys)]
            (genes_same(mid, s) || exists|a: int, b: int|
                0 <= a < s.len() && 0 <= b < s.len() && a != b && genes_same(mid, #[trigger] z_swapped(s, a, b)))
                && picks.len() == 10 && rolls.len() == 10 && gene_attempts(
                mid,
                t,
                10,
                picks,
                rolls,
                config.mutation_rate as int,
                config,
                redraw,
                nudge,
                angle_keys,
            )
    }
}

/// Exchanging the draw orders of two genes in lists holding the same genes
/// gives lists holding the same genes.
pub proof fn lemma_z_swap_same<C>(a: Seq<ShapeGene<C>>, b: Seq<ShapeGene<C>>, i: int, j: int)
    requires
        genes_same(a, b),
        0 <= i < a.len(),
        0 <= j < a.len(),
    ensures
        genes_same(z_swapped(a, i, j), z_swapped(b, i, j)),
{
    let x = z_swapped(a, i, j);
    let y = z_swapped(b, i, j);
    assert(same_gene(a[i], b[i]) && same_gene(a[j], b[j]));
    assert forall|k: int| 0 <= k < x.len() implies same_gene(#[trigger] x[k], y[k]) by {
        if k == j {
            assert(x[k] == with_z(a[j], z_of(a[i])) && y[k] == with_z(b[j], z_of(b[i])));
        } else if k == i {
            assert(x[k] == with_z(a[i], z_of(a[j])) && y[k] == with_z(b[i], z_of(b[j])));
        } else {
            assert(x[k] == a[k] && y[k] == b[k]);
            assert(same_gene(a[k], b[k]));
        }
    }
}

/// Appending, removing or replacing genes in lists holding the same genes
/// gives lists holding the same genes.
pub proof fn lemma_genes_same_edits<C>(a: Seq<ShapeGene<C>>, b: Seq<ShapeGene<C>>, x: ShapeGene<C>, y: ShapeGene<C>, i: int)
    requires
        genes_same(a, b),
    ensures
        genes_same(a.push(x), b.push(x)),
        0 <= i < a.len() ==> genes_same(a.remove(i), b.remove(i)),
        0 <= i < a.len() ==> genes_same(a.update(i, x).push(y), b.update(i, x).push(y)),
        forall|j: int| 0 <= j < a.len() ==> kind_of(#[trigger] a[j]) == kind_of(b[j]),
{
    assert forall|j: int| 0 <= j < a.push(x).len() implies same_gene(#[trigger] a.push(x)[j], b.push(x)[j]) by {
        if j < a.len() {
            assert(same_gene(a[j], b[j]));
        }
    }
    if 0 <= i < a.len() {
        assert forall|j: int| 0 <= j < a.remove(i).len() implies same_gene(#[trigger] a.remove(i)[j], b.remove(i)[j]) by {
            if j < i {
                assert(same_gene(a[j], b[j]));
            } else {
                assert(same_gene(a[j + 1], b[j + 1]));
            }
        }
        let c = a.update(i, x).push(y);
        let d = b.update(i, x).push(y);
        assert forall|j: int| 0 <= j < c.len() implies same_gene(#[trigger] c[j], d[j]) by {
            if j < a.len() && j != i {
                assert(same_gene(a[j], b[j]));
            }
        }
    }
    assert forall|j: int| 0 <= j < a.len() implies kind_of(#[trigger] a[j]) == kind_of(b[j]) by {
        assert(same_gene(a[j], b[j]));
    }
}

/// Copies of the genes, in order.
fn copy_genes<C: Copy>(shapes: &Vec<ShapeGene<C>>) -> (r: Vec<ShapeGene<C>>)
    requires
        all_wf(shapes@),
    ensures
        genes_same(r@, shapes@),
        all_wf(r@),
{
    let mut r: Vec<ShapeGene<C>> = Vec::new();
    let mut i: usize = 0;
    while i < shapes.len()
        invariant
            i <= shapes@.len(),
            all_wf(shapes@),
            r@.len() == i,
            forall|j: int| 0 <= j < i ==> same_gene(#[trigger] r@[j], shapes@[j]),
            all_wf(r@),
        decreases shapes@.len() - i,
    {
        r.push(shapes[i].duplicate());
        i = i + 1;
    }
    r
}

/// Lists holding the same genes satisfy the gene invariant together.
pub proof fn lemma_genes_same_ok<C>(a: Seq<ShapeGene<C>>, b: Seq<ShapeGene<C>>, config: MutationConfig)
    requires
        genes_same(a, b),
    ensures
        all_ok(a, config) == all_ok(b, config),
        all_wf(a) == all_wf(b),
{
    assert forall|i: int| 0 <= i < a.len() implies #[trigger] gene_ok(a[i], config) == gene_ok(b[i], config) && gene_wf(
        a[i],
    ) == gene_wf(b[i]) by {
        lemma_same_but_z_ok(a[i], b[i], config);
    }
    assert forall|i: int| 0 <= i < b.len() implies #[trigger] gene_ok(b[i], config) == gene_ok(a[i], config) && gene_wf(
        b[i],
    ) == gene_wf(a[i]) by {
        lemma_same_but_z_ok(a[i], b[i], config);
    }
    if all_ok(a, config) {
        assert forall|i: int| 0 <= i < b.len() implies gene_ok(#[trigger] b[i], config) by {
            assert(gene_ok(a[i], config));
        }
    }
    if all_ok(b, config) {
        assert forall|i: int| 0 <= i < a.len() implies gene_ok(#[trigger] a[i], config) by {
            assert(gene_ok(b[i], config));
        }
    }
    if all_wf(a) {
        assert forall|i: int| 0 <= i < b.len() implies gene_wf(#[trigger] b[i]) by {
            assert(gene_wf(a[i]));
        }
    }
    if all_wf(b) {
        assert forall|i: int| 0 <= i < a.len() implies gene_wf(#[trigger] a[i]) by {
            assert(gene_wf(b[i]));
        }
    }
}

/// A polygon with at least six vertices (one that can be split).
pub open spec fn big_polygon<C>(g: ShapeGene<C>) -> bool {
    g matches ShapeGene::Polygon(p) && p.vertices@.len() >= 6
}

/// Positions of the polygons with at least six vertices, in increasing
/// order: every such position, once, and no other.
fn big_polygon_positions<C: Copy>(shapes: &Vec<ShapeGene<C>>) -> (r: Vec<usize>)
    ensures
        forall|k: int|
            0 <= k < r@.len() ==> #[trigger] r@[k] < shapes@.len() && big_polygon(shapes@[r@[k] as int]),
        forall|k: int, l: int| 0 <= k < l < r@.len() ==> #[trigger] r@[k] < #[trigger] r@[l],
        forall|i: int| 0 <= i < shapes@.len() && #[trigger] big_polygon(shapes@[i]) ==> r@.contains(i as usize),
{
    let mut r: Vec<usize> = Vec::new();
    let mut i: usize = 0;
    while i < shapes.len()
        invariant
            i <= shapes@.len(),
            forall|k: int|
                0 <= k < r@.len() ==> #[trigger] r@[k] < i && big_polygon(shapes@[r@[k] as int]),
            forall|k: int, l: int| 0 <= k < l < r@.len() ==> #[trigger] r@[k] < #[trigger] r@[l],
            forall|j: int| 0 <= j < i && #[trigger] big_polygon(shapes@[j]) ==> r@.contains(j as usize),
        decreases shapes@.len() - i,
    {
        let big = match &shapes[i] {
            ShapeGene::Polygon(p) => p.vertices.len() >= 6,
            _ => false,
        };
        let ghost before = r@;
        if big {
            r.push(i);
            proof {
                assert(r@[before.len() as int] == i);
                assert forall|j: int| 0 <= j < i && #[trigger] big_polygon(shapes@[j]) implies r@.contains(j as usize) by {
                    assert(before.contains(j as usize));
                    let k = choose|k: int| 0 <= k < before.len() && before[k] == j as usize;
                    assert(r@[k] == j as usize);
                }
            }
        }
        i = i + 1;
    }
    r
}

/// The blur after a blur mutation: a missing blur appears with the initial
/// radius; a present one steps and disappears if `kept` rejects its radius.
pub open spec fn blur_mutated<R, BS: Fn(R, u32, bool) -> R, BK: Fn(R) -> bool>(
    b: Option<BlurGene<R>>,
    r: Option<BlurGene<R>>,
    step: BS,
    kept: BK,
    initial: R,
) -> bool {
    match b {
        None => r == Some(BlurGene { radius: initial }),
        Some(x) => exists|raw: u32, up: bool, y: R|
            #![trigger step.ensures((x.radius, raw, up), y)]
            step.ensures((x.radius, raw, up), y) && (r == Some(BlurGene { radius: y }) && kept.ensures((y,), true) || r
                is None && kept.ensures((y,), false)),
    }
}

/// Nudge, add or drop the blur.
pub(crate) fn mutate_blur<R: Copy, BS: Fn(R, u32, bool) -> R, BK: Fn(R) -> bool>(
    rng: &mut SmallRng,
    blur: Option<BlurGene<R>>,
    step: &BS,
    kept: &BK,
    initial: R,
) -> (r: Option<BlurGene<R>>)
    requires
        forall|x: R, raw: u32, up: bool| step.requires((x, raw, up)),
        forall|x: R| kept.requires((x,)),
    ensures
        blur_mutated(blur, r, *step, *kept, initial),
{
    match blur {
        None => Some(BlurGene { radius: initial }),
        Some(b) => {
            let m = b.mutate(rng, step);
            let keep = kept(m.radius);
            if keep {
                Some(m)
            } else {
                None
            }
        },
    }
}

impl<C: Copy, R: Copy> ShapeGenome<C, R> {
    /// Mutate, in this order, returning after the first structural change:
    /// one time in ten add a random gene if the cost budget allows it; one
    /// time in twenty remove a random gene (when there are two or more);
    /// with polygons enabled, one time in twenty split a random polygon of
    /// six or more vertices if the budget allows the two halves.  Otherwise:
    /// one time in twenty swap the draw orders of two random genes, one time
    /// in twenty mutate the blur, one time in twenty the background, then
    /// ten times pick a gene and mutate it with probability
    /// `mutation_rate / 1000`.
    pub fn mutate<
        RD: Fn([u32; 3]) -> C,
        ND: Fn(C, [u32; 3]) -> C,
        AK: Fn(&Vec<(i16, i16)>) -> Vec<u32>,
        DV: Fn(C) -> (C, C),
        BS: Fn(R, u32, bool) -> R,
        BK: Fn(R) -> bool,
    >(
        &self,
        rng: &mut SmallRng,
        budget: &CostBudget,
        config: &MutationConfig,
        redraw: &RD,
        nudge: &ND,
        angle_keys: &AK,
        diverge: &DV,
        blur_step: &BS,
        blur_kept: &BK,
        initial_blur: R,
    ) -> (r: Self)
        requires
            config_ok(*config),
            some_kind_enabled(*config),
            self.shapes@.len() >= 1,
            all_wf(self.shapes@),
            forall|raw: [u32; 3]| redraw.requires((raw,)),
            forall|c: C, raw: [u32; 3]| nudge.requires((c, raw)),
            forall|w: &Vec<(i16, i16)>| angle_keys.requires((w,)),
            forall|c: C| diverge.requires((c,)),
            forall|x: R, raw: u32, up: bool| blur_step.requires((x, raw, up)),
            forall|x: R| blur_kept.requires((x,)),
        ensures
            r.shapes@.len() >= 1,
            all_wf(r.shapes@),
            all_ok(self.shapes@, *config) ==> all_ok(r.shapes@, *config),
            r.shapes@.len() == self.shapes@.len() || r.shapes@.len() + 1 == self.shapes@.len() || (r.shapes@.len()
                == self.shapes@.len() + 1 && total_cost_of(r.shapes@) <= budget.max_cost && total_cost_of(r.shapes@)
                <= budget.max_cost_incremental),
            r.background.oklab == self.background.oklab || colour_changed(
                self.background.oklab,
                r.background.oklab,
                *redraw,
                *nudge,
            ),
            r.blur == self.blur || blur_mutated(self.blur, r.blur, *blur_step, *blur_kept, initial_blur),
            genome_step(*self, r, *config, *budget, *redraw, *nudge, *angle_keys, *diverge),
    {
        let mut shapes = copy_genes(&self.shapes);
        let blur = self.blur;
        let background = self.background;
        let ghost n = self.shapes@.len();
        proof {
            lemma_genes_same_ok(shapes@, self.shapes@, *config);
            lemma_genes_same_edits(shapes@, self.shapes@, shapes@[0], shapes@[0], 0);
        }

        if random_below_u32(rng, 0, 10) == 0 {
            let candidate = ShapeGene::random(rng, config, redraw, angle_keys);
            let c = gene_cost_wide(&candidate);
            if cost_within(&shapes, None, c, budget.max_cost) && cost_within(&shapes, None, c, budget.max_cost_incremental) {
                let ghost before = shapes@;
                shapes.push(candidate);
                proof {
                    lemma_total_cost_push(before, candidate);
                    assert(shapes@[before.len() as int] == candidate);
                    assert(gene_wf(candidate));
                    lemma_genes_same_edits(before, self.shapes@, candidate, candidate, 0);
                }
                let r = ShapeGenome { shapes, blur, background };
                assert(genes_same(r.shapes@, self.shapes@.push(candidate)));
                return r;
            }
        }

        if random_below_u32(rng, 0, 20) == 0 && shapes.len() > 1 {
            let idx = random_below_usize(rng, 0, shapes.len());
            let ghost before = shapes@;
            shapes.remove(idx);
            proof {
                assert(shapes@ == before.remove(idx as int));
                lemma_genes_same_edits(before, self.shapes@, before[0], before[0], idx as int);
                assert(genes_same(shapes@, self.shapes@.remove(idx as int)));
                assert forall|i: int| 0 <= i < shapes@.len() implies gene_wf(#[trigger] shapes@[i]) && (all_ok(
                    before,
                    *config,
                ) ==> gene_ok(shapes@[i], *config)) by {
                    if i < idx {
                        assert(shapes@[i] == before[i]);
                    } else {
                        assert(shapes@[i] == before[i + 1]);
                    }
                }
            }
            return ShapeGenome { shapes, blur, background };
        }

        if config.use_polygons && random_below_u32(rng, 0, 20) == 0 {
            let poly_positions = big_polygon_positions(&shapes);
            if poly_positions.len() > 0 {
                let idx = poly_positions[random_below_usize(rng, 0, poly_positions.len())];
                let halves = match &shapes[idx] {
                    ShapeGene::Polygon(p) => p.split(rng, config.width, config.height, config.margin, diverge, angle_keys),
                    _ => None,
                };
                if let Some((ga, gb)) = halves {
                    let gene_a = ShapeGene::Polygon(ga);
                    let gene_b = ShapeGene::Polygon(gb);
                    let cost_ab = gene_cost_wide(&gene_a) + gene_cost_wide(&gene_b);
                    if cost_within(&shapes, Some(idx), cost_ab, budget.max_cost) && cost_within(
                        &shapes,
                        Some(idx),
                        cost_ab,
                        budget.max_cost_incremental,
                    ) {
                        let ghost before = shapes@;
                        shapes.set(idx, gene_a);
                        shapes.push(gene_b);
                        proof {
                            lemma_genes_same_edits(before, self.shapes@, gene_a, gene_b, idx as int);
                            assert(shapes@ == before.update(idx as int, gene_a).push(gene_b));
                            assert(genes_same(shapes@, self.shapes@.update(idx as int, gene_a).push(gene_b)));
                            assert(big_polygon(before[idx as int]));
                            lemma_same_but_z_ok(before[idx as int], self.shapes@[idx as int], *config);
                            assert(same_gene(before[idx as int], self.shapes@[idx as int]));
                            assert(split_halves(self.shapes@[idx as int], gene_a, gene_b, *diverge));
                            lemma_total_cost_update(before, idx as int, gene_a);
                            lemma_total_cost_push(before.update(idx as int, gene_a), gene_b);
                            assert forall|i: int| 0 <= i < shapes@.len() implies gene_wf(#[trigger] shapes@[i]) && (all_ok(
                                before,
                                *config,
                            ) ==> gene_ok(shapes@[i], *config)) by {
                                if i < before.len() && i != idx {
                                    assert(shapes@[i] == before[i]);
                                }
                                if all_ok(before, *config) {
                                    assert(gene_ok(before[idx as int], *config));
                                }
                            }
                        }
                        return ShapeGenome { shapes, blur, background };
                    }
                }
            }
        }

        let ghost pre = shapes@;
        assert(genes_same(pre, self.shapes@));
        if random_below_u32(rng, 0, 20) == 0 && shapes.len() >= 2 {
            let a = random_below_usize(rng, 0, shapes.len());
            let b = random_below_usize(rng, 0, shapes.len());
            if a != b {
                let za = shapes[a].z_order();
                let zb = shapes[b].z_order();
                let ghost before = shapes@;
                let mut ga = shapes[a].duplicate();
                ga.set_z_order(zb);
                let mut gb = shapes[b].duplicate();
                gb.set_z_order(za);
                shapes.set(a, ga);
                shapes.set(b, gb);
                proof {
                    lemma_z_swap_same(pre, self.shapes@, a as int, b as int);
                    assert(shapes@ =~= pre.update(a as int, ga).update(b as int, gb));
                    assert(genes_same(shapes@, z_swapped(self.shapes@, a as int, b as int)));
                    assert forall|i: int| 0 <= i < shapes@.len() implies gene_wf(#[trigger] shapes@[i]) && (gene_ok(
                        before[i],
                        *config,
                    ) ==> gene_ok(shapes@[i], *config)) && kind_of(shapes@[i]) == kind_of(before[i]) by {
                        lemma_same_but_z_ok(before[i], shapes@[i], *config);
                    }
                }
            }
        }

        let blur = if random_below_u32(rng, 0, 20) == 0 {
            mutate_blur(rng, blur, blur_step, blur_kept, initial_blur)
        } else {
            blur
        };

        let background = if random_below_u32(rng, 0, 20) == 0 {
            background.mutate(rng, redraw, nudge)
        } else {
            background
        };

        let ghost mid = shapes@;
        assert(genes_same(mid, self.shapes@) || exists|a: int, b: int|
            0 <= a < n && 0 <= b < n && a != b && genes_same(mid, #[trigger] z_swapped(self.shapes@, a, b)));
        let mut t: usize = 0;
        let ghost mut picks: Seq<int> = Seq::empty();
        let ghost mut rolls: Seq<int> = Seq::empty();
        let ghost rate = config.mutation_rate as int;
        while t < 10
            invariant
                t <= 10,
                picks.len() == t,
                rolls.len() == t,
                rate == config.mutation_rate,
                gene_attempts(mid, shapes@, t as nat, picks, rolls, rate, *config, *redraw, *nudge, *angle_keys),
                config_ok(*config),
                shapes@.len() == n,
                self.shapes@.len() == n,
                forall|i: int| 0 <= i < n ==> kind_of(#[trigger] shapes@[i]) == kind_of(self.shapes@[i]),
                n >= 1,
                all_wf(shapes@),
                all_ok(mid, *config) ==> all_ok(shapes@, *config),
                forall|raw: [u32; 3]| redraw.requires((raw,)),
                forall|c: C, raw: [u32; 3]| nudge.requires((c, raw)),
                forall|w: &Vec<(i16, i16)>| angle_keys.requires((w,)),
            decreases 10 - t,
        {
            let idx = random_below_usize(rng, 0, shapes.len());
            let roll = random_below_u32(rng, 0, 1000);
            let ghost before = shapes@;
            let ghost (p0, r0) = (picks, rolls);
            if roll < config.mutation_rate {
                let m = shapes[idx].mutate(rng, config, redraw, nudge, angle_keys);
                shapes.set(idx, m);
                proof {
                    assert(shapes@ == before.update(idx as int, m));
                    lemma_gene_attempt_step(mid, before, shapes@, p0, r0, idx as int, roll as int, m, rate, *config, *redraw, *nudge, *angle_keys);
                    assert forall|i: int| 0 <= i < shapes@.len() implies gene_wf(#[trigger] shapes@[i]) && (gene_ok(
                        before[i],
                        *config,
                    ) ==> gene_ok(shapes@[i], *config)) && kind_of(shapes@[i]) == kind_of(before[i]) by {
                        if i != idx {
                            assert(shapes@[i] == before[i]);
                        }
                    }
                }
            } else {
                proof {
                    lemma_gene_attempt_step(mid, before, shapes@, p0, r0, idx as int, roll as int, before[0], rate, *config, *redraw, *nudge, *angle_keys);
                }
            }
            proof {
                picks = p0.push(idx as int);
                rolls = r0.push(roll as int);
            }
            t = t + 1;
        }
        ShapeGenome { shapes, blur, background }
    }
}

impl<C: Copy, R: Copy> ShapeGenome<C, R> {
    /// The blur radius, if any.
    pub fn blur_radius(&self) -> (r: Option<R>)
        ensures
            r == (match self.blur {
                Some(b) => Some(b.radius),
                None => None,
            }),
    {
        match self.blur {
            Some(b) => Some(b.radius),
            None => None,
        }
    }

    /// The background colour.
    pub fn background_oklab(&self) -> (c: C)
        ensures
            c == self.background.oklab,
    {
        self.background.oklab
    }

    /// The same genome with every colour (genes and background) converted
    /// by `f`.
    pub fn map_colours<D: Copy, F: Fn(C) -> D>(&self, f: &F) -> (r: ShapeGenome<D, R>)
        requires
            forall|c: C| f.requires((c,)),
        ensures
            r.shapes@.len() == self.shapes@.len(),
            forall|i: int| 0 <= i < r.shapes@.len() ==> recoloured(#[trigger] self.shapes@[i], r.shapes@[i], *f),
            f.ensures((self.background.oklab,), r.background.oklab),
            r.blur == self.blur,
    {
        let mut shapes: Vec<ShapeGene<D>> = Vec::new();
        let mut i: usize = 0;
        while i < self.shapes.len()
            invariant
                i <= self.shapes@.len(),
                shapes@.len() == i,
                forall|c: C| f.requires((c,)),
                forall|j: int| 0 <= j < i ==> recoloured(#[trigger] self.shapes@[j], shapes@[j], *f),
            decreases self.shapes@.len() - i,
        {
            shapes.push(self.shapes[i].map_colour(f));
            i = i + 1;
        }
        ShapeGenome { shapes, blur: self.blur, background: BackgroundGene { oklab: f(self.background.oklab) } }
    }
}

} // verus!
