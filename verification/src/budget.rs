//! Cost and size budgets: growing the incremental cost cap during a run, and
//! trimming a genome until its compact SVG data URL fits a byte limit.
use vstd::prelude::*;

use crate::documents::blur_text_of;
use crate::gene::{recoloured, ShapeGene, TRIANGLE_COST};
use crate::evolve::same_gene;
use crate::genome::{all_wf, genes_same, lemma_z_sorted, sorted_copies, z_sorted, CostBudget, ShapeGenome};
use crate::svg::{build_svg, char_count, data_url_prefix, svg_text, svg_to_data_url, url_encode};

verus! {

impl CostBudget {
    /// A budget of `max_shapes` triangles' cost, starting with room for
    /// `initial_shapes` of them.
    pub fn from_shape_count(max_shapes: usize, initial_shapes: usize) -> (b: Self)
        requires
            max_shapes * TRIANGLE_COST <= usize::MAX,
            initial_shapes * TRIANGLE_COST <= usize::MAX,
        ensures
            b.max_cost == max_shapes * TRIANGLE_COST,
            b.max_cost_incremental == initial_shapes * TRIANGLE_COST,
    {
        CostBudget { max_cost: max_shapes * TRIANGLE_COST, max_cost_incremental: initial_shapes * TRIANGLE_COST }
    }

    /// The incremental cap after generation `generation`: every thousandth
    /// generation, while below the total budget and while the current best
    /// genome (of cost `best_cost`) leaves less than one triangle's room, it
    /// grows by one triangle's cost.
    pub fn grown(&self, generation: i64, best_cost: usize) -> (r: Self)
        requires
            self.max_cost_incremental + TRIANGLE_COST <= usize::MAX,
            best_cost + TRIANGLE_COST <= usize::MAX,
        ensures
            r.max_cost == self.max_cost,
            r.max_cost_incremental == if generation % 1000 == 0 && self.max_cost_incremental < self.max_cost
                && best_cost + TRIANGLE_COST > self.max_cost_incremental {
                self.max_cost_incremental + TRIANGLE_COST
            } else {
                self.max_cost_incremental as int
            },
    {
        if generation % 1000 == 0 && self.max_cost_incremental < self.max_cost && best_cost + TRIANGLE_COST
            > self.max_cost_incremental {
            CostBudget { max_cost: self.max_cost, max_cost_incremental: self.max_cost_incremental + TRIANGLE_COST }
        } else {
            *self
        }
    }
}

/// Length of the data URL of the compact SVG of `genes`.
#[verifier::opaque]
pub open spec fn compact_url_len(genes: Seq<ShapeGene<[u8; 3]>>, width: u32, height: u32, blur: Option<Seq<char>>, bg: [u8; 3]) -> int {
    (data_url_prefix() + url_encode(svg_text(genes, width, height, blur, bg, true))).len() as int
}

/// How many of the genes (in drawing order) stay, and whether the blur
/// stays, once the data URL fits in `max` characters: while it does not,
/// drop the blur if that alone makes it fit, else drop the top gene.
pub open spec fn trim_outcome(
    genes: Seq<ShapeGene<[u8; 3]>>,
    width: u32,
    height: u32,
    blur: Option<Seq<char>>,
    bg: [u8; 3],
    max: int,
) -> (int, bool)
    decreases genes.len(),
{
    if compact_url_len(genes, width, height, blur, bg) <= max || genes.len() == 0 {
        (genes.len() as int, blur is Some)
    } else if blur is Some && compact_url_len(genes, width, height, None, bg) <= max {
        (genes.len() as int, false)
    } else {
        trim_outcome(genes.drop_last(), width, height, blur, bg, max)
    }
}

/// Length of the compact SVG data URL.
fn compact_url_length(genes: &Vec<ShapeGene<[u8; 3]>>, width: u32, height: u32, blur: Option<&str>, bg: [u8; 3]) -> (n: usize)
    ensures
        n == compact_url_len(genes@, width, height, match blur {
            Some(t) => Some(t@),
            None => None,
        }, bg),
{
    let svg = build_svg(genes.as_slice(), width, height, blur, bg, true);
    let url = svg_to_data_url(svg.as_str());
    proof { reveal(compact_url_len); }
    char_count(&url)
}

/// Recolouring depends only on what `same_gene` compares.
pub proof fn lemma_recoloured_same<C, D, F: Fn(C) -> D>(a: ShapeGene<C>, b: ShapeGene<C>, m: ShapeGene<D>, f: F)
    requires
        same_gene(a, b),
        recoloured(a, m, f),
    ensures
        recoloured(b, m, f),
{
}

/// Length of the compact SVG data URL, with the blur text when `use_blur`.
fn url_length_with(
    genes: &Vec<ShapeGene<[u8; 3]>>,
    width: u32,
    height: u32,
    t: &Option<String>,
    use_blur: bool,
    bg: [u8; 3],
) -> (n: usize)
    ensures
        n == compact_url_len(genes@, width, height, if use_blur {
            match t {
                Some(x) => Some(x@),
                None => None,
            }
        } else {
            None
        }, bg),
{
    match t {
        Some(x) => if use_blur {
            compact_url_length(genes, width, height, Some(x.as_str()), bg)
        } else {
            compact_url_length(genes, width, height, None, bg)
        },
        None => compact_url_length(genes, width, height, None, bg),
    }
}

/// Colours converted to sRGB, gene by gene.
fn map_genes<C: Copy, TS: Fn(C) -> [u8; 3]>(genes: &Vec<ShapeGene<C>>, to_srgb: &TS) -> (r: Vec<ShapeGene<[u8; 3]>>)
    requires
        forall|c: C| to_srgb.requires((c,)),
    ensures
        r@.len() == genes@.len(),
        forall|i: int| 0 <= i < r@.len() ==> recoloured(#[trigger] genes@[i], r@[i], *to_srgb),
{
    let mut r: Vec<ShapeGene<[u8; 3]>> = Vec::new();
    let mut i: usize = 0;
    while i < genes.len()
        invariant
            i <= genes@.len(),
            r@.len() == i,
            forall|c: C| to_srgb.requires((c,)),
            forall|j: int| 0 <= j < i ==> recoloured(#[trigger] genes@[j], r@[j], *to_srgb),
        decreases genes@.len() - i,
    {
        r.push(genes[i].map_colour(to_srgb));
        i = i + 1;
    }
    r
}

/// Trim a genome so that the data URL of its compact SVG (colours through
/// `to_srgb`, blur radius through `radius_text`) is at most `max_bytes`
/// long: genes go into drawing order, then, while the URL is too long, the
/// blur is dropped if that alone is enough, otherwise the topmost gene is
/// removed.  The background is kept.
pub fn trim_genome_to_budget<C: Copy, R: Copy, TS: Fn(C) -> [u8; 3], TR: Fn(R) -> String>(
    genome: &ShapeGenome<C, R>,
    width: u32,
    height: u32,
    max_bytes: usize,
    to_srgb: &TS,
    radius_text: &TR,
) -> (r: ShapeGenome<C, R>)
    requires
        all_wf(genome.shapes@),
        forall|c: C| to_srgb.requires((c,)),
        forall|x: R| radius_text.requires((x,)),
    ensures
        exists|mapped: Seq<ShapeGene<[u8; 3]>>, t: Option<Seq<char>>, bg: [u8; 3]|
            #![trigger trim_outcome(mapped, width, height, t, bg, max_bytes as int)]
            {
                &&& mapped.len() == genome.shapes@.len()
                &&& forall|i: int| 0 <= i < mapped.len() ==> recoloured(#[trigger] z_sorted(genome.shapes@)[i], mapped[i], *to_srgb)
                &&& blur_text_of(genome.blur, t, *radius_text)
                &&& to_srgb.ensures((genome.background.oklab,), bg)
                &&& trim_outcome(mapped, width, height, t, bg, max_bytes as int) == (r.shapes@.len() as int, r.blur is Some)
            },
        genes_same(r.shapes@, z_sorted(genome.shapes@).take(r.shapes@.len() as int)),
        r.shapes@.len() <= genome.shapes@.len(),
        r.blur is Some ==> r.blur == genome.blur,
        r.background == genome.background,
{
    let n = genome.shapes.len();
    proof { lemma_z_sorted(genome.shapes@); }
    let mut shapes = sorted_copies(&genome.shapes);
    let mut mapped = map_genes(&shapes, to_srgb);
    let ghost all = mapped@;
    let ghost sorted0 = shapes@;
    let bg = to_srgb(genome.background.oklab);
    let t = match genome.blur {
        Some(b) => Some(radius_text(b.radius)),
        None => None,
    };
    let ghost tt = match &t {
        Some(x) => Some(x@),
        None => None,
    };
    let mut keep_blur = t.is_some();
    let mut done = false;
    while !done
        invariant
            mapped@ == all.take(mapped@.len() as int),
            shapes@.len() == mapped@.len(),
            mapped@.len() <= all.len(),
            all.len() == n,
            z_sorted(genome.shapes@).len() == n,
            genes_same(shapes@, z_sorted(genome.shapes@).take(shapes@.len() as int)),
            tt == (match &t {
                Some(x) => Some(x@),
                None => None,
            }),
            !done ==> keep_blur == (t is Some),
            !done ==> trim_outcome(all, width, height, tt, bg, max_bytes as int) == trim_outcome(
                mapped@,
                width,
                height,
                tt,
                bg,
                max_bytes as int,
            ),
            done ==> trim_outcome(all, width, height, tt, bg, max_bytes as int) == (mapped@.len() as int, keep_blur),
            keep_blur ==> t is Some,
        decreases mapped@.len() + (if done { 0int } else { 1int }),
    {
        let len = url_length_with(&mapped, width, height, &t, keep_blur, bg);
        if len <= max_bytes || mapped.len() == 0 {
            done = true;
        } else {
            let mut dropped_blur = false;
            if keep_blur {
                let len2 = compact_url_length(&mapped, width, height, None, bg);
                if len2 <= max_bytes {
                    keep_blur = false;
                    done = true;
                    dropped_blur = true;
                }
            }
            if !dropped_blur {
                let ghost before = mapped@;
                let ghost before_shapes = shapes@;
                mapped.pop();
                shapes.pop();
                proof {
                    let z = z_sorted(genome.shapes@);
                    assert forall|i: int| 0 <= i < shapes@.len() implies same_gene(
                        #[trigger] shapes@[i],
                        z.take(shapes@.len() as int)[i],
                    ) by {
                        assert(shapes@[i] == before_shapes[i]);
                        assert(same_gene(before_shapes[i], z.take(before_shapes.len() as int)[i]));
                    }
                    assert(mapped@ == before.drop_last());
                    assert(all.take(mapped@.len() as int) =~= before.drop_last());
                    assert(shapes@.len() == mapped@.len());
                }
            }
        }
    }
    let blur = if keep_blur { genome.blur } else { None };
    proof {
        assert(all.take(n as int) =~= all);
        assert(blur_text_of(genome.blur, tt, *radius_text)) by {
            match genome.blur {
                Some(b) => {
                    assert(radius_text.ensures((b.radius,), t->0));
                },
                None => {},
            }
        }
        assert forall|i: int| 0 <= i < all.len() implies recoloured(#[trigger] z_sorted(genome.shapes@)[i], all[i], *to_srgb) by {
            assert(recoloured(sorted0[i], all[i], *to_srgb));
            assert(same_gene(sorted0[i], z_sorted(genome.shapes@)[i]));
            lemma_recoloured_same(sorted0[i], z_sorted(genome.shapes@)[i], all[i], *to_srgb);
        }
    }
    ShapeGenome { shapes, blur, background: genome.background }
}


/// Trimming ends with the URL within the limit, unless no gene is left; it
/// keeps a prefix of the genes in drawing order and keeps the blur only if
/// there was one.
pub proof fn lemma_trim_outcome_fits(
    genes: Seq<ShapeGene<[u8; 3]>>,
    width: u32,
    height: u32,
    blur: Option<Seq<char>>,
    bg: [u8; 3],
    max: int,
)
    ensures
        ({
            let (k, keep) = trim_outcome(genes, width, height, blur, bg, max);
            &&& 0 <= k <= genes.len()
            &&& keep ==> blur is Some
            &&& k == 0 || compact_url_len(genes.take(k), width, height, if keep { blur } else { None }, bg) <= max
        }),
    decreases genes.len(),
{
    if compact_url_len(genes, width, height, blur, bg) <= max || genes.len() == 0 {
        assert(genes.take(genes.len() as int) =~= genes);
    } else if blur is Some && compact_url_len(genes, width, height, None, bg) <= max {
        assert(genes.take(genes.len() as int) =~= genes);
    } else {
        lemma_trim_outcome_fits(genes.drop_last(), width, height, blur, bg, max);
        let (k, keep) = trim_outcome(genes.drop_last(), width, height, blur, bg, max);
        assert(genes.drop_last().take(k) =~= genes.take(k));
    }
}

} // verus!
