//! SVG documents of whole genomes and grids, plain and React flavoured.
//!
//! Colours here are 8-bit sRGB (the genome's colours converted first); the
//! blur radius is written as the text `radius_text` gives for it.
use vstd::prelude::*;

use crate::gene::{BlurGene, ShapeGene};
use crate::genome::{genes_same, sorted_copies, all_wf, z_sorted, ShapeGenome};
use crate::grid::{grid_wf, GridGenome};
use crate::svg::{
    blur_open, build_svg, build_svg_react, char_count, eol, points_text, push_blur_open, push_eol, push_points,
    push_quote, push_react_blur_open, push_react_close, push_react_open, push_rgb, push_svg_close, push_svg_open,
    quote, react_blur_open, react_close, react_indent, react_open, react_text, rgb_text, svg_close, svg_open, svg_text,
    REACT_LINE_LIMIT,
};

verus! {

/// The text of an optional blur: none without a blur, else a text that
/// `radius_text` may give for its radius.
pub open spec fn blur_text_of<R, TR: Fn(R) -> String>(blur: Option<BlurGene<R>>, t: Option<Seq<char>>, radius_text: TR) -> bool {
    match blur {
        None => t is None,
        Some(b) => exists|s: String| #[trigger] radius_text.ensures((b.radius,), s) && t == Some(s@),
    }
}

/// Write the blur radius, if any.
fn blur_text<R: Copy, TR: Fn(R) -> String>(blur: &Option<BlurGene<R>>, radius_text: &TR) -> (t: Option<String>)
    requires
        forall|x: R| radius_text.requires((x,)),
    ensures
        blur_text_of(*blur, match t {
            Some(s) => Some(s@),
            None => None,
        }, *radius_text),
{
    match blur {
        Some(b) => {
            let s = radius_text(b.radius);
            assert(radius_text.ensures((b.radius,), s));
            Some(s)
        },
        None => None,
    }
}

/// The genome's SVG document: its genes in drawing order, its blur and its
/// background.
pub fn build_svg_from_genome<R: Copy, TR: Fn(R) -> String>(
    genome: &ShapeGenome<[u8; 3], R>,
    width: u32,
    height: u32,
    compact: bool,
    radius_text: &TR,
) -> (svg: String)
    requires
        all_wf(genome.shapes@),
        forall|x: R| radius_text.requires((x,)),
    ensures
        exists|genes: Seq<ShapeGene<[u8; 3]>>, t: Option<Seq<char>>|
            #![trigger genes_same(genes, z_sorted(genome.shapes@)), blur_text_of(genome.blur, t, *radius_text)]
            genes_same(genes, z_sorted(genome.shapes@)) && blur_text_of(genome.blur, t, *radius_text) && svg@
                == svg_text(genes, width, height, t, genome.background.oklab, compact),
{
    let genes = sorted_copies(&genome.shapes);
    let t = blur_text(&genome.blur, radius_text);
    let svg = match &t {
        Some(s) => build_svg(genes.as_slice(), width, height, Some(s.as_str()), genome.background.oklab, compact),
        None => build_svg(genes.as_slice(), width, height, None, genome.background.oklab, compact),
    };
    let ghost tt = match t {
        Some(s) => Some(s@),
        None => None,
    };
    assert(svg@ == svg_text(genes@, width, height, tt, genome.background.oklab, compact));
    svg
}

/// The genome's React SVG: its genes in drawing order, its blur (filter
/// `filter_id`) and its background.
pub fn build_svg_react_from_genome<R: Copy, TR: Fn(R) -> String>(
    genome: &ShapeGenome<[u8; 3], R>,
    width: u32,
    height: u32,
    filter_id: char,
    radius_text: &TR,
) -> (svg: String)
    requires
        all_wf(genome.shapes@),
        forall|x: R| radius_text.requires((x,)),
    ensures
        exists|genes: Seq<ShapeGene<[u8; 3]>>, t: Option<Seq<char>>|
            #![trigger genes_same(genes, z_sorted(genome.shapes@)), blur_text_of(genome.blur, t, *radius_text)]
            genes_same(genes, z_sorted(genome.shapes@)) && blur_text_of(genome.blur, t, *radius_text) && svg@
                == react_text(genes, width, height, t, genome.background.oklab, filter_id),
{
    let genes = sorted_copies(&genome.shapes);
    let t = blur_text(&genome.blur, radius_text);
    let svg = match &t {
        Some(s) => build_svg_react(genes.as_slice(), width, height, Some(s.as_str()), genome.background.oklab, filter_id),
        None => build_svg_react(genes.as_slice(), width, height, None, genome.background.oklab, filter_id),
    };
    let ghost tt = match t {
        Some(s) => Some(s@),
        None => None,
    };
    assert(svg@ == react_text(genes@, width, height, tt, genome.background.oklab, filter_id));
    svg
}

/// The four corners of cell `(col, row)`: top-left, top-right,
/// bottom-right, bottom-left.
pub open spec fn cell_corners(points: Seq<(i16, i16)>, cols: int, row: int, col: int) -> Seq<(i16, i16)> {
    let w = cols + 1;
    seq![points[row * w + col], points[row * w + col + 1], points[(row + 1) * w + col + 1], points[(row + 1) * w + col]]
}

/// A cell of the plain document: an opaque polygon.
pub open spec fn cell_element(pts: Seq<(i16, i16)>, c: [u8; 3], compact: bool) -> Seq<char> {
    let q = quote(compact);
    "<polygon points="@ + q + points_text(pts) + q + " fill="@ + q + "#"@ + rgb_text(c) + q + "/>"@ + eol(compact)
}

/// The first `k` cells, in row-major order.
pub open spec fn cells_text(points: Seq<(i16, i16)>, colors: Seq<[u8; 3]>, cols: int, k: int, compact: bool) -> Seq<char>
    decreases k,
{
    if k <= 0 || cols <= 0 {
        Seq::empty()
    } else {
        let i = k - 1;
        cells_text(points, colors, cols, k - 1, compact) + cell_element(
            cell_corners(points, cols, i / cols, i % cols),
            colors[i],
            compact,
        )
    }
}

/// The plain SVG document of a grid with 8-bit sRGB colours.
pub open spec fn grid_svg_text<R>(g: GridGenome<[u8; 3], R>, blur: Option<Seq<char>>, width: u32, height: u32, compact: bool) -> Seq<char> {
    svg_open(width, height, compact) + (match blur {
        Some(r) => blur_open(r, compact),
        None => Seq::empty(),
    }) + cells_text(g.points@, g.colors@, g.cols as int, g.cols * g.rows, compact) + svg_close(blur is Some, compact)
}

/// Cell `(col, row)` is cell `row * cols + col` in row-major order.
proof fn lemma_cell_index(row: int, col: int, cols: int)
    requires
        0 <= col < cols,
        0 <= row,
    ensures
        (row * cols + col) / cols == row,
        (row * cols + col) % cols == col,
{
    vstd::arithmetic::div_mod::lemma_fundamental_div_mod_converse(row * cols + col, cols, row, col);
}

/// Bounds of the point indices of a cell.
proof fn lemma_cell_bounds(row: int, col: int, cols: int, rows: int)
    requires
        0 <= col < cols,
        0 <= row < rows,
    ensures
        (row + 1) * (cols + 1) + col + 1 < (cols + 1) * (rows + 1),
        row * (cols + 1) + col + 1 < (cols + 1) * (rows + 1),
        row * cols + col < cols * rows,
        0 <= row * cols + col,
        0 <= row * (cols + 1),
{
    assert((row + 1) * (cols + 1) + col + 1 < (cols + 1) * (rows + 1)) by (nonlinear_arith)
        requires
            0 <= col < cols,
            0 <= row < rows,
    ;
    assert(row * (cols + 1) + col + 1 < (cols + 1) * (rows + 1)) by (nonlinear_arith)
        requires
            0 <= col < cols,
            0 <= row < rows,
    ;
    assert(row * cols + col < cols * rows) by (nonlinear_arith)
        requires
            0 <= col < cols,
            0 <= row < rows,
    ;
    assert(0 <= row * cols) by (nonlinear_arith)
        requires
            0 <= cols,
            0 <= row,
    ;
    assert(0 <= row * (cols + 1)) by (nonlinear_arith)
        requires
            0 <= cols,
            0 <= row,
    ;
}

/// The corners of a cell, read from the points.
fn corners<C, R>(grid: &GridGenome<C, R>, row: usize, col: usize) -> (v: Vec<(i16, i16)>)
    requires
        grid_wf(*grid),
        row < grid.rows,
        col < grid.cols,
    ensures
        v@ == cell_corners(grid.points@, grid.cols as int, row as int, col as int),
{
    proof { lemma_cell_bounds(row as int, col as int, grid.cols as int, grid.rows as int); }
    let w = grid.cols as usize + 1;
    let _npts = grid.points.len();
    let tl = grid.points[row * w + col];
    let tr = grid.points[row * w + col + 1];
    let br = grid.points[(row + 1) * w + col + 1];
    let bl = grid.points[(row + 1) * w + col];
    let v = vec![tl, tr, br, bl];
    assert(v@ =~= cell_corners(grid.points@, grid.cols as int, row as int, col as int));
    v
}

fn push_cell(s: &mut String, pts: &Vec<(i16, i16)>, c: [u8; 3], compact: bool)
    ensures
        final(s)@ == old(s)@ + cell_element(pts@, c, compact),
{
    s.append("<polygon points=");
    push_quote(s, compact);
    push_points(s, pts);
    push_quote(s, compact);
    let ghost mid = s@;
    s.append(" fill=");
    push_quote(s, compact);
    s.append("#");
    push_rgb(s, c);
    push_quote(s, compact);
    s.append("/>");
    push_eol(s, compact);
    assert(s@ =~= mid + " fill="@ + quote(compact) + "#"@ + rgb_text(c) + quote(compact) + "/>"@ + eol(compact));
    assert(final(s)@ =~= old(s)@ + cell_element(pts@, c, compact));
}

/// Append every cell, row by row.
fn push_cells<R>(s: &mut String, grid: &GridGenome<[u8; 3], R>, compact: bool)
    requires
        grid_wf(*grid),
    ensures
        final(s)@ == old(s)@ + cells_text(grid.points@, grid.colors@, grid.cols as int, grid.cols * grid.rows, compact),
{
    let ghost start = s@;
    let ghost cols = grid.cols as int;
    let rows = grid.rows as usize;
    let ncols = grid.cols as usize;
    let ncolors = grid.colors.len();
    let mut row: usize = 0;
    while row < rows
        invariant
            grid_wf(*grid),
            ncolors == grid.colors@.len(),
            rows == grid.rows,
            ncols == grid.cols,
            cols == grid.cols as int,
            row <= rows,
            s@ == start + cells_text(grid.points@, grid.colors@, cols, row * cols, compact),
        decreases rows - row,
    {
        let mut col: usize = 0;
        while col < ncols
            invariant
                grid_wf(*grid),
                ncolors == grid.colors@.len(),
                rows == grid.rows,
                ncols == grid.cols,
                cols == grid.cols as int,
                row < rows,
                col <= ncols,
                s@ == start + cells_text(grid.points@, grid.colors@, cols, row * cols + col, compact),
            decreases ncols - col,
        {
            proof {
                lemma_cell_bounds(row as int, col as int, cols, rows as int);
                lemma_cell_index(row as int, col as int, cols);
            }
            let pts = corners(grid, row, col);
            let c = grid.colors[row * ncols + col];
            push_cell(s, &pts, c, compact);
            col = col + 1;
        }
        assert((row + 1) * cols == row * cols + cols) by (nonlinear_arith);
        row = row + 1;
    }
    assert(rows * cols == cols * rows) by (nonlinear_arith);
}

/// The grid's plain SVG document: one opaque polygon per cell, under the
/// blur when there is one.
pub fn build_svg_from_grid<R: Copy, TR: Fn(R) -> String>(
    grid: &GridGenome<[u8; 3], R>,
    width: u32,
    height: u32,
    compact: bool,
    radius_text: &TR,
) -> (svg: String)
    requires
        grid_wf(*grid),
        forall|x: R| radius_text.requires((x,)),
    ensures
        exists|t: Option<Seq<char>>|
            #[trigger] blur_text_of(grid.blur, t, *radius_text) && svg@ == grid_svg_text(*grid, t, width, height, compact),
{
    let t = blur_text(&grid.blur, radius_text);
    let mut s = String::new();
    push_svg_open(&mut s, width, height, compact);
    match &t {
        Some(r) => push_blur_open(&mut s, r.as_str(), compact),
        None => {},
    }
    let ghost head = s@;
    push_cells(&mut s, grid, compact);
    push_svg_close(&mut s, t.is_some(), compact);
    let ghost tt = match t {
        Some(x) => Some(x@),
        None => None,
    };
    assert(s@ =~= grid_svg_text(*grid, tt, width, height, compact));
    s
}

/// A cell of the React document on one line.
pub open spec fn react_cell_line(indent: Seq<char>, pts: Seq<(i16, i16)>, c: [u8; 3]) -> Seq<char> {
    indent + "<polygon points=\""@ + points_text(pts) + "\" fill=\"#"@ + rgb_text(c) + "\" />"@
}

/// A cell of the React document: on one line when it fits in
/// `REACT_LINE_LIMIT` characters, otherwise one attribute per line.
pub open spec fn react_cell(indent: Seq<char>, pts: Seq<(i16, i16)>, c: [u8; 3]) -> Seq<char> {
    let single = react_cell_line(indent, pts, c);
    if single.len() <= REACT_LINE_LIMIT {
        single + "\n"@
    } else {
        indent + "<polygon\n"@ + indent + "  points=\""@ + points_text(pts) + "\"\n"@ + indent + "  fill=\"#"@
            + rgb_text(c) + "\"\n"@ + indent + "/>\n"@
    }
}

/// The first `k` React cells, in row-major order.
pub open spec fn react_cells(indent: Seq<char>, points: Seq<(i16, i16)>, colors: Seq<[u8; 3]>, cols: int, k: int) -> Seq<char>
    decreases k,
{
    if k <= 0 || cols <= 0 {
        Seq::empty()
    } else {
        let i = k - 1;
        react_cells(indent, points, colors, cols, k - 1) + react_cell(indent, cell_corners(points, cols, i / cols, i % cols), colors[i])
    }
}

/// The React SVG of a grid with 8-bit sRGB colours.
pub open spec fn grid_react_text<R>(g: GridGenome<[u8; 3], R>, blur: Option<Seq<char>>, width: u32, height: u32, filter_id: char) -> Seq<char> {
    react_open(width, height) + (match blur {
        Some(r) => react_blur_open(r, filter_id),
        None => Seq::empty(),
    }) + react_cells(react_indent(blur is Some), g.points@, g.colors@, g.cols as int, g.cols * g.rows) + react_close(blur is Some)
}

fn push_react_cell(s: &mut String, indent: &str, pts: &Vec<(i16, i16)>, c: [u8; 3])
    ensures
        final(s)@ == old(s)@ + react_cell(indent@, pts@, c),
{
    let mut single = String::new();
    single.append(indent);
    single.append("<polygon points=\"");
    push_points(&mut single, pts);
    single.append("\" fill=\"#");
    push_rgb(&mut single, c);
    single.append("\" />");
    assert(single@ =~= react_cell_line(indent@, pts@, c));
    if char_count(&single) <= REACT_LINE_LIMIT {
        s.append(single.as_str());
        s.append("\n");
    } else {
        s.append(indent);
        s.append("<polygon\n");
        s.append(indent);
        s.append("  points=\"");
        push_points(s, pts);
        s.append("\"\n");
        let ghost mid = s@;
        s.append(indent);
        s.append("  fill=\"#");
        push_rgb(s, c);
        s.append("\"\n");
        s.append(indent);
        s.append("/>\n");
        assert(s@ =~= mid + indent@ + "  fill=\"#"@ + rgb_text(c) + "\"\n"@ + indent@ + "/>\n"@);
    }
    assert(final(s)@ =~= old(s)@ + react_cell(indent@, pts@, c));
}

/// Append every React cell, row by row.
fn push_react_cells<R>(s: &mut String, grid: &GridGenome<[u8; 3], R>, indent: &str)
    requires
        grid_wf(*grid),
    ensures
        final(s)@ == old(s)@ + react_cells(indent@, grid.points@, grid.colors@, grid.cols as int, grid.cols * grid.rows),
{
    let ghost start = s@;
    let ghost cols = grid.cols as int;
    let rows = grid.rows as usize;
    let ncols = grid.cols as usize;
    let ncolors = grid.colors.len();
    let mut row: usize = 0;
    while row < rows
        invariant
            grid_wf(*grid),
            ncolors == grid.colors@.len(),
            rows == grid.rows,
            ncols == grid.cols,
            cols == grid.cols as int,
            row <= rows,
            s@ == start + react_cells(indent@, grid.points@, grid.colors@, cols, row * cols),
        decreases rows - row,
    {
        let mut col: usize = 0;
        while col < ncols
            invariant
                grid_wf(*grid),
                ncolors == grid.colors@.len(),
                rows == grid.rows,
                ncols == grid.cols,
                cols == grid.cols as int,
                row < rows,
                col <= ncols,
                s@ == start + react_cells(indent@, grid.points@, grid.colors@, cols, row * cols + col),
            decreases ncols - col,
        {
            proof {
                lemma_cell_bounds(row as int, col as int, cols, rows as int);
                lemma_cell_index(row as int, col as int, cols);
            }
            let pts = corners(grid, row, col);
            let c = grid.colors[row * ncols + col];
            push_react_cell(s, indent, &pts, c);
            col = col + 1;
        }
        assert((row + 1) * cols == row * cols + cols) by (nonlinear_arith);
        row = row + 1;
    }
    assert(rows * cols == cols * rows) by (nonlinear_arith);
}

/// The grid's React SVG: one opaque polygon per cell, under the blur
/// (filter `filter_id`) when there is one.
pub fn build_svg_react_from_grid<R: Copy, TR: Fn(R) -> String>(
    grid: &GridGenome<[u8; 3], R>,
    width: u32,
    height: u32,
    filter_id: char,
    radius_text: &TR,
) -> (svg: String)
    requires
        grid_wf(*grid),
        forall|x: R| radius_text.requires((x,)),
    ensures
        exists|t: Option<Seq<char>>|
            #[trigger] blur_text_of(grid.blur, t, *radius_text) && svg@ == grid_react_text(*grid, t, width, height, filter_id),
{
    let t = blur_text(&grid.blur, radius_text);
    let mut s = String::new();
    push_react_open(&mut s, width, height);
    match &t {
        Some(r) => push_react_blur_open(&mut s, r.as_str(), filter_id),
        None => {},
    }
    let indent = if t.is_some() { "    " } else { "  " };
    assert(indent@ == react_indent(t is Some));
    push_react_cells(&mut s, grid, indent);
    push_react_close(&mut s, t.is_some());
    let ghost tt = match t {
        Some(x) => Some(x@),
        None => None,
    };
    assert(s@ =~= grid_react_text(*grid, tt, width, height, filter_id));
    s
}

} // verus!
