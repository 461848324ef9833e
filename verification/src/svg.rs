//! SVG text generation: colour and number formatting, the SVG document for
//! a list of shapes, and percent-encoding of an SVG into a data URL.
use vstd::prelude::*;

use crate::gene::{CircleGene, ShapeGene, TriangleGene};
use crate::shapes::Shape;
use vstd::std_specs::iter::IteratorSpec;
use vstd::string::*;

verus! {

/// `String::push`: append one character.
#[verifier::external_body]
pub(crate) fn push_char(s: &mut String, c: char)
    ensures
        final(s)@ == old(s)@.push(c),
{
    s.push(c)
}

/// What one character of an SVG becomes in a data URL: `%`, `<`, `>`, `#`
/// and `&` are percent-encoded, newlines are dropped, anything else is kept.
pub open spec fn url_encode_char(c: char) -> Seq<char> {
    if c == '%' {
        seq!['%', '2', '5']
    } else if c == '<' {
        seq!['%', '3', 'C']
    } else if c == '>' {
        seq!['%', '3', 'E']
    } else if c == '#' {
        seq!['%', '2', '3']
    } else if c == '&' {
        seq!['%', '2', '6']
    } else if c == '\n' {
        Seq::empty()
    } else {
        seq![c]
    }
}

/// Every character of `s` encoded in turn.
pub open spec fn url_encode(s: Seq<char>) -> Seq<char>
    decreases s.len(),
{
    if s.len() == 0 {
        Seq::empty()
    } else {
        url_encode(s.drop_last()) + url_encode_char(s.last())
    }
}

/// The prefix of an SVG data URL.
pub open spec fn data_url_prefix() -> Seq<char> {
    seq!['d', 'a', 't', 'a', ':', 'i', 'm', 'a', 'g', 'e', '/', 's', 'v', 'g', '+', 'x', 'm', 'l', ',']
}

/// Percent-encode an SVG string as a `data:image/svg+xml,` URL: `%` becomes
/// `%25` (so nothing is encoded twice), `<` `%3C`, `>` `%3E`, `#` `%23`,
/// `&` `%26`, and newlines are removed.
pub fn svg_to_data_url(svg: &str) -> (url: String)
    ensures
        url@ == data_url_prefix() + url_encode(svg@),
{
    let mut url = String::new();
    url.append("data:image/svg+xml,");
    proof {
        reveal_strlit("data:image/svg+xml,");
        assert(url@ =~= data_url_prefix());
    }
    let ghost prefix = url@;
    let mut chars = svg.chars();
    let ghost mut done: Seq<char> = Seq::empty();
    proof {
        broadcast use vstd::string::group_string_axioms;
        assert(chars.remaining() == svg@);
    }
    loop
        invariant
            prefix == data_url_prefix(),
            done + chars.remaining() == svg@,
            url@ == prefix + url_encode(done),
            chars.decrease() is Some,
        ensures
            url@ == prefix + url_encode(svg@),
        decreases chars.decrease()->0,
    {
        let ghost before = chars.remaining();
        let next = chars.next();
        proof {
            broadcast use vstd::string::group_string_axioms;
        }
        match next {
            None => {
                assert(done =~= svg@);
                break;
            },
            Some(c) => {
                if c == '%' {
                    url.append("%25");
                } else if c == '<' {
                    url.append("%3C");
                } else if c == '>' {
                    url.append("%3E");
                } else if c == '#' {
                    url.append("%23");
                } else if c == '&' {
                    url.append("%26");
                } else if c != '\n' {
                    push_char(&mut url, c);
                }
                proof {
                    reveal_strlit("%25");
                    reveal_strlit("%3C");
                    reveal_strlit("%3E");
                    reveal_strlit("%23");
                    reveal_strlit("%26");
                    let next_done = done.push(c);
                    assert(next_done.drop_last() =~= done);
                    assert(url@ =~= prefix + url_encode(next_done));
                    assert(next_done + chars.remaining() =~= svg@);
                    done = next_done;
                }
            },
        }
    }
    url
}

/// The decimal digit character for `d` in `0..10`.
pub open spec fn digit_char(d: int) -> char {
    ((d + 48) as u32) as char
}

/// Decimal text of a natural number, most significant digit first, no
/// leading zeros.
pub open spec fn nat_text(n: nat) -> Seq<char>
    decreases n,
{
    if n < 10 {
        seq![digit_char(n as int)]
    } else {
        nat_text(n / 10).push(digit_char((n % 10) as int))
    }
}

/// Decimal text of an integer as `{}` prints it: a leading `-` for a
/// negative value.
pub open spec fn int_text(n: int) -> Seq<char> {
    if n < 0 {
        seq!['-'] + nat_text((-n) as nat)
    } else {
        nat_text(n as nat)
    }
}

fn digit(d: u64) -> (c: char)
    requires
        d < 10,
    ensures
        c == digit_char(d as int),
{
    let v = (d as u8 + 48) as char;
    v
}

/// Append the decimal text of `n`.
pub(crate) fn push_nat(s: &mut String, n: u64)
    ensures
        final(s)@ == old(s)@ + nat_text(n as nat),
    decreases n,
{
    if n >= 10 {
        push_nat(s, n / 10);
    }
    push_char(s, digit(n % 10));
}

/// Append the decimal text of `n`, with a `-` when negative.
pub(crate) fn push_int(s: &mut String, n: i64)
    requires
        n > i64::MIN,
    ensures
        final(s)@ == old(s)@ + int_text(n as int),
{
    if n < 0 {
        push_char(s, '-');
        push_nat(s, (-n) as u64);
        assert(final(s)@ =~= old(s)@ + int_text(n as int));
    } else {
        push_nat(s, n as u64);
    }
}

/// The lowercase hexadecimal digit for `d` in `0..16`.
pub open spec fn hex_char(d: int) -> char {
    if d < 10 {
        digit_char(d)
    } else {
        ((d - 10 + 97) as u32) as char
    }
}

/// Two lowercase hexadecimal digits of a byte, as `{:02x}` prints it.
pub open spec fn hex2_text(b: u8) -> Seq<char> {
    seq![hex_char(b as int / 16), hex_char(b as int % 16)]
}

fn hex_digit(d: u8) -> (c: char)
    requires
        d < 16,
    ensures
        c == hex_char(d as int),
{
    if d < 10 {
        (d + 48) as char
    } else {
        (d - 10 + 97) as char
    }
}

/// Append the two lowercase hexadecimal digits of `b`.
fn push_hex2(s: &mut String, b: u8)
    ensures
        final(s)@ == old(s)@ + hex2_text(b),
{
    push_char(s, hex_digit(b / 16));
    push_char(s, hex_digit(b % 16));
    assert(final(s)@ =~= old(s)@ + hex2_text(b));
}

/// The byte an alpha percentage becomes: `round(alpha / 100 * 255)`.
pub open spec fn alpha_byte(alpha: u8) -> u8 {
    ((alpha as int * 255 + 50) / 100) as u8
}

/// Hex suffix for an alpha percentage in an 8-digit RGBA colour: empty when
/// fully opaque (`alpha >= 100`), otherwise two lowercase hex digits of
/// `round(alpha / 100 * 255)`.
pub fn alpha_hex(alpha: u8) -> (s: String)
    ensures
        s@ == if alpha >= 100 { Seq::<char>::empty() } else { hex2_text(alpha_byte(alpha)) },
{
    let mut s = String::new();
    if alpha < 100 {
        let v = ((alpha as u32 * 255 + 50) / 100) as u8;
        push_hex2(&mut s, v);
    }
    s
}

/// An alpha percentage as a fraction with two decimals (`50` is `0.50`,
/// `100` is `1.00`), as `{:.2}` prints `alpha as f32 / 100.0`.
pub open spec fn opacity_text(alpha: u8) -> Seq<char> {
    nat_text((alpha / 100) as nat) + seq!['.', digit_char((alpha % 100) as int / 10), digit_char((alpha % 10) as int)]
}

fn push_opacity(s: &mut String, alpha: u8)
    ensures
        final(s)@ == old(s)@ + opacity_text(alpha),
{
    push_nat(s, (alpha / 100) as u64);
    push_char(s, '.');
    push_char(s, digit(((alpha % 100) / 10) as u64));
    push_char(s, digit((alpha % 10) as u64));
    assert(final(s)@ =~= old(s)@ + opacity_text(alpha));
}

/// Colour, stroke and opacity of a shape element, closing the element:
/// ` style="fill:#rrggbb;stroke:#000000;stroke-width:0;fill-opacity:0.50;"/>`
/// and a newline.
pub open spec fn shape_style(r: u8, g: u8, b: u8, alpha: u8) -> Seq<char> {
    " style=\"fill:#"@ + hex2_text(r) + hex2_text(g) + hex2_text(b) + ";stroke:#000000;stroke-width:0;fill-opacity:"@
        + opacity_text(alpha) + ";\"/>\n"@
}

/// The SVG element of one shape: a `<polygon>` for a triangle, a `<circle>`
/// for a circle, with its colour as `#rrggbb`, no stroke, and its alpha as
/// `fill-opacity`, ending in a newline.
pub open spec fn shape_element(s: Shape) -> Seq<char> {
    match s {
        Shape::Triangle { x1, y1, x2, y2, x3, y3, r, g, b, alpha } =>
            "<polygon points=\""@ + points_text(seq![(x1, y1), (x2, y2), (x3, y3)]) + "\""@ + shape_style(r, g, b, alpha),
        Shape::Circle { cx, cy, radius, r, g, b, alpha } =>
            "<circle"@ + int_attr(" cx="@, cx as int, false) + int_attr(" cy="@, cy as int, false)
                + int_attr(" r="@, radius as int, false) + shape_style(r, g, b, alpha),
    }
}

/// The elements of the first `k` shapes, in order.
pub open spec fn shape_elements(shapes: Seq<Shape>, k: int) -> Seq<char>
    decreases k,
{
    if k <= 0 {
        Seq::empty()
    } else {
        shape_elements(shapes, k - 1) + shape_element(shapes[k - 1])
    }
}

/// Opening of the document: XML declaration, DOCTYPE, the `<svg>` element on
/// a black background, and a black polygon covering the canvas.
pub open spec fn document_head(width: u32, height: u32) -> Seq<char> {
    "<?xml version=\"1.0\" standalone=\"no\"?>"@
    + "<!DOCTYPE svg PUBLIC \"-//W3C//DTD SVG 1.1//EN\" "@
    + "\"http://www.w3.org/Graphics/SVG/1.1/DTD/svg11.dtd\">"@
    + "<svg width=\"100%\" height=\"100%\" style=\"background-color:#000000;\" "@
    + "version=\"1.1\" xmlns=\"http://www.w3.org/2000/svg\">\n"@
    + "<polygon points=\"0,0 "@ + nat_text((width - 1) as nat) + ","@ + nat_text(0) + " "@
    + nat_text((width - 1) as nat) + ","@ + nat_text((height - 1) as nat) + " 0,"@
    + nat_text((height - 1) as nat)
    + "\" style=\"fill:#000000;stroke:#000000;stroke-width:0;fill-opacity:1;\"/>\n"@
}

/// The full SVG document for `shapes` on a `width` x `height` canvas.
pub open spec fn document_text(shapes: Seq<Shape>, width: u32, height: u32) -> Seq<char> {
    document_head(width, height) + shape_elements(shapes, shapes.len() as int) + "</svg>\n"@
}

fn push_shape_style(s: &mut String, r: u8, g: u8, b: u8, alpha: u8)
    ensures
        final(s)@ == old(s)@ + shape_style(r, g, b, alpha),
{
    s.append(" style=\"fill:#");
    push_hex2(s, r);
    push_hex2(s, g);
    push_hex2(s, b);
    s.append(";stroke:#000000;stroke-width:0;fill-opacity:");
    push_opacity(s, alpha);
    s.append(";\"/>\n");
    assert(final(s)@ =~= old(s)@ + shape_style(r, g, b, alpha));
}

fn push_shape_element(s: &mut String, shape: &Shape)
    ensures
        final(s)@ == old(s)@ + shape_element(*shape),
{
    match *shape {
        Shape::Triangle { x1, y1, x2, y2, x3, y3, r, g, b, alpha } => {
            let pts = vec![(x1, y1), (x2, y2), (x3, y3)];
            s.append("<polygon points=\"");
            push_points(s, &pts);
            s.append("\"");
            push_shape_style(s, r, g, b, alpha);
            assert(pts@ =~= seq![(x1, y1), (x2, y2), (x3, y3)]);
        },
        Shape::Circle { cx, cy, radius, r, g, b, alpha } => {
            s.append("<circle");
            push_int_attr(s, " cx=", cx, false);
            push_int_attr(s, " cy=", cy, false);
            push_int_attr(s, " r=", radius, false);
            push_shape_style(s, r, g, b, alpha);
        },
    }
    assert(final(s)@ =~= old(s)@ + shape_element(*shape));
}

/// The SVG document for a list of shapes on a black `width` x `height`
/// canvas: header, a black background polygon, one element per shape in
/// order, and the closing tag.
pub fn svg_document(shapes: &[Shape], width: u32, height: u32) -> (doc: String)
    requires
        width >= 1,
        height >= 1,
    ensures
        doc@ == document_text(shapes@, width, height),
{
    let mut s = String::new();
    s.append("<?xml version=\"1.0\" standalone=\"no\"?>");
    s.append("<!DOCTYPE svg PUBLIC \"-//W3C//DTD SVG 1.1//EN\" ");
    s.append("\"http://www.w3.org/Graphics/SVG/1.1/DTD/svg11.dtd\">");
    s.append("<svg width=\"100%\" height=\"100%\" style=\"background-color:#000000;\" ");
    s.append("version=\"1.1\" xmlns=\"http://www.w3.org/2000/svg\">\n");
    s.append("<polygon points=\"0,0 ");
    push_nat(&mut s, (width - 1) as u64);
    s.append(",");
    push_nat(&mut s, 0);
    s.append(" ");
    push_nat(&mut s, (width - 1) as u64);
    s.append(",");
    push_nat(&mut s, (height - 1) as u64);
    s.append(" 0,");
    push_nat(&mut s, (height - 1) as u64);
    s.append("\" style=\"fill:#000000;stroke:#000000;stroke-width:0;fill-opacity:1;\"/>\n");
    assert(s@ =~= document_head(width, height));
    let mut i: usize = 0;
    while i < shapes.len()
        invariant
            i <= shapes@.len(),
            s@ == document_head(width, height) + shape_elements(shapes@, i as int),
        decreases shapes@.len() - i,
    {
        let ghost before = s@;
        push_shape_element(&mut s, &shapes[i]);
        assert(s@ =~= document_head(width, height) + shape_elements(shapes@, i + 1));
        i = i + 1;
    }
    s.append("</svg>\n");
    assert(s@ =~= document_text(shapes@, width, height));
    s
}

/// The attribute quote: `'` in compact output, `"` otherwise.
pub open spec fn quote(compact: bool) -> Seq<char> {
    if compact { "'"@ } else { "\""@ }
}

/// Line end after an element: nothing in compact output, a newline otherwise.
pub open spec fn eol(compact: bool) -> Seq<char> {
    if compact { Seq::empty() } else { "\n"@ }
}

pub(crate) fn push_quote(s: &mut String, compact: bool)
    ensures
        final(s)@ == old(s)@ + quote(compact),
{
    if compact {
        s.append("'");
    } else {
        s.append("\"");
    }
}

pub(crate) fn push_eol(s: &mut String, compact: bool)
    ensures
        final(s)@ == old(s)@ + eol(compact),
{
    if !compact {
        s.append("\n");
    } else {
        assert(old(s)@ + eol(compact) =~= old(s)@);
    }
}

/// `rrggbb` in lowercase hex.
pub open spec fn rgb_text(c: [u8; 3]) -> Seq<char> {
    hex2_text(c[0]) + hex2_text(c[1]) + hex2_text(c[2])
}

pub(crate) fn push_rgb(s: &mut String, c: [u8; 3])
    ensures
        final(s)@ == old(s)@ + rgb_text(c),
{
    push_hex2(s, c[0]);
    push_hex2(s, c[1]);
    push_hex2(s, c[2]);
    assert(final(s)@ =~= old(s)@ + rgb_text(c));
}

/// `x,y`.
pub open spec fn point_text(p: (i16, i16)) -> Seq<char> {
    int_text(p.0 as int) + ","@ + int_text(p.1 as int)
}

/// The points of a polygon as `x1,y1 x2,y2 ...`.
pub open spec fn points_text(v: Seq<(i16, i16)>) -> Seq<char>
    decreases v.len(),
{
    if v.len() == 0 {
        Seq::empty()
    } else if v.len() == 1 {
        point_text(v[0])
    } else {
        points_text(v.drop_last()) + " "@ + point_text(v.last())
    }
}

pub(crate) fn push_points(s: &mut String, v: &Vec<(i16, i16)>)
    ensures
        final(s)@ == old(s)@ + points_text(v@),
{
    let ghost start = s@;
    let mut i: usize = 0;
    while i < v.len()
        invariant
            i <= v@.len(),
            s@ == start + points_text(v@.take(i as int)),
        decreases v@.len() - i,
    {
        if i > 0 {
            s.append(" ");
        }
        push_int(s, v[i].0 as i64);
        s.append(",");
        push_int(s, v[i].1 as i64);
        proof {
            let next = v@.take(i + 1);
            assert(next.drop_last() =~= v@.take(i as int));
            assert(next.last() == v@[i as int]);
            if i == 0 {
                assert(s@ =~= start + points_text(next));
            } else {
                assert(s@ =~= start + points_text(next));
            }
        }
        i = i + 1;
    }
    assert(v@.take(v@.len() as int) =~= v@);
}

/// The three vertices of a triangle gene.
pub open spec fn triangle_points<C>(t: TriangleGene<C>) -> Seq<(i16, i16)> {
    seq![(t.x1, t.y1), (t.x2, t.y2), (t.x3, t.y3)]
}

/// Colour and alpha of an element: `fill:#rrggbb;fill-opacity:0.50`.
pub open spec fn fill_style(c: [u8; 3], alpha: u8) -> Seq<char> {
    "fill:#"@ + rgb_text(c) + ";fill-opacity:"@ + opacity_text(alpha)
}

/// `<polygon points=.. style=../>` for a list of points.
pub open spec fn polygon_element(pts: Seq<(i16, i16)>, c: [u8; 3], alpha: u8, compact: bool) -> Seq<char> {
    let q = quote(compact);
    "<polygon points="@ + q + points_text(pts) + q + " style="@ + q + fill_style(c, alpha) + q + "/>"@ + eol(compact)
}

/// ` name='value'` with the value's decimal text.
pub open spec fn int_attr(name: Seq<char>, v: int, compact: bool) -> Seq<char> {
    name + quote(compact) + int_text(v) + quote(compact)
}

/// `<circle cx=.. cy=.. r=.. style=../>`.
pub open spec fn circle_element(cx: i16, cy: i16, radius: i16, c: [u8; 3], alpha: u8, compact: bool) -> Seq<char> {
    let q = quote(compact);
    "<circle"@ + int_attr(" cx="@, cx as int, compact) + int_attr(" cy="@, cy as int, compact)
        + int_attr(" r="@, radius as int, compact) + " style="@ + q + fill_style(c, alpha) + q + "/>"@ + eol(compact)
}

/// The SVG element of a gene (with its colour already in 8-bit sRGB):
/// `<polygon>` for triangles and polygons, `<circle>` for circles.
pub open spec fn gene_element(g: ShapeGene<[u8; 3]>, compact: bool) -> Seq<char> {
    match g {
        ShapeGene::Triangle(t) => polygon_element(triangle_points(t), t.oklab, t.alpha, compact),
        ShapeGene::Circle(c) => circle_element(c.cx, c.cy, c.radius, c.oklab, c.alpha, compact),
        ShapeGene::Polygon(p) => polygon_element(p.vertices@, p.oklab, p.alpha, compact),
    }
}

fn push_fill_style(s: &mut String, c: [u8; 3], alpha: u8)
    ensures
        final(s)@ == old(s)@ + fill_style(c, alpha),
{
    s.append("fill:#");
    push_rgb(s, c);
    s.append(";fill-opacity:");
    push_opacity(s, alpha);
    assert(final(s)@ =~= old(s)@ + fill_style(c, alpha));
}

fn push_polygon_element(s: &mut String, pts: &Vec<(i16, i16)>, c: [u8; 3], alpha: u8, compact: bool)
    ensures
        final(s)@ == old(s)@ + polygon_element(pts@, c, alpha, compact),
{
    let ghost q = quote(compact);
    s.append("<polygon points=");
    push_quote(s, compact);
    push_points(s, pts);
    push_quote(s, compact);
    let ghost mid = s@;
    s.append(" style=");
    push_quote(s, compact);
    push_fill_style(s, c, alpha);
    push_quote(s, compact);
    s.append("/>");
    push_eol(s, compact);
    assert(s@ =~= mid + " style="@ + q + fill_style(c, alpha) + q + "/>"@ + eol(compact));
    assert(final(s)@ =~= old(s)@ + polygon_element(pts@, c, alpha, compact));
}

fn push_int_attr(s: &mut String, name: &str, v: i16, compact: bool)
    ensures
        final(s)@ == old(s)@ + int_attr(name@, v as int, compact),
{
    s.append(name);
    push_quote(s, compact);
    push_int(s, v as i64);
    push_quote(s, compact);
    assert(final(s)@ =~= old(s)@ + int_attr(name@, v as int, compact));
}

fn push_circle_element(s: &mut String, cx: i16, cy: i16, radius: i16, c: [u8; 3], alpha: u8, compact: bool)
    ensures
        final(s)@ == old(s)@ + circle_element(cx, cy, radius, c, alpha, compact),
{
    let ghost q = quote(compact);
    s.append("<circle");
    push_int_attr(s, " cx=", cx, compact);
    push_int_attr(s, " cy=", cy, compact);
    push_int_attr(s, " r=", radius, compact);
    let ghost mid = s@;
    s.append(" style=");
    push_quote(s, compact);
    push_fill_style(s, c, alpha);
    push_quote(s, compact);
    s.append("/>");
    push_eol(s, compact);
    assert(s@ =~= mid + " style="@ + q + fill_style(c, alpha) + q + "/>"@ + eol(compact));
    assert(final(s)@ =~= old(s)@ + circle_element(cx, cy, radius, c, alpha, compact));
}

fn push_gene(s: &mut String, gene: &ShapeGene<[u8; 3]>, compact: bool)
    ensures
        final(s)@ == old(s)@ + gene_element(*gene, compact),
{
    match gene {
        ShapeGene::Triangle(t) => {
            let pts = vec![(t.x1, t.y1), (t.x2, t.y2), (t.x3, t.y3)];
            assert(pts@ =~= triangle_points(*t));
            push_polygon_element(s, &pts, t.oklab, t.alpha, compact);
        },
        ShapeGene::Circle(c) => {
            push_circle_element(s, c.cx, c.cy, c.radius, c.oklab, c.alpha, compact);
        },
        ShapeGene::Polygon(p) => {
            push_polygon_element(s, &p.vertices, p.oklab, p.alpha, compact);
        },
    }
}

/// The text of an optional blur radius.
pub open spec fn text_of(t: Option<&str>) -> Option<Seq<char>> {
    match t {
        Some(r) => Some(r@),
        None => None,
    }
}

/// Opening of an SVG document with a `0 0 width height` view box: compact
/// output is the bare `<svg>` tag; full output adds the XML declaration and
/// DOCTYPE and puts each on its own line.
pub open spec fn svg_open(width: u32, height: u32, compact: bool) -> Seq<char> {
    if compact {
        "<svg xmlns='http://www.w3.org/2000/svg' viewBox='0 0 "@ + nat_text(width as nat) + " "@ + nat_text(height as nat)
            + "' preserveAspectRatio='xMidYMid slice'>"@
    } else {
        "<?xml version=\"1.0\" standalone=\"no\"?>\n"@ + "<!DOCTYPE svg PUBLIC \"-//W3C//DTD SVG 1.1//EN\" "@
            + "\"http://www.w3.org/Graphics/SVG/1.1/DTD/svg11.dtd\">\n"@ + "<svg xmlns=\"http://www.w3.org/2000/svg\" viewBox=\"0 0 "@
            + nat_text(width as nat) + " "@ + nat_text(height as nat)
            + "\" preserveAspectRatio=\"xMidYMid slice\" version=\"1.1\">\n"@
    }
}

/// A Gaussian blur filter with standard deviation `r`, and the opening of
/// the group it applies to.
pub open spec fn blur_open(r: Seq<char>, compact: bool) -> Seq<char> {
    let q = quote(compact);
    "<defs><filter id="@ + q + "b"@ + q + "><feGaussianBlur stdDeviation="@ + q + r + q + "/></filter></defs>"@
        + eol(compact) + "<g filter="@ + q + "url(#b)"@ + q + ">"@ + eol(compact)
}

/// The background: a rectangle covering the canvas.
pub open spec fn background_rect(width: u32, height: u32, bg: [u8; 3], compact: bool) -> Seq<char> {
    let q = quote(compact);
    "<rect width="@ + q + nat_text(width as nat) + q + " height="@ + q + nat_text(height as nat) + q + " fill="@ + q
        + "#"@ + rgb_text(bg) + q + "/>"@ + eol(compact)
}

/// The elements of the first `k` genes, in order.
pub open spec fn genes_text(genes: Seq<ShapeGene<[u8; 3]>>, k: int, compact: bool) -> Seq<char>
    decreases k,
{
    if k <= 0 {
        Seq::empty()
    } else {
        genes_text(genes, k - 1, compact) + gene_element(genes[k - 1], compact)
    }
}

/// Closing of the blur group, if any, and of the document.
pub open spec fn svg_close(blurred: bool, compact: bool) -> Seq<char> {
    (if blurred { "</g>"@ + eol(compact) } else { Seq::empty() }) + "</svg>"@ + eol(compact)
}

/// The SVG document for genes whose colours are 8-bit sRGB.
pub open spec fn svg_text(
    genes: Seq<ShapeGene<[u8; 3]>>,
    width: u32,
    height: u32,
    blur: Option<Seq<char>>,
    background: [u8; 3],
    compact: bool,
) -> Seq<char> {
    svg_open(width, height, compact) + (match blur {
        Some(r) => blur_open(r, compact),
        None => Seq::empty(),
    }) + background_rect(width, height, background, compact) + genes_text(genes, genes.len() as int, compact)
        + svg_close(blur is Some, compact)
}

pub(crate) fn push_svg_open(s: &mut String, width: u32, height: u32, compact: bool)
    ensures
        final(s)@ == old(s)@ + svg_open(width, height, compact),
{
    if compact {
        s.append("<svg xmlns='http://www.w3.org/2000/svg' viewBox='0 0 ");
        push_nat(s, width as u64);
        s.append(" ");
        push_nat(s, height as u64);
        s.append("' preserveAspectRatio='xMidYMid slice'>");
    } else {
        s.append("<?xml version=\"1.0\" standalone=\"no\"?>\n");
        s.append("<!DOCTYPE svg PUBLIC \"-//W3C//DTD SVG 1.1//EN\" ");
        s.append("\"http://www.w3.org/Graphics/SVG/1.1/DTD/svg11.dtd\">\n");
        s.append("<svg xmlns=\"http://www.w3.org/2000/svg\" viewBox=\"0 0 ");
        push_nat(s, width as u64);
        s.append(" ");
        push_nat(s, height as u64);
        s.append("\" preserveAspectRatio=\"xMidYMid slice\" version=\"1.1\">\n");
    }
    assert(final(s)@ =~= old(s)@ + svg_open(width, height, compact));
}

pub(crate) fn push_blur_open(s: &mut String, r: &str, compact: bool)
    ensures
        final(s)@ == old(s)@ + blur_open(r@, compact),
{
    s.append("<defs><filter id=");
    push_quote(s, compact);
    s.append("b");
    push_quote(s, compact);
    s.append("><feGaussianBlur stdDeviation=");
    push_quote(s, compact);
    s.append(r);
    push_quote(s, compact);
    s.append("/></filter></defs>");
    push_eol(s, compact);
    let ghost mid = s@;
    s.append("<g filter=");
    push_quote(s, compact);
    s.append("url(#b)");
    push_quote(s, compact);
    s.append(">");
    push_eol(s, compact);
    assert(s@ =~= mid + "<g filter="@ + quote(compact) + "url(#b)"@ + quote(compact) + ">"@ + eol(compact));
    assert(final(s)@ =~= old(s)@ + blur_open(r@, compact));
}

fn push_background_rect(s: &mut String, width: u32, height: u32, bg: [u8; 3], compact: bool)
    ensures
        final(s)@ == old(s)@ + background_rect(width, height, bg, compact),
{
    s.append("<rect width=");
    push_quote(s, compact);
    push_nat(s, width as u64);
    push_quote(s, compact);
    s.append(" height=");
    push_quote(s, compact);
    push_nat(s, height as u64);
    push_quote(s, compact);
    let ghost mid = s@;
    s.append(" fill=");
    push_quote(s, compact);
    s.append("#");
    push_rgb(s, bg);
    push_quote(s, compact);
    s.append("/>");
    push_eol(s, compact);
    assert(s@ =~= mid + " fill="@ + quote(compact) + "#"@ + rgb_text(bg) + quote(compact) + "/>"@ + eol(compact));
    assert(final(s)@ =~= old(s)@ + background_rect(width, height, bg, compact));
}

pub(crate) fn push_svg_close(s: &mut String, blurred: bool, compact: bool)
    ensures
        final(s)@ == old(s)@ + svg_close(blurred, compact),
{
    if blurred {
        s.append("</g>");
        push_eol(s, compact);
    }
    s.append("</svg>");
    push_eol(s, compact);
    assert(final(s)@ =~= old(s)@ + svg_close(blurred, compact));
}

/// Build an SVG document for genes whose colours are already 8-bit sRGB.
///
/// `blur` (the text of a Gaussian standard deviation) wraps the content in a
/// `<feGaussianBlur>` filter; a rectangle in `background` fills the canvas
/// before the genes, which are drawn in order.  `compact` omits the XML
/// declaration and DOCTYPE, uses single-quoted attributes and produces a
/// single line, for embedding in a data URL.
pub fn build_svg(
    genes: &[ShapeGene<[u8; 3]>],
    width: u32,
    height: u32,
    blur: Option<&str>,
    background: [u8; 3],
    compact: bool,
) -> (svg: String)
    ensures
        svg@ == svg_text(genes@, width, height, text_of(blur), background, compact),
{
    let mut s = String::new();
    push_svg_open(&mut s, width, height, compact);
    match blur {
        Some(r) => push_blur_open(&mut s, r, compact),
        None => {},
    }
    push_background_rect(&mut s, width, height, background, compact);
    let ghost head = s@;
    let mut i: usize = 0;
    while i < genes.len()
        invariant
            i <= genes@.len(),
            s@ == head + genes_text(genes@, i as int, compact),
        decreases genes@.len() - i,
    {
        push_gene(&mut s, &genes[i], compact);
        assert(s@ =~= head + genes_text(genes@, i + 1, compact));
        i = i + 1;
    }
    push_svg_close(&mut s, blur.is_some(), compact);
    assert(s@ =~= svg_text(genes@, width, height, text_of(blur), background, compact));
    s
}

/// A React `fill` colour: `#rrggbb` plus the alpha byte when not opaque.
pub open spec fn react_fill(c: [u8; 3], alpha: u8) -> Seq<char> {
    "#"@ + rgb_text(c) + if alpha >= 100 { Seq::<char>::empty() } else { hex2_text(alpha_byte(alpha)) }
}

fn push_react_fill(s: &mut String, c: [u8; 3], alpha: u8)
    ensures
        final(s)@ == old(s)@ + react_fill(c, alpha),
{
    s.append("#");
    push_rgb(s, c);
    let ah = alpha_hex(alpha);
    s.append(ah.as_str());
    assert(final(s)@ =~= old(s)@ + react_fill(c, alpha));
}

/// Longest element kept on a single line in React output.
pub const REACT_LINE_LIMIT: usize = 80;

/// The one-line React form of a polygon.
pub open spec fn react_polygon_line(indent: Seq<char>, pts: Seq<(i16, i16)>, c: [u8; 3], alpha: u8) -> Seq<char> {
    indent + "<polygon points=\""@ + points_text(pts) + "\" fill=\""@ + react_fill(c, alpha) + "\" />"@
}

/// A React polygon element: on one line when it fits in `REACT_LINE_LIMIT`
/// characters, otherwise one attribute per line.
pub open spec fn react_polygon(indent: Seq<char>, pts: Seq<(i16, i16)>, c: [u8; 3], alpha: u8) -> Seq<char> {
    let single = react_polygon_line(indent, pts, c, alpha);
    if single.len() <= REACT_LINE_LIMIT {
        single + "\n"@
    } else {
        indent + "<polygon\n"@ + indent + "  points=\""@ + points_text(pts) + "\"\n"@ + indent + "  fill=\""@
            + react_fill(c, alpha) + "\"\n"@ + indent + "/>\n"@
    }
}

/// The one-line React form of a circle.
pub open spec fn react_circle_line(indent: Seq<char>, cx: i16, cy: i16, radius: i16, c: [u8; 3], alpha: u8) -> Seq<char> {
    indent + "<circle"@ + int_attr(" cx="@, cx as int, false) + int_attr(" cy="@, cy as int, false)
        + int_attr(" r="@, radius as int, false) + " fill=\""@ + react_fill(c, alpha) + "\" />"@
}

/// A React circle element: on one line when it fits in `REACT_LINE_LIMIT`
/// characters, otherwise one attribute per line.
pub open spec fn react_circle(indent: Seq<char>, cx: i16, cy: i16, radius: i16, c: [u8; 3], alpha: u8) -> Seq<char> {
    let single = react_circle_line(indent, cx, cy, radius, c, alpha);
    if single.len() <= REACT_LINE_LIMIT {
        single + "\n"@
    } else {
        react_circle_lines(indent, cx, cy, radius, c, alpha)
    }
}

/// A React circle element with one attribute per line.
pub open spec fn react_circle_lines(indent: Seq<char>, cx: i16, cy: i16, radius: i16, c: [u8; 3], alpha: u8) -> Seq<char> {
    indent + "<circle\n"@ + indent + int_attr("  cx="@, cx as int, false) + "\n"@ + indent
        + int_attr("  cy="@, cy as int, false) + "\n"@ + indent + int_attr("  r="@, radius as int, false) + "\n"@
        + indent + "  fill=\""@ + react_fill(c, alpha) + "\"\n"@ + indent + "/>\n"@
}

/// The React element of a gene.
pub open spec fn react_gene(indent: Seq<char>, g: ShapeGene<[u8; 3]>) -> Seq<char> {
    match g {
        ShapeGene::Triangle(t) => react_polygon(indent, triangle_points(t), t.oklab, t.alpha),
        ShapeGene::Circle(c) => react_circle(indent, c.cx, c.cy, c.radius, c.oklab, c.alpha),
        ShapeGene::Polygon(p) => react_polygon(indent, p.vertices@, p.oklab, p.alpha),
    }
}

/// Number of characters of a string (its length in bytes for the ASCII
/// text built here).
pub(crate) fn char_count(s: &String) -> (n: usize)
    ensures
        n == s@.len(),
{
    s.as_str().unicode_len()
}

fn push_react_polygon(s: &mut String, indent: &str, pts: &Vec<(i16, i16)>, c: [u8; 3], alpha: u8)
    ensures
        final(s)@ == old(s)@ + react_polygon(indent@, pts@, c, alpha),
{
    let mut single = String::new();
    single.append(indent);
    single.append("<polygon points=\"");
    push_points(&mut single, pts);
    single.append("\" fill=\"");
    push_react_fill(&mut single, c, alpha);
    single.append("\" />");
    assert(single@ =~= react_polygon_line(indent@, pts@, c, alpha));
    if char_count(&single) <= REACT_LINE_LIMIT {
        s.append(single.as_str());
        s.append("\n");
    } else {
        s.append(indent);
        s.append("<polygon\n");
        s.append(indent);
        s.append("  points=\"");
        push_points(s, pts);
        s.append("\"\n");
        let ghost mid = s@;
        s.append(indent);
        s.append("  fill=\"");
        push_react_fill(s, c, alpha);
        s.append("\"\n");
        s.append(indent);
        s.append("/>\n");
        assert(s@ =~= mid + indent@ + "  fill=\""@ + react_fill(c, alpha) + "\"\n"@ + indent@ + "/>\n"@);
    }
    assert(final(s)@ =~= old(s)@ + react_polygon(indent@, pts@, c, alpha));
}

fn push_react_circle_lines(s: &mut String, indent: &str, cx: i16, cy: i16, radius: i16, c: [u8; 3], alpha: u8)
    ensures
        final(s)@ == old(s)@ + react_circle_lines(indent@, cx, cy, radius, c, alpha),
{
    s.append(indent);
    s.append("<circle\n");
    s.append(indent);
    push_int_attr(s, "  cx=", cx, false);
    s.append("\n");
    s.append(indent);
    push_int_attr(s, "  cy=", cy, false);
    s.append("\n");
    let ghost mid = s@;
    s.append(indent);
    push_int_attr(s, "  r=", radius, false);
    s.append("\n");
    let ghost mid2 = s@;
    s.append(indent);
    s.append("  fill=\"");
    push_react_fill(s, c, alpha);
    s.append("\"\n");
    s.append(indent);
    s.append("/>\n");
    assert(s@ =~= mid2 + indent@ + "  fill=\""@ + react_fill(c, alpha) + "\"\n"@ + indent@ + "/>\n"@);
    assert(mid2 =~= mid + indent@ + int_attr("  r="@, radius as int, false) + "\n"@);
    assert(final(s)@ =~= old(s)@ + react_circle_lines(indent@, cx, cy, radius, c, alpha));
}

fn push_react_circle(s: &mut String, indent: &str, cx: i16, cy: i16, radius: i16, c: [u8; 3], alpha: u8)
    ensures
        final(s)@ == old(s)@ + react_circle(indent@, cx, cy, radius, c, alpha),
{
    let mut single = String::new();
    single.append(indent);
    single.append("<circle");
    push_int_attr(&mut single, " cx=", cx, false);
    push_int_attr(&mut single, " cy=", cy, false);
    push_int_attr(&mut single, " r=", radius, false);
    single.append(" fill=\"");
    push_react_fill(&mut single, c, alpha);
    single.append("\" />");
    assert(single@ =~= react_circle_line(indent@, cx, cy, radius, c, alpha));
    if char_count(&single) <= REACT_LINE_LIMIT {
        s.append(single.as_str());
        s.append("\n");
    } else {
        push_react_circle_lines(s, indent, cx, cy, radius, c, alpha);
    }
    assert(final(s)@ =~= old(s)@ + react_circle(indent@, cx, cy, radius, c, alpha));
}

fn push_react_gene(s: &mut String, gene: &ShapeGene<[u8; 3]>, indent: &str)
    ensures
        final(s)@ == old(s)@ + react_gene(indent@, *gene),
{
    match gene {
        ShapeGene::Triangle(t) => {
            let pts = vec![(t.x1, t.y1), (t.x2, t.y2), (t.x3, t.y3)];
            assert(pts@ =~= triangle_points(*t));
            push_react_polygon(s, indent, &pts, t.oklab, t.alpha);
        },
        ShapeGene::Circle(c) => push_react_circle(s, indent, c.cx, c.cy, c.radius, c.oklab, c.alpha),
        ShapeGene::Polygon(p) => push_react_polygon(s, indent, &p.vertices, p.oklab, p.alpha),
    }
}

/// Opening of a React SVG element filling its container.
pub open spec fn react_open(width: u32, height: u32) -> Seq<char> {
    "<svg\n"@ + "  viewBox=\"0 0 "@ + nat_text(width as nat) + " "@ + nat_text(height as nat) + "\"\n"@
        + "  preserveAspectRatio=\"xMidYMid slice\"\n"@ + "  width=\"100%\"\n"@ + "  height=\"100%\"\n"@ + ">\n"@
}

/// A blur filter named `id` and the opening of the group it applies to.
pub open spec fn react_blur_open(r: Seq<char>, id: char) -> Seq<char> {
    "  <defs>\n"@ + "    <filter id=\""@ + seq![id] + "\">\n"@ + "      <feGaussianBlur stdDeviation=\""@ + r
        + "\" />\n"@ + "    </filter>\n"@ + "  </defs>\n"@ + "  <g filter=\"url(#"@ + seq![id] + ")\">\n"@
}

/// Indentation of elements: deeper inside a blur group.
pub open spec fn react_indent(blurred: bool) -> Seq<char> {
    if blurred { "    "@ } else { "  "@ }
}

/// The React elements of the first `k` genes.
pub open spec fn react_genes(indent: Seq<char>, genes: Seq<ShapeGene<[u8; 3]>>, k: int) -> Seq<char>
    decreases k,
{
    if k <= 0 {
        Seq::empty()
    } else {
        react_genes(indent, genes, k - 1) + react_gene(indent, genes[k - 1])
    }
}

/// Closing of the blur group, if any, and of the element.
pub open spec fn react_close(blurred: bool) -> Seq<char> {
    (if blurred { "  </g>\n"@ } else { Seq::empty() }) + "</svg>\n"@
}

/// The React SVG text for genes with 8-bit sRGB colours.
pub open spec fn react_text(
    genes: Seq<ShapeGene<[u8; 3]>>,
    width: u32,
    height: u32,
    blur: Option<Seq<char>>,
    background: [u8; 3],
    filter_id: char,
) -> Seq<char> {
    let indent = react_indent(blur is Some);
    react_open(width, height) + (match blur {
        Some(r) => react_blur_open(r, filter_id),
        None => Seq::empty(),
    }) + indent + "<rect width=\""@ + nat_text(width as nat) + "\" height=\""@ + nat_text(height as nat) + "\" fill=\"#"@
        + rgb_text(background) + "\" />\n"@ + react_genes(indent, genes, genes.len() as int) + react_close(blur is Some)
}

pub(crate) fn push_react_open(s: &mut String, width: u32, height: u32)
    ensures
        final(s)@ == old(s)@ + react_open(width, height),
{
    s.append("<svg\n");
    s.append("  viewBox=\"0 0 ");
    push_nat(s, width as u64);
    s.append(" ");
    push_nat(s, height as u64);
    s.append("\"\n");
    s.append("  preserveAspectRatio=\"xMidYMid slice\"\n");
    s.append("  width=\"100%\"\n");
    s.append("  height=\"100%\"\n");
    s.append(">\n");
    assert(final(s)@ =~= old(s)@ + react_open(width, height));
}

pub(crate) fn push_react_blur_open(s: &mut String, r: &str, id: char)
    ensures
        final(s)@ == old(s)@ + react_blur_open(r@, id),
{
    s.append("  <defs>\n");
    s.append("    <filter id=\"");
    push_char(s, id);
    s.append("\">\n");
    s.append("      <feGaussianBlur stdDeviation=\"");
    s.append(r);
    s.append("\" />\n");
    s.append("    </filter>\n");
    s.append("  </defs>\n");
    s.append("  <g filter=\"url(#");
    push_char(s, id);
    s.append(")\">\n");
    assert(final(s)@ =~= old(s)@ + react_blur_open(r@, id));
}

pub(crate) fn push_react_close(s: &mut String, blurred: bool)
    ensures
        final(s)@ == old(s)@ + react_close(blurred),
{
    if blurred {
        s.append("  </g>\n");
    }
    s.append("</svg>\n");
    assert(final(s)@ =~= old(s)@ + react_close(blurred));
}

/// Build a React JSX-compatible SVG from genes with 8-bit sRGB colours.
///
/// Colours are `#rrggbb` plus an alpha byte for semi-transparent genes; the
/// `<svg>` fills its container; `filter_id` names the blur filter.  An
/// element longer than `REACT_LINE_LIMIT` characters is broken into one
/// attribute per line.
pub fn build_svg_react(
    genes: &[ShapeGene<[u8; 3]>],
    width: u32,
    height: u32,
    blur: Option<&str>,
    background: [u8; 3],
    filter_id: char,
) -> (svg: String)
    ensures
        svg@ == react_text(genes@, width, height, text_of(blur), background, filter_id),
{
    let mut s = String::new();
    push_react_open(&mut s, width, height);
    match blur {
        Some(r) => push_react_blur_open(&mut s, r, filter_id),
        None => {},
    }
    let indent = if blur.is_some() { "    " } else { "  " };
    assert(indent@ == react_indent(blur is Some));
    let ghost before_rect = s@;
    s.append(indent);
    s.append("<rect width=\"");
    push_nat(&mut s, width as u64);
    s.append("\" height=\"");
    push_nat(&mut s, height as u64);
    s.append("\" fill=\"#");
    push_rgb(&mut s, background);
    s.append("\" />\n");
    let ghost head = s@;
    let mut i: usize = 0;
    while i < genes.len()
        invariant
            i <= genes@.len(),
            s@ == head + react_genes(indent@, genes@, i as int),
        decreases genes@.len() - i,
    {
        push_react_gene(&mut s, &genes[i], indent);
        assert(s@ =~= head + react_genes(indent@, genes@, i + 1));
        i = i + 1;
    }
    push_react_close(&mut s, blur.is_some());
    assert(s@ =~= react_text(genes@, width, height, text_of(blur), background, filter_id));
    s
}


/// A data URL never holds a raw `<`, `>`, `#`, `&` or newline.
pub proof fn lemma_url_encode_has_no_raw_specials(s: Seq<char>)
    ensures
        forall|i: int|
            0 <= i < url_encode(s).len() ==> #[trigger] url_encode(s)[i] != '<' && url_encode(s)[i] != '>' && url_encode(
                s,
            )[i] != '#' && url_encode(s)[i] != '&' && url_encode(s)[i] != '\n',
    decreases s.len(),
{
    if s.len() > 0 {
        lemma_url_encode_has_no_raw_specials(s.drop_last());
        let e = url_encode(s);
        let p = url_encode(s.drop_last());
        let c = url_encode_char(s.last());
        assert(e == p + c);
        assert forall|i: int| 0 <= i < e.len() implies #[trigger] e[i] != '<' && e[i] != '>' && e[i] != '#' && e[i] != '&'
            && e[i] != '\n' by {
            if i < p.len() {
                assert(e[i] == p[i]);
            } else {
                assert(e[i] == c[i - p.len()]);
            }
        }
    }
}

} // verus!

verus! {

/// The value of a hexadecimal digit (`0`-`9`, `A`-`F`, `a`-`f`); 0 for any
/// other character.
pub open spec fn hex_value(c: char) -> int {
    if '0' <= c && c <= '9' {
        c as int - '0' as int
    } else if 'A' <= c && c <= 'F' {
        c as int - 'A' as int + 10
    } else if 'a' <= c && c <= 'f' {
        c as int - 'a' as int + 10
    } else {
        0
    }
}

/// Percent-decoding: every `%` followed by two more characters stands for
/// the character whose code those two hexadecimal digits give; every other
/// character stands for itself.
pub open spec fn percent_decode(e: Seq<char>) -> Seq<char>
    decreases e.len(),
{
    if e.len() == 0 {
        Seq::empty()
    } else if e[0] == '%' && e.len() >= 3 {
        seq![(hex_value(e[1]) * 16 + hex_value(e[2])) as char] + percent_decode(e.skip(3))
    } else {
        seq![e[0]] + percent_decode(e.skip(1))
    }
}

/// Encoding a concatenation encodes each part in turn.
proof fn lemma_url_encode_append(a: Seq<char>, b: Seq<char>)
    ensures
        url_encode(a + b) == url_encode(a) + url_encode(b),
    decreases b.len(),
{
    if b.len() == 0 {
        assert(a + b =~= a);
        assert(url_encode(b) =~= Seq::<char>::empty());
        assert(url_encode(a) + url_encode(b) =~= url_encode(a));
    } else {
        lemma_url_encode_append(a, b.drop_last());
        assert((a + b).drop_last() =~= a + b.drop_last());
        assert((a + b).last() == b.last());
        assert(url_encode(a + b) =~= url_encode(a) + url_encode(b.drop_last()) + url_encode_char(b.last()));
        assert(url_encode(a) + url_encode(b) =~= url_encode(a) + url_encode(b.drop_last()) + url_encode_char(b.last()));
    }
}

/// Decoding the encoding of one character (not a newline) followed by more
/// text gives the character, then the decoding of the rest.
proof fn lemma_decode_encoded_char(c: char, rest: Seq<char>)
    requires
        c != '\n',
    ensures
        percent_decode(url_encode_char(c) + rest) == seq![c] + percent_decode(rest),
{
    let e = url_encode_char(c) + rest;
    if c == '%' || c == '<' || c == '>' || c == '#' || c == '&' {
        assert(e[0] == '%');
        assert(e.skip(3) =~= rest);
        assert((hex_value(e[1]) * 16 + hex_value(e[2])) as char == c);
    } else {
        assert(e[0] == c);
        assert(e.skip(1) =~= rest);
    }
}

/// Percent-decoding the encoded part of a data URL gives back the SVG
/// exactly, when the SVG holds no newline (newlines are dropped by the
/// encoding).
pub proof fn lemma_url_decode_encode(s: Seq<char>)
    requires
        !s.contains('\n'),
    ensures
        percent_decode(url_encode(s)) == s,
    decreases s.len(),
{
    if s.len() == 0 {
        assert(url_encode(s) =~= Seq::<char>::empty());
    } else {
        let rest = s.skip(1);
        assert(s =~= seq![s[0]] + rest);
        assert(!rest.contains('\n')) by {
            if rest.contains('\n') {
                let i = choose|i: int| 0 <= i < rest.len() && rest[i] == '\n';
                assert(s[i + 1] == '\n');
            }
        }
        assert(s[0] != '\n') by {
            assert(s.contains(s[0]));
        }
        lemma_url_decode_encode(rest);
        lemma_url_encode_append(seq![s[0]], rest);
        assert(url_encode(seq![s[0]]) =~= url_encode_char(s[0])) by {
            assert(seq![s[0]].drop_last() =~= Seq::<char>::empty());
            assert(url_encode(Seq::<char>::empty()) =~= Seq::<char>::empty());
        }
        lemma_decode_encoded_char(s[0], url_encode(rest));
        assert(url_encode(s) == url_encode_char(s[0]) + url_encode(rest));
        assert(seq![s[0]] + rest =~= s);
    }
}

/// The element of a circle gene carries the gene's own centre and radius:
/// it begins `<circle cx='cx' cy='cy' r='radius'` with the gene's values in
/// that order (quoted with `"` outside compact output).
#[verifier::spinoff_prover]
pub proof fn lemma_circle_element_attributes(c: CircleGene<[u8; 3]>, compact: bool)
    ensures
        ({
            let q = quote(compact);
            let head = "<circle"@ + " cx="@ + q + int_text(c.cx as int) + q + " cy="@ + q + int_text(c.cy as int) + q
                + " r="@ + q + int_text(c.radius as int) + q;
            gene_element(ShapeGene::Circle(c), compact).subrange(0, head.len() as int) == head
        }),
{
    let q = quote(compact);
    let head = "<circle"@ + " cx="@ + q + int_text(c.cx as int) + q + " cy="@ + q + int_text(c.cy as int) + q + " r="@
        + q + int_text(c.radius as int) + q;
    let rest = " style="@ + q + fill_style(c.oklab, c.alpha) + q + "/>"@ + eol(compact);
    let e = gene_element(ShapeGene::Circle(c), compact);
    assert(e =~= head + rest);
    assert(e.subrange(0, head.len() as int) =~= head);
}

/// The element of a triangle gene lists the gene's own three vertices, in
/// order: it begins `<polygon points='x1,y1 x2,y2 x3,y3'`.
#[verifier::spinoff_prover]
#[verifier::rlimit(40)]
pub proof fn lemma_triangle_element_points(t: TriangleGene<[u8; 3]>, compact: bool)
    ensures
        ({
            let q = quote(compact);
            let head = "<polygon points="@ + q + point_text((t.x1, t.y1)) + " "@ + point_text((t.x2, t.y2)) + " "@
                + point_text((t.x3, t.y3)) + q;
            gene_element(ShapeGene::Triangle(t), compact).subrange(0, head.len() as int) == head
        }),
{
    let q = quote(compact);
    let (a, b, c) = ((t.x1, t.y1), (t.x2, t.y2), (t.x3, t.y3));
    let p1 = seq![a];
    let p2 = seq![a, b];
    let p3 = triangle_points(t);
    assert(p2.drop_last() =~= p1);
    assert(p3.drop_last() =~= p2);
    assert(points_text(p1) == point_text(a));
    assert(points_text(p2) == points_text(p1) + " "@ + point_text(b));
    assert(points_text(p3) == points_text(p2) + " "@ + point_text(c));
    let pt = points_text(p3);
    assert(pt =~= point_text(a) + " "@ + point_text(b) + " "@ + point_text(c));
    let head = "<polygon points="@ + q + pt + q;
    let rest = " style="@ + q + fill_style(t.oklab, t.alpha) + q + "/>"@ + eol(compact);
    let e = gene_element(ShapeGene::Triangle(t), compact);
    assert(e =~= head + rest);
    assert(e.subrange(0, head.len() as int) =~= head);
    assert(head =~= "<polygon points="@ + q + point_text(a) + " "@ + point_text(b) + " "@ + point_text(c) + q);
}

} // verus!
