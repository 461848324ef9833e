use shapeme::svg::svg_to_data_url;

#[test]
fn svg_to_data_url_encodes_special_chars() {
    let url = svg_to_data_url("<svg><rect fill='#fff'/></svg>");
    assert!(url.starts_with("data:image/svg+xml,"), "wrong prefix: {url}");
    assert!(url.contains("%3C"), "< not encoded: {url}");
    assert!(url.contains("%3E"), "> not encoded: {url}");
    assert!(url.contains("%23"), "# not encoded: {url}");
    assert!(!url.contains('#'), "raw # in url: {url}");
    assert!(!url.contains('<'), "raw < in url: {url}");
    assert!(!url.contains('>'), "raw > in url: {url}");
}

#[test]
fn svg_to_data_url_no_double_encoding() {
    let url = svg_to_data_url("<tag/>");
    assert!(url.contains("%3C"), "< not encoded: {url}");
    assert!(!url.contains("%253C"), "double-encoded <: {url}");
}

#[test]
fn svg_to_data_url_encodes_percent_sign() {
    let url = svg_to_data_url("50%");
    assert!(url.contains("%25"), "% not encoded as %25: {url}");
}

use shapeme::documents::{build_svg_from_genome, build_svg_from_grid, build_svg_react_from_genome, build_svg_react_from_grid};
use shapeme::gene::{BackgroundGene, BlurGene, CircleGene, ShapeGene, TriangleGene};
use shapeme::genome::ShapeGenome;
use shapeme::grid::GridGenome;
use shapeme::svg::{alpha_hex, build_svg, build_svg_react};

fn sample_triangle() -> Vec<ShapeGene<[u8; 3]>> {
    vec![ShapeGene::Triangle(TriangleGene { x1: 0, y1: 0, x2: 10, y2: 0, x3: 5, y3: 10, oklab: [0, 255, 0], alpha: 50, z_order: 0 })]
}

#[test]
fn build_svg_compact_has_viewbox_and_preserveaspectratio() {
    let svg = build_svg(&sample_triangle(), 100, 200, None, [0, 0, 0], true);
    assert!(svg.contains("viewBox='0 0 100 200'"), "missing viewBox: {svg}");
    assert!(svg.contains("preserveAspectRatio='xMidYMid slice'"), "missing preserveAspectRatio: {svg}");
}

#[test]
fn build_svg_compact_is_single_line() {
    let svg = build_svg(&sample_triangle(), 100, 100, Some("4"), [0, 0, 0], true);
    assert!(!svg.contains('\n'), "compact SVG must not contain newlines");
}

#[test]
fn build_svg_compact_includes_blur_filter() {
    let svg = build_svg(&sample_triangle(), 100, 100, Some(&format!("{}", 8.0f32)), [0, 0, 0], true);
    assert!(svg.contains("feGaussianBlur"), "missing blur filter: {svg}");
    assert!(svg.contains("stdDeviation='8'"), "wrong stdDeviation: {svg}");
}

#[test]
fn build_svg_verbose_has_viewbox() {
    let svg = build_svg(&sample_triangle(), 100, 200, None, [0, 0, 0], false);
    assert!(svg.contains("viewBox=\"0 0 100 200\""), "missing viewBox: {svg}");
    assert!(svg.contains("preserveAspectRatio=\"xMidYMid slice\""), "missing preserveAspectRatio: {svg}");
}

#[test]
fn build_svg_compact_exact_text() {
    let svg = build_svg(&sample_triangle(), 100, 200, None, [1, 2, 3], true);
    assert_eq!(
        svg,
        "<svg xmlns='http://www.w3.org/2000/svg' viewBox='0 0 100 200' preserveAspectRatio='xMidYMid slice'>\
<rect width='100' height='200' fill='#010203'/>\
<polygon points='0,0 10,0 5,10' style='fill:#00ff00;fill-opacity:0.50'/></svg>"
    );
}

#[test]
fn alpha_hex_matches_float_rounding() {
    for a in 0u8..=255 {
        let expected =
            if a >= 100 { String::new() } else { format!("{:02x}", (f32::from(a) / 100.0 * 255.0).round() as u8) };
        assert_eq!(alpha_hex(a), expected, "alpha {a}");
    }
}

#[test]
fn opacity_matches_float_formatting() {
    for a in 0u8..=100 {
        let gene = vec![ShapeGene::Circle(CircleGene { cx: 1, cy: 2, radius: 3, oklab: [9, 8, 7], alpha: a, z_order: 0 })];
        let svg = build_svg(&gene, 10, 10, None, [0, 0, 0], true);
        let expected = format!("fill-opacity:{:.2}'", f32::from(a) / 100.0);
        assert!(svg.contains(&expected), "alpha {a}: {svg}");
    }
}

#[test]
fn react_svg_uses_alpha_hex_and_filter_id() {
    let svg = build_svg_react(&sample_triangle(), 10, 20, Some("2"), [255, 255, 255], 'q');
    assert!(svg.contains("<filter id=\"q\">"), "{svg}");
    assert!(svg.contains("filter=\"url(#q)\""), "{svg}");
    assert!(svg.contains("fill=\"#00ff0080\""), "{svg}");
    assert!(svg.contains("    <rect width=\"10\" height=\"20\" fill=\"#ffffff\" />\n"), "{svg}");
    assert!(svg.ends_with("  </g>\n</svg>\n"), "{svg}");
}

#[test]
fn genome_svg_draws_in_z_order() {
    let genome: ShapeGenome<[u8; 3], f32> = ShapeGenome {
        shapes: vec![
            ShapeGene::Circle(CircleGene { cx: 2, cy: 2, radius: 1, oklab: [0, 0, 2], alpha: 100, z_order: 9 }),
            ShapeGene::Circle(CircleGene { cx: 1, cy: 1, radius: 1, oklab: [0, 0, 1], alpha: 100, z_order: 3 }),
        ],
        blur: Some(BlurGene { radius: 1.5 }),
        background: BackgroundGene { oklab: [4, 5, 6] },
    };
    let text = |r: f32| format!("{r}");
    let svg = build_svg_from_genome(&genome, 10, 10, true, &text);
    let first = svg.find("fill:#000001").unwrap();
    let second = svg.find("fill:#000002").unwrap();
    assert!(first < second);
    assert!(svg.contains("stdDeviation='1.5'"));
    assert!(svg.contains("fill='#040506'"));
    let react = build_svg_react_from_genome(&genome, 10, 10, 'b', &text);
    assert!(react.find("#000001").unwrap() < react.find("#000002").unwrap());
}

#[test]
fn grid_svg_has_one_polygon_per_cell() {
    let grid: GridGenome<[u8; 3], f32> = GridGenome {
        cols: 2,
        rows: 1,
        points: vec![(0, 0), (5, 0), (9, 0), (0, 9), (5, 9), (9, 9)],
        colors: vec![[255, 0, 0], [0, 0, 255]],
        blur: None,
    };
    let text = |r: f32| format!("{r}");
    let svg = build_svg_from_grid(&grid, 10, 10, true, &text);
    assert_eq!(
        svg,
        "<svg xmlns='http://www.w3.org/2000/svg' viewBox='0 0 10 10' preserveAspectRatio='xMidYMid slice'>\
<polygon points='0,0 5,0 5,9 0,9' fill='#ff0000'/><polygon points='5,0 9,0 9,9 5,9' fill='#0000ff'/></svg>"
    );
    let react = build_svg_react_from_grid(&grid, 10, 10, 'b', &text);
    assert!(react.contains("  <polygon points=\"0,0 5,0 5,9 0,9\" fill=\"#ff0000\" />\n"), "{react}");
    assert_eq!(react.matches("<polygon").count(), 2);
}
