use shapeme::raster::{compute_diff, hline_span, polygon_scanlines};

#[test]
fn render_compute_diff_identical() {
    let buf = vec![128u8; 300];
    assert_eq!(compute_diff(&buf, &buf), 0);
}

#[test]
fn compute_diff_max_distance() {
    let black = vec![0u8; 300];
    let white = vec![255u8; 300];
    let pixels = 300 / 3;
    let per_pixel = ((255i64 * 255 * 3) as f64).sqrt() as i64;
    assert_eq!(compute_diff(&black, &white), per_pixel * pixels as i64);
}

#[test]
fn render_draw_hline_out_of_bounds_y_noop() {
    // Rows -1 and 10 lie outside a 10x10 canvas: no span, so nothing is drawn.
    assert_eq!(hline_span(10, 10, 0, 9, -1), None);
    assert_eq!(hline_span(10, 10, 0, 9, 10), None);
}

#[test]
fn draw_hline_entirely_left_of_viewport_noop() {
    assert_eq!(hline_span(10, 10, -5, -1, 5), None);
}

/// Fill `fb` (one f32 per channel, 3 channels) with `color` at full opacity
/// over every span of the polygon.
fn fill_polygon(fb: &mut [f32], width: u32, height: u32, vertices: &[(i16, i16)], color: [f32; 3]) {
    for (x1, x2, y) in polygon_scanlines(vertices) {
        if let Some((lo, hi)) = hline_span(width, height, x1, x2, y) {
            for x in lo..=hi {
                let base = ((y as u32 * width + x) * 3) as usize;
                fb[base..base + 3].copy_from_slice(&color);
            }
        }
    }
}

#[test]
fn draw_polygon_fills_square() {
    let mut fb = vec![0.0f32; 10 * 10 * 3];
    let vertices: &[(i16, i16)] = &[(1, 1), (8, 1), (8, 8), (1, 8)];
    fill_polygon(&mut fb, 10, 10, vertices, [1.0, 0.0, 0.0]);
    for y in 2i32..7 {
        for x in 2i32..7 {
            let base = ((y * 10 + x) * 3) as usize;
            assert!((fb[base] - 1.0).abs() < 1e-6, "interior pixel ({x},{y}) L channel should be 1.0");
        }
    }
    assert_eq!(fb[0], 0.0, "top-left corner (0,0) should not be filled");
    assert_eq!(fb[(9 * 10 + 9) * 3], 0.0, "bottom-right corner (9,9) should not be filled");
}
