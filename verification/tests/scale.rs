use shapeme::scale::{scale_image, scaled_size};

#[test]
fn scale_image_noop_when_within_max() {
    let pixels = vec![128u8; 10 * 3];
    let (out, w, h) = scale_image(pixels.clone(), 10, 1, 256);
    assert_eq!((w, h), (10, 1));
    assert_eq!(out, pixels);
}

#[test]
fn scale_image_reduces_max_dimension() {
    let pixels = vec![0u8; 400 * 300 * 3];
    let (_, w, h) = scale_image(pixels, 400, 300, 100);
    assert_eq!(w, 100, "width should be capped at max_dim");
    assert!(h > 0 && h <= 100, "height {h} should be > 0 and <= 100");
}

#[test]
fn scaled_size_keeps_aspect_ratio() {
    assert_eq!(scaled_size(400, 300, 100), (100, 75));
    assert_eq!(scaled_size(300, 400, 100), (75, 100));
    assert_eq!(scaled_size(1000, 1, 10), (10, 1));
    assert_eq!(scaled_size(1, 1000, 10), (1, 10));
    assert_eq!(scaled_size(7, 7, 3), (3, 3));
}

#[test]
fn scale_image_resamples_to_new_size() {
    let pixels = vec![200u8; 40 * 20 * 3];
    let (out, w, h) = scale_image(pixels, 40, 20, 10);
    assert_eq!((w, h), (10, 5));
    assert_eq!(out.len(), 10 * 5 * 3);
}

#[test]
fn scale_image_at_exact_limit_is_unchanged() {
    let pixels: Vec<u8> = (0..(8 * 4 * 3)).map(|i| i as u8).collect();
    let (out, w, h) = scale_image(pixels.clone(), 8, 4, 8);
    assert_eq!((w, h), (8, 4));
    assert_eq!(out, pixels);
}

#[test]
fn scale_image_preserves_blue_colour() {
    // Scaling in sRGB u8 avoids the negative-f32-clipping issue that caused sepia.
    // Verify a blue image stays blue after scaling.
    let pixels: Vec<u8> = (0..8 * 8).flat_map(|_| [0u8, 0u8, 255u8]).collect();
    let (scaled, w, h) = scale_image(pixels, 8, 8, 4);
    assert_eq!((w, h), (4, 4));
    // All pixels should still be approximately blue
    for i in 0..(w * h) as usize {
        let r = scaled[i * 3];
        let b = scaled[i * 3 + 2];
        assert!(b > 200, "blue channel should survive scaling: R={r} B={b}");
        assert!(r < 20, "red should not dominate: R={r} B={b}");
    }
}
