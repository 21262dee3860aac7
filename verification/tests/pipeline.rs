use sdftool::mono_image::MonoImage;
use sdftool::program_cpu::rgba_to_grayscale;

fn image_from(width: usize, height: usize, bytes: &[u8]) -> MonoImage {
    assert_eq!(bytes.len(), width * height);
    let mut img = MonoImage::new(width, height);
    img.pixels = bytes.to_vec();
    img
}

#[test]
fn resize_then_clear_zeroes_buffer() {
    let mut img = image_from(3, 2, &[9, 9, 9, 9, 9, 9]);
    img.resize(4, 5);
    img.clear_color();
    assert_eq!(img.width, 4);
    assert_eq!(img.height, 5);
    assert_eq!(img.pixels.len(), 20);
    assert!(img.pixels.iter().all(|&b| b == 0));
}

#[test]
fn resize_keeps_prefix_and_zero_fills() {
    let mut img = image_from(2, 2, &[1, 2, 3, 4]);
    img.resize(3, 2);
    assert_eq!(img.pixels, vec![1, 2, 3, 4, 0, 0]);
    img.resize(1, 2);
    assert_eq!(img.pixels, vec![1, 2]);
}

#[test]
fn offset_clamps_to_border() {
    let img = MonoImage::new(5, 5);
    assert_eq!(img.offset(1, 2), 11);
    assert_eq!(img.offset(10, 10), 24);
    assert_eq!(img.offset(4, 99), 24);
}

#[test]
fn set_pixel_writes_clamped() {
    let mut img = MonoImage::new(3, 3);
    img.set_pixel(1, 1, 7);
    assert_eq!(img.pixels[4], 7);
    img.set_pixel(5, 0, 9);
    assert_eq!(img.pixels[2], 9);
}

#[test]
fn grayscale_samples_first_channel() {
    let src = vec![10, 1, 2, 20, 3, 4, 30, 5, 6];
    let mut dst = vec![0; 3];
    rgba_to_grayscale(&src, &mut dst, 3);
    assert_eq!(dst, vec![10, 20, 30]);
}

#[test]
fn grayscale_with_rgba_stride() {
    let src = vec![11, 0, 0, 0, 22, 0, 0, 0];
    let mut dst = vec![0; 2];
    rgba_to_grayscale(&src, &mut dst, 4);
    assert_eq!(dst, vec![11, 22]);
}

#[test]
fn edge_detect_constant_bright_is_interior() {
    let img = image_from(4, 3, &[255; 12]);
    let mut out = MonoImage::new(4, 3);
    img.edge_detect(&mut out);
    assert!(out.pixels.iter().all(|&p| p == 127));
}

#[test]
fn edge_detect_below_threshold_is_background() {
    let img = image_from(4, 3, &[127; 12]);
    let mut out = MonoImage::new(4, 3);
    img.edge_detect(&mut out);
    assert!(out.pixels.iter().all(|&p| p == 0));
}

#[test]
fn edge_detect_single_foreground_pixel() {
    let mut bytes = [0u8; 25];
    bytes[12] = 200;
    let img = image_from(5, 5, &bytes);
    let mut out = MonoImage::new(5, 5);
    img.edge_detect(&mut out);
    assert_eq!(out.pixels[12], 255);
    for (i, &p) in out.pixels.iter().enumerate() {
        if i != 12 {
            assert_eq!(p, 0);
        }
    }
}

#[test]
fn edge_detect_marks_boundary_and_interior() {
    // A bright 3x3 block inside a dark 5x5 frame: the block's pixels all
    // touch the dark frame except none -- every block pixel but the
    // centre is a boundary pixel.
    let mut bytes = [0u8; 25];
    for y in 1..4 {
        for x in 1..4 {
            bytes[y * 5 + x] = 255;
        }
    }
    let img = image_from(5, 5, &bytes);
    let mut out = MonoImage::new(5, 5);
    img.edge_detect(&mut out);
    assert_eq!(out.pixels[12], 127);
    for &(x, y) in &[(1, 1), (2, 1), (3, 1), (1, 2), (3, 2), (1, 3), (2, 3), (3, 3)] {
        assert_eq!(out.pixels[y * 5 + x], 255);
    }
    assert_eq!(out.pixels[0], 0);
}

#[test]
fn sdf_saturates_inside_without_boundary() {
    // Every edge value is above the inside threshold (96) but none is a
    // boundary pixel (above 192): the whole field saturates inside.
    let img = image_from(4, 4, &[100; 16]);
    let mut out = MonoImage::new(2, 2);
    img.edge_generate_sdf(&mut out, 2, 3);
    assert_eq!(out.pixels, vec![254, 254, 254, 254]);
}

#[test]
fn sdf_saturates_outside_without_boundary() {
    let img = image_from(4, 4, &[50; 16]);
    let mut out = MonoImage::new(2, 2);
    img.edge_generate_sdf(&mut out, 2, 3);
    assert_eq!(out.pixels, vec![0, 0, 0, 0]);
}

#[test]
fn sdf_exact_values_single_boundary_pixel() {
    // One boundary pixel at the centre of a 5x5 edge image, stride 1,
    // search radius 4.  Expected bytes follow the ring search: the first
    // hit at ring d, offset t encodes
    // min(127, isqrt(16129 * (t*t + d*d)) / 4) away from 127.
    let mut bytes = [0u8; 25];
    bytes[12] = 255;
    let img = image_from(5, 5, &bytes);
    let mut out = MonoImage::new(5, 5);
    img.edge_generate_sdf(&mut out, 1, 4);
    // centre: inside (255 > 96), no ring ever probes its own centre
    assert_eq!(out.pixels[12], 254);
    // directly above the centre: hit at d = 1, t = 0 -> 127 - 127/4
    assert_eq!(out.pixels[7], 96);
    // two above the centre: hit at d = 2, t = 0 -> 127 - 254/4
    assert_eq!(out.pixels[2], 64);
    // corner: hit at d = 2, t = 2 -> 127 - isqrt(16129 * 8)/4 = 127 - 89
    assert_eq!(out.pixels[0], 38);
}

#[test]
fn sdf_output_size_rounds_up() {
    let img = image_from(5, 3, &[0; 15]);
    let mut out = MonoImage::new(3, 2);
    img.edge_generate_sdf(&mut out, 2, 2);
    assert_eq!(out.width, 3);
    assert_eq!(out.height, 2);
    assert_eq!(out.pixels.len(), 6);
}
