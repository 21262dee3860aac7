use sdftool::atlas_generator::AtlasGenerator;
use sdftool::mono_image::MonoImage;

fn glyph_of(width: usize, height: usize, value: u8) -> MonoImage {
    let mut img = MonoImage::new(width, height);
    for p in img.pixels.iter_mut() {
        *p = value;
    }
    img
}

#[test]
fn atlas_new_starts_empty() {
    let gen = AtlasGenerator::new(32, 16, String::from("out"), 1, 2);
    assert_eq!(gen.page_id, 0);
    assert_eq!(gen.page.width, 32);
    assert_eq!(gen.page.height, 16);
    assert!(gen.page.pixels.iter().all(|&p| p == 0));
    assert_eq!(gen.metadata.len(), 0);
    assert_eq!(gen.flushed.len(), 0);
}

#[test]
fn atlas_places_left_to_right() {
    // Two 10x10 glyphs on a 64x64 page with no margin land side by side.
    let mut gen = AtlasGenerator::new(64, 64, String::from("out"), 0, 0);
    let glyph = glyph_of(10, 10, 1);
    gen.push('A', &glyph);
    gen.push('B', &glyph);
    assert_eq!(gen.metadata.len(), 2);
    let recs: Vec<(char, usize, usize, usize, usize, usize)> =
        gen.metadata.iter().map(|r| (r.character, r.page_id, r.x, r.y, r.w, r.h)).collect();
    assert!(recs.contains(&('A', 0, 0, 0, 10, 10)));
    assert!(recs.contains(&('B', 0, 10, 0, 10, 10)));
}

#[test]
fn atlas_overflow_creates_second_page() {
    // 12x12 glyphs on a 20x20 page: the first two fill both rows, the
    // third forces a flush and a fresh page.
    let mut gen = AtlasGenerator::new(20, 20, String::from("out"), 0, 0);
    let glyph = glyph_of(12, 12, 5);
    gen.push('a', &glyph);
    gen.push('b', &glyph);
    gen.push('c', &glyph);
    assert_eq!(gen.page_id, 1);
    assert_eq!(gen.flushed.len(), 1);
    let ids: Vec<usize> = gen.metadata.iter().map(|r| r.page_id).collect();
    assert_eq!(ids, vec![0, 0, 1]);
    // page ids never decrease in push order
    for pair in ids.windows(2) {
        assert!(pair[0] <= pair[1]);
    }
    let last = &gen.metadata[2];
    assert_eq!((last.character, last.page_id, last.x, last.y), ('c', 1, 0, 0));
}

#[test]
fn atlas_wraps_to_next_row() {
    let mut gen = AtlasGenerator::new(32, 32, String::from("out"), 0, 0);
    let glyph = glyph_of(12, 12, 5);
    gen.push('a', &glyph);
    gen.push('b', &glyph);
    gen.push('c', &glyph);
    // 12 + 12 fits the 32-wide row, a third 12 does not: it opens row two
    assert_eq!(gen.page_id, 0);
    let recs: Vec<(usize, usize)> = gen.metadata.iter().map(|r| (r.x, r.y)).collect();
    assert_eq!(recs, vec![(0, 0), (12, 0), (0, 12)]);
}

#[test]
fn atlas_exact_row_fit_still_wraps() {
    // The row check is strict: a glyph whose right edge would touch the
    // page border exactly is wrapped, not placed.
    let mut gen = AtlasGenerator::new(20, 40, String::from("out"), 0, 0);
    let glyph = glyph_of(10, 10, 5);
    gen.push('a', &glyph);
    gen.push('b', &glyph);
    let recs: Vec<(usize, usize)> = gen.metadata.iter().map(|r| (r.x, r.y)).collect();
    assert_eq!(recs, vec![(0, 0), (0, 10)]);
}

#[test]
fn atlas_copies_glyph_pixels_inside_margins() {
    let mut gen = AtlasGenerator::new(16, 16, String::from("out"), 2, 3);
    let glyph = glyph_of(3, 2, 9);
    gen.push('g', &glyph);
    assert_eq!(gen.metadata[0].x, 2);
    assert_eq!(gen.metadata[0].y, 3);
    for y in 0..16 {
        for x in 0..16 {
            let expected = if (2..5).contains(&x) && (3..5).contains(&y) { 9 } else { 0 };
            assert_eq!(gen.page.pixels[y * 16 + x], expected);
        }
    }
}

#[test]
fn atlas_save_current_page_copies_pixels() {
    let mut gen = AtlasGenerator::new(8, 8, String::from("out"), 0, 0);
    let glyph = glyph_of(2, 2, 3);
    gen.push('p', &glyph);
    let copy = gen.save_current_page();
    assert_eq!(copy.width, 8);
    assert_eq!(copy.height, 8);
    assert_eq!(copy.pixels, gen.page.pixels);
}

#[test]
fn atlas_flushed_page_holds_old_content() {
    let mut gen = AtlasGenerator::new(20, 20, String::from("out"), 0, 0);
    let glyph = glyph_of(12, 12, 7);
    gen.push('a', &glyph);
    let before_flush = gen.page.pixels.clone();
    gen.push('b', &glyph);
    gen.push('c', &glyph);
    assert_eq!(gen.flushed.len(), 1);
    // the flushed page is the page as it stood before the flush, with
    // 'b' already copied onto it
    assert_ne!(gen.flushed[0].pixels, before_flush);
    assert_eq!(gen.flushed[0].pixels[0], 7);
    // the fresh page holds only 'c'
    assert_eq!(gen.page.pixels[0], 7);
    assert_eq!(gen.page.pixels[12], 0);
}
