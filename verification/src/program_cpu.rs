//! The compute pipeline over single-channel byte buffers: grayscale
//! conversion, edge classification, and bounded-radius signed-distance-field
//! generation.
//!
//! All sampling goes through a clamped offset, so border pixels never read
//! out of range.  A pixel at or above the intensity threshold of 128 is
//! foreground; a foreground pixel with a below-threshold 8-neighbour is a
//! boundary pixel (255), other foreground is interior (127), and background
//! maps to 0.  The distance field searches concentric square rings around
//! each stride-scaled sample centre and encodes the first boundary hit as a
//! signed normalized distance byte around the 127 zero-crossing.

use vstd::prelude::*;

verus! {

/// `v` clamped to the closed interval `[lo, hi]`.
pub open spec fn clamped(v: int, lo: int, hi: int) -> int {
    if v < lo {
        lo
    } else if v > hi {
        hi
    } else {
        v
    }
}

/// Row-major index of the pixel sampled for coordinates `(x, y)` in a
/// `w` by `h` image: both coordinates are clamped to the border first, so
/// any coordinates index some pixel of the image.
pub open spec fn offset_of(x: int, y: int, w: int, h: int) -> int {
    clamped(y, 0, h - 1) * w + clamped(x, 0, w - 1)
}

/// The clamped offset always lands inside the image.
pub proof fn lemma_offset_in_range(x: int, y: int, w: int, h: int)
    requires
        1 <= w,
        1 <= h,
    ensures
        0 <= offset_of(x, y, w, h) < w * h,
{
    let cx = clamped(x, 0, w - 1);
    let cy = clamped(y, 0, h - 1);
    assert(0 <= cy * w && cy * w + cx < w * h) by (nonlinear_arith)
        requires
            0 <= cx <= w - 1,
            0 <= cy <= h - 1,
            1 <= w,
    ;
}

/// Distinct in-range pixel coordinates have distinct row-major offsets.
pub proof fn lemma_row_major_injective(w: int, x1: int, y1: int, x2: int, y2: int)
    requires
        0 <= x1 < w,
        0 <= x2 < w,
        y1 * w + x1 == y2 * w + x2,
    ensures
        x1 == x2 && y1 == y2,
{
    assert(x1 == x2 && y1 == y2) by (nonlinear_arith)
        requires
            0 <= x1 < w,
            0 <= x2 < w,
            y1 * w + x1 == y2 * w + x2,
    ;
}

/// One pixel of `s` as a `w` by `h` image, read through the clamped offset.
pub open spec fn sample(s: Seq<u8>, w: int, h: int, x: int, y: int) -> u8 {
    s[offset_of(x, y, w, h)]
}

/// The clamped offset, as the reference for every pixel access of the
/// pipeline.
fn get_offset(pos_x: i32, pos_y: i32, size_w: usize, size_h: usize) -> (r: usize)
    requires
        1 <= size_w,
        1 <= size_h,
        size_w * size_h <= i32::MAX,
    ensures
        r == offset_of(pos_x as int, pos_y as int, size_w as int, size_h as int),
        r < size_w * size_h,
{
    proof {
        assert(size_w <= i32::MAX && size_h <= i32::MAX) by (nonlinear_arith)
            requires
                1 <= size_w,
                1 <= size_h,
                size_w * size_h <= i32::MAX,
        ;
        lemma_offset_in_range(pos_x as int, pos_y as int, size_w as int, size_h as int);
    }
    let max_x: i32 = (size_w as i32) - 1;
    let max_y: i32 = (size_h as i32) - 1;
    let x: i32 = if pos_x < 0 {
        0
    } else if pos_x > max_x {
        max_x
    } else {
        pos_x
    };
    let y: i32 = if pos_y < 0 {
        0
    } else if pos_y > max_y {
        max_y
    } else {
        pos_y
    };
    proof {
        assert(0 <= (y as int) * (size_w as int) + (x as int) && (y as int) * (size_w as int) + (
        x as int) < (size_w as int) * (size_h as int)) by (nonlinear_arith)
            requires
                0 <= x as int <= size_w as int - 1,
                0 <= y as int <= size_h as int - 1,
                1 <= size_w as int,
        ;
    }
    (y * (size_w as i32) + x) as usize
}

/// Downsamples an RGB or RGBA source to a single channel: every output
/// byte is the first byte of its `stride`-wide source pixel.
pub fn rgba_to_grayscale(src: &Vec<u8>, dst: &mut Vec<u8>, stride: usize)
    requires
        1 <= stride,
        old(dst)@.len() == 0 || (old(dst)@.len() - 1) * stride < src@.len(),
    ensures
        final(dst)@.len() == old(dst)@.len(),
        forall|i: int| 0 <= i < final(dst)@.len() ==> #[trigger] final(dst)@[i] == src@[i * stride],
{
    let n = dst.len();
    let src_len = src.len();
    let mut offset: usize = 0;
    while offset < n
        invariant
            n == dst@.len(),
            src_len == src@.len(),
            offset <= n,
            1 <= stride,
            n == 0 || (n - 1) * stride < src@.len(),
            forall|i: int| 0 <= i < offset ==> #[trigger] dst@[i] == src@[i * stride],
        decreases n - offset,
    {
        proof {
            assert(offset * stride <= (n - 1) * stride) by (nonlinear_arith)
                requires
                    0 <= offset <= n - 1,
                    0 <= stride,
            ;
        }
        dst[offset] = src[offset * stride];
        offset = offset + 1;
    }
}

/// Whether some 8-neighbour of `(x, y)`, sampled with clamping at the
/// border, lies below the foreground threshold of 128.
pub open spec fn has_background_neighbor(src: Seq<u8>, w: int, h: int, x: int, y: int) -> bool {
    exists|nx: int, ny: int|
        #![trigger sample(src, w, h, nx, ny)]
        x - 1 <= nx <= x + 1 && y - 1 <= ny <= y + 1 && !(nx == x && ny == y) && sample(
            src,
            w,
            h,
            nx,
            ny,
        ) < 128
}

/// Edge classification of one pixel: background (below the threshold)
/// gives 0; foreground gives 255 when some 8-neighbour is background (a
/// boundary pixel) and 127 otherwise (interior).
pub open spec fn edge_value(src: Seq<u8>, w: int, h: int, x: int, y: int) -> u8 {
    if sample(src, w, h, x, y) >= 128 {
        if has_background_neighbor(src, w, h, x, y) {
            255u8
        } else {
            127u8
        }
    } else {
        0u8
    }
}

/// The part of the neighbourhood scan already behind position `(dx, dy)`
/// (rows above `dy`, and the row of `dy` left of `dx`) found only
/// foreground samples.
spec fn scanned_clear(src: Seq<u8>, w: int, h: int, x: int, y: int, dy: int, dx: int) -> bool {
    forall|nx: int, ny: int|
        #![trigger sample(src, w, h, nx, ny)]
        x - 1 <= nx <= x + 1 && y - 1 <= ny <= y + 1 && !(nx == x && ny == y) && (ny < y + dy || (
        ny == y + dy && nx < x + dx)) ==> sample(src, w, h, nx, ny) >= 128
}

/// Classifies every pixel of `src` into background, interior or boundary,
/// writing the result into `dst`.
#[verifier::loop_isolation(false)]
pub fn edge_detect(src: &Vec<u8>, dst: &mut Vec<u8>, width: usize, height: usize)
    requires
        width * height <= i32::MAX,
        src@.len() == width * height,
        old(dst)@.len() == width * height,
    ensures
        final(dst)@.len() == old(dst)@.len(),
        forall|x: int, y: int|
            0 <= x < width && 0 <= y < height ==> final(dst)@[y * width + x] == #[trigger] edge_value(
                src@,
                width as int,
                height as int,
                x,
                y,
            ),
{
    let ghost w = width as int;
    let ghost h = height as int;
    let mut pos_y: usize = 0;
    while pos_y < height
        invariant
            pos_y <= height,
            dst@.len() == width * height,
            forall|x: int, y: int|
                0 <= x < w && 0 <= y < pos_y ==> dst@[y * w + x] == #[trigger] edge_value(
                    src@,
                    w,
                    h,
                    x,
                    y,
                ),
        decreases height - pos_y,
    {
        let mut pos_x: usize = 0;
        while pos_x < width
            invariant
                pos_x <= width,
                pos_y < height,
                dst@.len() == width * height,
                forall|x: int, y: int|
                    0 <= x < w && 0 <= y < pos_y ==> dst@[y * w + x] == #[trigger] edge_value(
                        src@,
                        w,
                        h,
                        x,
                        y,
                    ),
                forall|x: int|
                    0 <= x < pos_x ==> dst@[pos_y * w + x] == #[trigger] edge_value(
                        src@,
                        w,
                        h,
                        x,
                        pos_y as int,
                    ),
            decreases width - pos_x,
        {
            proof {
                assert(width <= i32::MAX && height <= i32::MAX) by (nonlinear_arith)
                    requires
                        1 <= width,
                        1 <= height,
                        width * height <= i32::MAX,
                ;
            }
            let xi = pos_x as i32;
            let yi = pos_y as i32;
            let offset = get_offset(xi, yi, width, height);
            let value: u8;
            if src[offset] >= 128 {
                let mut is_edge = false;
                let mut dy: i32 = -1;
                while dy <= 1
                    invariant
                        -1 <= dy <= 2,
                        is_edge ==> has_background_neighbor(src@, w, h, pos_x as int, pos_y as int),
                        !is_edge ==> scanned_clear(src@, w, h, pos_x as int, pos_y as int, dy as int, -1),
                    decreases 2 - dy,
                {
                    let mut dx: i32 = -1;
                    while dx <= 1
                        invariant
                            -1 <= dy <= 1,
                            -1 <= dx <= 2,
                            is_edge ==> has_background_neighbor(
                                src@,
                                w,
                                h,
                                pos_x as int,
                                pos_y as int,
                            ),
                            !is_edge ==> scanned_clear(
                                src@,
                                w,
                                h,
                                pos_x as int,
                                pos_y as int,
                                dy as int,
                                dx as int,
                            ),
                        decreases 2 - dx,
                    {
                        if dx != 0 || dy != 0 {
                            let noffset = get_offset(xi + dx, yi + dy, width, height);
                            if src[noffset] < 128 {
                                proof {
                                    assert(sample(src@, w, h, (xi + dx) as int, (yi + dy) as int)
                                        < 128);
                                }
                                is_edge = true;
                            }
                        }
                        dx = dx + 1;
                    }
                    dy = dy + 1;
                }
                proof {
                    if !is_edge {
                        let ghost px = pos_x as int;
                        let ghost py = pos_y as int;
                        assert(!has_background_neighbor(src@, w, h, px, py)) by {
                            if has_background_neighbor(src@, w, h, px, py) {
                                let (nx, ny): (int, int) = choose|nx: int, ny: int|
                                    px - 1 <= nx <= px + 1 && py - 1 <= ny <= py + 1 && !(nx == px
                                        && ny == py) && sample(src@, w, h, nx, ny) < 128;
                                assert(sample(src@, w, h, nx, ny) >= 128);
                            }
                        }
                    }
                }
                value = if is_edge {
                    255
                } else {
                    127
                };
            } else {
                value = 0;
            }
            dst[offset] = value;
            proof {
                assert(value == edge_value(src@, w, h, pos_x as int, pos_y as int));
                assert forall|x: int, y: int|
                    0 <= x < w && 0 <= y < pos_y implies dst@[y * w + x] == #[trigger] edge_value(
                    src@,
                    w,
                    h,
                    x,
                    y,
                ) by {
                    lemma_offset_in_range(x, y, w, h);
                    if y * w + x == pos_y * w + pos_x {
                        lemma_row_major_injective(w, x, y, pos_x as int, pos_y as int);
                    }
                }
                assert forall|x: int|
                    0 <= x < pos_x + 1 implies dst@[pos_y * w + x] == #[trigger] edge_value(
                    src@,
                    w,
                    h,
                    x,
                    pos_y as int,
                ) by {
                    lemma_offset_in_range(x, pos_y as int, w, h);
                    if x < pos_x && pos_y * w + x == pos_y * w + pos_x {
                        lemma_row_major_injective(w, x, pos_y as int, pos_x as int, pos_y as int);
                    }
                }
            }
            pos_x = pos_x + 1;
        }
        pos_y = pos_y + 1;
    }
}

/// Every pixel of a uniformly foreground image is classified interior:
/// with all samples at or above the threshold there is no background
/// neighbour anywhere, at the border as well, since clamped sampling never
/// reads outside the image.
pub proof fn lemma_edge_value_all_foreground(src: Seq<u8>, w: int, h: int, x: int, y: int)
    requires
        1 <= w,
        1 <= h,
        src.len() == w * h,
        forall|i: int| 0 <= i < src.len() ==> src[i] >= 128,
    ensures
        edge_value(src, w, h, x, y) == 127,
{
    lemma_offset_in_range(x, y, w, h);
    assert(!has_background_neighbor(src, w, h, x, y)) by {
        if has_background_neighbor(src, w, h, x, y) {
            let (nx, ny): (int, int) = choose|nx: int, ny: int|
                x - 1 <= nx <= x + 1 && y - 1 <= ny <= y + 1 && !(nx == x && ny == y) && sample(
                    src,
                    w,
                    h,
                    nx,
                    ny,
                ) < 128;
            lemma_offset_in_range(nx, ny, w, h);
        }
    }
}

/// The integer square root: the greatest `r` with `r * r <= n`.
pub open spec fn sqrt_floor(n: int) -> int
    decreases n,
{
    if n < 1 {
        0
    } else {
        let r = sqrt_floor(n - 1);
        if (r + 1) * (r + 1) <= n {
            r + 1
        } else {
            r
        }
    }
}

/// `sqrt_floor(n)` is bracketed by the two neighbouring squares.
pub proof fn lemma_sqrt_floor_bounds(n: int)
    requires
        0 <= n,
    ensures
        0 <= sqrt_floor(n),
        sqrt_floor(n) * sqrt_floor(n) <= n,
        n < (sqrt_floor(n) + 1) * (sqrt_floor(n) + 1),
    decreases n,
{
    if 1 <= n {
        lemma_sqrt_floor_bounds(n - 1);
        let r = sqrt_floor(n - 1);
        if (r + 1) * (r + 1) <= n {
            assert(n < (r + 2) * (r + 2)) by (nonlinear_arith)
                requires
                    0 <= r,
                    n <= (r + 1) * (r + 1),
            ;
        }
    }
}

/// No two integers have squares bracketing the same `n`.
pub proof fn lemma_sqrt_floor_unique(n: int, r: int)
    requires
        0 <= n,
        0 <= r,
        r * r <= n,
        n < (r + 1) * (r + 1),
    ensures
        r == sqrt_floor(n),
{
    lemma_sqrt_floor_bounds(n);
    let s = sqrt_floor(n);
    assert(r == s) by (nonlinear_arith)
        requires
            0 <= r,
            0 <= s,
            r * r <= n,
            n < (r + 1) * (r + 1),
            s * s <= n,
            n < (s + 1) * (s + 1),
    ;
}

/// The integer square root, by counting up to the last root whose square
/// still fits under `n`.
fn isqrt(n: u64) -> (r: u64)
    requires
        n <= 0x4000_0000_0000_0000,
    ensures
        r == sqrt_floor(n as int),
{
    let mut r: u64 = 0;
    loop
        invariant
            n <= 0x4000_0000_0000_0000,
            r * r <= n,
            r <= n,
            r <= 0x8000_0000,
        ensures
            r * r <= n,
            n < (r + 1) * (r + 1),
        decreases n - r,
    {
        proof {
            assert((r + 1) * (r + 1) <= u64::MAX) by (nonlinear_arith)
                requires
                    0 <= r <= 0x8000_0000u64,
            ;
        }
        let next = r + 1;
        if next * next <= n {
            r = next;
            proof {
                assert(r <= n && r <= 0x8000_0000) by (nonlinear_arith)
                    requires
                        1 <= r,
                        r * r <= n,
                        n <= 0x4000_0000_0000_0000,
                ;
            }
        } else {
            break;
        }
    }
    proof {
        lemma_sqrt_floor_unique(n as int, r as int);
    }
    r
}

/// Whether the probe at offset `t` on the square ring of Chebyshev radius
/// `d` around `(ex, ey)` finds a boundary pixel (a sample above 192) at
/// any of its four sample points: top, bottom, left, right.
pub open spec fn ring_probe(edge: Seq<u8>, w: int, h: int, ex: int, ey: int, d: int, t: int) -> bool {
    sample(edge, w, h, ex + t, ey - d) > 192 || sample(edge, w, h, ex + t, ey + d) > 192 || sample(
        edge,
        w,
        h,
        ex - d,
        ey + t,
    ) > 192 || sample(edge, w, h, ex + d, ey + t) > 192
}

/// The first probe offset at or after `t` on ring `d` that hits a boundary
/// pixel, scanning `t` ascending up to `d`; `None` when the rest of the
/// ring is clear.
pub open spec fn ring_first_hit_from(
    edge: Seq<u8>,
    w: int,
    h: int,
    ex: int,
    ey: int,
    d: int,
    t: int,
) -> Option<int>
    decreases d + 1 - t,
{
    if t > d {
        None
    } else if ring_probe(edge, w, h, ex, ey, d, t) {
        Some(t)
    } else {
        ring_first_hit_from(edge, w, h, ex, ey, d, t + 1)
    }
}

/// The first ring at or after radius `d` (scanning outward to `radius`)
/// that contains a boundary pixel, paired with the offset of the first hit
/// on it; `None` when every ring up to `radius` is clear.
pub open spec fn first_hit_from(
    edge: Seq<u8>,
    w: int,
    h: int,
    ex: int,
    ey: int,
    d: int,
    radius: int,
) -> Option<(int, int)>
    decreases radius + 1 - d,
{
    if d > radius {
        None
    } else {
        match ring_first_hit_from(edge, w, h, ex, ey, d, -d) {
            Some(t) => Some((d, t)),
            None => first_hit_from(edge, w, h, ex, ey, d + 1, radius),
        }
    }
}

/// The scaled distance byte for a hit at ring `d`, offset `t`: the
/// Euclidean distance `sqrt(t * t + d * d)` normalized by `radius`,
/// clamped to one, and scaled to 127, rounding down.  Scaling by 127 under
/// the root (127 * 127 == 16129) keeps the computation in integers.
pub open spec fn sdf_magnitude(d: int, t: int, radius: int) -> int {
    let q = sqrt_floor(16129 * (t * t + d * d)) / radius;
    if q > 127 {
        127
    } else {
        q
    }
}

/// One pixel of the distance field for `edge`: the sample centre is the
/// stride-scaled centre of the output pixel, classified inside when its
/// edge value exceeds 96; the first boundary hit of the outward ring
/// search gives the magnitude, added to the 127 zero-crossing when inside
/// and subtracted when outside; without a hit the field saturates to 254
/// inside and 0 outside.
pub open spec fn sdf_value(
    edge: Seq<u8>,
    w: int,
    h: int,
    stride: int,
    radius: int,
    sx: int,
    sy: int,
) -> int {
    let ex = sx * stride + stride / 2;
    let ey = sy * stride + stride / 2;
    let inside = sample(edge, w, h, ex, ey) > 96;
    match first_hit_from(edge, w, h, ex, ey, 1, radius) {
        None => if inside {
            254
        } else {
            0
        },
        Some(ht) => {
            let m = sdf_magnitude(ht.0, ht.1, radius);
            if inside {
                127 + m
            } else {
                127 - m
            }
        },
    }
}

/// Generates the signed-distance field of the edge image `edge` into
/// `sdf`, sampling one centre per `stride`-wide cell and searching
/// boundary pixels outward up to `search_radius` rings.
#[verifier::loop_isolation(false)]
pub fn sdf_generate(
    edge: &Vec<u8>,
    sdf: &mut Vec<u8>,
    edge_width: usize,
    edge_height: usize,
    sdf_width: usize,
    sdf_height: usize,
    stride: usize,
    search_radius: usize,
)
    requires
        1 <= edge_width,
        1 <= edge_height,
        edge_width * edge_height <= i32::MAX,
        edge@.len() == edge_width * edge_height,
        old(sdf)@.len() == sdf_width * sdf_height,
        sdf_width * sdf_height <= i32::MAX,
        1 <= stride,
        1 <= search_radius <= 0x7fff,
        sdf_width * stride + search_radius <= i32::MAX,
        sdf_height * stride + search_radius <= i32::MAX,
    ensures
        final(sdf)@.len() == old(sdf)@.len(),
        forall|sx: int, sy: int|
            0 <= sx < sdf_width && 0 <= sy < sdf_height ==> final(sdf)@[sy * sdf_width + sx]
                == #[trigger] sdf_value(
                edge@,
                edge_width as int,
                edge_height as int,
                stride as int,
                search_radius as int,
                sx,
                sy,
            ),
{
    let ghost ew = edge_width as int;
    let ghost eh = edge_height as int;
    let ghost sw = sdf_width as int;
    let ghost sh = sdf_height as int;
    let ghost stridei = stride as int;
    let ghost radiusi = search_radius as int;
    let mut sdf_pos_y: usize = 0;
    while sdf_pos_y < sdf_height
        invariant
            sdf_pos_y <= sdf_height,
            sdf@.len() == sdf_width * sdf_height,
            forall|sx: int, sy: int|
                0 <= sx < sw && 0 <= sy < sdf_pos_y ==> sdf@[sy * sw + sx] == #[trigger] sdf_value(
                    edge@,
                    ew,
                    eh,
                    stridei,
                    radiusi,
                    sx,
                    sy,
                ),
        decreases sdf_height - sdf_pos_y,
    {
        let mut sdf_pos_x: usize = 0;
        while sdf_pos_x < sdf_width
            invariant
                sdf_pos_x <= sdf_width,
                sdf_pos_y < sdf_height,
                sdf@.len() == sdf_width * sdf_height,
                forall|sx: int, sy: int|
                    0 <= sx < sw && 0 <= sy < sdf_pos_y ==> sdf@[sy * sw + sx]
                        == #[trigger] sdf_value(edge@, ew, eh, stridei, radiusi, sx, sy),
                forall|sx: int|
                    0 <= sx < sdf_pos_x ==> sdf@[sdf_pos_y * sw + sx] == #[trigger] sdf_value(
                        edge@,
                        ew,
                        eh,
                        stridei,
                        radiusi,
                        sx,
                        sdf_pos_y as int,
                    ),
            decreases sdf_width - sdf_pos_x,
        {
            proof {
                assert(sdf_width <= i32::MAX && sdf_height <= i32::MAX) by (nonlinear_arith)
                    requires
                        1 <= sdf_width,
                        1 <= sdf_height,
                        sdf_width * sdf_height <= i32::MAX,
                ;
                assert(stride <= sdf_width * stride && sdf_pos_x * stride + stride <= sdf_width
                    * stride) by (nonlinear_arith)
                    requires
                        1 <= stride,
                        1 <= sdf_width,
                        0 <= sdf_pos_x < sdf_width,
                ;
                assert(stride <= sdf_height * stride && sdf_pos_y * stride + stride <= sdf_height
                    * stride) by (nonlinear_arith)
                    requires
                        1 <= stride,
                        1 <= sdf_height,
                        0 <= sdf_pos_y < sdf_height,
                ;
            }
            let sxi = sdf_pos_x as i32;
            let syi = sdf_pos_y as i32;
            let sdf_offset = get_offset(sxi, syi, sdf_width, sdf_height);
            let stride_i = stride as i32;
            let radius_i = search_radius as i32;
            let edge_pos_x: i32 = sxi * stride_i + stride_i / 2;
            let edge_pos_y: i32 = syi * stride_i + stride_i / 2;
            let ghost ex = edge_pos_x as int;
            let ghost ey = edge_pos_y as int;
            let edge_offset = get_offset(edge_pos_x, edge_pos_y, edge_width, edge_height);
            let is_inner = edge[edge_offset] > 96;
            let mut min_distance: i32 = if is_inner {
                127
            } else {
                -127
            };
            let mut found = false;
            let mut d: i32 = 1;
            while d <= radius_i && !found
                invariant
                    1 <= d <= radius_i + 1,
                    found ==> min_distance + 127 == sdf_value(
                        edge@,
                        ew,
                        eh,
                        stridei,
                        radiusi,
                        sdf_pos_x as int,
                        sdf_pos_y as int,
                    ),
                    !found ==> min_distance == (if is_inner {
                        127int
                    } else {
                        -127int
                    }),
                    !found ==> first_hit_from(edge@, ew, eh, ex, ey, 1, radiusi) == first_hit_from(
                        edge@,
                        ew,
                        eh,
                        ex,
                        ey,
                        d as int,
                        radiusi,
                    ),
                    -127 <= min_distance <= 127,
                decreases radius_i - d + if found {
                    0int
                } else {
                    1int
                },
            {
                let mut t: i32 = -d;
                while t <= d && !found
                    invariant
                        1 <= d <= radius_i,
                        -d <= t <= d + 1,
                        found ==> min_distance + 127 == sdf_value(
                            edge@,
                            ew,
                            eh,
                            stridei,
                            radiusi,
                            sdf_pos_x as int,
                            sdf_pos_y as int,
                        ),
                        !found ==> min_distance == (if is_inner {
                            127int
                        } else {
                            -127int
                        }),
                        !found ==> first_hit_from(edge@, ew, eh, ex, ey, 1, radiusi)
                            == first_hit_from(edge@, ew, eh, ex, ey, d as int, radiusi),
                        !found ==> ring_first_hit_from(edge@, ew, eh, ex, ey, d as int, -d as int)
                            == ring_first_hit_from(edge@, ew, eh, ex, ey, d as int, t as int),
                        -127 <= min_distance <= 127,
                    decreases d - t + if found {
                        0int
                    } else {
                        1int
                    },
                {
                    let top = get_offset(edge_pos_x + t, edge_pos_y - d, edge_width, edge_height);
                    let bottom = get_offset(
                        edge_pos_x + t,
                        edge_pos_y + d,
                        edge_width,
                        edge_height,
                    );
                    let left = get_offset(edge_pos_x - d, edge_pos_y + t, edge_width, edge_height);
                    let right = get_offset(edge_pos_x + d, edge_pos_y + t, edge_width, edge_height);
                    if edge[top] > 192 || edge[bottom] > 192 || edge[left] > 192 || edge[right]
                        > 192 {
                        proof {
                            assert(ring_probe(edge@, ew, eh, ex, ey, d as int, t as int));
                            assert(ring_first_hit_from(edge@, ew, eh, ex, ey, d as int, t as int)
                                == Some(t as int));
                            assert(first_hit_from(edge@, ew, eh, ex, ey, d as int, radiusi) == Some(
                                (d as int, t as int),
                            ));
                            assert(0 <= (t as int) * (t as int) <= 0x7fff * 0x7fff && 0 <= (
                            d as int) * (d as int) <= 0x7fff * 0x7fff) by (nonlinear_arith)
                                requires
                                    -0x7fff <= t as int <= 0x7fff,
                                    1 <= d as int <= 0x7fff,
                            ;
                        }
                        let squares: i32 = t * t + d * d;
                        let s64: u64 = 16129u64 * (squares as u64);
                        let m64: u64 = isqrt(s64) / (search_radius as u64);
                        let m: i32 = if m64 > 127 {
                            127
                        } else {
                            m64 as i32
                        };
                        min_distance = if is_inner {
                            m
                        } else {
                            -m
                        };
                        found = true;
                        proof {
                            assert(m == sdf_magnitude(d as int, t as int, radiusi));
                            assert(min_distance + 127 == sdf_value(
                                edge@,
                                ew,
                                eh,
                                stridei,
                                radiusi,
                                sdf_pos_x as int,
                                sdf_pos_y as int,
                            ));
                        }
                    } else {
                        proof {
                            assert(ring_first_hit_from(edge@, ew, eh, ex, ey, d as int, t as int)
                                == ring_first_hit_from(edge@, ew, eh, ex, ey, d as int, t as int
                                + 1));
                        }
                        t = t + 1;
                    }
                }
                if !found {
                    proof {
                        assert(ring_first_hit_from(edge@, ew, eh, ex, ey, d as int, d as int + 1)
                            == None::<int>);
                        assert(first_hit_from(edge@, ew, eh, ex, ey, d as int, radiusi)
                            == first_hit_from(edge@, ew, eh, ex, ey, d as int + 1, radiusi));
                    }
                    d = d + 1;
                }
            }
            proof {
                if !found {
                    assert(first_hit_from(edge@, ew, eh, ex, ey, d as int, radiusi)
                        == None::<(int, int)>);
                }
                assert(min_distance + 127 == sdf_value(
                    edge@,
                    ew,
                    eh,
                    stridei,
                    radiusi,
                    sdf_pos_x as int,
                    sdf_pos_y as int,
                ));
            }
            sdf[sdf_offset] = (min_distance + 127) as u8;
            proof {
                assert forall|sx: int, sy: int|
                    0 <= sx < sw && 0 <= sy < sdf_pos_y implies sdf@[sy * sw + sx]
                    == #[trigger] sdf_value(edge@, ew, eh, stridei, radiusi, sx, sy) by {
                    lemma_offset_in_range(sx, sy, sw, sh);
                    if sy * sw + sx == sdf_pos_y * sw + sdf_pos_x {
                        lemma_row_major_injective(sw, sx, sy, sdf_pos_x as int, sdf_pos_y as int);
                    }
                }
                assert forall|sx: int|
                    0 <= sx < sdf_pos_x + 1 implies sdf@[sdf_pos_y * sw + sx]
                    == #[trigger] sdf_value(edge@, ew, eh, stridei, radiusi, sx, sdf_pos_y as int) by {
                    lemma_offset_in_range(sx, sdf_pos_y as int, sw, sh);
                    if sx < sdf_pos_x && sdf_pos_y * sw + sx == sdf_pos_y * sw + sdf_pos_x {
                        lemma_row_major_injective(
                            sw,
                            sx,
                            sdf_pos_y as int,
                            sdf_pos_x as int,
                            sdf_pos_y as int,
                        );
                    }
                }
            }
            sdf_pos_x = sdf_pos_x + 1;
        }
        sdf_pos_y = sdf_pos_y + 1;
    }
}

/// A ring scan over an image with no boundary pixels finds nothing.
pub proof fn lemma_ring_clear(edge: Seq<u8>, w: int, h: int, ex: int, ey: int, d: int, t: int)
    requires
        1 <= w,
        1 <= h,
        edge.len() == w * h,
        forall|i: int| 0 <= i < edge.len() ==> edge[i] <= 192,
    ensures
        ring_first_hit_from(edge, w, h, ex, ey, d, t) == None::<int>,
    decreases d + 1 - t,
{
    if t <= d {
        lemma_offset_in_range(ex + t, ey - d, w, h);
        lemma_offset_in_range(ex + t, ey + d, w, h);
        lemma_offset_in_range(ex - d, ey + t, w, h);
        lemma_offset_in_range(ex + d, ey + t, w, h);
        lemma_ring_clear(edge, w, h, ex, ey, d, t + 1);
    }
}

/// The outward ring search over an image with no boundary pixels finds
/// nothing at any radius.
pub proof fn lemma_no_hit(edge: Seq<u8>, w: int, h: int, ex: int, ey: int, d: int, radius: int)
    requires
        1 <= w,
        1 <= h,
        edge.len() == w * h,
        forall|i: int| 0 <= i < edge.len() ==> edge[i] <= 192,
    ensures
        first_hit_from(edge, w, h, ex, ey, d, radius) == None::<(int, int)>,
    decreases radius + 1 - d,
{
    if d <= radius {
        lemma_ring_clear(edge, w, h, ex, ey, d, -d);
        lemma_no_hit(edge, w, h, ex, ey, d + 1, radius);
    }
}

/// An edge image with no boundary pixels (every value at most 192) makes
/// every distance-field pixel saturate to its extreme: 254 when the
/// centre sample classifies inside, 0 when outside.
pub proof fn lemma_sdf_saturated(
    edge: Seq<u8>,
    w: int,
    h: int,
    stride: int,
    radius: int,
    sx: int,
    sy: int,
)
    requires
        1 <= w,
        1 <= h,
        1 <= stride,
        1 <= radius,
        edge.len() == w * h,
        forall|i: int| 0 <= i < edge.len() ==> edge[i] <= 192,
    ensures
        sdf_value(edge, w, h, stride, radius, sx, sy) == (if sample(
            edge,
            w,
            h,
            sx * stride + stride / 2,
            sy * stride + stride / 2,
        ) > 96 {
            254int
        } else {
            0int
        }),
{
    let ex = sx * stride + stride / 2;
    let ey = sy * stride + stride / 2;
    lemma_no_hit(edge, w, h, ex, ey, 1, radius);
}


} // verus!
