//! The atlas assembler: shelf-packs finished glyphs into fixed-size pages.
//!
//! Glyphs arrive in arbitrary completion order and are placed left to
//! right along the current row; when a glyph does not fit the row the
//! cursor opens the next row, and when the page has no room for another
//! row the full page is flushed and a fresh one started.  Every placement
//! appends one immutable record; flushed pages are kept, in page order,
//! for storage to write out.

use crate::mono_image::MonoImage;
use crate::program_cpu::lemma_row_major_injective;
use crate::program_cpu::offset_of;
use crate::program_cpu::sample;
use vstd::arithmetic::div_mod::lemma_fundamental_div_mod;
use vstd::arithmetic::div_mod::lemma_mod_bound;
use vstd::arithmetic::div_mod::lemma_fundamental_div_mod_converse;
use vstd::prelude::*;

verus! {

/// One placement: where a character's glyph landed.
#[derive(Clone, Copy, PartialEq, Eq, Structural, Debug)]
pub struct AtlasRecord {
    /// The character the glyph renders.
    pub character: char,
    /// The page the glyph was placed on.
    pub page_id: usize,
    /// Left edge of the glyph on the page, margins included.
    pub x: usize,
    /// Top edge of the glyph on the page, margins included.
    pub y: usize,
    /// Glyph width in pixels, margins not included.
    pub w: usize,
    /// Glyph height in pixels, margins not included.
    pub h: usize,
}

/// The shelf-packing atlas assembler.
pub struct AtlasGenerator {
    /// The page being filled.
    pub page: MonoImage,
    /// Index of the page being filled.
    pub page_id: usize,
    /// Where the output files will be written; carried for storage.
    pub output_dir: String,
    /// Cursor: left edge of the next placement in the current row.
    pub x: usize,
    /// Cursor: top edge of the current row.
    pub y: usize,
    /// Height of the tallest placement in the current row.
    pub current_height: usize,
    /// Horizontal margin added on both sides of every glyph.
    pub margin_x: usize,
    /// Vertical margin added above and below every glyph.
    pub margin_y: usize,
    /// One record per placed glyph, in placement order.
    pub metadata: Vec<AtlasRecord>,
    /// Pages already filled and flushed, in page order.
    pub flushed: Vec<MonoImage>,
}

/// An all-zero pixel buffer of `n` bytes.
pub open spec fn zeroed(n: int) -> Seq<u8> {
    Seq::new(n as nat, |i: int| 0u8)
}

/// The page buffer after copying the first `k` glyph pixels (in row-major
/// order) to origin `(ox, oy)`, each write clamped at the page border.
pub open spec fn blitted(
    page: Seq<u8>,
    pw: int,
    ph: int,
    glyph: Seq<u8>,
    gw: int,
    gh: int,
    ox: int,
    oy: int,
    k: int,
) -> Seq<u8>
    decreases k,
{
    if k <= 0 || gw <= 0 {
        page
    } else {
        let prev = blitted(page, pw, ph, glyph, gw, gh, ox, oy, k - 1);
        let gx = (k - 1) % gw;
        let gy = (k - 1) / gw;
        prev.update(offset_of(ox + gx, oy + gy, pw, ph), glyph[offset_of(gx, gy, gw, gh)])
    }
}

/// The width a glyph occupies on the page: the glyph plus both margins.
pub open spec fn padded_width(g: AtlasGenerator, image: MonoImage) -> int {
    image.width + 2 * g.margin_x
}

/// The height a glyph occupies on the page: the glyph plus both margins.
pub open spec fn padded_height(g: AtlasGenerator, image: MonoImage) -> int {
    image.height + 2 * g.margin_y
}

/// Whether the glyph still fits the current row at the cursor.
pub open spec fn fits_row(g: AtlasGenerator, image: MonoImage) -> bool {
    g.x + padded_width(g, image) < g.page.width
}

/// Whether the page still has room to open another row.
pub open spec fn fits_column(g: AtlasGenerator) -> bool {
    g.y + g.current_height < g.page.height
}

/// The page a pushed glyph lands on: the current page, or the next one
/// when neither the row nor the column has room.
pub open spec fn pushed_page_id(g: AtlasGenerator, image: MonoImage) -> int {
    if !fits_row(g, image) && !fits_column(g) {
        g.page_id + 1
    } else {
        g.page_id as int
    }
}

/// Left edge of the padded placement of a pushed glyph.
pub open spec fn place_origin_x(g: AtlasGenerator, image: MonoImage) -> int {
    if fits_row(g, image) {
        g.x as int
    } else {
        0
    }
}

/// Top edge of the padded placement of a pushed glyph.
pub open spec fn place_origin_y(g: AtlasGenerator, image: MonoImage) -> int {
    if fits_row(g, image) {
        g.y as int
    } else if fits_column(g) {
        g.y + g.current_height
    } else {
        0
    }
}

/// The record a push appends for its glyph.
pub open spec fn pushed_record(g: AtlasGenerator, ch: char, image: MonoImage) -> AtlasRecord {
    AtlasRecord {
        character: ch,
        page_id: pushed_page_id(g, image) as usize,
        x: (place_origin_x(g, image) + g.margin_x) as usize,
        y: (place_origin_y(g, image) + g.margin_y) as usize,
        w: image.width,
        h: image.height,
    }
}

impl AtlasGenerator {
    /// The assembler invariant: a well-formed page, the cursor inside it,
    /// one flushed page per finished page index, and page dimensions that
    /// leave cursor arithmetic room.
    pub open spec fn wf(&self) -> bool {
        &&& self.page.wf()
        &&& self.x <= self.page.width
        &&& self.y <= self.page.height
        &&& self.current_height <= self.page.height
        &&& self.flushed@.len() == self.page_id
        &&& self.page.width <= usize::MAX / 2
        &&& self.page.height <= usize::MAX / 2
    }

    /// A fresh assembler over an empty first page.
    pub fn new(
        width: usize,
        height: usize,
        output_dir: String,
        margin_x: usize,
        margin_y: usize,
    ) -> (r: Self)
        requires
            width * height <= usize::MAX,
            width <= usize::MAX / 2,
            height <= usize::MAX / 2,
        ensures
            r.wf(),
            r.page.width == width,
            r.page.height == height,
            forall|i: int| 0 <= i < r.page.pixels@.len() ==> r.page.pixels@[i] == 0,
            r.page_id == 0,
            r.x == 0,
            r.y == 0,
            r.current_height == 0,
            r.margin_x == margin_x,
            r.margin_y == margin_y,
            r.metadata@.len() == 0,
            r.flushed@.len() == 0,
            r.output_dir == output_dir,
    {
        AtlasGenerator {
            page: MonoImage::new(width, height),
            page_id: 0,
            output_dir,
            x: 0,
            y: 0,
            current_height: 0,
            metadata: Vec::new(),
            flushed: Vec::new(),
            margin_x,
            margin_y,
        }
    }

    /// Opens the next row when vertical space remains; reports whether it
    /// did.
    fn next_line(&mut self) -> (advanced: bool)
        requires
            old(self).wf(),
        ensures
            final(self).wf(),
            advanced == fits_column(*old(self)),
            advanced ==> final(self).y == old(self).y + old(self).current_height,
            advanced ==> final(self).current_height == 0 && final(self).x == 0,
            !advanced ==> *final(self) == *old(self),
            final(self).page == old(self).page,
            final(self).page_id == old(self).page_id,
            final(self).margin_x == old(self).margin_x,
            final(self).margin_y == old(self).margin_y,
            final(self).metadata == old(self).metadata,
            final(self).flushed == old(self).flushed,
            final(self).output_dir == old(self).output_dir,
    {
        if self.y + self.current_height < self.page.height {
            self.y = self.y + self.current_height;
            self.current_height = 0;
            self.x = 0;
            true
        } else {
            false
        }
    }

    /// A copy of the page being filled, as handed to storage.
    pub fn save_current_page(&self) -> (page: MonoImage)
        ensures
            page.width == self.page.width,
            page.height == self.page.height,
            page.pixels@ == self.page.pixels@,
    {
        let n = self.page.pixels.len();
        let mut pixels: Vec<u8> = Vec::new();
        let mut i: usize = 0;
        while i < n
            invariant
                i <= n,
                n == self.page.pixels@.len(),
                pixels@.len() == i,
                forall|j: int| 0 <= j < i ==> pixels@[j] == self.page.pixels@[j],
            decreases n - i,
        {
            pixels.push(self.page.pixels[i]);
            i = i + 1;
        }
        proof {
            assert(pixels@ =~= self.page.pixels@);
        }
        MonoImage { pixels, width: self.page.width, height: self.page.height }
    }

    /// Starts the next page: bumps the page index, resets the cursor and
    /// clears the page buffer.  Called once the finished page has been
    /// appended to `flushed`.
    fn next_page(&mut self)
        requires
            old(self).page.wf(),
            old(self).page.width <= usize::MAX / 2,
            old(self).page.height <= usize::MAX / 2,
            old(self).flushed@.len() == old(self).page_id + 1,
            old(self).flushed@.len() <= usize::MAX,
        ensures
            final(self).wf(),
            final(self).page_id == old(self).page_id + 1,
            final(self).x == 0,
            final(self).y == 0,
            final(self).current_height == 0,
            final(self).page.width == old(self).page.width,
            final(self).page.height == old(self).page.height,
            final(self).page.pixels@.len() == old(self).page.pixels@.len(),
            forall|i: int|
                0 <= i < final(self).page.pixels@.len() ==> final(self).page.pixels@[i] == 0,
            final(self).margin_x == old(self).margin_x,
            final(self).margin_y == old(self).margin_y,
            final(self).metadata == old(self).metadata,
            final(self).flushed == old(self).flushed,
            final(self).output_dir == old(self).output_dir,
    {
        self.page_id = self.page_id + 1;
        self.current_height = 0;
        self.x = 0;
        self.y = 0;
        self.page.clear_color();
    }

    /// Places one glyph: advances the shelf cursor (opening a row or a
    /// fresh page as needed), copies the glyph onto the page inside its
    /// margins, and appends its placement record.  The glyph, margins
    /// included, must fit a page.
    #[verifier::loop_isolation(false)]
    pub fn push(&mut self, ch: char, image: &MonoImage)
        requires
            old(self).wf(),
            image.wf(),
            image.width + 2 * old(self).margin_x <= old(self).page.width,
            image.height + 2 * old(self).margin_y <= old(self).page.height,
        ensures
            final(self).wf(),
            // configuration and page frame are kept
            final(self).margin_x == old(self).margin_x,
            final(self).margin_y == old(self).margin_y,
            final(self).output_dir == old(self).output_dir,
            final(self).page.width == old(self).page.width,
            final(self).page.height == old(self).page.height,
            // the page index never decreases, and grows by at most one
            final(self).page_id == pushed_page_id(*old(self), *image),
            old(self).page_id <= final(self).page_id <= old(self).page_id + 1,
            // a full page is flushed exactly when the index grew
            final(self).page_id == old(self).page_id ==> final(self).flushed
                == old(self).flushed,
            final(self).page_id == old(self).page_id + 1 ==> {
                &&& final(self).flushed@.len() == old(self).flushed@.len() + 1
                &&& forall|i: int|
                    0 <= i < old(self).flushed@.len() ==> final(self).flushed@[i] == old(
                        self,
                    ).flushed@[i]
                &&& final(self).flushed@.last().width == old(self).page.width
                &&& final(self).flushed@.last().height == old(self).page.height
                &&& final(self).flushed@.last().pixels@ == old(self).page.pixels@
            },
            // one record is appended for this glyph
            final(self).metadata@ == old(self).metadata@.push(
                pushed_record(*old(self), ch, *image),
            ),
            // the cursor advances past the placement
            final(self).x == place_origin_x(*old(self), *image) + image.width + 2 * old(
                self,
            ).margin_x,
            final(self).y == place_origin_y(*old(self), *image),
            final(self).current_height == (if fits_row(*old(self), *image) && old(
                self,
            ).current_height > padded_height(*old(self), *image) {
                old(self).current_height as int
            } else {
                padded_height(*old(self), *image)
            }),
            // the glyph pixels are copied to the placement origin, onto
            // the kept page or onto the fresh one
            final(self).page.pixels@ == blitted(
                if pushed_page_id(*old(self), *image) == old(self).page_id {
                    old(self).page.pixels@
                } else {
                    zeroed(old(self).page.width * old(self).page.height)
                },
                old(self).page.width as int,
                old(self).page.height as int,
                image.pixels@,
                image.width as int,
                image.height as int,
                place_origin_x(*old(self), *image) + old(self).margin_x,
                place_origin_y(*old(self), *image) + old(self).margin_y,
                image.width * image.height,
            ),
    {
        let ghost g0 = *old(self);
        let width = image.width + 2 * self.margin_x;
        let height = image.height + 2 * self.margin_y;

        if self.x + width >= self.page.width {
            if !self.next_line() {
                let snapshot = self.save_current_page();
                self.flushed.push(snapshot);
                let flushed_len = self.flushed.len();
                proof {
                    assert(self.flushed@.len() == flushed_len);
                }
                self.next_page();
            }
        }
        proof {
            assert(self.page_id == pushed_page_id(g0, *image));
            assert(self.x as int == place_origin_x(g0, *image));
            assert(self.y as int == place_origin_y(g0, *image));
        }

        self.current_height = if height > self.current_height {
            height
        } else {
            self.current_height
        };

        let ghost g1 = *self;
        let ghost base = self.page.pixels@;
        let ghost pw = self.page.width as int;
        let ghost ph = self.page.height as int;
        let ghost gw = image.width as int;
        let ghost gh = image.height as int;
        let ghost ox = self.x + self.margin_x;
        let ghost oy = self.y + self.margin_y;
        proof {
            if pushed_page_id(g0, *image) == g0.page_id {
                assert(base == g0.page.pixels@);
            } else {
                assert(base =~= zeroed(pw * ph));
            }
        }

        let mut gy: usize = 0;
        while gy < image.height
            invariant
                gy <= image.height,
                self.x == g1.x,
                self.y == g1.y,
                self.current_height == g1.current_height,
                self.page_id == g1.page_id,
                self.margin_x == g1.margin_x,
                self.margin_y == g1.margin_y,
                self.metadata == g1.metadata,
                self.flushed == g1.flushed,
                self.output_dir == g1.output_dir,
                self.page.width == g1.page.width,
                self.page.height == g1.page.height,
                self.page.pixels@.len() == self.page.width * self.page.height,
                self.page.pixels@ == blitted(base, pw, ph, image.pixels@, gw, gh, ox as int, oy as int, gy * gw),
            decreases image.height - gy,
        {
            let mut gx: usize = 0;
            while gx < image.width
                invariant
                    gx <= image.width,
                    gy < image.height,
                    self.x == g1.x,
                    self.y == g1.y,
                    self.current_height == g1.current_height,
                    self.page_id == g1.page_id,
                    self.margin_x == g1.margin_x,
                    self.margin_y == g1.margin_y,
                    self.metadata == g1.metadata,
                    self.flushed == g1.flushed,
                    self.output_dir == g1.output_dir,
                    self.page.width == g1.page.width,
                    self.page.height == g1.page.height,
                    self.page.pixels@.len() == self.page.width * self.page.height,
                    self.page.pixels@ == blitted(
                        base,
                        pw,
                        ph,
                        image.pixels@,
                        gw,
                        gh,
                        ox as int,
                        oy as int,
                        gy * gw + gx,
                    ),
                decreases image.width - gx,
            {
                proof {
                    assert(0 <= gy * gw && gy * gw + gx < gh * gw) by (nonlinear_arith)
                        requires
                            0 <= gx < gw,
                            0 <= gy < gh,
                    ;
                }
                let px = image.pixels[image.offset(gx, gy)];
                let target = self.page.offset(self.x + self.margin_x + gx, self.y + self.margin_y + gy);
                self.page.pixels[target] = px;
                proof {
                    let k = gy * gw + gx;
                    lemma_fundamental_div_mod_converse(k, gw, gy as int, gx as int);
                    assert(self.page.pixels@ == blitted(
                        base,
                        pw,
                        ph,
                        image.pixels@,
                        gw,
                        gh,
                        ox as int,
                        oy as int,
                        k + 1,
                    ));
                }
                gx = gx + 1;
            }
            proof {
                assert((gy + 1) * gw == gy * gw + gw) by (nonlinear_arith)
                ;
            }
            gy = gy + 1;
        }
        proof {
            assert(gh * gw == gw * gh) by (nonlinear_arith)
            ;
        }

        self.metadata.push(
            AtlasRecord {
                character: ch,
                page_id: self.page_id,
                x: self.x + self.margin_x,
                y: self.y + self.margin_y,
                w: image.width,
                h: image.height,
            },
        );

        self.x = self.x + width;
    }
}

/// Reading back a blit that lands fully inside the page: each of the
/// first `k` glyph pixels sits at its placement, and every other page
/// pixel is untouched.
pub proof fn lemma_blitted_in_range(
    page: Seq<u8>,
    pw: int,
    ph: int,
    glyph: Seq<u8>,
    gw: int,
    gh: int,
    ox: int,
    oy: int,
    k: int,
)
    requires
        1 <= pw,
        1 <= ph,
        page.len() == pw * ph,
        glyph.len() == gw * gh,
        0 <= ox,
        0 <= oy,
        ox + gw <= pw,
        oy + gh <= ph,
        0 <= k <= gw * gh,
    ensures
        blitted(page, pw, ph, glyph, gw, gh, ox, oy, k).len() == page.len(),
        forall|px: int, py: int|
            0 <= px < pw && 0 <= py < ph ==> #[trigger] sample(
                blitted(page, pw, ph, glyph, gw, gh, ox, oy, k),
                pw,
                ph,
                px,
                py,
            ) == (if ox <= px < ox + gw && oy <= py < oy + gh && (py - oy) * gw + (px - ox) < k {
                sample(glyph, gw, gh, px - ox, py - oy)
            } else {
                sample(page, pw, ph, px, py)
            }),
    decreases k,
{
    let cur = blitted(page, pw, ph, glyph, gw, gh, ox, oy, k);
    if k <= 0 || gw <= 0 {
        assert forall|px: int, py: int| 0 <= px < pw && 0 <= py < ph implies #[trigger] sample(
            cur,
            pw,
            ph,
            px,
            py,
        ) == (if ox <= px < ox + gw && oy <= py < oy + gh && (py - oy) * gw + (px - ox) < k {
            sample(glyph, gw, gh, px - ox, py - oy)
        } else {
            sample(page, pw, ph, px, py)
        }) by {
            if ox <= px < ox + gw && oy <= py < oy + gh {
                assert(0 <= (py - oy) * gw + (px - ox)) by (nonlinear_arith)
                    requires
                        0 <= py - oy,
                        0 <= px - ox,
                        0 <= gw,
                ;
            }
        }
    } else {
        reveal_with_fuel(blitted, 2);
        lemma_blitted_in_range(page, pw, ph, glyph, gw, gh, ox, oy, k - 1);
        let prev = blitted(page, pw, ph, glyph, gw, gh, ox, oy, k - 1);
        let gx0 = (k - 1) % gw;
        let gy0 = (k - 1) / gw;
        lemma_fundamental_div_mod(k - 1, gw);
        lemma_mod_bound(k - 1, gw);
        assert(0 <= gy0 < gh) by (nonlinear_arith)
            requires
                0 <= k - 1 < gw * gh,
                k - 1 == gw * gy0 + gx0,
                0 <= gx0 < gw,
        ;
        lemma_offset_in_range_pair(gx0, gy0, gw, gh, ox, oy, pw, ph);
        crate::program_cpu::lemma_offset_in_range(ox + gx0, oy + gy0, pw, ph);
        let tgt = offset_of(ox + gx0, oy + gy0, pw, ph);
        assert(0 <= tgt < pw * ph);
        assert(tgt == (oy + gy0) * pw + (ox + gx0));
        assert(offset_of(gx0, gy0, gw, gh) == gy0 * gw + gx0);
        assert(cur == prev.update(tgt, glyph[offset_of(gx0, gy0, gw, gh)]));
        assert(cur.len() == prev.len());
        assert forall|px: int, py: int| 0 <= px < pw && 0 <= py < ph implies #[trigger] sample(
            cur,
            pw,
            ph,
            px,
            py,
        ) == (if ox <= px < ox + gw && oy <= py < oy + gh && (py - oy) * gw + (px - ox) < k {
            sample(glyph, gw, gh, px - ox, py - oy)
        } else {
            sample(page, pw, ph, px, py)
        }) by {
            crate::program_cpu::lemma_offset_in_range(px, py, pw, ph);
            assert(offset_of(px, py, pw, ph) == py * pw + px);
            if px == ox + gx0 && py == oy + gy0 {
                assert((py - oy) * gw + (px - ox) == k - 1);
                assert(sample(cur, pw, ph, px, py) == glyph[gy0 * gw + gx0]);
                assert(sample(glyph, gw, gh, px - ox, py - oy) == glyph[gy0 * gw + gx0]);
            } else {
                assert(py * pw + px != tgt) by {
                    if py * pw + px == (oy + gy0) * pw + (ox + gx0) {
                        lemma_row_major_injective(pw, px, py, ox + gx0, oy + gy0);
                    }
                }
                assert(sample(cur, pw, ph, px, py) == sample(prev, pw, ph, px, py));
                if ox <= px < ox + gw && oy <= py < oy + gh {
                    let lin = (py - oy) * gw + (px - ox);
                    assert(lin != k - 1) by {
                        if lin == k - 1 {
                            lemma_row_major_injective(gw, px - ox, py - oy, gx0, gy0);
                        }
                    }
                }
            }
        }
    }
}

/// The placement of an in-range glyph pixel lands inside the page.
proof fn lemma_offset_in_range_pair(
    gx: int,
    gy: int,
    gw: int,
    gh: int,
    ox: int,
    oy: int,
    pw: int,
    ph: int,
)
    requires
        0 <= gx < gw,
        0 <= gy < gh,
        0 <= ox,
        0 <= oy,
        ox + gw <= pw,
        oy + gh <= ph,
        1 <= gw,
    ensures
        0 <= ox + gx < pw,
        0 <= oy + gy < ph,
        offset_of(ox + gx, oy + gy, pw, ph) == (oy + gy) * pw + (ox + gx),
        offset_of(gx, gy, gw, gh) == gy * gw + gx,
{
}


} // verus!
