//! Pixel-level rasterization into a rotated, BGR-ordered framebuffer held
//! as an owned byte buffer: pixels, rectangles, circles, sprites and a
//! bitmap digit font.

use vstd::prelude::*;
use crate::color::Color;
use crate::util::distance_squared;

verus! {

// ---------------------------------------------------------------------------
// Surface
// ---------------------------------------------------------------------------

/// The target pixel buffer, three bytes per pixel in BGR order. `width` and
/// `height` are the buffer's native (physical) dimensions; the screen is
/// rotated 90 degrees, so drawing coordinates run over a logical grid whose
/// width is the physical height and whose height is the physical width, with
/// the vertical axis flipped (bottom-left origin).
pub struct Surface {
    pub width: usize,
    pub height: usize,
    pub data: Vec<u8>,
}

impl Surface {
    /// The byte buffer holds exactly three bytes per pixel.
    pub open spec fn wf(self) -> bool {
        self.data@.len() == 3 * self.width * self.height
    }

    /// Drawing coordinates: the logical width is the physical height.
    pub open spec fn log_width(self) -> int {
        self.height as int
    }

    /// Drawing coordinates: the logical height is the physical width.
    pub open spec fn log_height(self) -> int {
        self.width as int
    }

    /// The logical coordinate is on the surface.
    pub open spec fn in_bounds(self, x: int, y: int) -> bool {
        0 <= x < self.log_width() && 0 <= y < self.log_height()
    }

    /// The byte offset of the first (blue) channel of the pixel at logical
    /// `(x, y)`: columns are laid out one after another, each bottom-up.
    pub open spec fn pix_idx(self, x: int, y: int) -> int {
        3 * ((self.log_height() - 1 - y) + x * self.log_height())
    }

    /// The color stored at logical `(x, y)`.
    pub open spec fn pixel(self, x: int, y: int) -> Color {
        Color {
            r: self.data@[self.pix_idx(x, y) + 2],
            g: self.data@[self.pix_idx(x, y) + 1],
            b: self.data@[self.pix_idx(x, y)],
        }
    }

    /// A zero-filled surface with the given physical dimensions.
    pub fn new(width: usize, height: usize) -> (s: Surface)
        requires
            3 * width * height <= usize::MAX,
        ensures
            s.wf(),
            s.width == width,
            s.height == height,
            forall|i: int| 0 <= i < s.data@.len() ==> s.data@[i] == 0u8,
    {
        proof {
            assert(0 <= width * height && width * height <= 3 * width * height && width * height
                * 3 == 3 * width * height) by (nonlinear_arith);
        }
        let total: usize = width * height * 3;
        let mut data: Vec<u8> = Vec::new();
        let mut i: usize = 0;
        while i < total
            invariant
                i <= total,
                data@.len() == i,
                forall|j: int| 0 <= j < i ==> data@[j] == 0u8,
            decreases total - i,
        {
            data.push(0);
            i = i + 1;
        }
        Surface { width, height, data }
    }
}

impl Surface {
    /// Reads the color at logical `(x, y)`, or nothing when the point is
    /// off the surface.
    pub fn get_pixel(&self, x: isize, y: isize) -> (r: Option<Color>)
        requires
            self.wf(),
        ensures
            match r {
                Option::Some(c) => self.in_bounds(x as int, y as int) && c == self.pixel(
                    x as int,
                    y as int,
                ),
                Option::None => !self.in_bounds(x as int, y as int),
            },
    {
        let height: usize = self.width;
        let width: usize = self.height;
        if x < 0 || y < 0 {
            return None;
        }
        let xu: usize = x as usize;
        let yu: usize = y as usize;
        if xu >= width || yu >= height {
            return None;
        }
        let cy: usize = (height - 1) - yu;
        let n: usize = self.data.len();
        proof {
            lemma_pix_idx_range(*self, x as int, y as int);
            assert(0 <= xu * height && cy as int * 3 + xu as int * height as int * 3 == 3 * ((
            height as int - 1 - yu as int) + xu as int * height as int)) by (nonlinear_arith)
                requires
                    0 <= xu,
                    0 <= height,
                    cy == height as int - 1 - yu as int,
            ;
            assert(cy as int * 3 + xu as int * height as int * 3 == self.pix_idx(
                x as int,
                y as int,
            ));
            assert(cy as int * 3 <= n && xu as int * height as int * 3 <= n);
        }
        let offset: usize = cy * 3 + xu * height * 3;
        Some(
            Color {
                r: self.data[offset + 2],
                g: self.data[offset + 1],
                b: self.data[offset],
            },
        )
    }
}

/// The pixel's bytes lie inside a well-formed buffer.
pub proof fn lemma_pix_idx_range(s: Surface, x: int, y: int)
    requires
        s.wf(),
        s.in_bounds(x, y),
    ensures
        0 <= s.pix_idx(x, y),
        s.pix_idx(x, y) + 2 < s.data@.len(),
{
    let lh = s.log_height();
    let lw = s.log_width();
    assert(0 <= 3 * ((lh - 1 - y) + x * lh) && 3 * ((lh - 1 - y) + x * lh) + 2 < 3 * lh * lw)
        by (nonlinear_arith)
        requires
            0 <= x < lw,
            0 <= y < lh,
    ;
    assert(s.data@.len() == 3 * lh * lw) by (nonlinear_arith)
        requires
            s.data@.len() == 3 * s.width * s.height,
            lh == s.width,
            lw == s.height,
    ;
}

/// Distinct pixels occupy disjoint byte triples.
pub proof fn lemma_pix_idx_disjoint(s: Surface, x1: int, y1: int, x2: int, y2: int)
    requires
        s.in_bounds(x1, y1),
        s.in_bounds(x2, y2),
        !(x1 == x2 && y1 == y2),
    ensures
        s.pix_idx(x1, y1) + 2 < s.pix_idx(x2, y2) || s.pix_idx(x2, y2) + 2 < s.pix_idx(x1, y1),
{
    let lh = s.log_height();
    assert((lh - 1 - y1) + x1 * lh + 1 <= (lh - 1 - y2) + x2 * lh || (lh - 1 - y2) + x2 * lh + 1
        <= (lh - 1 - y1) + x1 * lh) by (nonlinear_arith)
        requires
            0 <= y1 < lh,
            0 <= y2 < lh,
            0 <= x1,
            0 <= x2,
            !(x1 == x2 && y1 == y2),
    ;
}

/// The pixel grid determines the whole byte buffer: two well-formed
/// surfaces of the same dimensions whose pixels all agree hold the same
/// bytes. So a contract that fixes every pixel fixes every byte, and a
/// draw that leaves all uncovered pixels unchanged changes no other byte.
pub proof fn lemma_pixels_determine_bytes(a: Surface, b: Surface)
    requires
        a.wf(),
        b.wf(),
        a.width == b.width,
        a.height == b.height,
        forall|px: int, py: int| a.in_bounds(px, py) ==> #[trigger] a.pixel(px, py) == b.pixel(px, py),
    ensures
        a.data@ == b.data@,
{
    let lh = a.log_height();
    let lw = a.log_width();
    assert(a.data@.len() == 3 * lh * lw) by (nonlinear_arith)
        requires
            a.data@.len() == 3 * a.width * a.height,
            lh == a.width,
            lw == a.height,
    ;
    assert forall|i: int| 0 <= i < a.data@.len() implies a.data@[i] == b.data@[i] by {
        let u = i / 3;
        let ch = i % 3;
        vstd::arithmetic::div_mod::lemma_fundamental_div_mod(i, 3);
        vstd::arithmetic::div_mod::lemma_mod_bound(i, 3);
        assert(0 <= u < lh * lw) by (nonlinear_arith)
            requires
                0 <= i < 3 * lh * lw,
                i == 3 * u + ch,
                0 <= ch < 3,
        ;
        let x = u / lh;
        let cy = u % lh;
        vstd::arithmetic::div_mod::lemma_fundamental_div_mod(u, lh);
        vstd::arithmetic::div_mod::lemma_mod_bound(u, lh);
        vstd::arithmetic::div_mod::lemma_multiply_divide_lt(u, lh, lw);
        let y = lh - 1 - cy;
        assert(a.in_bounds(x, y));
        assert(a.pix_idx(x, y) == 3 * u) by (nonlinear_arith)
            requires
                a.pix_idx(x, y) == 3 * ((lh - 1 - y) + x * lh),
                y == lh - 1 - cy,
                u == lh * x + cy,
        ;
        assert(a.pixel(x, y) == b.pixel(x, y));
        if ch == 0 {
            assert(a.data@[i] == a.pixel(x, y).b && b.data@[i] == b.pixel(x, y).b);
        } else if ch == 1 {
            assert(a.data@[i] == a.pixel(x, y).g && b.data@[i] == b.pixel(x, y).g);
        } else {
            assert(a.data@[i] == a.pixel(x, y).r && b.data@[i] == b.pixel(x, y).r);
        }
    }
    assert(a.data@ =~= b.data@);
}

// ---------------------------------------------------------------------------
// Pixel writer
// ---------------------------------------------------------------------------

/// Writes `color` at logical `(x, y)`: blue, green, red bytes in that
/// order. Out-of-range coordinates are silently dropped.
pub fn draw_pixel(s: &mut Surface, x: isize, y: isize, color: Color)
    requires
        old(s).wf(),
    ensures
        final(s).wf(),
        final(s).width == old(s).width,
        final(s).height == old(s).height,
        old(s).in_bounds(x as int, y as int) ==> final(s).data@ == old(s).data@.update(
            old(s).pix_idx(x as int, y as int),
            color.b,
        ).update(old(s).pix_idx(x as int, y as int) + 1, color.g).update(
            old(s).pix_idx(x as int, y as int) + 2,
            color.r,
        ),
        !old(s).in_bounds(x as int, y as int) ==> final(s).data@ == old(s).data@,
{
    // The screens are rotated 90 degrees, so the logical width and height
    // swap the buffer's physical dimensions.
    let height: usize = s.width;
    let width: usize = s.height;

    if x < 0 || y < 0 {
        return ;
    }
    let xu: usize = x as usize;
    let yu: usize = y as usize;
    if xu >= width || yu >= height {
        return ;
    }
    let cy: usize = (height - 1) - yu;
    let n: usize = s.data.len();
    proof {
        lemma_pix_idx_range(*s, x as int, y as int);
        assert(0 <= xu * height && cy as int * 3 + xu as int * height as int * 3 == 3 * ((
        height as int - 1 - yu as int) + xu as int * height as int)) by (nonlinear_arith)
            requires
                0 <= xu,
                0 <= height,
                cy == height as int - 1 - yu as int,
        ;
        assert(cy as int * 3 + xu as int * height as int * 3 == s.pix_idx(x as int, y as int));
        assert(cy as int * 3 <= n && xu as int * height as int * 3 <= n);
    }
    let offset: usize = cy * 3 + xu * height * 3;
    s.data.set(offset, color.b);
    s.data.set(offset + 1, color.g);
    s.data.set(offset + 2, color.r);
}

/// What one pixel write does to the whole pixel grid.
pub proof fn lemma_draw_pixel_view(pre: Surface, post: Surface, x: int, y: int, c: Color)
    requires
        pre.wf(),
        post.width == pre.width,
        post.height == pre.height,
        pre.in_bounds(x, y) ==> post.data@ == pre.data@.update(pre.pix_idx(x, y), c.b).update(
            pre.pix_idx(x, y) + 1,
            c.g,
        ).update(pre.pix_idx(x, y) + 2, c.r),
        !pre.in_bounds(x, y) ==> post.data@ == pre.data@,
    ensures
        forall|px: int, py: int|
            pre.in_bounds(px, py) ==> #[trigger] post.pixel(px, py) == if px == x && py == y {
                c
            } else {
                pre.pixel(px, py)
            },
{
    assert forall|px: int, py: int| pre.in_bounds(px, py) implies #[trigger] post.pixel(px, py)
        == if px == x && py == y {
        c
    } else {
        pre.pixel(px, py)
    } by {
        lemma_pix_idx_range(pre, px, py);
        if pre.in_bounds(x, y) {
            lemma_pix_idx_range(pre, x, y);
            if !(px == x && py == y) {
                lemma_pix_idx_disjoint(pre, px, py, x, y);
            }
        }
    }
}

/// The point lies in the half-open rectangle `[x, x+w) x [y, y+h)`.
pub open spec fn in_rect(x: int, y: int, w: int, h: int, px: int, py: int) -> bool {
    x <= px < x + w && y <= py < y + h
}

/// Fills the half-open rectangle `[x, x+w) x [y, y+h)` with `color`,
/// clipped to the surface; a non-positive width or height draws nothing.
/// Exactly the covered in-range pixels change.
pub fn draw_rectangle(s: &mut Surface, x: isize, y: isize, w: isize, h: isize, color: Color)
    requires
        old(s).wf(),
        isize::MIN <= x + w <= isize::MAX,
        isize::MIN <= y + h <= isize::MAX,
    ensures
        final(s).wf(),
        final(s).width == old(s).width,
        final(s).height == old(s).height,
        forall|px: int, py: int|
            old(s).in_bounds(px, py) ==> #[trigger] final(s).pixel(px, py) == if in_rect(
                x as int,
                y as int,
                w as int,
                h as int,
                px,
                py,
            ) {
                color
            } else {
                old(s).pixel(px, py)
            },
{
    let ghost s0: Surface = *s;
    let x_end: isize = x + w;
    let y_end: isize = y + h;
    let mut cx: isize = x;
    while cx < x_end
        invariant
            s.wf(),
            s.width == s0.width,
            s.height == s0.height,
            x <= cx,
            cx <= x_end || cx == x,
            forall|px: int, py: int|
                s0.in_bounds(px, py) ==> #[trigger] s.pixel(px, py) == if x <= px < cx && y <= py
                    < y_end {
                    color
                } else {
                    s0.pixel(px, py)
                },
        decreases x_end - cx,
    {
        let mut cy: isize = y;
        while cy < y_end
            invariant
                s.wf(),
                s.width == s0.width,
                s.height == s0.height,
                x <= cx < x_end,
                y <= cy,
                cy <= y_end || cy == y,
                forall|px: int, py: int|
                    s0.in_bounds(px, py) ==> #[trigger] s.pixel(px, py) == if (x <= px < cx && y
                        <= py < y_end) || (px == cx && y <= py < cy) {
                        color
                    } else {
                        s0.pixel(px, py)
                    },
            decreases y_end - cy,
        {
            let ghost s1: Surface = *s;
            draw_pixel(s, cx, cy, color);
            proof {
                lemma_draw_pixel_view(s1, *s, cx as int, cy as int, color);
            }
            cy = cy + 1;
        }
        cx = cx + 1;
    }
}

/// A filled rectangle of one color, in pixel coordinates.
#[derive(Copy, Clone, Debug, PartialEq, Eq, Structural)]
pub struct Rect {
    pub x: isize,
    pub y: isize,
    pub w: isize,
    pub h: isize,
    pub color: Color,
}

/// The point lies inside the rectangle.
pub open spec fn covers(rc: Rect, px: int, py: int) -> bool {
    in_rect(rc.x as int, rc.y as int, rc.w as int, rc.h as int, px, py)
}

/// The color a list of rectangles, painted in order, leaves at a point:
/// the color of the last rectangle covering it, if any.
pub open spec fn painted_at(rs: Seq<Rect>, px: int, py: int) -> Option<Color>
    decreases rs.len(),
{
    if rs.len() == 0 {
        None
    } else if covers(rs.last(), px, py) {
        Some(rs.last().color)
    } else {
        painted_at(rs.drop_last(), px, py)
    }
}

/// Every rectangle's corners stay representable.
pub open spec fn rects_bounded(rs: Seq<Rect>) -> bool {
    forall|i: int|
        0 <= i < rs.len() ==> (isize::MIN <= #[trigger] rs[i].x + rs[i].w <= isize::MAX
            && isize::MIN <= rs[i].y + rs[i].h <= isize::MAX)
}

/// Paints the rectangles in order; a later rectangle overwrites an earlier
/// one where they overlap.
pub fn draw_rect_list(s: &mut Surface, rs: &Vec<Rect>)
    requires
        old(s).wf(),
        rects_bounded(rs@),
    ensures
        final(s).wf(),
        final(s).width == old(s).width,
        final(s).height == old(s).height,
        forall|px: int, py: int|
            old(s).in_bounds(px, py) ==> #[trigger] final(s).pixel(px, py) == match painted_at(
                rs@,
                px,
                py,
            ) {
                Some(c) => c,
                None => old(s).pixel(px, py),
            },
{
    let ghost s0: Surface = *s;
    let mut i: usize = 0;
    while i < rs.len()
        invariant
            s.wf(),
            s.width == s0.width,
            s.height == s0.height,
            i <= rs@.len(),
            rects_bounded(rs@),
            forall|px: int, py: int|
                s0.in_bounds(px, py) ==> #[trigger] s.pixel(px, py) == match painted_at(
                    rs@.take(i as int),
                    px,
                    py,
                ) {
                    Some(c) => c,
                    None => s0.pixel(px, py),
                },
        decreases rs@.len() - i,
    {
        let rc = rs[i];
        let ghost s1: Surface = *s;
        draw_rectangle(s, rc.x, rc.y, rc.w, rc.h, rc.color);
        proof {
            assert(rs@.take(i + 1).drop_last() =~= rs@.take(i as int));
            assert(rs@.take(i + 1).last() == rc);
            assert forall|px: int, py: int| s0.in_bounds(px, py) implies #[trigger] s.pixel(
                px,
                py,
            ) == match painted_at(rs@.take(i + 1), px, py) {
                Some(c) => c,
                None => s0.pixel(px, py),
            } by {
                if covers(rc, px, py) {
                    assert(s.pixel(px, py) == rc.color);
                } else {
                    assert(s.pixel(px, py) == s1.pixel(px, py));
                }
            }
        }
        i = i + 1;
    }
    proof {
        assert(rs@.take(rs@.len() as int) =~= rs@);
    }
}

/// The point lies in the open disc of radius `r` around `(x, y)`, within
/// the bounding box of side `2r + 1`.
pub open spec fn in_disc(x: int, y: int, r: int, px: int, py: int) -> bool {
    &&& x - r <= px <= x + r
    &&& y - r <= py <= y + r
    &&& (px - x) * (px - x) + (py - y) * (py - y) < r * r
}

/// Fills the integer points of the open disc of radius `r` around
/// `(x, y)` (squared Euclidean distance strictly below `r * r`, scanned
/// over the bounding box of side `2r + 1`), clipped to the surface.
pub fn draw_circle(s: &mut Surface, x: isize, y: isize, r: isize, color: Color)
    requires
        old(s).wf(),
        isize::MIN <= x - r <= isize::MAX,
        isize::MIN <= x + r < isize::MAX,
        isize::MIN <= y - r <= isize::MAX,
        isize::MIN <= y + r < isize::MAX,
        r * r + r * r <= isize::MAX,
    ensures
        final(s).wf(),
        final(s).width == old(s).width,
        final(s).height == old(s).height,
        forall|px: int, py: int|
            old(s).in_bounds(px, py) ==> #[trigger] final(s).pixel(px, py) == if in_disc(
                x as int,
                y as int,
                r as int,
                px,
                py,
            ) {
                color
            } else {
                old(s).pixel(px, py)
            },
{
    let ghost s0: Surface = *s;
    proof {
        assert(0 <= r * r) by (nonlinear_arith);
    }
    let x_lo: isize = x - r;
    let x_hi: isize = x + r;
    let y_lo: isize = y - r;
    let y_hi: isize = y + r;
    let x_end: isize = x_hi + 1;
    let y_end: isize = y_hi + 1;
    let mut cx: isize = x_lo;
    while cx < x_end
        invariant
            s.wf(),
            s.width == s0.width,
            s.height == s0.height,
            x_lo <= cx,
            cx <= x_end || cx == x_lo,
            x_lo == x - r,
            x_hi == x + r,
            y_lo == y - r,
            y_hi == y + r,
            x_end == x_hi + 1,
            y_end == y_hi + 1,
            x_hi < isize::MAX,
            y_hi < isize::MAX,
            r * r + r * r <= isize::MAX,
            forall|px: int, py: int|
                s0.in_bounds(px, py) ==> #[trigger] s.pixel(px, py) == if in_disc(
                    x as int,
                    y as int,
                    r as int,
                    px,
                    py,
                ) && px < cx {
                    color
                } else {
                    s0.pixel(px, py)
                },
        decreases x_end - cx,
    {
        let mut cy: isize = y_lo;
        while cy < y_end
            invariant
                s.wf(),
                s.width == s0.width,
                s.height == s0.height,
                x_lo <= cx <= x_hi,
                y_lo <= cy,
                cy <= y_end || cy == y_lo,
                x_lo == x - r,
                x_hi == x + r,
                y_lo == y - r,
                y_hi == y + r,
                y_end == y_hi + 1,
                x_hi < isize::MAX,
                y_hi < isize::MAX,
                r * r + r * r <= isize::MAX,
                forall|px: int, py: int|
                    s0.in_bounds(px, py) ==> #[trigger] s.pixel(px, py) == if in_disc(
                        x as int,
                        y as int,
                        r as int,
                        px,
                        py,
                    ) && (px < cx || (px == cx && py < cy)) {
                        color
                    } else {
                        s0.pixel(px, py)
                    },
            decreases y_end - cy,
        {
            proof {
                assert((x - cx) * (x - cx) <= r * r && (y - cy) * (y - cy) <= r * r && (x - cx) * (
                x - cx) == (cx - x) * (cx - x) && (y - cy) * (y - cy) == (cy - y) * (cy - y))
                    by (nonlinear_arith)
                    requires
                        x - r <= cx <= x + r,
                        y - r <= cy <= y + r,
                ;
            }
            let d = distance_squared(cx, cy, x, y);
            if d < r * r {
                let ghost s1: Surface = *s;
                draw_pixel(s, cx, cy, color);
                proof {
                    lemma_draw_pixel_view(s1, *s, cx as int, cy as int, color);
                }
            }
            cy = cy + 1;
        }
        cx = cx + 1;
    }
}

// ---------------------------------------------------------------------------
// Sprite
// ---------------------------------------------------------------------------

/// A fixed-size rectangular bitmap: `width * height` colors in row-major
/// order, blitted fully opaque.
pub struct Sprite {
    pub width: isize,
    pub height: isize,
    pub data: Vec<Color>,
}

/// The sprite's pixel index for the surface point `(px, py)` when the
/// sprite's origin is at `(x, y)`.
pub open spec fn sprite_idx(sp: Sprite, x: int, y: int, px: int, py: int) -> int {
    (py - y) * (sp.width as int) + (px - x)
}

/// The sprite, drawn at `(x, y)`, has a pixel at the surface point.
pub open spec fn sprite_covers(sp: Sprite, x: int, y: int, px: int, py: int) -> bool {
    &&& x <= px < x + sp.width
    &&& y <= py
    &&& sprite_idx(sp, x, y, px, py) < sp.data@.len()
}

impl Sprite {
    /// The sprite walks its pixels left to right, wrapping rows at `width`.
    pub open spec fn wf(self) -> bool {
        1 <= self.width
    }

    /// Builds a sprite from raw bytes, three (red, green, blue) per pixel.
    pub fn new(width: isize, height: isize, rawdata: &[u8]) -> (sp: Sprite)
        requires
            rawdata@.len() % 3 == 0,
        ensures
            sp.width == width,
            sp.height == height,
            sp.data@.len() == rawdata@.len() / 3,
            forall|k: int|
                0 <= k < sp.data@.len() ==> #[trigger] sp.data@[k] == (Color {
                    r: rawdata@[3 * k],
                    g: rawdata@[3 * k + 1],
                    b: rawdata@[3 * k + 2],
                }),
    {
        let n: usize = rawdata.len();
        let total: usize = n / 3;
        let mut data: Vec<Color> = Vec::new();
        let mut k: usize = 0;
        while k < total
            invariant
                k <= total,
                n == rawdata@.len(),
                total == rawdata@.len() / 3,
                rawdata@.len() % 3 == 0,
                data@.len() == k,
                forall|j: int|
                    0 <= j < k ==> #[trigger] data@[j] == (Color {
                        r: rawdata@[3 * j],
                        g: rawdata@[3 * j + 1],
                        b: rawdata@[3 * j + 2],
                    }),
            decreases total - k,
        {
            proof {
                assert(3 * (k as int) + 2 < n) by (nonlinear_arith)
                    requires
                        0 <= k < total,
                        n == rawdata@.len(),
                        total == rawdata@.len() / 3,
                        rawdata@.len() % 3 == 0,
                ;
            }
            let c = Color { r: rawdata[3 * k], g: rawdata[3 * k + 1], b: rawdata[3 * k + 2] };
            data.push(c);
            k = k + 1;
        }
        Sprite { width, height, data }
    }

    /// Blits the sprite at `(x, y)`: pixel `k` of the data lands at
    /// `(x + k % width, y + k / width)`, clipped to the surface.
    pub fn draw(&self, s: &mut Surface, x: isize, y: isize)
        requires
            old(s).wf(),
            self.wf(),
            self.data@.len() <= isize::MAX,
            x + self.width <= isize::MAX,
            y + self.data@.len() <= isize::MAX,
        ensures
            final(s).wf(),
            final(s).width == old(s).width,
            final(s).height == old(s).height,
            forall|px: int, py: int|
                old(s).in_bounds(px, py) ==> #[trigger] final(s).pixel(px, py) == if sprite_covers(
                    *self,
                    x as int,
                    y as int,
                    px,
                    py,
                ) {
                    self.data@[sprite_idx(*self, x as int, y as int, px, py)]
                } else {
                    old(s).pixel(px, py)
                },
    {
        let ghost s0: Surface = *s;
        let len: usize = self.data.len();
        let mut cx: isize = 0;
        let mut cy: isize = 0;
        let mut k: usize = 0;
        while k < len
            invariant
                s.wf(),
                s.width == s0.width,
                s.height == s0.height,
                len == self.data@.len(),
                self.wf(),
                len <= isize::MAX,
                x + self.width <= isize::MAX,
                y + len <= isize::MAX,
                k <= len,
                0 <= cx < self.width,
                0 <= cy <= k,
                cx as int == (k as int) % (self.width as int),
                cy as int == (k as int) / (self.width as int),
                forall|px: int, py: int|
                    s0.in_bounds(px, py) ==> #[trigger] s.pixel(px, py) == if sprite_covers(
                        *self,
                        x as int,
                        y as int,
                        px,
                        py,
                    ) && sprite_idx(*self, x as int, y as int, px, py) < k {
                        self.data@[sprite_idx(*self, x as int, y as int, px, py)]
                    } else {
                        s0.pixel(px, py)
                    },
            decreases len - k,
        {
            let ghost s1: Surface = *s;
            let pixel = self.data[k];
            draw_pixel(s, x + cx, y + cy, pixel);
            proof {
                lemma_draw_pixel_view(s1, *s, x as int + cx as int, y as int + cy as int, pixel);
                let wd = self.width as int;
                vstd::arithmetic::div_mod::lemma_fundamental_div_mod(k as int, wd);
                assert(wd * (cy as int) == (cy as int) * wd) by (nonlinear_arith);
                assert(k as int == (cy as int) * wd + cx as int);
                assert forall|px: int, py: int| s0.in_bounds(px, py) implies #[trigger] s.pixel(
                    px,
                    py,
                ) == if sprite_covers(*self, x as int, y as int, px, py) && sprite_idx(
                    *self,
                    x as int,
                    y as int,
                    px,
                    py,
                ) < k + 1 {
                    self.data@[sprite_idx(*self, x as int, y as int, px, py)]
                } else {
                    s0.pixel(px, py)
                } by {
                    let sidx = sprite_idx(*self, x as int, y as int, px, py);
                    if sprite_covers(*self, x as int, y as int, px, py) && sidx == k {
                        vstd::arithmetic::div_mod::lemma_fundamental_div_mod_converse(
                            k as int,
                            wd,
                            py - y,
                            px - x,
                        );
                        assert(px == x + cx && py == y + cy);
                    } else {
                        assert(!(px == x + cx && py == y + cy)) by {
                            if px == x + cx && py == y + cy {
                                assert(sidx == (cy as int) * wd + cx as int);
                                assert(sidx == k);
                                assert(sprite_covers(*self, x as int, y as int, px, py));
                            }
                        }
                    }
                }
            }
            let ghost cy0 = cy as int;
            let ghost cx0 = cx as int;
            k = k + 1;
            cx = cx + 1;
            if cx == self.width {
                cy = cy + 1;
                cx = 0;
            }
            proof {
                let wd = self.width as int;
                if cx == 0 {
                    assert((cy0 + 1) * wd == cy0 * wd + wd) by (nonlinear_arith);
                    vstd::arithmetic::div_mod::lemma_fundamental_div_mod_converse(
                        k as int,
                        wd,
                        cy as int,
                        0,
                    );
                } else {
                    vstd::arithmetic::div_mod::lemma_fundamental_div_mod_converse(
                        k as int,
                        wd,
                        cy as int,
                        cx as int,
                    );
                }
            }
        }
    }
}

// ---------------------------------------------------------------------------
// Font
// ---------------------------------------------------------------------------

/// A mapping from character to glyph sprite, with fixed inter-glyph
/// spacing and line height.
pub struct Font {
    pub spacing: isize,
    pub line_height: isize,
    pub glyphs: Vec<(char, Sprite)>,
}

/// The index of the first glyph for `c` at or after position `i`.
pub open spec fn find_glyph_from(gs: Seq<(char, Sprite)>, c: char, i: int) -> Option<int>
    decreases gs.len() - i,
{
    if i < 0 || i >= gs.len() {
        None
    } else if gs[i].0 == c {
        Some(i)
    } else {
        find_glyph_from(gs, c, i + 1)
    }
}

/// The pen position (cursor x, line y) after laying out the first `n`
/// characters against a maximum line width `wmax`: a glyph that would end
/// past `wmax` wraps to the start of the next line; a character without a
/// glyph is skipped.
pub open spec fn pen_after(f: Font, cs: Seq<char>, wmax: int, n: int) -> (int, int)
    decreases n,
{
    if n <= 0 {
        (0int, 0int)
    } else {
        let prev = pen_after(f, cs, wmax, n - 1);
        match f.glyph_index(cs[n - 1]) {
            Option::None => prev,
            Option::Some(gi) => {
                let gw = f.glyphs@[gi].1.width as int;
                if prev.0 + gw > wmax {
                    (gw + f.spacing as int, prev.1 + f.line_height as int)
                } else {
                    (prev.0 + gw + f.spacing as int, prev.1)
                }
            },
        }
    }
}

/// Where character `n` of the text is placed, relative to the text origin.
pub open spec fn glyph_place(f: Font, cs: Seq<char>, wmax: int, n: int) -> (int, int) {
    let prev = pen_after(f, cs, wmax, n);
    match f.glyph_index(cs[n]) {
        Option::None => prev,
        Option::Some(gi) => {
            let gw = f.glyphs@[gi].1.width as int;
            if prev.0 + gw > wmax {
                (0int, prev.1 + f.line_height as int)
            } else {
                prev
            }
        },
    }
}

/// The color at a surface point after drawing the first `n` characters of
/// the text at `(x, y)`, where the point held `base` before: the pixel of
/// the last glyph covering the point, or `base` if none does.
pub open spec fn text_pixel(
    f: Font,
    cs: Seq<char>,
    n: int,
    x: int,
    y: int,
    wmax: int,
    px: int,
    py: int,
    base: Color,
) -> Color
    decreases n,
{
    if n <= 0 {
        base
    } else {
        let prev = text_pixel(f, cs, n - 1, x, y, wmax, px, py, base);
        match f.glyph_index(cs[n - 1]) {
            Option::None => prev,
            Option::Some(gi) => {
                let g = f.glyphs@[gi].1;
                let pl = glyph_place(f, cs, wmax, n - 1);
                if sprite_covers(g, x + pl.0, y + pl.1, px, py) {
                    g.data@[sprite_idx(g, x + pl.0, y + pl.1, px, py)]
                } else {
                    prev
                }
            },
        }
    }
}

impl Font {
    /// The first glyph mapped to `c`, if any.
    pub open spec fn glyph_index(self, c: char) -> Option<int> {
        find_glyph_from(self.glyphs@, c, 0)
    }

    /// Spacing, line height and glyph sizes stay in a range whose layout
    /// arithmetic cannot overflow.
    pub open spec fn wf(self) -> bool {
        &&& 0 <= self.spacing <= 1000
        &&& 1 <= self.line_height <= 1000
        &&& forall|i: int|
            0 <= i < self.glyphs@.len() ==> (1 <= (#[trigger] self.glyphs@[i]).1.width <= 1000
                && self.glyphs@[i].1.data@.len() <= 100000)
    }

    /// Finds the glyph for `c`: the first entry with that character.
    pub fn lookup_glyph(&self, c: char) -> (r: Option<usize>)
        ensures
            match r {
                Option::Some(i) => self.glyph_index(c) == Option::Some(i as int) && i
                    < self.glyphs@.len(),
                Option::None => self.glyph_index(c).is_none(),
            },
    {
        let mut i: usize = 0;
        while i < self.glyphs.len()
            invariant
                i <= self.glyphs@.len(),
                find_glyph_from(self.glyphs@, c, 0) == find_glyph_from(self.glyphs@, c, i as int),
            decreases self.glyphs@.len() - i,
        {
            if self.glyphs[i].0 == c {
                return Some(i);
            }
            i = i + 1;
        }
        None
    }
}

/// The decimal digit character for `d`.
pub open spec fn digit_char(d: int) -> char {
    if d == 0 {
        '0'
    } else if d == 1 {
        '1'
    } else if d == 2 {
        '2'
    } else if d == 3 {
        '3'
    } else if d == 4 {
        '4'
    } else if d == 5 {
        '5'
    } else if d == 6 {
        '6'
    } else if d == 7 {
        '7'
    } else if d == 8 {
        '8'
    } else {
        '9'
    }
}

/// Expands a 15-bit mask, one bit per pixel of a 3 x 5 glyph starting at
/// the top-left, into raw sprite bytes: three 255 bytes where the bit is
/// set (white), three 0 bytes elsewhere (black).
fn glyph_bytes(mask: u16) -> (v: Vec<u8>)
    ensures
        v@.len() == 45,
{
    let mut v: Vec<u8> = Vec::new();
    let mut k: u16 = 0;
    while k < 15
        invariant
            k <= 15,
            v@.len() == 3 * k,
        decreases 15 - k,
    {
        let byte: u8 = if ((mask >> k) & 1) == 1 {
            255
        } else {
            0
        };
        v.push(byte);
        v.push(byte);
        v.push(byte);
        k = k + 1;
    }
    v
}

impl Font {
    /// The default font: one 3 x 5 glyph for each decimal digit, one pixel
    /// of spacing and a six-pixel line height.
    pub fn create_default_font() -> (f: Font)
        ensures
            f.wf(),
            f.spacing == 1,
            f.line_height == 6,
            f.glyphs@.len() == 10,
            forall|d: int|
                0 <= d < 10 ==> ((#[trigger] f.glyphs@[d]).0 == digit_char(d) && f.glyphs@[d].1.width
                    == 3 && f.glyphs@[d].1.height == 5 && f.glyphs@[d].1.data@.len() == 15),
    {
        let mut glyphs: Vec<(char, Sprite)> = Vec::new();
        let b0 = glyph_bytes(31599);
        glyphs.push(('0', Sprite::new(3, 5, b0.as_slice())));
        let b1 = glyph_bytes(29850);
        glyphs.push(('1', Sprite::new(3, 5, b1.as_slice())));
        let b2 = glyph_bytes(29671);
        glyphs.push(('2', Sprite::new(3, 5, b2.as_slice())));
        let b3 = glyph_bytes(31207);
        glyphs.push(('3', Sprite::new(3, 5, b3.as_slice())));
        let b4 = glyph_bytes(18925);
        glyphs.push(('4', Sprite::new(3, 5, b4.as_slice())));
        let b5 = glyph_bytes(31183);
        glyphs.push(('5', Sprite::new(3, 5, b5.as_slice())));
        let b6 = glyph_bytes(31695);
        glyphs.push(('6', Sprite::new(3, 5, b6.as_slice())));
        let b7 = glyph_bytes(18727);
        glyphs.push(('7', Sprite::new(3, 5, b7.as_slice())));
        let b8 = glyph_bytes(31727);
        glyphs.push(('8', Sprite::new(3, 5, b8.as_slice())));
        let b9 = glyph_bytes(31215);
        glyphs.push(('9', Sprite::new(3, 5, b9.as_slice())));
        Font { spacing: 1, line_height: 6, glyphs }
    }

    /// Lays the text's glyphs out left to right from `(x, y)`, wrapping to
    /// a new line whenever a glyph would end past the line width `w`, and
    /// draws them; a character without a glyph is skipped.
    pub fn draw_text(&self, s: &mut Surface, text: &str, x: isize, y: isize, w: isize)
        requires
            old(s).wf(),
            self.wf(),
            text@.len() <= 100000,
            -1000000 <= x <= 1000000,
            -1000000 <= y <= 1000000,
            0 <= w <= 1000000,
        ensures
            final(s).wf(),
            final(s).width == old(s).width,
            final(s).height == old(s).height,
            forall|px: int, py: int|
                old(s).in_bounds(px, py) ==> #[trigger] final(s).pixel(px, py) == text_pixel(
                    *self,
                    text@,
                    text@.len() as int,
                    x as int,
                    y as int,
                    w as int,
                    px,
                    py,
                    old(s).pixel(px, py),
                ),
    {
        let ghost s0: Surface = *s;
        let ghost cs: Seq<char> = text@;
        let n: usize = text.unicode_len();
        let mut cx: isize = 0;
        let mut cy: isize = 0;
        let mut j: usize = 0;
        while j < n
            invariant
                s.wf(),
                s.width == s0.width,
                s.height == s0.height,
                self.wf(),
                cs == text@,
                n == cs.len(),
                j <= n,
                n <= 100000,
                -1000000 <= x <= 1000000,
                -1000000 <= y <= 1000000,
                0 <= w <= 1000000,
                (cx as int, cy as int) == pen_after(*self, cs, w as int, j as int),
                0 <= cx <= w + 2001,
                0 <= cy <= j * 1000,
                forall|px: int, py: int|
                    s0.in_bounds(px, py) ==> #[trigger] s.pixel(px, py) == text_pixel(
                        *self,
                        cs,
                        j as int,
                        x as int,
                        y as int,
                        w as int,
                        px,
                        py,
                        s0.pixel(px, py),
                    ),
            decreases n - j,
        {
            let c: char = text.get_char(j);
            match self.lookup_glyph(c) {
                Option::None => {
                    proof {
                        assert(pen_after(*self, cs, w as int, j + 1) == pen_after(
                            *self,
                            cs,
                            w as int,
                            j as int,
                        ));
                        assert forall|px: int, py: int| s0.in_bounds(px, py) implies #[trigger] s.pixel(
                            px,
                            py,
                        ) == text_pixel(
                            *self,
                            cs,
                            j + 1,
                            x as int,
                            y as int,
                            w as int,
                            px,
                            py,
                            s0.pixel(px, py),
                        ) by {
                            assert(text_pixel(
                                *self,
                                cs,
                                j + 1,
                                x as int,
                                y as int,
                                w as int,
                                px,
                                py,
                                s0.pixel(px, py),
                            ) == text_pixel(
                                *self,
                                cs,
                                j as int,
                                x as int,
                                y as int,
                                w as int,
                                px,
                                py,
                                s0.pixel(px, py),
                            ));
                        }
                    }
                },
                Option::Some(gi) => {
                    let g = &self.glyphs[gi].1;
                    let gw = g.width;
                    if cx + gw > w {
                        cx = 0;
                        cy = cy + self.line_height;
                    }
                    proof {
                        assert((cx as int, cy as int) == glyph_place(*self, cs, w as int, j as int));
                    }
                    let ghost s1: Surface = *s;
                    g.draw(s, x + cx, y + cy);
                    proof {
                        assert forall|px: int, py: int| s0.in_bounds(px, py) implies #[trigger] s.pixel(
                            px,
                            py,
                        ) == text_pixel(
                            *self,
                            cs,
                            j + 1,
                            x as int,
                            y as int,
                            w as int,
                            px,
                            py,
                            s0.pixel(px, py),
                        ) by {
                            let pl = glyph_place(*self, cs, w as int, j as int);
                            assert(s1.pixel(px, py) == text_pixel(
                                *self,
                                cs,
                                j as int,
                                x as int,
                                y as int,
                                w as int,
                                px,
                                py,
                                s0.pixel(px, py),
                            ));
                            assert(pl == (cx as int, cy as int));
                        }
                    }
                    cx = cx + gw + self.spacing;
                },
            }
            j = j + 1;
        }
    }
}

} // verus!
