//! The pixel canvas: a fixed-size grid of colors held in an
//! `image::ImageBuffer`, modeled in specifications as a map from
//! coordinates to colors.
use vstd::prelude::*;

use crate::color::Color;

verus! {

/// The canvas's backing store, an `image` RGBA buffer. Verus never
/// looks inside; what it holds is spoken of through `buf_pixels`,
/// `buf_width` and `buf_height`.
#[verifier::external_body]
pub struct RgbaBuffer {
    buf: image::ImageBuffer<image::Rgba<u8>, Vec<u8>>,
}

/// What an RGBA buffer holds: the color stored at each in-bounds
/// coordinate pair.
pub uninterp spec fn buf_pixels(b: RgbaBuffer) -> Map<(int, int), Color>;

/// The width the buffer was created with.
pub uninterp spec fn buf_width(b: RgbaBuffer) -> int;

/// The height the buffer was created with.
pub uninterp spec fn buf_height(b: RgbaBuffer) -> int;

/// Relies on `image::ImageBuffer::new`: a fresh buffer of the given
/// dimensions with every channel of every pixel zeroed. It panics when
/// the backing allocation would not fit in a vector, which the
/// precondition rules out.
#[verifier::external_body]
fn buf_new(width: u32, height: u32) -> (b: RgbaBuffer)
    requires
        width as int * height as int * 4 <= isize::MAX as int,
    ensures
        buf_width(b) == width as int,
        buf_height(b) == height as int,
        buf_pixels(b) == Map::<(int, int), Color>::new(
            |p: (int, int)| 0 <= p.0 < width as int && 0 <= p.1 < height as int,
            |p: (int, int)| (Color { r: 0, g: 0, b: 0, a: 0 }),
        ),
{
    RgbaBuffer { buf: image::ImageBuffer::new(width, height) }
}

/// Relies on `image::ImageBuffer::get_pixel`: the pixel stored at
/// `(x, y)`. It panics out of bounds, which the precondition rules out.
#[verifier::external_body]
fn buf_get(b: &RgbaBuffer, x: u32, y: u32) -> (c: Color)
    requires
        (x as int) < buf_width(*b),
        (y as int) < buf_height(*b),
    ensures
        c == buf_pixels(*b)[(x as int, y as int)],
{
    let p = b.buf.get_pixel(x, y);
    Color { r: p.0[0], g: p.0[1], b: p.0[2], a: p.0[3] }
}

/// Relies on `image::ImageBuffer::put_pixel`: overwrites the pixel at
/// `(x, y)` and touches nothing else. It panics out of bounds, which
/// the precondition rules out.
#[verifier::external_body]
fn buf_put(b: &mut RgbaBuffer, x: u32, y: u32, c: Color)
    requires
        (x as int) < buf_width(*old(b)),
        (y as int) < buf_height(*old(b)),
    ensures
        buf_width(*final(b)) == buf_width(*old(b)),
        buf_height(*final(b)) == buf_height(*old(b)),
        buf_pixels(*final(b)) == buf_pixels(*old(b)).insert((x as int, y as int), c),
{
    b.buf.put_pixel(x, y, image::Rgba([c.r, c.g, c.b, c.a]))
}

/// Relies on `image::ImageBuffer::as_raw`: the pixel data as one flat
/// byte vector, rows from top to bottom, four channels per pixel in
/// red, green, blue, alpha order. Every `RgbaBuffer` comes from
/// `buf_new`, so the backing store is exactly that long.
#[verifier::external_body]
fn buf_raw(b: &RgbaBuffer) -> (v: Vec<u8>)
    ensures
        v@.len() == buf_width(*b) * buf_height(*b) * 4,
        forall|x: int, y: int|
            0 <= x < buf_width(*b) && 0 <= y < buf_height(*b) ==> {
                let c = #[trigger] buf_pixels(*b)[(x, y)];
                let i = 4 * (y * buf_width(*b) + x);
                v@[i] == c.r && v@[i + 1] == c.g && v@[i + 2] == c.b && v@[i + 3] == c.a
            },
{
    b.buf.as_raw().clone()
}

/// The coordinate pairs of a `w` by `h` grid.
pub open spec fn grid_dom(w: int, h: int) -> Set<(int, int)> {
    Set::new(|p: (int, int)| 0 <= p.0 < w && 0 <= p.1 < h)
}

/// The cells of a `w` by `h` grid together with the first `k` cells of
/// the row below it; a stepping stone for counting the grid.
spec fn grid_prefix(w: int, h: int, k: int) -> Set<(int, int)> {
    Set::new(|p: (int, int)| (0 <= p.0 < w && 0 <= p.1 < h) || (0 <= p.0 < k && p.1 == h))
}

proof fn lemma_grid_prefix_card(w: int, h: int, k: int)
    requires
        0 <= h,
        0 <= k <= w,
    ensures
        grid_prefix(w, h, k).finite(),
        grid_prefix(w, h, k).len() == h * w + k,
    decreases h, k,
{
    if k > 0 {
        lemma_grid_prefix_card(w, h, k - 1);
        assert(!grid_prefix(w, h, k - 1).contains((k - 1, h)));
        assert(grid_prefix(w, h, k) =~= grid_prefix(w, h, k - 1).insert((k - 1, h)));
    } else if h > 0 {
        lemma_grid_prefix_card(w, h - 1, w);
        assert(grid_prefix(w, h, 0) =~= grid_prefix(w, h - 1, w));
        assert(h * w == (h - 1) * w + w) by (nonlinear_arith);
    } else {
        assert(grid_prefix(w, 0, 0) =~= Set::<(int, int)>::empty());
    }
}

/// A `w` by `h` grid has exactly `w * h` cells.
pub proof fn lemma_grid_dom_card(w: int, h: int)
    requires
        0 <= w,
        0 <= h,
    ensures
        grid_dom(w, h).finite(),
        grid_dom(w, h).len() == w * h,
{
    lemma_grid_prefix_card(w, h, 0);
    assert(grid_dom(w, h) =~= grid_prefix(w, h, 0));
    assert(w * h == h * w) by (nonlinear_arith);
}

/// A `w` by `h` grid holding the same color everywhere.
pub open spec fn uniform_grid(w: int, h: int, c: Color) -> Map<(int, int), Color> {
    Map::new(|p: (int, int)| 0 <= p.0 < w && 0 <= p.1 < h, |p: (int, int)| c)
}

/// A mutable pixel grid of fixed dimensions. Out-of-range writes are
/// silently ignored; out-of-range reads are rejected by precondition.
pub struct PixelCanvas {
    buf: RgbaBuffer,
    width: u32,
    height: u32,
}

impl View for PixelCanvas {
    type V = Map<(int, int), Color>;

    closed spec fn view(&self) -> Map<(int, int), Color> {
        buf_pixels(self.buf)
    }
}

impl PixelCanvas {
    pub closed spec fn spec_width(&self) -> int {
        self.width as int
    }

    pub closed spec fn spec_height(&self) -> int {
        self.height as int
    }

    /// The cached dimensions are the buffer's own.
    pub closed spec fn buf_inv(&self) -> bool {
        &&& buf_width(self.buf) == self.spec_width()
        &&& buf_height(self.buf) == self.spec_height()
    }

    /// The canvas is well formed: the cached dimensions are the
    /// buffer's, and the model holds exactly the in-range coordinates.
    pub open spec fn wf(&self) -> bool {
        &&& self.buf_inv()
        &&& self@.dom() == grid_dom(self.spec_width(), self.spec_height())
        &&& self.spec_width() * self.spec_height() * 4 <= isize::MAX as int
    }

    /// A fresh, fully transparent canvas.
    pub fn new(width: u32, height: u32) -> (c: PixelCanvas)
        requires
            width as int * height as int * 4 <= isize::MAX as int,
        ensures
            c.wf(),
            c.spec_width() == width as int,
            c.spec_height() == height as int,
            c@ == uniform_grid(width as int, height as int, crate::color::blank_spec()),
    {
        let buf = buf_new(width, height);
        proof {
            assert(buf_pixels(buf) =~= uniform_grid(
                width as int,
                height as int,
                crate::color::blank_spec(),
            ));
            assert(buf_pixels(buf).dom() =~= grid_dom(width as int, height as int));
        }
        PixelCanvas { buf, width, height }
    }

    pub fn width(&self) -> (w: u32)
        ensures
            w as int == self.spec_width(),
    {
        self.width
    }

    pub fn height(&self) -> (h: u32)
        ensures
            h as int == self.spec_height(),
    {
        self.height
    }

    /// The color currently stored at an in-range coordinate.
    pub fn get(&self, x: u32, y: u32) -> (c: Color)
        requires
            self.wf(),
            (x as int) < self.spec_width(),
            (y as int) < self.spec_height(),
        ensures
            c == self@[(x as int, y as int)],
    {
        buf_get(&self.buf, x, y)
    }

    /// The pixel data as one flat byte vector, rows from top to
    /// bottom, four channels per pixel in red, green, blue, alpha
    /// order.
    pub fn raw_rgba(&self) -> (v: Vec<u8>)
        requires
            self.wf(),
        ensures
            v@.len() == self.spec_width() * self.spec_height() * 4,
            forall|x: int, y: int|
                0 <= x < self.spec_width() && 0 <= y < self.spec_height() ==> {
                    let c = #[trigger] self@[(x, y)];
                    let i = 4 * (y * self.spec_width() + x);
                    v@[i] == c.r && v@[i + 1] == c.g && v@[i + 2] == c.b && v@[i + 3] == c.a
                },
    {
        buf_raw(&self.buf)
    }

    /// Whether a coordinate pair lies on the canvas.
    pub open spec fn spec_in_bounds(&self, x: int, y: int) -> bool {
        0 <= x < self.spec_width() && 0 <= y < self.spec_height()
    }

    /// Stores a color at a coordinate; a write outside the canvas is
    /// silently ignored, never an error.
    pub fn set(&mut self, x: i64, y: i64, c: Color)
        requires
            old(self).wf(),
        ensures
            final(self).wf(),
            final(self).spec_width() == old(self).spec_width(),
            final(self).spec_height() == old(self).spec_height(),
            final(self)@ == (if old(self).spec_in_bounds(x as int, y as int) {
                old(self)@.insert((x as int, y as int), c)
            } else {
                old(self)@
            }),
    {
        if 0 <= x && x < self.width as i64 && 0 <= y && y < self.height as i64 {
            buf_put(&mut self.buf, x as u32, y as u32, c);
            proof {
                assert(self@.dom() =~= grid_dom(self.spec_width(), self.spec_height()));
            }
        }
    }

    /// Overwrites every cell with one color.
    pub fn clear(&mut self, c: Color)
        requires
            old(self).wf(),
        ensures
            final(self).wf(),
            final(self).spec_width() == old(self).spec_width(),
            final(self).spec_height() == old(self).spec_height(),
            final(self)@ == uniform_grid(old(self).spec_width(), old(self).spec_height(), c),
    {
        let w = self.width;
        let h = self.height;
        let mut y: u32 = 0;
        while y < h
            invariant
                self.wf(),
                self.spec_width() == w as int,
                self.spec_height() == h as int,
                y <= h,
                forall|p: (int, int)| #[trigger] self@.dom().contains(p) ==> self@[p] == (
                if p.1 < y as int {
                    c
                } else {
                    old(self)@[p]
                }),
            decreases h - y,
        {
            let mut x: u32 = 0;
            while x < w
                invariant
                    self.wf(),
                    self.spec_width() == w as int,
                    self.spec_height() == h as int,
                    y < h,
                    x <= w,
                    forall|p: (int, int)| #[trigger] self@.dom().contains(p) ==> self@[p] == (
                    if p.1 < y as int || (p.1 == y as int && p.0 < x as int) {
                        c
                    } else {
                        old(self)@[p]
                    }),
                decreases w - x,
            {
                buf_put(&mut self.buf, x, y, c);
                proof {
                    assert(self@.dom() =~= grid_dom(self.spec_width(), self.spec_height()));
                }
                x = x + 1;
            }
            y = y + 1;
        }
        proof {
            assert(self@ =~= uniform_grid(w as int, h as int, c));
        }
    }
}

} // verus!
