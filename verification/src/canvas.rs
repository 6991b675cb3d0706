//! The pixel-buffer data model: a fixed-size RGB canvas with point-indexed
//! reads and writes, bulk encoding for display, and byte-level import/export.

use vstd::prelude::*;

verus! {

/// An RGB color: one byte per channel.
#[derive(Clone, Copy, PartialEq, Eq, Structural, Debug)]
pub struct Color {
    pub r: u8,
    pub g: u8,
    pub b: u8,
}

/// A pixel position; valid positions satisfy `0 <= x < width`, `0 <= y < height`.
#[derive(Clone, Copy, PartialEq, Eq, Structural, Debug)]
pub struct Point {
    pub x: u32,
    pub y: u32,
}

/// A width x height RGB pixel grid, stored in raster order (rows top to
/// bottom, columns left to right).
pub struct Image {
    pub width: u32,
    pub height: u32,
    pub pixels: Vec<Color>,
}

/// The mathematical model of an [`Image`]: its dimensions and the flat
/// raster-order sequence of pixel colors.
pub struct ImageView {
    pub width: int,
    pub height: int,
    pub pixels: Seq<Color>,
}

impl View for Image {
    type V = ImageView;

    open spec fn view(&self) -> ImageView {
        ImageView {
            width: self.width as int,
            height: self.height as int,
            pixels: self.pixels@,
        }
    }
}

impl ImageView {
    /// The canvas invariant: exactly one stored color per grid cell.
    pub open spec fn wf(self) -> bool {
        &&& self.width >= 0
        &&& self.height >= 0
        &&& self.pixels.len() == self.width * self.height
    }

    pub open spec fn in_bounds(self, p: Point) -> bool {
        &&& (p.x as int) < self.width
        &&& (p.y as int) < self.height
    }

    /// Flat raster-order index of a point.
    pub open spec fn offset_of(self, p: Point) -> int {
        p.y as int * self.width + p.x as int
    }

    pub open spec fn color_at(self, p: Point) -> Color {
        self.pixels[self.offset_of(p)]
    }

    /// The canvas with the color at `p` overwritten by `c`.
    pub open spec fn set_color(self, p: Point, c: Color) -> ImageView {
        ImageView {
            width: self.width,
            height: self.height,
            pixels: self.pixels.update(self.offset_of(p), c),
        }
    }

    pub open spec fn same_dims(self, other: ImageView) -> bool {
        self.width == other.width && self.height == other.height
    }
}

/// For a point inside the grid, the raster offset lands inside the pixel
/// buffer of a well-formed canvas.
pub proof fn lemma_offset_in_range(v: ImageView, p: Point)
    requires
        v.wf(),
        v.in_bounds(p),
    ensures
        0 <= v.offset_of(p) < v.pixels.len(),
{
    assert((p.y as int * v.width + p.x as int) < v.height * v.width) by (nonlinear_arith)
        requires
            (p.x as int) < v.width,
            (p.y as int) < v.height,
            p.x >= 0,
            p.y >= 0,
    ;
    assert(v.height * v.width == v.width * v.height) by (nonlinear_arith);
    assert(p.y as int * v.width >= 0) by (nonlinear_arith)
        requires
            p.y >= 0,
            v.width >= 0,
    ;
}

/// Distinct in-bounds points have distinct raster offsets.
pub proof fn lemma_offset_injective(v: ImageView, p: Point, q: Point)
    requires
        v.wf(),
        v.in_bounds(p),
        v.in_bounds(q),
        p != q,
    ensures
        v.offset_of(p) != v.offset_of(q),
{
    if p.y == q.y {
        assert(v.offset_of(p) != v.offset_of(q));
    } else {
        assert((p.y as int * v.width + p.x as int) != q.y as int * v.width + q.x as int)
            by (nonlinear_arith)
            requires
                p.y != q.y,
                0 <= (p.x as int) < v.width,
                0 <= (q.x as int) < v.width,
                p.y >= 0,
                q.y >= 0,
        ;
    }
}

/// Every point of a change set lies inside the grid of `v`.
pub open spec fn changes_in_bounds(v: ImageView, changes: Seq<(Point, Color)>) -> bool {
    forall|i: int| 0 <= i < changes.len() ==> v.in_bounds(#[trigger] changes[i].0)
}

/// The canvas obtained by writing every `(point, color)` entry of `changes`
/// into `v`, in order; later entries overwrite earlier ones.
pub open spec fn spec_apply(v: ImageView, changes: Seq<(Point, Color)>) -> ImageView
    decreases changes.len(),
{
    if changes.len() == 0 {
        v
    } else {
        spec_apply(v, changes.drop_last()).set_color(changes.last().0, changes.last().1)
    }
}

/// Applying a change set keeps the canvas dimensions and well-formedness.
pub proof fn lemma_apply_dims(v: ImageView, changes: Seq<(Point, Color)>)
    requires
        v.wf(),
        changes_in_bounds(v, changes),
    ensures
        spec_apply(v, changes).wf(),
        spec_apply(v, changes).width == v.width,
        spec_apply(v, changes).height == v.height,
    decreases changes.len(),
{
    if changes.len() > 0 {
        let prefix = changes.drop_last();
        assert(changes_in_bounds(v, prefix)) by {
            assert(forall|i: int| 0 <= i < prefix.len() ==> prefix[i] == changes[i]);
        }
        lemma_apply_dims(v, prefix);
        lemma_offset_in_range(spec_apply(v, prefix), changes.last().0);
    }
}

/// A point touched by no entry of the change set keeps its color.
pub proof fn lemma_apply_frame(v: ImageView, changes: Seq<(Point, Color)>, p: Point)
    requires
        v.wf(),
        changes_in_bounds(v, changes),
        v.in_bounds(p),
        forall|i: int| 0 <= i < changes.len() ==> (#[trigger] changes[i]).0 != p,
    ensures
        spec_apply(v, changes).color_at(p) == v.color_at(p),
    decreases changes.len(),
{
    if changes.len() > 0 {
        let prefix = changes.drop_last();
        assert(changes_in_bounds(v, prefix)) by {
            assert(forall|i: int| 0 <= i < prefix.len() ==> prefix[i] == changes[i]);
        }
        lemma_apply_frame(v, prefix, p);
        let q = changes.last().0;
        let applied = spec_apply(v, prefix);
        lemma_apply_dims(v, prefix);
        lemma_offset_in_range(applied, q);
        assert(changes.last() == changes[changes.len() - 1]);
        lemma_offset_injective(applied, q, p);
        lemma_offset_in_range(applied, p);
        assert(spec_apply(v, changes).color_at(p) == applied.color_at(p));
    }
}

/// The packed display form of one pixel: big-endian `(0, r, g, b)`, i.e. the
/// red byte in bits 16..24, green in 8..16, blue in 0..8, top byte zero.
pub open spec fn spec_packed(c: Color) -> int {
    c.r * 0x10000 + c.g * 0x100 + c.b
}

/// Encoding is deterministic: two encodings of the same canvas into buffers
/// of the canvas's pixel count agree everywhere.
pub proof fn lemma_encode_idempotent(v: ImageView, b1: Seq<u32>, b2: Seq<u32>)
    requires
        v.wf(),
        b1.len() == v.width * v.height,
        b2.len() == v.width * v.height,
        forall|k: int| 0 <= k < b1.len() ==> b1[k] == spec_packed(#[trigger] v.pixels[k]),
        forall|k: int| 0 <= k < b2.len() ==> b2[k] == spec_packed(#[trigger] v.pixels[k]),
    ensures
        b1 == b2,
{
    assert forall|k: int| 0 <= k < b1.len() implies b1[k] == b2[k] by {
        assert(b1[k] == spec_packed(v.pixels[k]));
        assert(b2[k] == spec_packed(v.pixels[k]));
    }
    assert(b1 =~= b2);
}

impl Image {
    /// Writes every `(point, color)` entry of `changes` into the canvas, in
    /// order. This is the sole bulk mutation path of a canvas.
    pub fn apply(&mut self, changes: &Vec<(Point, Color)>)
        requires
            old(self)@.wf(),
            changes_in_bounds(old(self)@, changes@),
        ensures
            final(self)@ == spec_apply(old(self)@, changes@),
    {
        for i in 0..changes.len()
            invariant
                self@.wf(),
                self@.width == old(self)@.width,
                self@.height == old(self)@.height,
                changes_in_bounds(old(self)@, changes@),
                self@ == spec_apply(old(self)@, changes@.take(i as int)),
        {
            let (pos, col) = changes[i];
            proof {
                assert(old(self)@.in_bounds(pos));
                lemma_offset_in_range(self@, pos);
            }
            *self.color_at_mut(pos) = col;
            proof {
                let s = changes@;
                assert(s.take(i + 1).drop_last() =~= s.take(i as int));
                assert(s.take(i + 1).last() == s[i as int]);
            }
        }
        proof {
            assert(changes@.take(changes@.len() as int) =~= changes@);
        }
    }

    /// Reads the color stored at `point`; `point` must lie inside the grid.
    pub fn color_at(&self, point: Point) -> (c: Color)
        requires
            self@.wf(),
            self@.in_bounds(point),
        ensures
            c == self@.color_at(point),
    {
        let o = self.offset(point);
        self.pixels[o]
    }

    /// A mutable borrow of the color stored at `point`; writing through it
    /// overwrites exactly that pixel.
    pub fn color_at_mut(&mut self, point: Point) -> (c: &mut Color)
        requires
            old(self)@.wf(),
            old(self)@.in_bounds(point),
        ensures
            *c == old(self)@.color_at(point),
            final(self)@ == old(self)@.set_color(point, *final(c)),
    {
        let o = self.offset(point);
        &mut self.pixels[o]
    }

    fn offset(&self, point: Point) -> (o: usize)
        requires
            self@.wf(),
            self@.in_bounds(point),
        ensures
            o == self@.offset_of(point),
            o < self.pixels.len(),
    {
        let n = self.pixels.len();
        proof {
            lemma_offset_in_range(self@, point);
            assert(point.y as int * self.width as int >= 0) by (nonlinear_arith)
                requires
                    point.y >= 0,
                    self.width >= 0,
            ;
            assert((point.y as int * self.width as int + point.x as int) < n as int);
        }
        point.y as usize * self.width as usize + point.x as usize
    }

    /// Packs the canvas into one `u32` per pixel for display, in raster
    /// order: rows top to bottom, columns left to right, each value laid out
    /// as big-endian `(0, r, g, b)`. Entries of `buf` past the pixel count
    /// are left as they were.
    pub fn encode(&self, buf: &mut Vec<u32>)
        requires
            self@.wf(),
            old(buf)@.len() >= self@.width * self@.height,
        ensures
            final(buf)@.len() == old(buf)@.len(),
            forall|k: int|
                0 <= k < self@.width * self@.height ==> final(buf)@[k] == spec_packed(
                    #[trigger] self@.pixels[k],
                ),
            forall|k: int|
                self@.width * self@.height <= k < old(buf)@.len() ==> final(buf)@[k] == old(
                    buf,
                )@[k],
    {
        let n = self.pixels.len();
        for o in 0..n
            invariant
                self@.wf(),
                n == self@.pixels.len(),
                buf@.len() == old(buf)@.len(),
                buf@.len() >= n,
                forall|k: int|
                    0 <= k < o ==> buf@[k] == spec_packed(#[trigger] self@.pixels[k]),
                forall|k: int| o <= k < buf@.len() ==> buf@[k] == old(buf)@[k],
        {
            let c = self.pixels[o];
            let v: u32 = (c.r as u32) * 0x10000 + (c.g as u32) * 0x100 + (c.b as u32);
            buf.set(o, v);
        }
    }

    /// An all-black canvas of the given dimensions: the starting state of an
    /// approximation.
    pub fn blank(width: u32, height: u32) -> (img: Image)
        requires
            width * height <= usize::MAX,
        ensures
            img@.wf(),
            img@.width == width,
            img@.height == height,
            forall|k: int|
                0 <= k < img@.pixels.len() ==> img@.pixels[k] == (Color { r: 0, g: 0, b: 0 }),
    {
        let n = width as usize * height as usize;
        let mut pixels: Vec<Color> = Vec::new();
        for i in 0..n
            invariant
                pixels@.len() == i,
                forall|k: int|
                    0 <= k < pixels@.len() ==> pixels@[k] == (Color { r: 0, g: 0, b: 0 }),
        {
            pixels.push(Color { r: 0, g: 0, b: 0 });
        }
        Image { width, height, pixels }
    }

    /// Wraps a flat RGB byte buffer (three bytes per pixel, raster order)
    /// into a canvas; a byte-for-byte copy, no transformation.
    pub fn from_raw(width: u32, height: u32, bytes: &Vec<u8>) -> (img: Image)
        requires
            bytes@.len() == width * height * 3,
        ensures
            img@.wf(),
            img@.width == width,
            img@.height == height,
            forall|k: int|
                0 <= k < img@.pixels.len() ==> #[trigger] img@.pixels[k] == (Color {
                    r: bytes@[3 * k],
                    g: bytes@[3 * k + 1],
                    b: bytes@[3 * k + 2],
                }),
    {
        let total = bytes.len();
        proof {
            assert(width * height * 3 == (width as int * height as int) * 3) by (nonlinear_arith);
            assert((width as int * height as int) <= (width as int * height as int) * 3)
                by (nonlinear_arith)
                requires
                    width as int * height as int >= 0,
            ;
        }
        let n = width as usize * height as usize;
        let mut pixels: Vec<Color> = Vec::new();
        for i in 0..n
            invariant
                bytes@.len() == n * 3,
                n * 3 <= usize::MAX,
                n == width as int * height as int,
                pixels@.len() == i,
                forall|k: int|
                    0 <= k < pixels@.len() ==> #[trigger] pixels@[k] == (Color {
                        r: bytes@[3 * k],
                        g: bytes@[3 * k + 1],
                        b: bytes@[3 * k + 2],
                    }),
        {
            let o = 3 * i;
            pixels.push(Color { r: bytes[o], g: bytes[o + 1], b: bytes[o + 2] });
        }
        Image { width, height, pixels }
    }

    /// Unwraps the canvas into a flat RGB byte buffer (three bytes per pixel,
    /// raster order); a byte-for-byte copy, no transformation.
    pub fn to_raw(&self) -> (bytes: Vec<u8>)
        requires
            self@.pixels.len() * 3 <= usize::MAX,
        ensures
            bytes@.len() == self@.pixels.len() * 3,
            forall|k: int|
                0 <= k < self@.pixels.len() ==> bytes@[3 * k] == (#[trigger] self@.pixels[k]).r
                    && bytes@[3 * k + 1] == self@.pixels[k].g && bytes@[3 * k + 2]
                    == self@.pixels[k].b,
    {
        let n = self.pixels.len();
        let mut bytes: Vec<u8> = Vec::new();
        for i in 0..n
            invariant
                n == self@.pixels.len(),
                n * 3 <= usize::MAX,
                bytes@.len() == 3 * i,
                forall|k: int|
                    0 <= k < i ==> bytes@[3 * k] == (#[trigger] self@.pixels[k]).r && bytes@[3 * k
                        + 1] == self@.pixels[k].g && bytes@[3 * k + 2] == self@.pixels[k].b,
        {
            let c = self.pixels[i];
            bytes.push(c.r);
            bytes.push(c.g);
            bytes.push(c.b);
        }
        bytes
    }
}

} // verus!
