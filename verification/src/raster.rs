//! Raster images as the device sees them: eight bits each of red, green, blue
//! and alpha per pixel, row by row, and the patch between two of them.

use vstd::prelude::*;

verus! {

/// What an image holds: its size and its bytes, four for each pixel, the rows
/// one after the other from the top.
pub struct Pixels {
    pub width: nat,
    pub height: nat,
    pub data: Seq<u8>,
}

/// A rectangle of pixels; all four bounds belong to it.
pub struct Rect {
    pub left: int,
    pub top: int,
    pub right: int,
    pub bottom: int,
}

impl Pixels {
    pub open spec fn wf(self) -> bool {
        self.data.len() == 4 * self.width * self.height
    }

    pub open spec fn contains(self, x: int, y: int) -> bool {
        0 <= x < self.width && 0 <= y < self.height
    }

    pub open spec fn same_size(self, other: Pixels) -> bool {
        self.width == other.width && self.height == other.height
    }

    /// Where the bytes of the pixel at `(x, y)` begin.
    pub open spec fn offset(self, x: int, y: int) -> int {
        4 * (y * self.width + x)
    }

    /// Red, green, blue and alpha of the pixel at `(x, y)`.
    pub open spec fn pixel(self, x: int, y: int) -> (u8, u8, u8, u8) {
        let k = self.offset(x, y);
        (self.data[k], self.data[k + 1], self.data[k + 2], self.data[k + 3])
    }

    pub open spec fn differs(self, other: Pixels, x: int, y: int) -> bool {
        self.pixel(x, y) != other.pixel(x, y)
    }

    pub open spec fn column_differs(self, other: Pixels, x: int) -> bool {
        exists|y: int| 0 <= y < self.height && #[trigger] self.differs(other, x, y)
    }

    pub open spec fn row_differs(self, other: Pixels, y: int) -> bool {
        exists|x: int| 0 <= x < self.width && #[trigger] self.differs(other, x, y)
    }

    pub open spec fn any_difference(self, other: Pixels) -> bool {
        exists|x: int, y: int| self.contains(x, y) && #[trigger] self.differs(other, x, y)
    }

    /// `r` is the smallest rectangle that holds every pixel in which `self`
    /// and `other` differ: all of them lie in it, and each of its four sides
    /// touches one.
    pub open spec fn is_tight_box(self, other: Pixels, r: Rect) -> bool {
        &&& 0 <= r.left <= r.right < self.width
        &&& 0 <= r.top <= r.bottom < self.height
        &&& forall|x: int, y: int|
            self.contains(x, y) && #[trigger] self.differs(other, x, y) ==> r.left <= x <= r.right
                && r.top <= y <= r.bottom
        &&& self.column_differs(other, r.left)
        &&& self.column_differs(other, r.right)
        &&& self.row_differs(other, r.top)
        &&& self.row_differs(other, r.bottom)
    }

    pub open spec fn difference_box(self, other: Pixels) -> Rect {
        choose|r: Rect| self.is_tight_box(other, r)
    }

    /// The bytes of `count` pixels of row `y`, from column `x` on.
    pub open spec fn run(self, x: int, y: int, count: int) -> Seq<u8> {
        self.data.subrange(self.offset(x, y), self.offset(x, y) + 4 * count)
    }

    /// The bytes of the first `rows` rows of the rectangle that is `w` wide
    /// and has its top left corner at `(x, y)`.
    pub open spec fn block(self, x: int, y: int, w: int, rows: int) -> Seq<u8>
        decreases rows,
    {
        if rows <= 0 {
            Seq::empty()
        } else {
            self.block(x, y, w, rows - 1) + self.run(x, y + rows - 1, w)
        }
    }

    /// The cut-out of `w` by `h` pixels with its top left corner at `(x, y)`.
    pub open spec fn cropped(self, x: int, y: int, w: int, h: int) -> Pixels {
        Pixels { width: w as nat, height: h as nat, data: self.block(x, y, w, h) }
    }

    pub open spec fn cut(self, r: Rect) -> Pixels {
        self.cropped(r.left, r.top, r.right - r.left + 1, r.bottom - r.top + 1)
    }

    /// This image with the bytes from pixel `(x, y)` on replaced by `bytes`.
    pub open spec fn with_run(self, x: int, y: int, bytes: Seq<u8>) -> Pixels {
        let k = self.offset(x, y);
        Pixels {
            width: self.width,
            height: self.height,
            data: self.data.take(k) + bytes + self.data.skip(k + bytes.len()),
        }
    }

    /// This image with the first `rows` rows of `tile` laid over it, the top
    /// left corner of `tile` at `(x, y)`. What is laid over is opaque.
    pub open spec fn overlaid(self, tile: Pixels, x: int, y: int, rows: int) -> Pixels
        decreases rows,
    {
        if rows <= 0 {
            self
        } else {
            self.overlaid(tile, x, y, rows - 1).with_run(
                x,
                y + rows - 1,
                opaque(tile.run(0, rows - 1, tile.width as int)),
            )
        }
    }

    pub open spec fn fits(self, tile: Pixels, x: int, y: int) -> bool {
        x + tile.width <= self.width && y + tile.height <= self.height
    }

    pub open spec fn pasted(self, tile: Pixels, x: int, y: int) -> Pixels {
        self.overlaid(tile, x, y, tile.height as int)
    }
}

/// The bytes of pixels with each alpha byte set to full.
pub open spec fn opaque(bytes: Seq<u8>) -> Seq<u8> {
    Seq::new(bytes.len(), |i: int| if i % 4 == 3 { 255u8 } else { bytes[i] })
}

/// The bytes of `count` pixels of one colour.
pub open spec fn solid(count: nat, r: u8, g: u8, b: u8, a: u8) -> Seq<u8> {
    Seq::new(
        4 * count,
        |i: int|
            if i % 4 == 0 {
                r
            } else if i % 4 == 1 {
                g
            } else if i % 4 == 2 {
                b
            } else {
                a
            },
    )
}

/// What has to be sent to turn `prior` on the display into `next`: nothing
/// where they differ in size or in no pixel, else the corner of the smallest
/// rectangle that holds all the differences and the cut-out of `next` there.
pub open spec fn patch_of(prior: Pixels, next: Pixels) -> Option<(int, int, Pixels)> {
    if prior.same_size(next) && prior.any_difference(next) {
        let r = prior.difference_box(next);
        Some((r.left, r.top, next.cut(r)))
    } else {
        None
    }
}

/// A run of `count` pixels that lies within a row lies within the image.
pub proof fn lemma_run_bound(x: int, y: int, count: int, w: int, h: int)
    requires
        0 <= x,
        0 <= count,
        x + count <= w,
        0 <= y < h,
    ensures
        0 <= 4 * (y * w + x),
        4 * (y * w + x) + 4 * count <= 4 * w * h,
        4 * w * h == 4 * (w * h),
{
    assert(0 <= y * w) by (nonlinear_arith)
        requires
            0 <= y,
            0 <= w,
    ;
    assert(y * w + w <= h * w) by (nonlinear_arith)
        requires
            y + 1 <= h,
            0 <= w,
    ;
    assert(h * w == w * h) by (nonlinear_arith);
    assert(4 * w * h == 4 * (w * h)) by (nonlinear_arith);
}

pub proof fn lemma_rows(w: int, rows: int)
    ensures
        4 * w * (rows + 1) == 4 * w * rows + 4 * w,
        w * (rows + 1) == w * rows + w,
{
    assert(4 * w * (rows + 1) == 4 * w * rows + 4 * w) by (nonlinear_arith);
    assert(w * (rows + 1) == w * rows + w) by (nonlinear_arith);
}

/// Two images have at most one tight box of differences.
pub proof fn lemma_tight_box_unique(a: Pixels, b: Pixels, r: Rect, s: Rect)
    requires
        a.is_tight_box(b, r),
        a.is_tight_box(b, s),
    ensures
        r == s,
{
    let y = choose|y: int| 0 <= y < a.height && #[trigger] a.differs(b, r.left, y);
    assert(a.contains(r.left, y));
    let y = choose|y: int| 0 <= y < a.height && #[trigger] a.differs(b, r.right, y);
    assert(a.contains(r.right, y));
    let x = choose|x: int| 0 <= x < a.width && #[trigger] a.differs(b, x, r.top);
    assert(a.contains(x, r.top));
    let x = choose|x: int| 0 <= x < a.width && #[trigger] a.differs(b, x, r.bottom);
    assert(a.contains(x, r.bottom));
    let y = choose|y: int| 0 <= y < a.height && #[trigger] a.differs(b, s.left, y);
    assert(a.contains(s.left, y));
    let y = choose|y: int| 0 <= y < a.height && #[trigger] a.differs(b, s.right, y);
    assert(a.contains(s.right, y));
    let x = choose|x: int| 0 <= x < a.width && #[trigger] a.differs(b, x, s.top);
    assert(a.contains(x, s.top));
    let x = choose|x: int| 0 <= x < a.width && #[trigger] a.differs(b, x, s.bottom);
    assert(a.contains(x, s.bottom));
}

/// Where a tight box is known, it is the one that `patch_of` goes by.
pub proof fn lemma_patch_of_box(a: Pixels, b: Pixels, r: Rect)
    requires
        a.same_size(b),
        a.is_tight_box(b, r),
    ensures
        patch_of(a, b) == Some((r.left, r.top, b.cut(r))),
{
    let y = choose|y: int| 0 <= y < a.height && #[trigger] a.differs(b, r.left, y);
    assert(a.contains(r.left, y));
    assert(a.any_difference(b));
    lemma_tight_box_unique(a, b, r, a.difference_box(b));
}

/// A block of `rows` rows of `w` pixels has four bytes for each of them.
proof fn lemma_block_len(src: Pixels, x: int, y: int, w: int, rows: int)
    requires
        src.wf(),
        0 <= x,
        0 <= w,
        x + w <= src.width,
        0 <= y,
        0 <= rows,
        y + rows <= src.height,
    ensures
        src.block(x, y, w, rows).len() == 4 * w * rows,
    decreases rows,
{
    if rows > 0 {
        lemma_block_len(src, x, y, w, rows - 1);
        lemma_rows(w, rows - 1);
        lemma_run_bound(x, y + rows - 1, w, src.width as int, src.height as int);
        assert(src.run(x, y + rows - 1, w).len() == 4 * w);
    } else {
        assert(4 * w * 0 == 0);
    }
}

/// The rows of a block lie one behind the other.
proof fn lemma_block_rows(src: Pixels, x: int, y: int, w: int, rows: int, row: int, k: int)
    requires
        src.wf(),
        0 <= x,
        0 <= w,
        x + w <= src.width,
        0 <= y,
        0 <= rows,
        y + rows <= src.height,
        0 <= row < rows,
        0 <= k < 4 * w,
    ensures
        4 * w * row + k < src.block(x, y, w, rows).len(),
        src.block(x, y, w, rows)[4 * w * row + k] == src.data[src.offset(x, y + row) + k],
    decreases rows,
{
    lemma_block_len(src, x, y, w, rows);
    lemma_block_len(src, x, y, w, rows - 1);
    lemma_rows(w, rows - 1);
    lemma_run_bound(x, y + rows - 1, w, src.width as int, src.height as int);
    if row == rows - 1 {
        assert(src.block(x, y, w, rows)[4 * w * row + k] == src.run(x, y + row, w)[k]);
    } else {
        lemma_block_rows(src, x, y, w, rows - 1, row, k);
    }
}

/// A cut-out shows the pixels of its place: the image that is cut from a
/// whole image within its bounds is whole, and each of its pixels is the
/// pixel of the image that lies as far from the corner of the cut.
pub proof fn law_cut_out_shows_its_place(src: Pixels, x: int, y: int, w: int, h: int)
    requires
        src.wf(),
        0 <= x,
        0 <= w,
        x + w <= src.width,
        0 <= y,
        0 <= h,
        y + h <= src.height,
    ensures
        src.cropped(x, y, w, h).wf(),
        forall|px: int, py: int|
            0 <= px < w && 0 <= py < h ==> #[trigger] src.cropped(x, y, w, h).pixel(px, py)
                == src.pixel(x + px, y + py),
{
    let cut = src.cropped(x, y, w, h);
    lemma_block_len(src, x, y, w, h);
    assert(cut.width == w && cut.height == h);
    assert forall|px: int, py: int| 0 <= px < w && 0 <= py < h implies #[trigger] cut.pixel(
        px,
        py,
    ) == src.pixel(x + px, y + py) by {
        let k = 4 * px;
        lemma_block_rows(src, x, y, w, h, py, k);
        lemma_block_rows(src, x, y, w, h, py, k + 1);
        lemma_block_rows(src, x, y, w, h, py, k + 2);
        lemma_block_rows(src, x, y, w, h, py, k + 3);
        assert(cut.offset(px, py) == 4 * w * py + k) by (nonlinear_arith)
            requires
                cut.offset(px, py) == 4 * (py * w + px),
                k == 4 * px,
        ;
        assert(src.offset(x + px, y + py) == src.offset(x, y + py) + k) by (nonlinear_arith)
            requires
                src.offset(x + px, y + py) == 4 * ((y + py) * src.width + (x + px)),
                src.offset(x, y + py) == 4 * ((y + py) * src.width + x),
                k == 4 * px,
        ;
    }
}

/// Where the bytes of a pixel lie with respect to a run of `n` pixels that
/// begins at `(x, y)`.
proof fn lemma_pixel_and_run(w: int, x: int, y: int, n: int, px: int, py: int, c: int)
    requires
        0 <= x,
        0 <= n,
        x + n <= w,
        0 <= y,
        0 <= px < w,
        0 <= py,
        0 <= c < 4,
    ensures
        py == y && x <= px < x + n ==> 4 * (py * w + px) + c == 4 * (y * w + x) + 4 * (px - x)
            + c,
        py == y && px < x ==> 4 * (py * w + px) + c < 4 * (y * w + x),
        py == y && px >= x + n ==> 4 * (py * w + px) + c >= 4 * (y * w + x) + 4 * n,
        py < y ==> 4 * (py * w + px) + c < 4 * (y * w + x),
        py > y ==> 4 * (py * w + px) + c >= 4 * (y * w + x) + 4 * n,
{
    if py < y {
        assert(py * w + w <= y * w) by (nonlinear_arith)
            requires
                py + 1 <= y,
                0 <= w,
        ;
    }
    if py > y {
        assert(y * w + w <= py * w) by (nonlinear_arith)
            requires
                y + 1 <= py,
                0 <= w,
        ;
    }
}

/// What a pixel shows after the bytes of a run were replaced.
proof fn lemma_with_run_pixel(
    img: Pixels,
    x: int,
    y: int,
    bytes: Seq<u8>,
    n: int,
    px: int,
    py: int,
    c: int,
)
    requires
        img.wf(),
        0 <= x,
        0 <= n,
        x + n <= img.width,
        0 <= y < img.height,
        bytes.len() == 4 * n,
        img.contains(px, py),
        0 <= c < 4,
    ensures
        img.with_run(x, y, bytes).data.len() == img.data.len(),
        img.with_run(x, y, bytes).data[img.offset(px, py) + c] == if py == y && x <= px < x + n {
            bytes[4 * (px - x) + c]
        } else {
            img.data[img.offset(px, py) + c]
        },
{
    let w = img.width as int;
    lemma_run_bound(x, y, n, w, img.height as int);
    lemma_run_bound(px, py, 1, w, img.height as int);
    lemma_pixel_and_run(w, x, y, n, px, py, c);
}

/// What a pixel shows after the first `rows` rows of a tile were laid over
/// an image.
proof fn lemma_overlaid_pixel(
    canvas: Pixels,
    tile: Pixels,
    x: int,
    y: int,
    rows: int,
    px: int,
    py: int,
    c: int,
)
    requires
        canvas.wf(),
        tile.wf(),
        0 <= x,
        0 <= y,
        canvas.fits(tile, x, y),
        0 <= rows <= tile.height,
        canvas.contains(px, py),
        0 <= c < 4,
    ensures
        canvas.overlaid(tile, x, y, rows).wf(),
        canvas.overlaid(tile, x, y, rows).same_size(canvas),
        canvas.overlaid(tile, x, y, rows).data[canvas.offset(px, py) + c] == if x <= px < x
            + tile.width && y <= py < y + rows {
            if c == 3 {
                255u8
            } else {
                tile.data[tile.offset(px - x, py - y) + c]
            }
        } else {
            canvas.data[canvas.offset(px, py) + c]
        },
    decreases rows,
{
    if rows > 0 {
        let before = canvas.overlaid(tile, x, y, rows - 1);
        let row = rows - 1;
        let n = tile.width as int;
        lemma_overlaid_pixel(canvas, tile, x, y, rows - 1, px, py, c);
        lemma_run_bound(0, row, n, n, tile.height as int);
        let bytes = opaque(tile.run(0, row, n));
        assert(bytes.len() == 4 * n);
        assert(before.offset(px, py) == canvas.offset(px, py));
        lemma_with_run_pixel(before, x, y + row, bytes, n, px, py, c);
        if py == y + row && x <= px < x + n {
            let k = 4 * (px - x) + c;
            assert(bytes[k] == if k % 4 == 3 {
                255u8
            } else {
                tile.run(0, row, n)[k]
            });
            assert(k % 4 == c);
            assert(tile.offset(px - x, py - y) == tile.offset(0, row) + 4 * (px - x));
        }
    }
}

/// A tile that was laid over an image lies at its place: the image keeps its
/// size, within the rectangle of the tile each pixel shows the colour of the
/// tile and is opaque, and every other pixel is as before.
pub proof fn law_pasted_tile_lies_at_its_place(canvas: Pixels, tile: Pixels, x: int, y: int)
    requires
        canvas.wf(),
        tile.wf(),
        0 <= x,
        0 <= y,
        canvas.fits(tile, x, y),
    ensures
        canvas.pasted(tile, x, y).wf(),
        canvas.pasted(tile, x, y).same_size(canvas),
        forall|px: int, py: int|
            canvas.contains(px, py) ==> #[trigger] canvas.pasted(tile, x, y).pixel(px, py) == if x
                <= px < x + tile.width && y <= py < y + tile.height {
                (
                    tile.pixel(px - x, py - y).0,
                    tile.pixel(px - x, py - y).1,
                    tile.pixel(px - x, py - y).2,
                    255u8,
                )
            } else {
                canvas.pixel(px, py)
            },
{
    let out = canvas.pasted(tile, x, y);
    let rows = tile.height as int;
    if canvas.width > 0 && canvas.height > 0 {
        lemma_overlaid_pixel(canvas, tile, x, y, rows, 0, 0, 0);
    } else {
        lemma_overlaid_nothing(canvas, tile, x, y, rows);
    }
    assert forall|px: int, py: int| canvas.contains(px, py) implies #[trigger] out.pixel(px, py)
        == if x <= px < x + tile.width && y <= py < y + tile.height {
        (
            tile.pixel(px - x, py - y).0,
            tile.pixel(px - x, py - y).1,
            tile.pixel(px - x, py - y).2,
            255u8,
        )
    } else {
        canvas.pixel(px, py)
    } by {
        lemma_overlaid_pixel(canvas, tile, x, y, rows, px, py, 0);
        lemma_overlaid_pixel(canvas, tile, x, y, rows, px, py, 1);
        lemma_overlaid_pixel(canvas, tile, x, y, rows, px, py, 2);
        lemma_overlaid_pixel(canvas, tile, x, y, rows, px, py, 3);
        assert(out.offset(px, py) == canvas.offset(px, py));
    }
}

/// On an image without pixels a tile that fits has none either, and laying
/// it over changes nothing.
proof fn lemma_overlaid_nothing(canvas: Pixels, tile: Pixels, x: int, y: int, rows: int)
    requires
        canvas.wf(),
        tile.wf(),
        0 <= x,
        0 <= y,
        canvas.fits(tile, x, y),
        0 <= rows <= tile.height,
        canvas.width == 0 || canvas.height == 0,
    ensures
        canvas.overlaid(tile, x, y, rows).wf(),
        canvas.overlaid(tile, x, y, rows).same_size(canvas),
    decreases rows,
{
    if rows > 0 {
        lemma_overlaid_nothing(canvas, tile, x, y, rows - 1);
        let before = canvas.overlaid(tile, x, y, rows - 1);
        let n = tile.width as int;
        assert(canvas.height > 0);
        assert(n == 0);
        lemma_run_bound(0, rows - 1, n, n, tile.height as int);
        lemma_run_bound(x, y + rows - 1, n, before.width as int, before.height as int);
        let bytes = opaque(tile.run(0, rows - 1, n));
        assert(bytes.len() == 0);
        let k = before.offset(x, y + rows - 1);
        assert(before.data.take(k) + bytes + before.data.skip(k + bytes.len()) =~= before.data);
    }
}

/// An image of one colour shows that colour in every pixel.
pub proof fn law_solid_image_is_one_colour(width: nat, height: nat, r: u8, g: u8, b: u8, a: u8)
    ensures
        ({
            let img = Pixels { width, height, data: solid(width * height, r, g, b, a) };
            &&& img.wf()
            &&& forall|px: int, py: int|
                img.contains(px, py) ==> #[trigger] img.pixel(px, py) == (r, g, b, a)
        }),
{
    let img = Pixels { width, height, data: solid(width * height, r, g, b, a) };
    assert(4 * width * height == 4 * (width * height)) by (nonlinear_arith);
    assert forall|px: int, py: int| img.contains(px, py) implies #[trigger] img.pixel(px, py) == (
        r,
        g,
        b,
        a,
    ) by {
        lemma_run_bound(px, py, 1, width as int, height as int);
    }
}

/// Two whole images of the same size that are not the same differ in a
/// pixel.
pub proof fn lemma_unequal_images_differ_in_a_pixel(a: Pixels, b: Pixels)
    requires
        a.wf(),
        b.wf(),
        a.same_size(b),
        a != b,
    ensures
        a.any_difference(b),
{
    let w = a.width as int;
    let h = a.height as int;
    assert(a.data.len() == b.data.len());
    if a.data =~= b.data {
        assert(a == b);
    }
    let i = choose|i: int| 0 <= i < a.data.len() && a.data[i] != b.data[i];
    assert(0 <= i < 4 * w * h);
    let p = i / 4;
    assert(4 * w * h == 4 * (w * h)) by (nonlinear_arith);
    assert(0 <= p < w * h);
    assert(w > 0) by (nonlinear_arith)
        requires
            0 <= p < w * h,
            w >= 0,
            h >= 0,
    ;
    let y = p / w;
    let x = p % w;
    vstd::arithmetic::div_mod::lemma_fundamental_div_mod(p, w);
    vstd::arithmetic::div_mod::lemma_mod_pos_bound(p, w);
    vstd::arithmetic::div_mod::lemma_div_pos_is_pos(p, w);
    assert(w * h == w * h);
    vstd::arithmetic::div_mod::lemma_multiply_divide_lt(p, w, h);
    assert(w * y == y * w) by (nonlinear_arith);
    assert(a.contains(x, y));
    assert(a.offset(x, y) == 4 * p);
    assert(b.offset(x, y) == 4 * p);
    assert(4 * p <= i < 4 * p + 4);
    assert(a.differs(b, x, y));
}

/// Whether the column `i`, or else the row `i`, holds a pixel in which the
/// two images differ.
pub open spec fn line_differs(a: Pixels, b: Pixels, column: bool, i: int) -> bool {
    if column {
        a.column_differs(b, i)
    } else {
        a.row_differs(b, i)
    }
}

/// The first line from `lo` up to `hi` that holds a difference.
proof fn lemma_first_line(a: Pixels, b: Pixels, column: bool, lo: int, hi: int) -> (m: int)
    requires
        exists|i: int| lo <= i < hi && #[trigger] line_differs(a, b, column, i),
    ensures
        lo <= m < hi,
        line_differs(a, b, column, m),
        forall|j: int| lo <= j < m ==> !#[trigger] line_differs(a, b, column, j),
    decreases hi - lo,
{
    let i = choose|i: int| lo <= i < hi && #[trigger] line_differs(a, b, column, i);
    if line_differs(a, b, column, lo) {
        lo
    } else {
        assert(lo + 1 <= i < hi && line_differs(a, b, column, i));
        lemma_first_line(a, b, column, lo + 1, hi)
    }
}

/// The last line from `lo` up to `hi` that holds a difference.
proof fn lemma_last_line(a: Pixels, b: Pixels, column: bool, lo: int, hi: int) -> (m: int)
    requires
        exists|i: int| lo <= i < hi && #[trigger] line_differs(a, b, column, i),
    ensures
        lo <= m < hi,
        line_differs(a, b, column, m),
        forall|j: int| m < j < hi ==> !#[trigger] line_differs(a, b, column, j),
    decreases hi - lo,
{
    let i = choose|i: int| lo <= i < hi && #[trigger] line_differs(a, b, column, i);
    if line_differs(a, b, column, hi - 1) {
        hi - 1
    } else {
        assert(lo <= i < hi - 1 && line_differs(a, b, column, i));
        lemma_last_line(a, b, column, lo, hi - 1)
    }
}

/// The patch is cut at the smallest rectangle that holds every difference:
/// for two whole images of the same size that are not the same, there is
/// exactly one rectangle that holds every pixel in which they differ and
/// touches one with each of its sides, and the patch is the cut-out of the
/// new image at that rectangle, with its corner.
pub proof fn law_patch_is_tight_box(a: Pixels, b: Pixels)
    requires
        a.wf(),
        b.wf(),
        a.same_size(b),
        a != b,
    ensures
        a.is_tight_box(b, a.difference_box(b)),
        forall|r: Rect| a.is_tight_box(b, r) ==> r == a.difference_box(b),
        patch_of(a, b) == Some(
            (a.difference_box(b).left, a.difference_box(b).top, b.cut(a.difference_box(b))),
        ),
{
    lemma_unequal_images_differ_in_a_pixel(a, b);
    let (x, y) = choose|x: int, y: int| a.contains(x, y) && #[trigger] a.differs(b, x, y);
    assert(line_differs(a, b, true, x));
    assert(line_differs(a, b, false, y));
    let left = lemma_first_line(a, b, true, 0, a.width as int);
    let right = lemma_last_line(a, b, true, 0, a.width as int);
    let top = lemma_first_line(a, b, false, 0, a.height as int);
    let bottom = lemma_last_line(a, b, false, 0, a.height as int);
    let found = Rect { left, top, right, bottom };
    assert forall|px: int, py: int| a.contains(px, py) && #[trigger] a.differs(
        b,
        px,
        py,
    ) implies left <= px <= right && top <= py <= bottom by {
        assert(line_differs(a, b, true, px));
        assert(line_differs(a, b, false, py));
    }
    assert(a.is_tight_box(b, found));
    assert forall|r: Rect| a.is_tight_box(b, r) implies r == a.difference_box(b) by {
        lemma_tight_box_unique(a, b, r, a.difference_box(b));
    }
}

/// An image against itself needs no patch.
pub proof fn law_no_patch_between_equal_images(a: Pixels)
    ensures
        patch_of(a, a) is None,
{
}

/// The number of bytes of an image of `width` by `height` pixels.
pub fn byte_count(width: u32, height: u32) -> (n: u128)
    ensures
        n == 4 * width * height,
        n == 4 * (width as nat * height as nat),
        4 * n == 16 * width * height,
        n <= 0x4_0000_0000_0000_0000,
{
    assert(width * height <= 0xffff_ffff * 0xffff_ffff) by (nonlinear_arith)
        requires
            0 <= width <= 0xffff_ffff,
            0 <= height <= 0xffff_ffff,
    ;
    assert(4 * width * height == 4 * (width * height)) by (nonlinear_arith);
    assert(16 * width * height == 16 * (width * height)) by (nonlinear_arith);
    let pixels: u128 = (width as u128) * (height as u128);
    4 * pixels
}

/// An image in memory. Its bytes are always four for each pixel.
#[derive(Debug)]
pub struct Image {
    width: u32,
    height: u32,
    data: Vec<u8>,
}

impl View for Image {
    type V = Pixels;

    closed spec fn view(&self) -> Pixels {
        Pixels { width: self.width as nat, height: self.height as nat, data: self.data@ }
    }
}

impl Image {
    #[verifier::type_invariant]
    spec fn inv(self) -> bool {
        self.data@.len() == 4 * self.width * self.height
    }

    /// An image of `width` by `height` pixels over `data`, where `data` has
    /// four bytes for each of them.
    pub fn from_raw(width: u32, height: u32, data: Vec<u8>) -> (r: Option<Image>)
        ensures
            r is Some <==> data@.len() == 4 * width * height,
            r matches Some(img) ==> img@ == (Pixels {
                width: width as nat,
                height: height as nat,
                data: data@,
            }),
    {
        let need: u128 = byte_count(width, height);
        if data.len() as u128 == need {
            Some(Image { width, height, data })
        } else {
            None
        }
    }

    pub fn width(&self) -> (w: u32)
        ensures
            w == self@.width,
            self@.wf(),
    {
        proof {
            use_type_invariant(self);
        }
        self.width
    }

    pub fn height(&self) -> (h: u32)
        ensures
            h == self@.height,
            self@.wf(),
    {
        proof {
            use_type_invariant(self);
        }
        self.height
    }

    /// The bytes of the image, four for each pixel, row by row.
    pub fn as_raw(&self) -> (data: &Vec<u8>)
        ensures
            data@ == self@.data,
            self@.wf(),
    {
        proof {
            use_type_invariant(self);
        }
        &self.data
    }

    /// Where the bytes of the pixel at `(x, y)` begin. `x` may be the width:
    /// that is where the row ends.
    fn byte_offset(&self, x: u32, y: u32) -> (k: usize)
        requires
            x <= self@.width,
            y < self@.height,
        ensures
            k == self@.offset(x as int, y as int),
            k + 4 * (self@.width - x) <= self@.data.len(),
            self@.data.len() <= usize::MAX,
            self@.wf(),
    {
        proof {
            use_type_invariant(self);
            lemma_run_bound(
                x as int,
                y as int,
                self.width - x,
                self.width as int,
                self.height as int,
            );
            assert(0 <= y * self.width) by (nonlinear_arith)
                requires
                    0 <= y,
                    0 <= self.width,
            ;
            assert(4 * (y * self.width + x) + 4 * (self.width - x) <= 4 * self.width
                * self.height);
            assert(self.data@.len() == self.data.len());
        }
        4 * (y as usize * self.width as usize + x as usize)
    }

    /// A second image with the same pixels.
    pub fn duplicate(&self) -> (r: Image)
        ensures
            r@ == self@,
    {
        proof {
            use_type_invariant(self);
        }
        let data: Vec<u8> = self.data.clone();
        assert(data@ =~= self.data@);
        Image { width: self.width, height: self.height, data }
    }

    /// Red, green, blue and alpha at `(x, y)`; `None` outside the image.
    pub fn get_pixel(&self, x: u32, y: u32) -> (r: Option<(u8, u8, u8, u8)>)
        ensures
            self@.wf(),
            r == if self@.contains(x as int, y as int) {
                Some(self@.pixel(x as int, y as int))
            } else {
                None
            },
    {
        proof {
            use_type_invariant(self);
        }
        if x >= self.width || y >= self.height {
            return None;
        }
        let k: usize = self.byte_offset(x, y);
        Some((self.data[k], self.data[k + 1], self.data[k + 2], self.data[k + 3]))
    }

    /// An image of one colour. `None` where its bytes would not fit in memory.
    pub fn filled(width: u32, height: u32, r: u8, g: u8, b: u8, a: u8) -> (img: Option<Image>)
        ensures
            img is Some <==> 4 * width * height <= usize::MAX,
            img matches Some(i) ==> i@ == (Pixels {
                width: width as nat,
                height: height as nat,
                data: solid(width as nat * height as nat, r, g, b, a),
            }),
    {
        let need: u128 = byte_count(width, height);
        if need > usize::MAX as u128 {
            return None;
        }
        let count: usize = (need / 4) as usize;
        let mut data: Vec<u8> = Vec::new();
        let mut i: usize = 0;
        while i < count
            invariant
                i <= count,
                4 * count <= usize::MAX,
                data@ == solid(i as nat, r, g, b, a),
            decreases count - i,
        {
            data.push(r);
            data.push(g);
            data.push(b);
            data.push(a);
            i += 1;
            assert(data@ =~= solid(i as nat, r, g, b, a));
        }
        Some(Image { width, height, data })
    }

    /// The cut-out of `w` by `h` pixels with its top left corner at `(x, y)`,
    /// and `None` where that rectangle does not lie within the image.
    pub fn crop(&self, x: u32, y: u32, w: u32, h: u32) -> (r: Option<Image>)
        ensures
            r is Some <==> x + w <= self@.width && y + h <= self@.height,
            r matches Some(cut) ==> cut@ == self@.cropped(x as int, y as int, w as int, h as int),
    {
        let width: u32 = self.width();
        let height: u32 = self.height();
        if w > width || x > width - w || h > height || y > height - h {
            None
        } else {
            Some(self.cut_out(x, y, w, h))
        }
    }

    fn cut_out(&self, x: u32, y: u32, w: u32, h: u32) -> (r: Image)
        requires
            x + w <= self@.width,
            y + h <= self@.height,
        ensures
            r@ == self@.cropped(x as int, y as int, w as int, h as int),
    {
        proof {
            use_type_invariant(self);
        }
        let mut data: Vec<u8> = Vec::new();
        let mut row: u32 = 0;
        while row < h
            invariant
                row <= h,
                x + w <= self.width,
                y + h <= self.height,
                self.data@.len() == 4 * self.width * self.height,
                data@ == self@.block(x as int, y as int, w as int, row as int),
                data@.len() == 4 * w * row,
            decreases h - row,
        {
            proof {
                lemma_rows(w as int, row as int);
            }
            let from: usize = self.byte_offset(x, y + row);
            assert(from + 4 * w <= self.data@.len());
            let to: usize = from + 4 * (w as usize);
            let mut k: usize = from;
            let ghost before = data@;
            while k < to
                invariant
                    from <= k <= to <= self.data@.len(),
                    data@ == before + self.data@.subrange(from as int, k as int),
                decreases to - k,
            {
                data.push(self.data[k]);
                k += 1;
                assert(data@ =~= before + self.data@.subrange(from as int, k as int));
            }
            row += 1;
        }
        Image { width: w, height: h, data }
    }

    /// Lays `tile` over this image with its top left corner at `(x, y)` and
    /// makes what was laid over opaque. Where `tile` does not fit, nothing
    /// changes and the answer is `false`.
    pub fn paste(&mut self, tile: &Image, x: u32, y: u32) -> (done: bool)
        ensures
            done == old(self)@.fits(tile@, x as int, y as int),
            final(self)@ == if done {
                old(self)@.pasted(tile@, x as int, y as int)
            } else {
                old(self)@
            },
    {
        proof {
            use_type_invariant(&*self);
            use_type_invariant(tile);
        }
        if tile.width > self.width || x > self.width - tile.width || tile.height > self.height || y
            > self.height - tile.height {
            return false;
        }
        let ghost start = self@;
        let mut row: u32 = 0;
        while row < tile.height
            invariant
                row <= tile.height,
                x + tile.width <= self.width,
                y + tile.height <= self.height,
                self.width == start.width,
                self.height == start.height,
                self.data@.len() == 4 * self.width * self.height,
                tile.data@.len() == 4 * tile.width * tile.height,
                self@ == start.overlaid(tile@, x as int, y as int, row as int),
            decreases tile.height - row,
        {
            let to: usize = self.byte_offset(x, y + row);
            let from: usize = tile.byte_offset(0, row);
            assert(from + 4 * tile.width <= tile.data@.len());
            assert(to + 4 * tile.width <= self.data@.len());
            let len: usize = 4 * (tile.width as usize);
            let ghost before = self@;
            let ghost bytes = opaque(tile@.run(0, row as int, tile.width as int));
            let mut k: usize = 0;
            while k < len
                invariant
                    k <= len,
                    len == 4 * tile.width,
                    to + len <= self.data@.len() <= usize::MAX,
                    from + len <= tile.data@.len() <= usize::MAX,
                    self.width == before.width,
                    self.height == before.height,
                    self.data@.len() == before.data.len(),
                    self.data@.len() == 4 * self.width * self.height,
                    bytes == opaque(tile@.run(0, row as int, tile.width as int)),
                    from == tile@.offset(0, row as int),
                    self.data@ == before.data.take(to as int) + bytes.take(k as int)
                        + before.data.skip(to + k),
                decreases len - k,
            {
                let v: u8 = if k % 4 == 3 {
                    255
                } else {
                    tile.data[from + k]
                };
                assert(v == bytes[k as int]);
                self.data[to + k] = v;
                k += 1;
                assert(self.data@ =~= before.data.take(to as int) + bytes.take(k as int)
                    + before.data.skip(to + k));
            }
            assert(bytes.take(len as int) =~= bytes);
            row += 1;
            assert(self@ == before.with_run(x as int, (y + row - 1) as int, bytes));
        }
        true
    }

    /// Whether the pixel at `(x, y)` is the same in both images.
    fn same_pixel(&self, other: &Image, x: u32, y: u32) -> (r: bool)
        requires
            self@.same_size(other@),
            self@.contains(x as int, y as int),
        ensures
            r == !self@.differs(other@, x as int, y as int),
    {
        proof {
            use_type_invariant(self);
            use_type_invariant(other);
        }
        let k: usize = self.byte_offset(x, y);
        self.data[k] == other.data[k] && self.data[k + 1] == other.data[k + 1] && self.data[k + 2]
            == other.data[k + 2] && self.data[k + 3] == other.data[k + 3]
    }
}

/// The pixels that come before `(x, y)` when an image is read row by row.
pub open spec fn comes_before(px: int, py: int, x: int, y: int) -> bool {
    py < y || (py == y && px < x)
}

/// What has to be sent to turn `prior` on the display into `next`. Nothing
/// where the two differ in size or in no pixel. Else the top left corner of
/// the smallest rectangle that holds every differing pixel, and the cut-out
/// of `next` at that rectangle.
pub fn find_patch(prior: &Image, next: &Image) -> (r: Option<(u32, u32, Image)>)
    ensures
        match r {
            Some((x, y, patch)) => patch_of(prior@, next@) == Some((x as int, y as int, patch@)),
            None => patch_of(prior@, next@) is None,
        },
        r matches Some((x, y, patch)) ==> exists|b: Rect|
            prior@.is_tight_box(next@, b) && b.left == x && b.top == y && patch@ == next@.cut(b),
{
    let width: u32 = prior.width();
    let height: u32 = prior.height();
    if width != next.width() || height != next.height() {
        return None;
    }
    let ghost a = prior@;
    let ghost b = next@;
    let mut min_x: u32 = width;
    let mut min_y: u32 = height;
    let mut max_x: u32 = 0;
    let mut max_y: u32 = 0;
    let mut has_diff: bool = false;
    // In each of the four sides of the box, a pixel that differs.
    let ghost mut in_left: int = 0;
    let ghost mut in_right: int = 0;
    let ghost mut in_top: int = 0;
    let ghost mut in_bottom: int = 0;
    let mut y: u32 = 0;
    while y < height
        invariant
            y <= height,
            a == prior@,
            b == next@,
            a.same_size(b),
            a.width == width,
            a.height == height,
            !has_diff ==> forall|px: int, py: int|
                a.contains(px, py) && comes_before(px, py, 0, y as int) ==> !#[trigger] a.differs(
                    b,
                    px,
                    py,
                ),
            has_diff ==> {
                &&& min_x <= max_x < width
                &&& min_y <= max_y < height
                &&& max_y <= y
                &&& forall|px: int, py: int|
                    a.contains(px, py) && comes_before(px, py, 0, y as int) && #[trigger] a.differs(
                        b,
                        px,
                        py,
                    ) ==> min_x <= px <= max_x && min_y <= py <= max_y
                &&& 0 <= in_left < height && a.differs(b, min_x as int, in_left)
                &&& 0 <= in_right < height && a.differs(b, max_x as int, in_right)
                &&& 0 <= in_top < width && a.differs(b, in_top, min_y as int)
                &&& 0 <= in_bottom < width && a.differs(b, in_bottom, max_y as int)
            },
        decreases height - y,
    {
        let mut x: u32 = 0;
        while x < width
            invariant
                x <= width,
                y < height,
                a == prior@,
                b == next@,
                a.same_size(b),
                a.width == width,
                a.height == height,
                !has_diff ==> forall|px: int, py: int|
                    a.contains(px, py) && comes_before(px, py, x as int, y as int)
                        ==> !#[trigger] a.differs(b, px, py),
                has_diff ==> {
                    &&& min_x <= max_x < width
                    &&& min_y <= max_y < height
                    &&& max_y <= y
                    &&& forall|px: int, py: int|
                        a.contains(px, py) && comes_before(px, py, x as int, y as int)
                            && #[trigger] a.differs(b, px, py) ==> min_x <= px <= max_x && min_y
                            <= py <= max_y
                    &&& 0 <= in_left < height && a.differs(b, min_x as int, in_left)
                    &&& 0 <= in_right < height && a.differs(b, max_x as int, in_right)
                    &&& 0 <= in_top < width && a.differs(b, in_top, min_y as int)
                    &&& 0 <= in_bottom < width && a.differs(b, in_bottom, max_y as int)
                },
            decreases width - x,
        {
            if !prior.same_pixel(next, x, y) {
                if !has_diff {
                    min_x = x;
                    max_x = x;
                    min_y = y;
                    max_y = y;
                    has_diff = true;
                    proof {
                        in_left = y as int;
                        in_right = y as int;
                        in_top = x as int;
                        in_bottom = x as int;
                    }
                } else {
                    if x < min_x {
                        min_x = x;
                        proof {
                            in_left = y as int;
                        }
                    }
                    if x > max_x {
                        max_x = x;
                        proof {
                            in_right = y as int;
                        }
                    }
                    if y > max_y {
                        max_y = y;
                        proof {
                            in_bottom = x as int;
                        }
                    }
                }
            }
            x += 1;
        }
        y += 1;
    }
    if !has_diff {
        proof {
            assert forall|px: int, py: int| a.contains(px, py) implies !#[trigger] a.differs(
                b,
                px,
                py,
            ) by {
                assert(comes_before(px, py, 0, height as int));
            }
        }
        return None;
    }
    let ghost found = Rect {
        left: min_x as int,
        top: min_y as int,
        right: max_x as int,
        bottom: max_y as int,
    };
    proof {
        assert forall|px: int, py: int| a.contains(px, py) && #[trigger] a.differs(
            b,
            px,
            py,
        ) implies found.left <= px <= found.right && found.top <= py <= found.bottom by {
            assert(comes_before(px, py, 0, height as int));
        }
        assert(a.is_tight_box(b, found));
        lemma_patch_of_box(a, b, found);
    }
    let patch: Image = next.cut_out(min_x, min_y, max_x - min_x + 1, max_y - min_y + 1);
    Some((min_x, min_y, patch))
}

} // verus!
