//! The tile scheduler's arithmetic: the image is cut into a grid of
//! fixed-size tiles, rendered independently, and composited back into the
//! flat image buffer. What is proved here is the bookkeeping the concurrency
//! model rests on: every pixel of the image belongs to exactly one tile, and
//! compositing a tile writes exactly that tile's pixels — so rendering every
//! tile once writes every pixel of the output exactly once, whatever order
//! the worker threads finish in.

use vstd::prelude::*;

use vstd::arithmetic::div_mod::lemma_fundamental_div_mod;
use vstd::arithmetic::div_mod::lemma_fundamental_div_mod_converse;
use vstd::arithmetic::div_mod::lemma_mod_division_less_than_divisor;
use vstd::arithmetic::mul::lemma_mul_inequality;

verus! {

/// The tile grid over an image: image size and tile size, in pixels. Tiles
/// at the right and bottom edges may be cut off by the image border.
#[derive(Copy, Clone, Debug, PartialEq, Eq, Structural)]
pub struct TileGrid {
    pub image_width: usize,
    pub image_height: usize,
    pub tile_width: usize,
    pub tile_height: usize,
}

impl TileGrid {
    /// Tile sizes are positive; nothing else is assumed.
    pub open spec fn wf(self) -> bool {
        self.tile_width >= 1 && self.tile_height >= 1
    }

    /// Number of tile columns: the width divided by the tile width, rounded
    /// up.
    pub open spec fn spec_tiles_x(self) -> int {
        (self.image_width + self.tile_width - 1) / (self.tile_width as int)
    }

    /// Number of tile rows.
    pub open spec fn spec_tiles_y(self) -> int {
        (self.image_height + self.tile_height - 1) / (self.tile_height as int)
    }

    /// Left edge of tile column `tx`.
    pub open spec fn rect_x0(self, tx: int) -> int {
        tx * self.tile_width
    }

    /// Top edge of tile row `ty`.
    pub open spec fn rect_y0(self, ty: int) -> int {
        ty * self.tile_height
    }

    /// The pixel lies in the image and inside tile `(tx, ty)` (whose rect is
    /// cut off at the image border).
    pub open spec fn pixel_in_tile(self, px: int, py: int, tx: int, ty: int) -> bool {
        &&& 0 <= px < self.image_width
        &&& 0 <= py < self.image_height
        &&& self.rect_x0(tx) <= px < self.rect_x0(tx) + self.tile_width
        &&& self.rect_y0(ty) <= py < self.rect_y0(ty) + self.tile_height
    }

    /// The tile column a pixel falls in.
    pub open spec fn spec_tile_x_of(self, px: int) -> int {
        px / (self.tile_width as int)
    }

    /// The tile row a pixel falls in.
    pub open spec fn spec_tile_y_of(self, py: int) -> int {
        py / (self.tile_height as int)
    }

    pub fn new(
        image_width: usize,
        image_height: usize,
        tile_width: usize,
        tile_height: usize,
    ) -> (g: TileGrid)
        requires
            tile_width >= 1,
            tile_height >= 1,
        ensures
            g == (TileGrid { image_width, image_height, tile_width, tile_height }),
            g.wf(),
    {
        TileGrid { image_width, image_height, tile_width, tile_height }
    }

    /// Number of tile columns.
    pub fn tiles_x(&self) -> (n: usize)
        requires
            self.wf(),
        ensures
            n == self.spec_tiles_x(),
    {
        if self.image_width == 0 {
            proof {
                vstd::arithmetic::div_mod::lemma_basic_div(
                    self.image_width + self.tile_width - 1,
                    self.tile_width as int,
                );
            }
            0
        } else {
            proof {
                lemma_ceil_div(self.image_width as int, self.tile_width as int);
            }
            (self.image_width - 1) / self.tile_width + 1
        }
    }

    /// Number of tile rows.
    pub fn tiles_y(&self) -> (n: usize)
        requires
            self.wf(),
        ensures
            n == self.spec_tiles_y(),
    {
        if self.image_height == 0 {
            proof {
                vstd::arithmetic::div_mod::lemma_basic_div(
                    self.image_height + self.tile_height - 1,
                    self.tile_height as int,
                );
            }
            0
        } else {
            proof {
                lemma_ceil_div(self.image_height as int, self.tile_height as int);
            }
            (self.image_height - 1) / self.tile_height + 1
        }
    }

    /// The tile a pixel of the image falls in; always a valid grid position.
    pub fn tile_of_pixel(&self, px: usize, py: usize) -> (t: (usize, usize))
        requires
            self.wf(),
            px < self.image_width,
            py < self.image_height,
        ensures
            t.0 == self.spec_tile_x_of(px as int),
            t.1 == self.spec_tile_y_of(py as int),
            0 <= t.0 < self.spec_tiles_x(),
            0 <= t.1 < self.spec_tiles_y(),
    {
        proof {
            lemma_ceil_div(self.image_width as int, self.tile_width as int);
            lemma_ceil_div(self.image_height as int, self.tile_height as int);
            vstd::arithmetic::div_mod::lemma_div_is_ordered(
                px as int,
                self.image_width - 1,
                self.tile_width as int,
            );
            vstd::arithmetic::div_mod::lemma_div_is_ordered(
                py as int,
                self.image_height - 1,
                self.tile_height as int,
            );
        }
        (px / self.tile_width, py / self.tile_height)
    }
}

impl TileGrid {
    /// Flat index of a pixel in the row-major image buffer.
    pub fn pixel_index(&self, px: usize, py: usize) -> (i: usize)
        requires
            self.wf(),
            px < self.image_width,
            py < self.image_height,
            self.image_width * self.image_height <= usize::MAX,
        ensures
            i == py * self.image_width + px,
            i < self.image_width * self.image_height,
    {
        proof {
            lemma_pixel_index_in_buffer(
                self.image_width as int,
                self.image_height as int,
                px as int,
                py as int,
            );
        }
        py * self.image_width + px
    }

    /// The pixel named by flat index `i` of the row-major buffer lies in
    /// tile `(tx, ty)`.
    pub open spec fn covers_index(self, tx: int, ty: int, i: int) -> bool {
        let iw = self.image_width as int;
        self.pixel_in_tile(i % iw, i / iw, tx, ty)
    }

    /// The buffer after tile `(tx, ty)` is composited into it: its pixels
    /// take the tile's values, all others keep the buffer's.
    pub open spec fn composited_view<T>(self, buf: Seq<T>, tile: Seq<T>, tx: int, ty: int) -> Seq<
        T,
    > {
        Seq::new(
            buf.len(),
            |i: int|
                if self.covers_index(tx, ty, i) {
                    self.tile_value(tile, tx, ty, i)
                } else {
                    buf[i]
                },
        )
    }

    /// The pixel named by flat index `i` has, at sweep position `(dy, dx)`
    /// of the tile copy, already received its tile value.
    spec fn swept(self, tx: int, ty: int, dy: int, dx: int, i: int) -> bool {
        let iw = self.image_width as int;
        let px = i % iw;
        let py = i / iw;
        &&& self.pixel_in_tile(px, py, tx, ty)
        &&& (py - self.rect_y0(ty) < dy || (py - self.rect_y0(ty) == dy && px - self.rect_x0(tx)
            < dx))
    }

    /// The tile value destined for the pixel with flat index `i`.
    pub open spec fn tile_value<T>(self, tile: Seq<T>, tx: int, ty: int, i: int) -> T {
        let iw = self.image_width as int;
        let px = i % iw;
        let py = i / iw;
        tile[(py - self.rect_y0(ty)) * self.tile_width + (px - self.rect_x0(tx))]
    }

    /// Writes a rendered tile into the image buffer: every pixel of tile
    /// `(tx, ty)` receives the tile's value for it, and no other pixel of
    /// the buffer changes. The tile's data is row-major with the tile's
    /// full (uncut) width; parts cut off by the image border are ignored.
    pub fn composite<T: Copy>(&self, buffer: &mut Vec<T>, tx: usize, ty: usize, tile: &Vec<T>)
        requires
            self.wf(),
            tx < self.spec_tiles_x(),
            ty < self.spec_tiles_y(),
            old(buffer)@.len() == self.image_width * self.image_height,
            tile@.len() == self.tile_width * self.tile_height,
        ensures
            final(buffer)@.len() == old(buffer)@.len(),
            final(buffer)@ == self.composited_view(old(buffer)@, tile@, tx as int, ty as int),
            forall|px: int, py: int|
                0 <= px < self.image_width && 0 <= py < self.image_height
                    ==> final(buffer)@[py * self.image_width + px] == (if self.pixel_in_tile(
                    px,
                    py,
                    tx as int,
                    ty as int,
                ) {
                    tile@[(py - self.rect_y0(ty as int)) * self.tile_width + (px - self.rect_x0(
                        tx as int,
                    ))]
                } else {
                    old(buffer)@[py * self.image_width + px]
                }),
    {
        let ghost orig = buffer@;
        let iw = self.image_width;
        let ih = self.image_height;
        let tw = self.tile_width;
        let th = self.tile_height;
        proof {
            lemma_tile_origin_in_image(iw as int, tw as int, tx as int);
            lemma_tile_origin_in_image(ih as int, th as int, ty as int);
        }
        let n_pixels = buffer.len();
        let n_tile = tile.len();
        proof {
            assert(n_pixels == iw * ih);
            assert(iw * ih <= usize::MAX);
            assert(n_tile == tw * th);
            assert(tw * th <= usize::MAX);
        }
        let x0 = tx * tw;
        let y0 = ty * th;
        let w = if tw < iw - x0 {
            tw
        } else {
            iw - x0
        };
        let h = if th < ih - y0 {
            th
        } else {
            ih - y0
        };
        let mut dy: usize = 0;
        while dy < h
            invariant
                orig == old(buffer)@,
                self.wf(),
                iw == self.image_width,
                ih == self.image_height,
                tw == self.tile_width,
                th == self.tile_height,
                x0 == tx * tw < iw,
                y0 == ty * th < ih,
                x0 == self.rect_x0(tx as int),
                y0 == self.rect_y0(ty as int),
                w == if tw < iw - x0 {
                    tw as int
                } else {
                    iw - x0
                },
                h == if th < ih - y0 {
                    th as int
                } else {
                    ih - y0
                },
                dy <= h,
                iw * ih <= usize::MAX,
                tw * th <= usize::MAX,
                buffer@.len() == orig.len() == iw * ih,
                tile@.len() == tw * th,
                forall|i: int|
                    0 <= i < iw * ih ==> #[trigger] buffer@[i] == (if self.swept(
                        tx as int,
                        ty as int,
                        dy as int,
                        0,
                        i,
                    ) {
                        self.tile_value(tile@, tx as int, ty as int, i)
                    } else {
                        orig[i]
                    }),
            decreases h - dy,
        {
            let mut dx: usize = 0;
            while dx < w
                invariant
                    orig == old(buffer)@,
                    self.wf(),
                    iw == self.image_width,
                    ih == self.image_height,
                    tw == self.tile_width,
                    th == self.tile_height,
                    x0 == tx * tw < iw,
                    y0 == ty * th < ih,
                    x0 == self.rect_x0(tx as int),
                    y0 == self.rect_y0(ty as int),
                    w == if tw < iw - x0 {
                        tw as int
                    } else {
                        iw - x0
                    },
                    h == if th < ih - y0 {
                        th as int
                    } else {
                        ih - y0
                    },
                    dy < h,
                    dx <= w,
                    iw * ih <= usize::MAX,
                    tw * th <= usize::MAX,
                    buffer@.len() == orig.len() == iw * ih,
                    tile@.len() == tw * th,
                    forall|i: int|
                        0 <= i < iw * ih ==> #[trigger] buffer@[i] == (if self.swept(
                            tx as int,
                            ty as int,
                            dy as int,
                            dx as int,
                            i,
                        ) {
                            self.tile_value(tile@, tx as int, ty as int, i)
                        } else {
                            orig[i]
                        }),
                decreases w - dx,
            {
                let px = x0 + dx;
                let py = y0 + dy;
                proof {
                    lemma_pixel_index_in_buffer(iw as int, ih as int, px as int, py as int);
                    lemma_tile_entry_in_tile(tw as int, th as int, dx as int, dy as int);
                }
                let idx = py * iw + px;
                let tidx = dy * tw + dx;
                let ghost before = buffer@;
                let val = tile[tidx];
                buffer[idx] = val;
                proof {
                    assert(idx == iw * (py as int) + (px as int)) by (nonlinear_arith)
                        requires
                            idx == (py as int) * (iw as int) + (px as int),
                    ;
                    lemma_fundamental_div_mod_converse(
                        idx as int,
                        iw as int,
                        py as int,
                        px as int,
                    );
                    assert forall|i: int| 0 <= i < iw * ih implies #[trigger] buffer@[i] == (if self.swept(
                        tx as int,
                        ty as int,
                        dy as int,
                        dx + 1,
                        i,
                    ) {
                        self.tile_value(tile@, tx as int, ty as int, i)
                    } else {
                        orig[i]
                    }) by {
                        if i == idx {
                            assert(buffer@[i] == val);
                            assert((idx as int) / (iw as int) == py as int);
                            assert((idx as int) % (iw as int) == px as int);
                            assert(self.swept(tx as int, ty as int, dy as int, dx + 1, i));
                            assert((py - y0) * tw + (px - x0) == dy * tw + dx)
                                by (nonlinear_arith)
                                requires
                                    py - y0 == dy as int,
                                    px - x0 == dx as int,
                            ;
                        } else {
                            assert(buffer@[i] == before[i]);
                            lemma_fundamental_div_mod(i, iw as int);
                            let qx = i % (iw as int);
                            let qy = i / (iw as int);
                            if qy - y0 == dy && qx - x0 == dx {
                                assert(i == (iw as int) * qy + qx);
                                assert(i == idx) by (nonlinear_arith)
                                    requires
                                        i == (iw as int) * qy + qx,
                                        idx == (iw as int) * (py as int) + (px as int),
                                        qy == py as int,
                                        qx == px as int,
                                ;
                            }
                            assert(self.swept(tx as int, ty as int, dy as int, dx + 1, i)
                                == self.swept(tx as int, ty as int, dy as int, dx as int, i));
                        }
                    }
                }
                dx = dx + 1;
            }
            proof {
                assert forall|i: int| 0 <= i < iw * ih implies #[trigger] buffer@[i] == (if self.swept(
                    tx as int,
                    ty as int,
                    dy + 1,
                    0,
                    i,
                ) {
                    self.tile_value(tile@, tx as int, ty as int, i)
                } else {
                    orig[i]
                }) by {
                    let qx = i % (iw as int);
                    let qy = i / (iw as int);
                    if self.pixel_in_tile(qx, qy, tx as int, ty as int) && qy - y0 == dy {
                        assert(qx - x0 < w);
                    }
                }
            }
            dy = dy + 1;
        }
        proof {
            assert forall|i: int| 0 <= i < iw * ih implies buffer@[i] == (if self.covers_index(
                tx as int,
                ty as int,
                i,
            ) {
                self.tile_value(tile@, tx as int, ty as int, i)
            } else {
                orig[i]
            }) by {
                let qx = i % (iw as int);
                let qy = i / (iw as int);
                if self.pixel_in_tile(qx, qy, tx as int, ty as int) {
                    assert(qy - y0 < h);
                    assert(self.swept(tx as int, ty as int, h as int, 0, i));
                }
            }
            assert(buffer@ =~= self.composited_view(orig, tile@, tx as int, ty as int));
            assert forall|px: int, py: int|
                0 <= px < self.image_width && 0 <= py < self.image_height implies buffer@[py
                * self.image_width + px] == (if self.pixel_in_tile(px, py, tx as int, ty as int) {
                tile@[(py - self.rect_y0(ty as int)) * self.tile_width + (px - self.rect_x0(
                    tx as int,
                ))]
            } else {
                orig[py * self.image_width + px]
            }) by {
                lemma_pixel_index_in_buffer(iw as int, ih as int, px, py);
                let i = py * (iw as int) + px;
                assert(i == (iw as int) * py + px) by (nonlinear_arith)
                    requires
                        i == py * (iw as int) + px,
                ;
                lemma_fundamental_div_mod_converse(i, iw as int, py, px);
                assert(buffer@[i] == (if self.swept(tx as int, ty as int, h as int, 0, i) {
                    self.tile_value(tile@, tx as int, ty as int, i)
                } else {
                    orig[i]
                }));
                if self.pixel_in_tile(px, py, tx as int, ty as int) {
                    assert(py - y0 < h);
                    assert(self.swept(tx as int, ty as int, h as int, 0, i));
                }
            }
        }
    }
}

/// One rendered tile: its position in the tile grid and its pixel data,
/// row-major with the grid's full tile width. The pixel type is a
/// parameter; the renderer stores its colour type here.
pub struct Tile<T> {
    pub x: usize,
    pub y: usize,
    pub data: Vec<T>,
}

impl<T> Tile<T> {
    /// A tile at grid position `(x, y)` holding `data`.
    pub fn new(x: usize, y: usize, data: Vec<T>) -> (t: Tile<T>)
        ensures
            t.x == x,
            t.y == y,
            t.data == data,
    {
        Tile { x, y, data }
    }
}

/// A pixel's flat index lies inside the image buffer.
proof fn lemma_pixel_index_in_buffer(iw: int, ih: int, px: int, py: int)
    requires
        0 <= px < iw,
        0 <= py < ih,
    ensures
        0 <= py * iw + px < iw * ih,
{
    assert(0 <= py * iw + px < iw * ih) by (nonlinear_arith)
        requires
            0 <= px < iw,
            0 <= py < ih,
    ;
}

/// A tile-local entry's flat index lies inside the tile's data.
proof fn lemma_tile_entry_in_tile(tw: int, th: int, dx: int, dy: int)
    requires
        0 <= dx < tw,
        0 <= dy < th,
    ensures
        0 <= dy * tw + dx < tw * th,
{
    assert(0 <= dy * tw + dx < tw * th) by (nonlinear_arith)
        requires
            0 <= dx < tw,
            0 <= dy < th,
    ;
}

/// A valid tile coordinate's origin lies inside the image.
proof fn lemma_tile_origin_in_image(iw: int, tw: int, tx: int)
    requires
        iw >= 0,
        tw >= 1,
        0 <= tx < (iw + tw - 1) / tw,
    ensures
        0 <= tx * tw < iw,
{
    if iw < 1 {
        vstd::arithmetic::div_mod::lemma_basic_div(iw + tw - 1, tw);
        assert(false);
    }
    lemma_ceil_div(iw, tw);
    lemma_mul_inequality(tx, (iw - 1) / tw, tw);
    vstd::arithmetic::mul::lemma_mul_nonnegative(tx, tw);
}

/// For a positive width, the rounded-up quotient is one more than the
/// rounded-down quotient of `a - 1`, and `a` fits under it.
proof fn lemma_ceil_div(a: int, b: int)
    requires
        a >= 1,
        b >= 1,
    ensures
        (a + b - 1) / b == (a - 1) / b + 1,
        a <= ((a - 1) / b + 1) * b,
        ((a - 1) / b) * b <= a - 1,
        (a - 1) / b >= 0,
{
    let q = (a - 1) / b;
    let r = (a - 1) % b;
    lemma_fundamental_div_mod(a - 1, b);
    lemma_mod_division_less_than_divisor(a - 1, b);
    assert(a + b - 1 == b * (q + 1) + r) by (nonlinear_arith)
        requires
            a - 1 == b * q + r,
    ;
    lemma_fundamental_div_mod_converse(a + b - 1, b, q + 1, r);
    assert(b * q <= a - 1);
    assert(a <= b * (q + 1));
    vstd::arithmetic::div_mod::lemma_div_pos_is_pos(a - 1, b);
}

/// Two different tiles touch disjoint sets of pixels, so the order in
/// which finished tiles are composited into the image does not matter:
/// compositing them in either order gives the same buffer.
pub proof fn lemma_composite_order_irrelevant<T>(
    g: TileGrid,
    buf: Seq<T>,
    tile1: Seq<T>,
    tile2: Seq<T>,
    tx1: int,
    ty1: int,
    tx2: int,
    ty2: int,
)
    requires
        g.wf(),
        !(tx1 == tx2 && ty1 == ty2),
    ensures
        g.composited_view(g.composited_view(buf, tile1, tx1, ty1), tile2, tx2, ty2)
            == g.composited_view(g.composited_view(buf, tile2, tx2, ty2), tile1, tx1, ty1),
{
    let iw = g.image_width as int;
    let a = g.composited_view(g.composited_view(buf, tile1, tx1, ty1), tile2, tx2, ty2);
    let b = g.composited_view(g.composited_view(buf, tile2, tx2, ty2), tile1, tx1, ty1);
    assert forall|i: int| 0 <= i < buf.len() implies a[i] == b[i] by {
        if g.covers_index(tx1, ty1, i) && g.covers_index(tx2, ty2, i) {
            lemma_pixel_in_exactly_one_tile(g, i % iw, i / iw);
            assert(false);
        }
    }
    assert(a =~= b);
}

/// Every pixel of the image lies in the tile its coordinates name, and in
/// no other tile: the grid's tiles partition the image.
pub proof fn lemma_pixel_in_exactly_one_tile(g: TileGrid, px: int, py: int)
    requires
        g.wf(),
        0 <= px < g.image_width,
        0 <= py < g.image_height,
    ensures
        g.pixel_in_tile(px, py, g.spec_tile_x_of(px), g.spec_tile_y_of(py)),
        0 <= g.spec_tile_x_of(px) < g.spec_tiles_x(),
        0 <= g.spec_tile_y_of(py) < g.spec_tiles_y(),
        forall|tx: int, ty: int|
            g.pixel_in_tile(px, py, tx, ty) ==> tx == g.spec_tile_x_of(px) && ty
                == g.spec_tile_y_of(py),
{
    let tw = g.tile_width as int;
    let th = g.tile_height as int;
    lemma_fundamental_div_mod(px, tw);
    lemma_mod_division_less_than_divisor(px, tw);
    lemma_fundamental_div_mod(py, th);
    lemma_mod_division_less_than_divisor(py, th);
    assert(g.rect_x0(px / tw) == (px / tw) * tw) by {
        vstd::arithmetic::mul::lemma_mul_is_commutative(px / tw, tw);
    }
    assert(g.rect_y0(py / th) == (py / th) * th) by {
        vstd::arithmetic::mul::lemma_mul_is_commutative(py / th, th);
    }
    lemma_ceil_div(g.image_width as int, tw);
    lemma_ceil_div(g.image_height as int, th);
    vstd::arithmetic::div_mod::lemma_div_is_ordered(px, g.image_width - 1, tw);
    vstd::arithmetic::div_mod::lemma_div_is_ordered(py, g.image_height - 1, th);
    vstd::arithmetic::div_mod::lemma_div_pos_is_pos(px, tw);
    vstd::arithmetic::div_mod::lemma_div_pos_is_pos(py, th);
    assert forall|tx: int, ty: int| g.pixel_in_tile(px, py, tx, ty) implies tx == g.spec_tile_x_of(
        px,
    ) && ty == g.spec_tile_y_of(py) by {
        assert(px == tw * tx + (px - tx * tw)) by {
            vstd::arithmetic::mul::lemma_mul_is_commutative(tx, tw);
        }
        lemma_fundamental_div_mod_converse(px, tw, tx, px - tx * tw);
        assert(py == th * ty + (py - ty * th)) by {
            vstd::arithmetic::mul::lemma_mul_is_commutative(ty, th);
        }
        lemma_fundamental_div_mod_converse(py, th, ty, py - ty * th);
    }
}

} // verus!
