use vstd::arithmetic::div_mod::lemma_fundamental_div_mod;
use vstd::arithmetic::div_mod::lemma_fundamental_div_mod_converse;
use vstd::prelude::*;
use crate::scheduler::Tile;

verus! {

/// The position in a row-major buffer of the pixel in column `x` of row `y`, for
/// rows of `width` pixels.
pub open spec fn pixel_index(width: int, x: int, y: int) -> int {
    x + y * width
}

/// The buffer `pixels` of an image with rows of `width` pixels after a worker has
/// stored the colours of `tile`: a pixel of the tile holds the colour that the
/// worker computed for it, every other pixel is as before.
pub open spec fn stored<P>(pixels: Seq<P>, width: int, tile: Tile, colors: Seq<P>) -> Seq<P> {
    Seq::new(
        pixels.len(),
        |i: int|
            if tile.contains(i % width, i / width) {
                colors[tile.offset(i % width, i / width)]
            } else {
                pixels[i]
            },
    )
}

/// The buffer while a tile is being stored: the columns before `x` are done, and
/// so are the rows before `y` of column `x`.
spec fn stored_until<P>(
    pixels: Seq<P>,
    width: int,
    tile: Tile,
    colors: Seq<P>,
    x: int,
    y: int,
) -> Seq<P> {
    Seq::new(
        pixels.len(),
        |i: int|
            if tile.contains(i % width, i / width) && (i % width < x || (i % width == x && i
                / width < y)) {
                colors[tile.offset(i % width, i / width)]
            } else {
                pixels[i]
            },
    )
}

/// A raster image of fixed size: `height` rows of `width` pixels, stored row after
/// row. `P` is the pixel type; the frame never looks inside a pixel.
pub struct Frame<P> {
    width: usize,
    height: usize,
    buffer: Vec<P>,
}

impl<P> View for Frame<P> {
    type V = Seq<P>;

    /// The pixels, row after row.
    closed spec fn view(&self) -> Seq<P> {
        self.buffer@
    }
}

impl<P> Frame<P> {
    #[verifier::type_invariant]
    spec fn well_formed(&self) -> bool {
        self.buffer@.len() == self.width * self.height
    }

    /// Number of pixels in a row.
    pub closed spec fn columns(&self) -> nat {
        self.width as nat
    }

    /// Number of rows.
    pub closed spec fn rows(&self) -> nat {
        self.height as nat
    }

    /// Whether the pixel in column `x` of row `y` lies inside the buffer.
    pub open spec fn holds(&self, x: int, y: int) -> bool {
        0 <= pixel_index(self.columns() as int, x, y) < self.columns() * self.rows()
    }

    /// A frame of `width` by `height` pixels, every one equal to `fill`.
    pub fn new(width: usize, height: usize, fill: P) -> (frame: Self) where P: Copy
        requires
            width * height <= usize::MAX,
        ensures
            frame.columns() == width,
            frame.rows() == height,
            frame@ == Seq::new((width * height) as nat, |i: int| fill),
    {
        let total: usize = width * height;
        let mut buffer: Vec<P> = Vec::new();
        let mut i: usize = 0;
        while i < total
            invariant
                i <= total,
                buffer@ == Seq::new(i as nat, |j: int| fill),
            decreases total - i,
        {
            buffer.push(fill);
            i += 1;
        }
        Frame { width, height, buffer }
    }

    /// Number of pixels in a row.
    pub fn width(&self) -> (w: usize)
        ensures
            w == self.columns(),
    {
        self.width
    }

    /// Number of rows.
    pub fn height(&self) -> (h: usize)
        ensures
            h == self.rows(),
    {
        self.height
    }

    /// The pixels, row after row.
    pub fn buffer(&self) -> (pixels: &Vec<P>)
        ensures
            pixels@ == self@,
            pixels@.len() == self.columns() * self.rows(),
    {
        proof {
            use_type_invariant(self);
        }
        &self.buffer
    }

    /// The position in the buffer of the pixel in column `x` of row `y`.
    pub fn index(&self, x: usize, y: usize) -> (i: usize)
        requires
            pixel_index(self.columns() as int, x as int, y as int) <= usize::MAX,
        ensures
            i == pixel_index(self.columns() as int, x as int, y as int),
    {
        assert(y * self.width <= usize::MAX) by (nonlinear_arith)
            requires
                x + y * self.width <= usize::MAX,
                0 <= x,
        ;
        x + y * self.width
    }

    /// The column and the row of the pixel at position `index` of the buffer.
    pub fn pos_from_index(&self, index: usize) -> (pos: (usize, usize))
        requires
            self.columns() > 0,
        ensures
            pos.0 == index as int % self.columns() as int,
            pos.1 == index as int / self.columns() as int,
    {
        (index % self.width, index / self.width)
    }

    /// The pixel in column `x` of row `y`.
    pub fn get(&self, x: usize, y: usize) -> (color: P) where P: Copy
        requires
            self.holds(x as int, y as int),
        ensures
            color == self@[pixel_index(self.columns() as int, x as int, y as int)],
    {
        proof {
            use_type_invariant(self);
            assert(self.buffer@.len() == self.buffer.len());
        }
        let i = self.index(x, y);
        self.buffer[i]
    }

    /// Stores `color` in column `x` of row `y`. No other pixel changes.
    pub fn set(&mut self, x: usize, y: usize, color: P)
        requires
            old(self).holds(x as int, y as int),
        ensures
            final(self).columns() == old(self).columns(),
            final(self).rows() == old(self).rows(),
            final(self)@ == old(self)@.update(
                pixel_index(old(self).columns() as int, x as int, y as int),
                color,
            ),
    {
        proof {
            use_type_invariant(&*self);
            assert(self.buffer@.len() == self.buffer.len());
        }
        let i = self.index(x, y);
        self.buffer[i] = color;
    }

    /// Stores the colours a worker computed for `tile`, given in the order in which
    /// it walked the tile: column by column, each column from top to bottom. Pixels
    /// outside the tile keep their colour.
    pub fn store_tile(&mut self, tile: &Tile, colors: &Vec<P>) where P: Copy
        requires
            tile.inside(old(self).columns() as int, old(self).rows() as int),
            colors@.len() == tile.area(),
        ensures
            final(self).columns() == old(self).columns(),
            final(self).rows() == old(self).rows(),
            final(self)@ == stored(old(self)@, old(self).columns() as int, *tile, colors@),
    {
        let ghost before = self.buffer@;
        let ghost w = self.width as int;
        let ghost h = self.height as int;
        let span = tile.max_y - tile.min_y;
        let mut x = tile.min_x;
        proof {
            use_type_invariant(&*self);
            assert(self.buffer@ =~= stored_until(before, w, *tile, colors@, x as int, 0));
        }
        while x < tile.max_x
            invariant
                tile.inside(w, h),
                colors@.len() == tile.area(),
                span == tile.max_y - tile.min_y,
                self.width == w,
                self.height == h,
                before.len() == w * h,
                tile.min_x <= x <= tile.max_x,
                self.buffer@ == stored_until(before, w, *tile, colors@, x as int, 0),
            decreases tile.max_x - x,
        {
            let mut y = tile.min_y;
            proof {
                assert(self.buffer@ =~= stored_until(
                    before,
                    w,
                    *tile,
                    colors@,
                    x as int,
                    y as int,
                ));
            }
            while y < tile.max_y
                invariant
                    tile.inside(w, h),
                    colors@.len() == tile.area(),
                    span == tile.max_y - tile.min_y,
                    self.width == w,
                    self.height == h,
                    before.len() == w * h,
                    tile.min_x <= x < tile.max_x,
                    tile.min_y <= y <= tile.max_y,
                    self.buffer@ == stored_until(before, w, *tile, colors@, x as int, y as int),
                decreases tile.max_y - y,
            {
                proof {
                    use_type_invariant(&*self);
                    lemma_index_round_trip(w, h, x as int, y as int);
                    lemma_offset_in_tile(*tile, x as int, y as int);
                    assert(self.buffer@.len() == self.buffer.len());
                    assert(colors@.len() == colors.len());
                }
                let i = self.index(x, y);
                let k = (x - tile.min_x) * span + (y - tile.min_y);
                let ghost previous = self.buffer@;
                self.buffer[i] = colors[k];
                proof {
                    let next = stored_until(before, w, *tile, colors@, x as int, y + 1);
                    assert forall|j: int| 0 <= j < before.len() implies self.buffer@[j]
                        == next[j] by {
                        lemma_position_round_trip(w, h, j);
                        if j != i {
                            assert(!(j % w == x && j / w == y));
                            assert(self.buffer@[j] == previous[j]);
                        }
                    }
                    assert(self.buffer@ =~= next);
                }
                y += 1;
            }
            proof {
                assert(self.buffer@ =~= stored_until(before, w, *tile, colors@, x + 1, 0));
            }
            x += 1;
        }
        proof {
            assert(self.buffer@ =~= stored(before, w, *tile, colors@));
        }
    }
}

/// Inside a tile the walking order of a worker numbers the pixels from zero up to
/// the area of the tile.
pub proof fn lemma_offset_in_tile(tile: Tile, x: int, y: int)
    requires
        tile.contains(x, y),
    ensures
        0 <= (x - tile.min_x) * (tile.max_y - tile.min_y) <= tile.offset(x, y) < tile.area(),
{
    let span = tile.max_y - tile.min_y;
    assert(0 <= (x - tile.min_x) * span && (x - tile.min_x) * span + span <= (tile.max_x
        - tile.min_x) * span) by (nonlinear_arith)
        requires
            0 <= x - tile.min_x,
            x - tile.min_x + 1 <= tile.max_x - tile.min_x,
            0 < span,
    ;
}

/// The buffer once each worker of `work` has stored its tile and colours, in the
/// order of `work`.
pub open spec fn stored_all<P>(pixels: Seq<P>, width: int, work: Seq<(Tile, Seq<P>)>) -> Seq<P>
    decreases work.len(),
{
    if work.len() == 0 {
        pixels
    } else {
        stored(stored_all(pixels, width, work.drop_last()), width, work.last().0, work.last().1)
    }
}

/// Whether no pixel belongs to the tiles of two different workers.
pub open spec fn share_no_pixel<P>(work: Seq<(Tile, Seq<P>)>) -> bool {
    forall|i: int, j: int, x: int, y: int|
        0 <= i < work.len() && 0 <= j < work.len() && i != j ==> !(#[trigger] work[i].0.contains(
            x,
            y,
        ) && #[trigger] work[j].0.contains(x, y))
}

/// Once all workers have stored their tiles, a pixel holds the colour that the
/// worker of its tile computed for it, and a pixel of no tile is as it was:
/// nothing depends on the order in which the workers stored.
pub proof fn lemma_pixel_after_all_stores<P>(
    pixels: Seq<P>,
    width: int,
    work: Seq<(Tile, Seq<P>)>,
    at: int,
)
    requires
        share_no_pixel(work),
        0 <= at < pixels.len(),
    ensures
        stored_all(pixels, width, work).len() == pixels.len(),
        forall|k: int|
            0 <= k < work.len() && (#[trigger] work[k]).0.contains(at % width, at / width)
                ==> stored_all(pixels, width, work)[at] == work[k].1[work[k].0.offset(
                at % width,
                at / width,
            )],
        (forall|k: int|
            0 <= k < work.len() ==> !(#[trigger] work[k]).0.contains(at % width, at / width))
            ==> stored_all(pixels, width, work)[at] == pixels[at],
    decreases work.len(),
{
    if work.len() > 0 {
        let earlier = work.drop_last();
        let last = work.len() - 1;
        assert forall|i: int, j: int, x: int, y: int|
            0 <= i < earlier.len() && 0 <= j < earlier.len() && i != j implies !(
        #[trigger] earlier[i].0.contains(x, y) && #[trigger] earlier[j].0.contains(x, y)) by {
            assert(earlier[i] == work[i] && earlier[j] == work[j]);
            assert(!(work[i].0.contains(x, y) && work[j].0.contains(x, y)));
        }
        lemma_pixel_after_all_stores(pixels, width, earlier, at);
        assert forall|k: int|
            0 <= k < work.len() && (#[trigger] work[k]).0.contains(
                at % width,
                at / width,
            ) implies stored_all(pixels, width, work)[at] == work[k].1[work[k].0.offset(
            at % width,
            at / width,
        )] by {
            if k < last {
                assert(earlier[k] == work[k]);
                assert(!(work[k].0.contains(at % width, at / width) && work[last].0.contains(
                    at % width,
                    at / width,
                )));
            }
        }
        if forall|k: int|
            0 <= k < work.len() ==> !(#[trigger] work[k]).0.contains(at % width, at / width) {
            assert(!work[last].0.contains(at % width, at / width));
            assert forall|k: int| 0 <= k < earlier.len() implies !(#[trigger] earlier[k]).0.contains(
                at % width,
                at / width,
            ) by {
                assert(earlier[k] == work[k]);
            }
        }
    }
}

/// Workers whose tiles share no pixel may finish in any order: two runs in which
/// the same workers store the same colours give the same image.
pub proof fn lemma_finish_order_is_irrelevant<P>(
    pixels: Seq<P>,
    width: int,
    one: Seq<(Tile, Seq<P>)>,
    other: Seq<(Tile, Seq<P>)>,
)
    requires
        share_no_pixel(one),
        share_no_pixel(other),
        forall|k: int| 0 <= k < one.len() ==> other.contains(#[trigger] one[k]),
        forall|k: int| 0 <= k < other.len() ==> one.contains(#[trigger] other[k]),
    ensures
        stored_all(pixels, width, one) == stored_all(pixels, width, other),
{
    let left = stored_all(pixels, width, one);
    let right = stored_all(pixels, width, other);
    if pixels.len() > 0 {
        lemma_pixel_after_all_stores(pixels, width, one, 0);
        lemma_pixel_after_all_stores(pixels, width, other, 0);
    } else {
        lemma_stored_all_len(pixels, width, one);
        lemma_stored_all_len(pixels, width, other);
    }
    assert forall|at: int| 0 <= at < pixels.len() implies left[at] == right[at] by {
        lemma_pixel_after_all_stores(pixels, width, one, at);
        lemma_pixel_after_all_stores(pixels, width, other, at);
        if exists|k: int| 0 <= k < one.len() && (#[trigger] one[k]).0.contains(at % width, at / width) {
            let k = choose|k: int|
                0 <= k < one.len() && (#[trigger] one[k]).0.contains(at % width, at / width);
            assert(other.contains(one[k]));
            let m = choose|m: int| 0 <= m < other.len() && other[m] == one[k];
            assert(other[m].0.contains(at % width, at / width));
        } else {
            assert forall|m: int| 0 <= m < other.len() implies !(#[trigger] other[m]).0.contains(
                at % width,
                at / width,
            ) by {
                assert(one.contains(other[m]));
                let k = choose|k: int| 0 <= k < one.len() && one[k] == other[m];
                assert(!one[k].0.contains(at % width, at / width));
            }
        }
    }
    assert(left =~= right);
}

/// An image of one colour stays of that colour when every worker stores nothing
/// but that colour: a scene that sends no light back renders as background,
/// whatever the size of the image and the tiles.
pub proof fn lemma_uniform_image<P>(
    pixels: Seq<P>,
    width: int,
    work: Seq<(Tile, Seq<P>)>,
    color: P,
)
    requires
        forall|i: int| 0 <= i < pixels.len() ==> pixels[i] == color,
        forall|k: int| 0 <= k < work.len() ==> (#[trigger] work[k]).1.len() == work[k].0.area(),
        forall|k: int, j: int|
            0 <= k < work.len() && 0 <= j < work[k].1.len() ==> (#[trigger] work[k].1[j]) == color,
    ensures
        stored_all(pixels, width, work).len() == pixels.len(),
        forall|i: int| 0 <= i < pixels.len() ==> stored_all(pixels, width, work)[i] == color,
    decreases work.len(),
{
    if work.len() > 0 {
        let earlier = work.drop_last();
        let last = work.last();
        assert forall|k: int| 0 <= k < earlier.len() implies (#[trigger] earlier[k]).1.len()
            == earlier[k].0.area() by {
            assert(earlier[k] == work[k]);
        }
        assert forall|k: int, j: int|
            0 <= k < earlier.len() && 0 <= j < earlier[k].1.len() implies (
        #[trigger] earlier[k].1[j]) == color by {
            assert(earlier[k] == work[k]);
            assert(work[k].1[j] == color);
        }
        lemma_uniform_image(pixels, width, earlier, color);
        let before = stored_all(pixels, width, earlier);
        assert(last == work[work.len() - 1]);
        assert forall|i: int| 0 <= i < pixels.len() implies stored(before, width, last.0, last.1)[i]
            == color by {
            if last.0.contains(i % width, i / width) {
                lemma_offset_in_tile(last.0, i % width, i / width);
                assert(work[work.len() - 1].1[last.0.offset(i % width, i / width)] == color);
            }
        }
    }
}

proof fn lemma_stored_all_len<P>(pixels: Seq<P>, width: int, work: Seq<(Tile, Seq<P>)>)
    ensures
        stored_all(pixels, width, work).len() == pixels.len(),
    decreases work.len(),
{
    if work.len() > 0 {
        lemma_stored_all_len(pixels, width, work.drop_last());
    }
}

/// A pixel inside the image has a position inside the buffer, and the position
/// gives the pixel back: `pos_from_index` undoes `index`.
pub proof fn lemma_index_round_trip(width: int, height: int, x: int, y: int)
    requires
        0 <= x < width,
        0 <= y < height,
    ensures
        0 <= pixel_index(width, x, y) < width * height,
        pixel_index(width, x, y) % width == x,
        pixel_index(width, x, y) / width == y,
{
    lemma_fundamental_div_mod_converse(pixel_index(width, x, y), width, y, x);
    assert(x + y * width < width * height) by (nonlinear_arith)
        requires
            0 <= x < width,
            0 <= y < height,
    ;
    assert(0 <= y * width) by (nonlinear_arith)
        requires
            0 <= y,
            0 < width,
    ;
}

/// A position inside the buffer belongs to a pixel inside the image, and the pixel
/// gives the position back: `index` undoes `pos_from_index`.
pub proof fn lemma_position_round_trip(width: int, height: int, i: int)
    requires
        0 <= i < width * height,
        0 < width,
    ensures
        0 <= i % width < width,
        0 <= i / width < height,
        pixel_index(width, i % width, i / width) == i,
{
    lemma_fundamental_div_mod(i, width);
    let q = i / width;
    let r = i % width;
    assert(i == width * q + r);
    assert(0 <= q) by (nonlinear_arith)
        requires
            i == width * q + r,
            0 <= i,
            0 <= r < width,
    ;
    assert(q < height) by (nonlinear_arith)
        requires
            i == width * q + r,
            i < width * height,
            0 <= r < width,
    ;
    assert(width * q == q * width) by (nonlinear_arith);
}

} // verus!
