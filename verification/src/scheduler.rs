use vstd::arithmetic::div_mod::lemma_fundamental_div_mod;
use vstd::arithmetic::div_mod::lemma_fundamental_div_mod_converse;
use rand::rngs::SmallRng;
use rand::rngs::ThreadRng;
use rand::SeedableRng;
use vstd::prelude::*;

verus! {

/// The small, fast generator of the `rand` crate that each worker draws from.
#[verifier::external_type_specification]
#[verifier::external_body]
pub struct ExSmallRng(SmallRng);

/// The generator of the `rand` crate that belongs to the current thread.
#[verifier::external_type_specification]
#[verifier::external_body]
pub struct ExThreadRng(ThreadRng);

/// The error of the `rand` crate.
#[verifier::external_type_specification]
#[verifier::external_body]
pub struct ExRandError(rand::Error);

/// `SeedableRng::from_rng` for `SmallRng`: a new generator whose seed is drawn from
/// `meta`, or the error that drawing gave. Nothing is known of the generator: it
/// depends on chance.
#[verifier::external_body]
fn fork(meta: &mut ThreadRng) -> (forked: Result<SmallRng, rand::Error>) {
    SmallRng::from_rng(meta)
}

/// Why the workers could not be given generators: seeding failed for the worker
/// at this position.
#[derive(Clone, Copy, Debug, PartialEq, Eq, Structural)]
pub struct SeedError {
    pub worker: usize,
}

/// Makes one generator for each of `workers` workers, each seeded from `meta`, so
/// that no two workers share one. Stops at the first worker whose seeding fails.
pub fn seed_workers(meta: &mut ThreadRng, workers: usize) -> (seeded: Result<
    Vec<SmallRng>,
    SeedError,
>)
    ensures
        match seeded {
            Ok(generators) => generators@.len() == workers,
            Err(e) => e.worker < workers,
        },
{
    let mut generators: Vec<SmallRng> = Vec::new();
    let mut i: usize = 0;
    while i < workers
        invariant
            i <= workers,
            generators@.len() == i,
        decreases workers - i,
    {
        match fork(meta) {
            Ok(generator) => {
                generators.push(generator);
            },
            Err(_) => {
                return Err(SeedError { worker: i });
            },
        }
        i += 1;
    }
    Ok(generators)
}

/// A rectangle of pixels: columns `min_x` up to but not including `max_x`, rows
/// `min_y` up to but not including `max_y`.
#[derive(Clone, Copy, Debug, PartialEq, Eq, Structural)]
pub struct Tile {
    pub min_x: usize,
    pub min_y: usize,
    pub max_x: usize,
    pub max_y: usize,
}

impl Tile {
    /// Whether the pixel in column `x` of row `y` belongs to the tile.
    pub open spec fn contains(self, x: int, y: int) -> bool {
        self.min_x <= x < self.max_x && self.min_y <= y < self.max_y
    }

    /// Whether the tile lies inside an image of `width` by `height` pixels.
    pub open spec fn inside(self, width: int, height: int) -> bool {
        self.min_x <= self.max_x <= width && self.min_y <= self.max_y <= height
    }

    /// Number of pixels in the tile.
    pub open spec fn area(self) -> int {
        (self.max_x - self.min_x) * (self.max_y - self.min_y)
    }

    /// Where a worker that walks the tile column by column, each column from top to
    /// bottom, meets the pixel in column `x` of row `y`.
    pub open spec fn offset(self, x: int, y: int) -> int {
        (x - self.min_x) * (self.max_y - self.min_y) + (y - self.min_y)
    }
}

/// Whether `n` is the square root of `cells` rounded to the nearest whole number:
/// `n - 1/2 <= sqrt(cells) < n + 1/2`, stated without fractions.
pub open spec fn is_rounded_root(n: int, cells: int) -> bool {
    &&& 0 <= n
    &&& cells <= n * n + n
    &&& n == 0 || n * n - n < cells
}

/// The square root of `cells`, rounded to the nearest whole number.
pub open spec fn rounded_root(cells: int) -> int {
    choose|n: int| is_rounded_root(n, cells)
}

/// Where cell `cell` of `per_side` cells starts along a side of `length` pixels:
/// cells are `length / per_side` pixels long, rounded down.
pub open spec fn cell_start(length: int, per_side: int, cell: int) -> int {
    cell * (length / per_side)
}

/// Where cell `cell` of `per_side` cells ends along a side of `length` pixels:
/// where the next cell starts, and at the end of the side for the last cell,
/// which takes the pixels that rounding down leaves over.
pub open spec fn cell_end(length: int, per_side: int, cell: int) -> int {
    if cell == per_side - 1 {
        length
    } else {
        (cell + 1) * (length / per_side)
    }
}

/// The cell that holds pixel `p` along a side of `length` pixels cut into
/// `per_side` cells.
pub open spec fn cell_of(length: int, per_side: int, p: int) -> int {
    if length / per_side == 0 || p / (length / per_side) >= per_side {
        per_side - 1
    } else {
        p / (length / per_side)
    }
}

/// The tile in column `x_cell` and row `y_cell` of a grid that cuts an image of
/// `width` by `height` pixels into `per_side` by `per_side` tiles.
pub open spec fn grid_tile(
    width: usize,
    height: usize,
    per_side: usize,
    x_cell: int,
    y_cell: int,
) -> Tile {
    Tile {
        min_x: cell_start(width as int, per_side as int, x_cell) as usize,
        min_y: cell_start(height as int, per_side as int, y_cell) as usize,
        max_x: cell_end(width as int, per_side as int, x_cell) as usize,
        max_y: cell_end(height as int, per_side as int, y_cell) as usize,
    }
}

/// The number of tiles along each side of the image when it is split into about
/// `cells` tiles: the square root of `cells`, rounded to the nearest whole number.
pub fn row_column_count(cells: usize) -> (n: usize)
    ensures
        is_rounded_root(n as int, cells as int),
        n == rounded_root(cells as int),
{
    let mut n: usize = 0;
    while (n as u128) * (n as u128) + (n as u128) < (cells as u128)
        invariant
            n <= cells,
            n == 0 || n * n - n < cells,
        decreases cells - n,
    {
        proof {
            lemma_square_bound(n as int);
        }
        assert(n < cells) by (nonlinear_arith)
            requires
                n * n + n < cells,
                0 <= n,
        ;
        assert((n + 1) * (n + 1) - (n + 1) == n * n + n) by (nonlinear_arith);
        n += 1;
    }
    proof {
        lemma_square_bound(n as int);
        lemma_rounded_root_unique(n as int, n as int, cells as int);
    }
    n
}

proof fn lemma_square_bound(n: int)
    requires
        0 <= n <= usize::MAX,
    ensures
        0 <= n * n,
        n * n + n <= u128::MAX,
{
    assert(0 <= n * n && n * n + n <= 0xFFFF_FFFF_FFFF_FFFF * 0x1_0000_0000_0000_0000)
        by (nonlinear_arith)
        requires
            0 <= n <= 0xFFFF_FFFF_FFFF_FFFF,
    ;
}

/// Cuts an image of `width` by `height` pixels into `per_side` by `per_side` tiles,
/// listed column of tiles by column of tiles, each column from top to bottom. The
/// tiles are of equal size, but for the last of each row and column, which reach
/// to the edge of the image: every pixel lies in exactly one tile.
pub fn tiles(width: usize, height: usize, per_side: usize) -> (grid: Vec<Tile>)
    requires
        per_side > 0,
        per_side * per_side <= usize::MAX,
    ensures
        grid@.len() == per_side * per_side,
        forall|k: int|
            0 <= k < grid@.len() ==> #[trigger] grid@[k] == grid_tile(
                width,
                height,
                per_side,
                k / per_side as int,
                k % per_side as int,
            ),
{
    let cell_width = width / per_side;
    let cell_height = height / per_side;
    let mut grid: Vec<Tile> = Vec::new();
    let mut x_cell: usize = 0;
    while x_cell < per_side
        invariant
            per_side > 0,
            per_side * per_side <= usize::MAX,
            cell_width == width as int / per_side as int,
            cell_height == height as int / per_side as int,
            x_cell <= per_side,
            grid@.len() == x_cell * per_side,
            forall|k: int|
                0 <= k < grid@.len() ==> #[trigger] grid@[k] == grid_tile(
                    width,
                    height,
                    per_side,
                    k / per_side as int,
                    k % per_side as int,
                ),
        decreases per_side - x_cell,
    {
        proof {
            lemma_cell_bounds(width as int, per_side as int, x_cell as int);
        }
        let min_x = x_cell * cell_width;
        let max_x = if x_cell == per_side - 1 {
            width
        } else {
            (x_cell + 1) * cell_width
        };
        let mut y_cell: usize = 0;
        while y_cell < per_side
            invariant
                per_side > 0,
                per_side * per_side <= usize::MAX,
                cell_width == width as int / per_side as int,
                cell_height == height as int / per_side as int,
                x_cell < per_side,
                y_cell <= per_side,
                min_x == cell_start(width as int, per_side as int, x_cell as int),
                max_x == cell_end(width as int, per_side as int, x_cell as int),
                grid@.len() == x_cell * per_side + y_cell,
                forall|k: int|
                    0 <= k < grid@.len() ==> #[trigger] grid@[k] == grid_tile(
                        width,
                        height,
                        per_side,
                        k / per_side as int,
                        k % per_side as int,
                    ),
            decreases per_side - y_cell,
        {
            proof {
                lemma_cell_bounds(height as int, per_side as int, y_cell as int);
                lemma_fundamental_div_mod_converse(
                    x_cell * per_side + y_cell,
                    per_side as int,
                    x_cell as int,
                    y_cell as int,
                );
                lemma_cell_count(per_side as int, x_cell as int, y_cell as int);
            }
            let min_y = y_cell * cell_height;
            let max_y = if y_cell == per_side - 1 {
                height
            } else {
                (y_cell + 1) * cell_height
            };
            grid.push(Tile { min_x, min_y, max_x, max_y });
            y_cell += 1;
        }
        assert((x_cell + 1) * per_side == x_cell * per_side + per_side) by (nonlinear_arith);
        x_cell += 1;
    }
    grid
}

proof fn lemma_cell_count(per_side: int, x_cell: int, y_cell: int)
    requires
        0 <= x_cell < per_side,
        0 <= y_cell < per_side,
    ensures
        0 <= x_cell * per_side + y_cell < per_side * per_side,
{
    assert(0 <= x_cell * per_side + y_cell < per_side * per_side) by (nonlinear_arith)
        requires
            0 <= x_cell < per_side,
            0 <= y_cell < per_side,
    ;
}

/// A cell starts no later than it ends, inside the side, and the next cell starts
/// where it ends.
pub proof fn lemma_cell_bounds(length: int, per_side: int, cell: int)
    requires
        0 <= length,
        0 <= cell < per_side,
    ensures
        0 <= length / per_side,
        0 <= cell_start(length, per_side, cell) <= cell_end(length, per_side, cell) <= length,
        cell + 1 < per_side ==> cell_end(length, per_side, cell) == cell_start(
            length,
            per_side,
            cell + 1,
        ),
        0 <= (cell + 1) * (length / per_side) <= length,
{
    lemma_fundamental_div_mod(length, per_side);
    let size = length / per_side;
    assert(0 <= size) by (nonlinear_arith)
        requires
            length == per_side * size + length % per_side,
            0 <= length % per_side < per_side,
            0 <= length,
    ;
    assert(0 <= cell * size <= (cell + 1) * size <= per_side * size) by (nonlinear_arith)
        requires
            0 <= cell < per_side,
            0 <= size,
    ;
}

/// Every tile of the grid lies inside the image.
pub proof fn lemma_grid_tile_inside(
    width: usize,
    height: usize,
    per_side: usize,
    x_cell: int,
    y_cell: int,
)
    requires
        0 <= x_cell < per_side,
        0 <= y_cell < per_side,
    ensures
        grid_tile(width, height, per_side, x_cell, y_cell).inside(width as int, height as int),
{
    lemma_cell_bounds(width as int, per_side as int, x_cell);
    lemma_cell_bounds(height as int, per_side as int, y_cell);
}

/// Two different tiles of the list that `tiles` gives share no pixel.
pub proof fn lemma_tiles_share_no_pixel(
    width: usize,
    height: usize,
    per_side: usize,
    first: int,
    second: int,
    x: int,
    y: int,
)
    requires
        per_side > 0,
        0 <= first < per_side * per_side,
        0 <= second < per_side * per_side,
        first != second,
        grid_tile(
            width,
            height,
            per_side,
            first / per_side as int,
            first % per_side as int,
        ).contains(x, y),
    ensures
        !grid_tile(
            width,
            height,
            per_side,
            second / per_side as int,
            second % per_side as int,
        ).contains(x, y),
{
    let n = per_side as int;
    lemma_cell_position(n, first);
    lemma_cell_position(n, second);
    lemma_cell_bounds(width as int, n, first / n);
    lemma_cell_bounds(height as int, n, first % n);
    lemma_cell_bounds(width as int, n, second / n);
    lemma_cell_bounds(height as int, n, second % n);
    if grid_tile(width, height, per_side, second / n, second % n).contains(x, y) {
        lemma_cells_apart(width as int, n, first / n, second / n, x);
        lemma_cells_apart(height as int, n, first % n, second % n, y);
    }
}

proof fn lemma_cell_position(per_side: int, k: int)
    requires
        0 < per_side,
        0 <= k < per_side * per_side,
    ensures
        0 <= k / per_side < per_side,
        0 <= k % per_side < per_side,
        k == per_side * (k / per_side) + k % per_side,
{
    lemma_fundamental_div_mod(k, per_side);
    let q = k / per_side;
    let r = k % per_side;
    assert(0 <= q < per_side) by (nonlinear_arith)
        requires
            k == per_side * q + r,
            0 <= r < per_side,
            0 <= k < per_side * per_side,
    ;
}

proof fn lemma_cells_apart(length: int, per_side: int, a: int, b: int, p: int)
    requires
        0 <= length,
        0 <= a < per_side,
        0 <= b < per_side,
        cell_start(length, per_side, a) <= p < cell_end(length, per_side, a),
        cell_start(length, per_side, b) <= p < cell_end(length, per_side, b),
    ensures
        a == b,
{
    let size = length / per_side;
    lemma_cell_bounds(length, per_side, a);
    lemma_cell_bounds(length, per_side, b);
    if a < b {
        assert((a + 1) * size <= b * size) by (nonlinear_arith)
            requires
                a + 1 <= b,
                0 <= size,
        ;
    } else if b < a {
        assert((b + 1) * size <= a * size) by (nonlinear_arith)
            requires
                b + 1 <= a,
                0 <= size,
        ;
    }
}

/// Every pixel of the image lies in a tile of the grid: the one in the column and
/// the row of cells that `cell_of` names.
pub proof fn lemma_grid_covers(width: usize, height: usize, per_side: usize, x: int, y: int)
    requires
        per_side > 0,
        0 <= x < width,
        0 <= y < height,
    ensures
        0 <= cell_of(width as int, per_side as int, x) < per_side,
        0 <= cell_of(height as int, per_side as int, y) < per_side,
        grid_tile(
            width,
            height,
            per_side,
            cell_of(width as int, per_side as int, x),
            cell_of(height as int, per_side as int, y),
        ).contains(x, y),
{
    lemma_cell_holds(width as int, per_side as int, x);
    lemma_cell_holds(height as int, per_side as int, y);
    lemma_cell_bounds(width as int, per_side as int, cell_of(width as int, per_side as int, x));
    lemma_cell_bounds(height as int, per_side as int, cell_of(height as int, per_side as int, y));
}

proof fn lemma_cell_holds(length: int, per_side: int, p: int)
    requires
        0 <= p < length,
        0 < per_side,
    ensures
        0 <= cell_of(length, per_side, p) < per_side,
        cell_start(length, per_side, cell_of(length, per_side, p)) <= p < cell_end(
            length,
            per_side,
            cell_of(length, per_side, p),
        ),
{
    let size = length / per_side;
    lemma_cell_bounds(length, per_side, per_side - 1);
    if size == 0 {
        assert((per_side - 1) * size == 0) by (nonlinear_arith)
            requires
                size == 0,
        ;
    } else {
        lemma_fundamental_div_mod(p, size);
        let q = p / size;
        let r = p % size;
        assert(0 <= q && q * size <= p < (q + 1) * size) by (nonlinear_arith)
            requires
                p == size * q + r,
                0 <= r < size,
                0 <= p,
        ;
        if q >= per_side {
            assert((per_side - 1) * size <= p) by (nonlinear_arith)
                requires
                    q * size <= p,
                    q >= per_side,
                    0 < size,
            ;
        } else if q == per_side - 1 {
        }
    }
}

/// Only one number is the rounded square root of `cells`.
pub proof fn lemma_rounded_root_unique(n: int, m: int, cells: int)
    requires
        is_rounded_root(n, cells),
        is_rounded_root(m, cells),
    ensures
        n == m,
        n == rounded_root(cells),
{
    lemma_only_one_root(n, rounded_root(cells), cells);
    lemma_only_one_root(n, m, cells);
}

proof fn lemma_only_one_root(n: int, m: int, cells: int)
    requires
        is_rounded_root(n, cells),
        is_rounded_root(m, cells),
    ensures
        n == m,
{
    if n < m {
        assert(m * m - m >= n * n + n) by (nonlinear_arith)
            requires
                0 <= n,
                n + 1 <= m,
        ;
    } else if m < n {
        assert(n * n - n >= m * m + m) by (nonlinear_arith)
            requires
                0 <= m,
                m + 1 <= n,
        ;
    }
}

} // verus!
