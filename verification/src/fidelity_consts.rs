use vstd::prelude::*;
use crate::scheduler::grid_tile;
use crate::scheduler::rounded_root;
use crate::scheduler::row_column_count;
use crate::scheduler::tiles;
use crate::scheduler::Tile;

verus! {

/// Width units of the default aspect ratio, 16:10.
pub const ASPECT_WIDTH: usize = 16;

/// Height units of the default aspect ratio, 16:10.
pub const ASPECT_HEIGHT: usize = 10;

/// Default image height, in pixels.
pub const RESOLUTION_Y: usize = 64;

/// Default image width, in pixels: one more than the height scaled by the aspect
/// ratio and rounded down.
pub const RESOLUTION_X: usize = 1 + RESOLUTION_Y * ASPECT_WIDTH / ASPECT_HEIGHT;

/// Number of sample rays cast per lobe for diffuse and specular illumination.
pub const SAMPLE_COUNT: usize = 32;

/// Largest number of indirect bounces a camera ray may make.
pub const BOUNCES: u8 = 2;

/// Default number of tiles the image is split into, one worker each.
pub const CELLS: usize = 256;

/// Number of pixels in a default-sized frame.
pub const TOTAL_BUFFER_SIZE: usize = RESOLUTION_X * RESOLUTION_Y;

/// What a render is tuned by: the size of the image, the number of samples per
/// lobe, the largest number of bounces, and the number of tiles asked for.
#[derive(Clone, Copy, Debug, PartialEq, Eq, Structural)]
pub struct Fidelity {
    pub resolution_x: usize,
    pub resolution_y: usize,
    pub sample_count: usize,
    pub bounces: u8,
    pub cells: usize,
}

impl Fidelity {
    /// The default tuning.
    pub open spec fn standard_fidelity() -> Fidelity {
        Fidelity {
            resolution_x: RESOLUTION_X,
            resolution_y: RESOLUTION_Y,
            sample_count: SAMPLE_COUNT,
            bounces: BOUNCES,
            cells: CELLS,
        }
    }

    /// The default tuning.
    pub fn standard() -> (fidelity: Self)
        ensures
            fidelity == Self::standard_fidelity(),
    {
        Fidelity {
            resolution_x: RESOLUTION_X,
            resolution_y: RESOLUTION_Y,
            sample_count: SAMPLE_COUNT,
            bounces: BOUNCES,
            cells: CELLS,
        }
    }

    /// The number of pixels of the image, if the machine can count that far.
    pub fn buffer_size(&self) -> (size: Option<usize>)
        ensures
            size == (if self.resolution_x * self.resolution_y <= usize::MAX {
                Some((self.resolution_x * self.resolution_y) as usize)
            } else {
                None
            }),
    {
        self.resolution_x.checked_mul(self.resolution_y)
    }

    /// The tiles of the image, one for each worker: as many along each side as the
    /// rounded square root of the number of tiles asked for. Nothing if that is
    /// zero, or if the machine cannot count its square.
    pub fn tiles(&self) -> (grid: Option<Vec<Tile>>)
        ensures
            match grid {
                Some(list) => {
                    &&& 0 < rounded_root(self.cells as int)
                    &&& rounded_root(self.cells as int) * rounded_root(self.cells as int)
                        <= usize::MAX
                    &&& list@.len() == rounded_root(self.cells as int) * rounded_root(
                        self.cells as int,
                    )
                    &&& forall|k: int|
                        0 <= k < list@.len() ==> #[trigger] list@[k] == grid_tile(
                            self.resolution_x,
                            self.resolution_y,
                            rounded_root(self.cells as int) as usize,
                            k / rounded_root(self.cells as int),
                            k % rounded_root(self.cells as int),
                        )
                },
                None => rounded_root(self.cells as int) == 0 || rounded_root(self.cells as int)
                    * rounded_root(self.cells as int) > usize::MAX,
            },
    {
        let per_side = row_column_count(self.cells);
        if per_side == 0 {
            return None;
        }
        match per_side.checked_mul(per_side) {
            Some(_) => Some(tiles(self.resolution_x, self.resolution_y, per_side)),
            None => None,
        }
    }
}

} // verus!
