use image::DynamicImage;
use image::GenericImageView;
use vstd::prelude::*;

verus! {

/// An image of the `image` crate, in any of its pixel formats.
#[verifier::external_type_specification]
#[verifier::external_body]
pub struct ExDynamicImage(DynamicImage);

/// Width and height of an image, in pixels.
pub uninterp spec fn image_size(image: DynamicImage) -> (u32, u32);

/// The pixels of an image by column and row, each as red, green, blue and alpha
/// with eight bits a channel, whatever format the image is stored in.
pub uninterp spec fn image_pixels(image: DynamicImage) -> Map<(u32, u32), (u8, u8, u8, u8)>;

/// `GenericImageView::dimensions` on a `DynamicImage`: the width and the height
/// of the stored image.
#[verifier::external_body]
fn dimensions(image: &DynamicImage) -> (size: (u32, u32))
    ensures
        size == image_size(*image),
{
    image.dimensions()
}

/// `GenericImageView::get_pixel` on a `DynamicImage`: the pixel in column `x` of
/// row `y`, converted to eight-bit red, green, blue and alpha. The call panics
/// outside the image, so the column and the row must lie inside.
#[verifier::external_body]
fn get_pixel(image: &DynamicImage, x: u32, y: u32) -> (pixel: (u8, u8, u8, u8))
    requires
        x < image_size(*image).0,
        y < image_size(*image).1,
    ensures
        pixel == image_pixels(*image)[(x, y)],
{
    let p = image.get_pixel(x, y);
    (p[0], p[1], p[2], p[3])
}

/// Whether a cell of a checkerboard shows the base colour: cells whose column and
/// row are both even or both odd do, the others show the alternate colour.
pub open spec fn is_base_cell(column: u32, row: u32) -> bool {
    (column % 2 == 0) == (row % 2 == 0)
}

/// The pixel along one axis that a texture coordinate selects, where `scaled` is
/// the coordinate times `size` rounded down: the pixel of that number, or the last
/// one for a coordinate at the very end of the axis or beyond. Nothing for an
/// axis without pixels.
pub open spec fn texel_along(scaled: u32, size: u32) -> Option<u32> {
    if size == 0 {
        None
    } else if scaled < size {
        Some(scaled)
    } else {
        Some((size - 1) as u32)
    }
}

/// Red, green and blue of a pixel.
pub open spec fn opaque_part(pixel: (u8, u8, u8, u8)) -> (u8, u8, u8) {
    (pixel.0, pixel.1, pixel.2)
}

/// Decides the colour of a checkerboard cell: `true` for the base colour, `false`
/// for the alternate one.
pub fn checker(column: u32, row: u32) -> (base: bool)
    ensures
        base == is_base_cell(column, row),
{
    let column_is_base = column % 2 == 0;
    let row_is_base = row % 2 == 0;
    column_is_base == row_is_base
}

/// Picks the pixel along one axis for a scaled texture coordinate.
pub fn uv_to_pixel(scaled: u32, size: u32) -> (pixel: Option<u32>)
    ensures
        pixel == texel_along(scaled, size),
{
    if size == 0 {
        None
    } else if scaled < size {
        Some(scaled)
    } else {
        Some(size - 1)
    }
}

/// Drops the alpha channel of a pixel.
pub fn rgb(pixel: (u8, u8, u8, u8)) -> (color: (u8, u8, u8))
    ensures
        color == opaque_part(pixel),
{
    (pixel.0, pixel.1, pixel.2)
}

/// Samples an image at the nearest pixel. `scaled_u` and `scaled_v` are the
/// texture coordinates times the width and the height of the image, rounded
/// down. Gives red, green and blue of the pixel, or nothing for an image without
/// pixels.
pub fn color_at(image: &DynamicImage, scaled_u: u32, scaled_v: u32) -> (color: Option<
    (u8, u8, u8),
>)
    ensures
        color == match (
            texel_along(scaled_u, image_size(*image).0),
            texel_along(scaled_v, image_size(*image).1),
        ) {
            (Some(x), Some(y)) => Some(opaque_part(image_pixels(*image)[(x, y)])),
            _ => None,
        },
{
    let size = dimensions(image);
    match (uv_to_pixel(scaled_u, size.0), uv_to_pixel(scaled_v, size.1)) {
        (Some(x), Some(y)) => Some(rgb(get_pixel(image, x, y))),
        _ => None,
    }
}

} // verus!
