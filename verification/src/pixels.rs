//! The decoded images this library reads from and writes to. Everything here
//! is believed of the `image` crate, not proved.
use vstd::prelude::*;
use image::GenericImageView;
use image::Pixel;

verus! {

/// `image::DynamicImage`, a decoded image of any pixel format, opaque here.
#[verifier::external_type_specification]
#[verifier::external_body]
pub struct ExDynamicImage(image::DynamicImage);

/// A grey image under construction: an `image::GrayImage`, opaque here.
#[verifier::external_body]
pub struct GrayCanvas {
    pub image: image::GrayImage,
}

/// The width and height of a decoded image.
pub uninterp spec fn image_extent(image: image::DynamicImage) -> (u32, u32);

/// The pixels of a decoded image: at `(x, y)` the four channels red, green,
/// blue and alpha as `GenericImageView::get_pixel` converts them to 8 bits.
pub uninterp spec fn image_pixels(image: image::DynamicImage) -> Map<(int, int), Seq<u8>>;

/// The width and height of a grey image.
pub uninterp spec fn gray_extent(canvas: GrayCanvas) -> (u32, u32);

/// The pixels of a grey image: at `(x, y)` its single channel.
pub uninterp spec fn gray_pixels(canvas: GrayCanvas) -> Map<(int, int), u8>;

/// `GenericImageView::dimensions` of a `DynamicImage`: the width and height
/// of the buffer it holds.
#[verifier::external_body]
pub(crate) fn dimensions(image: &image::DynamicImage) -> (extent: (u32, u32))
    ensures
        extent == image_extent(*image),
{
    image.dimensions()
}

/// `GenericImageView::get_pixel` of a `DynamicImage`: the pixel at `(x, y)`
/// as 8-bit RGBA. It panics outside the image, which the precondition
/// excludes.
#[verifier::external_body]
pub(crate) fn pixel_at(image: &image::DynamicImage, x: u32, y: u32) -> (rgba: [u8; 4])
    requires
        x < image_extent(*image).0,
        y < image_extent(*image).1,
    ensures
        rgba@ == image_pixels(*image)[(x as int, y as int)],
{
    image.get_pixel(x, y).0
}

/// `Pixel::to_rgb` of an `Rgba<u8>`: the first three channels, unchanged.
#[verifier::external_body]
pub(crate) fn rgb_of(rgba: [u8; 4]) -> (rgb: [u8; 3])
    ensures
        rgb@ == rgba@.subrange(0, 3),
{
    image::Rgba(rgba).to_rgb().0
}

/// `ImageBuffer::new` for `GrayImage`: an image of the given dimensions with
/// every pixel zero. It panics when the buffer cannot be a vector, which the
/// precondition excludes.
#[verifier::external_body]
pub(crate) fn blank_gray(width: u32, height: u32) -> (canvas: GrayCanvas)
    requires
        width * height <= isize::MAX,
    ensures
        gray_extent(canvas) == (width, height),
        forall|x: int, y: int|
            0 <= x < width && 0 <= y < height ==> #[trigger] gray_pixels(canvas)[(x, y)] == 0,
{
    GrayCanvas { image: image::GrayImage::new(width, height) }
}

/// `ImageBuffer::put_pixel` with a `Luma`: replaces the pixel at `(x, y)` and
/// nothing else. It panics outside the image, which the precondition
/// excludes.
#[verifier::external_body]
pub(crate) fn put_gray(canvas: &mut GrayCanvas, x: u32, y: u32, value: u8)
    requires
        x < gray_extent(*old(canvas)).0,
        y < gray_extent(*old(canvas)).1,
    ensures
        gray_extent(*final(canvas)) == gray_extent(*old(canvas)),
        gray_pixels(*final(canvas)) == gray_pixels(*old(canvas)).insert(
            (x as int, y as int),
            value,
        ),
{
    canvas.image.put_pixel(x, y, image::Luma([value]))
}

} // verus!
