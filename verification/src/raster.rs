use vstd::prelude::*;
use crate::frame::buffer_len;

verus! {

/// An image of three bytes to a pixel, as the image crate holds it. The
/// crate's buffer is generic over a trait of pixels, which stands in the way
/// of declaring it to the verifier; so it is kept behind this struct, and
/// what it holds is known through `frame_size` and `frame_pixels` alone.
#[verifier::external_body]
pub struct RgbFrame {
    inner: image::RgbImage,
}

/// The width and the height of the image.
pub uninterp spec fn frame_size(frame: RgbFrame) -> (u32, u32);

/// The pixels of the image by column and row, each as its red, green and blue
/// byte: one entry for every place inside the image and none for any other.
pub uninterp spec fn frame_pixels(frame: RgbFrame) -> Map<(u32, u32), (u8, u8, u8)>;

/// What the image crate makes of an image of this size and these pixels when
/// it is asked for a PNG file in memory: the bytes of the file, or nothing
/// where its encoder refuses the image.
pub uninterp spec fn png_encoding(
    width: u32,
    height: u32,
    pixels: Map<(u32, u32), (u8, u8, u8)>,
) -> Option<Seq<u8>>;

/// `bytes` is the value `encoding`: the same bytes, or nothing on both sides.
pub open spec fn is_encoding(bytes: Option<Vec<u8>>, encoding: Option<Seq<u8>>) -> bool {
    match bytes {
        Some(b) => encoding == Some(b@),
        None => encoding is None,
    }
}

/// The places inside an image of the given size, each with the same pixel.
pub open spec fn uniform(width: u32, height: u32, pixel: (u8, u8, u8)) -> Map<
    (u32, u32),
    (u8, u8, u8),
> {
    Map::new(|place: (u32, u32)| place.0 < width && place.1 < height, |place: (u32, u32)| pixel)
}

/// The pixels that a buffer of bytes describes: row-major, three bytes to a
/// pixel, the row with `y == 0` first.
pub open spec fn pixels_of(data: Seq<u8>, width: u32, height: u32) -> Map<
    (u32, u32),
    (u8, u8, u8),
> {
    Map::new(
        |place: (u32, u32)| place.0 < width && place.1 < height,
        |place: (u32, u32)|
            (
                data[(place.1 * width + place.0) * 3],
                data[(place.1 * width + place.0) * 3 + 1],
                data[(place.1 * width + place.0) * 3 + 2],
            ),
    )
}

/// A black image of the given size.
///
/// This is `ImageBuffer::new` of the image crate. It panics where the image
/// takes more bytes than a vector can hold, which `requires` leaves out. The
/// contract claims what its documentation says: the image has the size asked
/// for, and every pixel of it is zero.
#[verifier::external_body]
fn new_frame(width: u32, height: u32) -> (frame: RgbFrame)
    requires
        buffer_len(width as int, height as int) <= isize::MAX,
    ensures
        frame_size(frame) == (width, height),
        frame_pixels(frame) == uniform(width, height, (0u8, 0u8, 0u8)),
{
    RgbFrame { inner: image::RgbImage::new(width, height) }
}

/// Sets one pixel of the image.
///
/// This is `ImageBuffer::put_pixel` of the image crate. It panics on a place
/// outside the image, which `requires` leaves out. The contract claims that
/// the pixel at the place is overwritten and that the size and all other
/// pixels stay.
#[verifier::external_body]
fn put_pixel(frame: &mut RgbFrame, x: u32, y: u32, pixel: (u8, u8, u8))
    requires
        x < frame_size(*old(frame)).0,
        y < frame_size(*old(frame)).1,
    ensures
        frame_size(*final(frame)) == frame_size(*old(frame)),
        frame_pixels(*final(frame)) == frame_pixels(*old(frame)).insert((x, y), pixel),
{
    frame.inner.put_pixel(x, y, image::Rgb([pixel.0, pixel.1, pixel.2]));
}

/// The image as the bytes of a PNG file, or nothing where the encoder
/// refuses it.
///
/// This is `ImageBuffer::write_to` of the image crate with the PNG format, on
/// a buffer in memory. The contract names what comes back, the refusal
/// included: with nothing written outside memory, both the bytes and whether
/// the encoder refuses depend on the size and the pixels alone. It claims
/// nothing of when the encoder refuses.
#[verifier::external_body]
fn encode_png(frame: &RgbFrame) -> (bytes: Option<Vec<u8>>)
    ensures
        is_encoding(
            bytes,
            png_encoding(frame_size(*frame).0, frame_size(*frame).1, frame_pixels(*frame)),
        ),
{
    let mut out = std::io::Cursor::new(Vec::new());
    match frame.inner.write_to(&mut out, image::ImageFormat::Png) {
        Ok(()) => Some(out.into_inner()),
        Err(_) => None,
    }
}

/// The width and the height of the image.
///
/// This is `ImageBuffer::dimensions` of the image crate. The contract names
/// what it returns.
#[verifier::external_body]
fn dimensions(frame: &RgbFrame) -> (size: (u32, u32))
    ensures
        size == frame_size(*frame),
{
    frame.inner.dimensions()
}

/// One pixel of the image.
///
/// This is `ImageBuffer::get_pixel` of the image crate. It panics on a place
/// outside the image, which `requires` leaves out. The contract names what it
/// returns.
#[verifier::external_body]
fn get_pixel(frame: &RgbFrame, x: u32, y: u32) -> (pixel: (u8, u8, u8))
    requires
        x < frame_size(*frame).0,
        y < frame_size(*frame).1,
    ensures
        pixel == frame_pixels(*frame)[(x, y)],
{
    let rgb = frame.inner.get_pixel(x, y);
    (rgb[0], rgb[1], rgb[2])
}

impl RgbFrame {
    /// The width and the height of the image.
    pub fn size(&self) -> (size: (u32, u32))
        ensures
            size == frame_size(*self),
    {
        dimensions(self)
    }

    /// The pixel in column `x` of row `y`, or nothing for a place outside the
    /// image.
    pub fn pixel(&self, x: u32, y: u32) -> (r: Option<(u8, u8, u8)>)
        ensures
            r == if x < frame_size(*self).0 && y < frame_size(*self).1 {
                Some(frame_pixels(*self)[(x, y)])
            } else {
                None
            },
    {
        let (width, height) = dimensions(self);
        if x < width && y < height {
            Some(get_pixel(self, x, y))
        } else {
            None
        }
    }
}

/// The image that a buffer of bytes describes: row-major, three bytes to a
/// pixel, top row first.
pub fn frame_from_bytes(image_data: &Vec<u8>, width: u32, height: u32) -> (frame: RgbFrame)
    requires
        buffer_len(width as int, height as int) <= isize::MAX,
        image_data@.len() >= buffer_len(width as int, height as int),
    ensures
        frame_size(frame) == (width, height),
        frame_pixels(frame) == pixels_of(image_data@, width, height),
{
    let mut img = new_frame(width, height);
    let mut y: u32 = 0;
    while y < height
        invariant
            y <= height,
            buffer_len(width as int, height as int) <= usize::MAX,
            image_data@.len() >= buffer_len(width as int, height as int),
            frame_size(img) == (width, height),
            frame_pixels(img).dom() == uniform(width, height, (0u8, 0u8, 0u8)).dom(),
            forall|a: u32, b: u32|
                a < width && b < y ==> #[trigger] frame_pixels(img)[(a, b)] == pixels_of(
                    image_data@,
                    width,
                    height,
                )[(a, b)],
        decreases height - y,
    {
        let mut x: u32 = 0;
        while x < width
            invariant
                x <= width,
                y < height,
                buffer_len(width as int, height as int) <= usize::MAX,
                image_data@.len() >= buffer_len(width as int, height as int),
                frame_size(img) == (width, height),
                frame_pixels(img).dom() == uniform(width, height, (0u8, 0u8, 0u8)).dom(),
                forall|a: u32, b: u32|
                    a < width && (b < y || (b == y && a < x)) ==> #[trigger] frame_pixels(img)[(
                        a,
                        b,
                    )] == pixels_of(image_data@, width, height)[(a, b)],
            decreases width - x,
        {
            proof {
                assert(y * width + x < height * width) by (nonlinear_arith)
                    requires
                        x < width,
                        y < height,
                ;
                assert(height * width * 3 == buffer_len(width as int, height as int))
                    by (nonlinear_arith);
                assert(0 <= y * width) by (nonlinear_arith)
                    requires
                        0 <= y,
                        0 <= width,
                ;
            }
            let index = ((y as usize) * (width as usize) + (x as usize)) * 3;
            let pixel = (image_data[index], image_data[index + 1], image_data[index + 2]);
            let ghost before = frame_pixels(img);
            put_pixel(&mut img, x, y, pixel);
            assert(frame_pixels(img).dom() =~= before.dom());
            x += 1;
        }
        y += 1;
    }
    assert(frame_pixels(img) =~= pixels_of(image_data@, width, height));
    img
}

/// The PNG file, as bytes, of the image that a buffer of bytes describes:
/// what the encoder of the image crate makes of the pixels that
/// `image_data` holds for an image of this size, and nothing exactly where
/// that encoder refuses them.
pub fn png_bytes(image_data: &Vec<u8>, width: u32, height: u32) -> (bytes: Option<Vec<u8>>)
    requires
        buffer_len(width as int, height as int) <= isize::MAX,
        image_data@.len() >= buffer_len(width as int, height as int),
    ensures
        is_encoding(bytes, png_encoding(width, height, pixels_of(image_data@, width, height))),
{
    let frame = frame_from_bytes(image_data, width, height);
    encode_png(&frame)
}

} // verus!
