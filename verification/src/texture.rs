use vstd::prelude::*;
use crate::scalar::Scalar;
use image::GenericImageView;

verus! {

/// An image of the image crate, of whatever pixel format. It is carried as it
/// is: what it holds is known through `image_size` and `image_pixels` alone.
#[verifier::external_type_specification]
#[verifier::external_body]
pub struct ExDynamicImage(image::DynamicImage);

/// The handle of a texture: its number in the atlas that holds it.
#[derive(Clone, Copy, Debug, PartialEq, Eq, Structural)]
pub struct Texture {
    pub id: u32,
}

/// The width and the height of the image.
pub uninterp spec fn image_size(img: image::DynamicImage) -> (u32, u32);

/// The pixels of the image by column and row, each as the red, green, blue
/// and alpha byte that the image reports for it.
pub uninterp spec fn image_pixels(img: image::DynamicImage) -> Map<(u32, u32), (u8, u8, u8, u8)>;

/// The colour of a pixel without its alpha byte.
pub open spec fn rgb_of(pixel: (u8, u8, u8, u8)) -> (u8, u8, u8) {
    (pixel.0, pixel.1, pixel.2)
}

/// The width and the height of the image.
///
/// This is `GenericImageView::dimensions` of the image crate on a
/// `DynamicImage`. The contract names what it returns.
#[verifier::external_body]
fn dimensions(img: &image::DynamicImage) -> (size: (u32, u32))
    ensures
        size == image_size(*img),
{
    img.dimensions()
}

/// The four bytes of one pixel.
///
/// This is `GenericImageView::get_pixel` of the image crate on a
/// `DynamicImage`. It panics on a place outside the image, which `requires`
/// leaves out. The contract names what it returns.
#[verifier::external_body]
fn get_pixel(img: &image::DynamicImage, x: u32, y: u32) -> (pixel: (u8, u8, u8, u8))
    requires
        x < image_size(*img).0,
        y < image_size(*img).1,
    ensures
        pixel == image_pixels(*img)[(x, y)],
{
    let rgba = img.get_pixel(x, y);
    (rgba[0], rgba[1], rgba[2], rgba[3])
}

/// The textures of a scene. A texture is known by the number it got when it
/// was added: the first is 0, and each later one has the next number.
pub struct TextureAtlas {
    pub images: Vec<image::DynamicImage>,
}

/// The smaller of the two.
pub open spec fn least(a: u32, b: u32) -> u32 {
    if a < b {
        a
    } else {
        b
    }
}

impl TextureAtlas {
    /// The atlas knows the texture.
    pub open spec fn knows(&self, texture: Texture) -> bool {
        texture.id < self.images@.len()
    }

    /// The image behind a texture that the atlas knows.
    pub open spec fn image_of(&self, texture: Texture) -> image::DynamicImage {
        self.images@[texture.id as int]
    }

    /// What `texel` returns: the colour of the pixel at the place, with a
    /// column or row beyond the image taken as the last one.
    pub open spec fn texel_spec(&self, texture: Texture, x: u32, y: u32) -> (u8, u8, u8) {
        let img = self.image_of(texture);
        let (width, height) = image_size(img);
        rgb_of(image_pixels(img)[(least(x, (width - 1) as u32), least(y, (height - 1) as u32))])
    }

    /// An atlas without textures.
    pub fn new() -> (atlas: TextureAtlas)
        ensures
            atlas.images@.len() == 0,
    {
        TextureAtlas { images: Vec::new() }
    }

    /// How many textures the atlas holds.
    pub fn len(&self) -> (n: usize)
        ensures
            n == self.images@.len(),
    {
        self.images.len()
    }

    /// Adds an image and returns its handle, or hands the image back where
    /// the numbers have run out.
    pub fn add(&mut self, image: image::DynamicImage) -> (r: Result<Texture, image::DynamicImage>)
        ensures
            old(self).images@.len() < u32::MAX ==> r == Ok::<Texture, image::DynamicImage>(
                Texture { id: old(self).images@.len() as u32 },
            ) && final(self).images@ == old(self).images@.push(image),
            old(self).images@.len() >= u32::MAX ==> r == Err::<Texture, image::DynamicImage>(image)
                && final(self).images@ == old(self).images@,
    {
        let n = self.images.len();
        if n >= u32::MAX as usize {
            return Err(image);
        }
        self.images.push(image);
        Ok(Texture { id: n as u32 })
    }

    /// The width and the height of a texture, or nothing for a texture that
    /// the atlas does not know.
    pub fn size(&self, texture: Texture) -> (r: Option<(u32, u32)>)
        ensures
            r == if self.knows(texture) {
                Some(image_size(self.image_of(texture)))
            } else {
                None
            },
    {
        if (texture.id as usize) < self.images.len() {
            Some(dimensions(&self.images[texture.id as usize]))
        } else {
            None
        }
    }

    /// The colour of a texture at a place, without its alpha byte; a column or
    /// row beyond the image stands for the last one.
    pub fn texel(&self, texture: Texture, x: u32, y: u32) -> (pixel: (u8, u8, u8))
        requires
            self.knows(texture),
            image_size(self.image_of(texture)).0 > 0,
            image_size(self.image_of(texture)).1 > 0,
        ensures
            pixel == self.texel_spec(texture, x, y),
    {
        let img = &self.images[texture.id as usize];
        let (width, height) = dimensions(img);
        let column = if x < width - 1 {
            x
        } else {
            width - 1
        };
        let row = if y < height - 1 {
            y
        } else {
            height - 1
        };
        let (red, green, blue, _) = get_pixel(img, column, row);
        (red, green, blue)
    }

    /// The pixel of a texture at a place, as `texel` gives it, or nothing for
    /// a texture that the atlas does not know or that has no pixels.
    pub fn texel_checked(&self, texture: Texture, x: u32, y: u32) -> (r: Option<(u8, u8, u8)>)
        ensures
            r == if self.knows(texture) && image_size(self.image_of(texture)).0 > 0 && image_size(
                self.image_of(texture),
            ).1 > 0 {
                Some(self.texel_spec(texture, x, y))
            } else {
                None
            },
    {
        match self.size(texture) {
            Some((width, height)) => {
                if width > 0 && height > 0 {
                    Some(self.texel(texture, x, y))
                } else {
                    None
                }
            },
            None => None,
        }
    }

    /// The colour of a texture where `column` and `row` point: the texel in the
    /// column and the row that are the whole parts of the two numbers, as
    /// `texel_checked` gives it. The numbers are the texture coordinates
    /// brought to the scale of the image, the row counted from the top.
    pub fn sample(&self, texture: Texture, column: Scalar, row: Scalar) -> (r: Option<(u8, u8, u8)>)
        ensures
            r == if self.knows(texture) && image_size(self.image_of(texture)).0 > 0 && image_size(
                self.image_of(texture),
            ).1 > 0 {
                Some(self.texel_spec(texture, column.to_u32_spec(), row.to_u32_spec()))
            } else {
                None
            },
    {
        self.texel_checked(texture, column.to_u32(), row.to_u32())
    }
}

} // verus!
