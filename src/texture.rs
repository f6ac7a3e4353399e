use vstd::prelude::*;
use image::RgbaImage;

verus! {

/// An RGBA image held by the `image` crate.
#[verifier::external_body]
#[derive(Debug)]
pub struct Image {
    inner: RgbaImage,
}

impl Clone for Image {
    /// Relies on the `Clone` impl of `ImageBuffer`, which copies the size and
    /// the pixel data.
    #[verifier::external_body]
    fn clone(&self) -> (r: Image)
        ensures
            image_pixels(r) == image_pixels(*self),
            image_width(r) == image_width(*self),
            image_height(r) == image_height(*self),
    {
        Image { inner: self.inner.clone() }
    }
}

/// The pixels of an image, row by row from the top.
pub uninterp spec fn image_pixels(img: Image) -> Seq<[u8; 4]>;

/// The width of an image in pixels.
pub uninterp spec fn image_width(img: Image) -> nat;

/// The height of an image in pixels.
pub uninterp spec fn image_height(img: Image) -> nat;

/// Pixel `k` of a raw RGBA buffer holds bytes `4k` to `4k + 3`.
pub open spec fn raw_pixel_is(data: Seq<u8>, k: int, p: [u8; 4]) -> bool {
    p[0] == data[4 * k] && p[1] == data[4 * k + 1] && p[2] == data[4 * k + 2] && p[3] == data[4 * k + 3]
}

/// Relies on `ImageBuffer::from_raw`: an image over the buffer when it holds
/// at least `4 * width * height` bytes, none otherwise.
#[verifier::external_body]
fn image_from_raw(width: u32, height: u32, data: Vec<u8>) -> (r: Option<Image>)
    ensures
        r is Some <==> 4 * (width as int) * (height as int) <= data@.len(),
        r matches Some(i) ==> image_width(i) == width && image_height(i) == height
            && forall|k: int| 0 <= k < width * height ==> raw_pixel_is(data@, k, #[trigger] image_pixels(i)[k]),
{
    RgbaImage::from_raw(width, height, data).map(|inner| Image { inner })
}

/// Relies on `ImageBuffer::width`, which returns the stored width.
#[verifier::external_body]
fn width_of(img: &Image) -> (r: u32)
    ensures
        r == image_width(*img),
{
    img.inner.width()
}

/// Relies on `ImageBuffer::height`, which returns the stored height.
#[verifier::external_body]
fn height_of(img: &Image) -> (r: u32)
    ensures
        r == image_height(*img),
{
    img.inner.height()
}

/// Relies on `ImageBuffer::get_pixel`: the pixel in column `x` of row `y`,
/// which panics outside the image.
#[verifier::external_body]
fn pixel_of(img: &Image, x: u32, y: u32) -> (r: [u8; 4])
    requires
        x < image_width(*img),
        y < image_height(*img),
    ensures
        r == image_pixels(*img)[y * image_width(*img) + x],
{
    img.inner.get_pixel(x, y).0
}

/// A decoded RGBA image used as a surface texture.
#[derive(Debug)]
pub struct Texture {
    pub image: Image,
}

/// What a texture shows: its pixels, width and height.
pub type TextureModel = (Seq<[u8; 4]>, nat, nat);

impl Texture {
    pub open spec fn model(self) -> TextureModel {
        (image_pixels(self.image), image_width(self.image), image_height(self.image))
    }
}

impl Clone for Texture {
    fn clone(&self) -> (r: Texture)
        ensures
            r.model() == self.model(),
    {
        Texture { image: self.image.clone() }
    }
}

/// Resolution of texture coordinates: `u` and `v` are given in millionths.
pub const UV_ONE: i64 = 1000000;

/// `v` clamped to `[0, UV_ONE]`.
pub open spec fn clamp_uv(v: int) -> int {
    if v < 0 {
        0
    } else if v > UV_ONE {
        UV_ONE as int
    } else {
        v
    }
}

/// Nearest sample index for a clamped coordinate `c` on an axis of `n` samples:
/// `c * (n - 1) / UV_ONE`, rounded half up.
pub open spec fn sample_index(c: int, n: int) -> int {
    (c * (n - 1) + UV_ONE / 2) / (UV_ONE as int)
}

impl Texture {
    /// A texture over a raw RGBA buffer, row by row from the top, four bytes
    /// per pixel; none when the buffer is shorter than the image.
    pub fn from_raw(width: u32, height: u32, data: Vec<u8>) -> (t: Option<Texture>)
        ensures
            t is Some <==> 4 * (width as int) * (height as int) <= data@.len(),
            t matches Some(x) ==> image_width(x.image) == width && image_height(x.image) == height
                && forall|k: int| 0 <= k < width * height ==> raw_pixel_is(data@, k, #[trigger] image_pixels(x.image)[k]),
    {
        match image_from_raw(width, height, data) {
            Some(image) => Some(Texture { image }),
            None => None,
        }
    }

    pub open spec fn wf(self) -> bool {
        0 < image_width(self.image) && 0 < image_height(self.image)
    }

    /// The column and row sampled for texture coordinates `(u, v)`; `v` grows upwards.
    pub open spec fn texel(self, u: int, v: int) -> (int, int) {
        (
            sample_index(clamp_uv(u), image_width(self.image) as int),
            sample_index(UV_ONE - clamp_uv(v), image_height(self.image) as int),
        )
    }

    /// The sample at `(u, v)`.
    pub open spec fn sample(self, u: int, v: int) -> [u8; 4] {
        let (x, y) = self.texel(u, v);
        image_pixels(self.image)[y * image_width(self.image) + x]
    }

    /// The sample nearest to `(u, v)`, both in millionths and clamped to `[0, 1]`.
    pub fn get_color_at(&self, uv: (i64, i64)) -> (r: [u8; 4])
        requires
            self.wf(),
        ensures
            r == self.sample(uv.0 as int, uv.1 as int),
    {
        let (u, v) = uv;
        let cu: i64 = if u < 0 { 0 } else if u > UV_ONE { UV_ONE } else { u };
        let cv: i64 = if v < 0 { 0 } else if v > UV_ONE { UV_ONE } else { v };
        let w = width_of(&self.image) as i64;
        let h = height_of(&self.image) as i64;
        proof {
            assert(0 <= cu * (w - 1) <= UV_ONE * (w - 1)) by (nonlinear_arith)
                requires 0 <= cu <= UV_ONE, 1 <= w;
            assert(0 <= (UV_ONE - cv) * (h - 1) <= UV_ONE * (h - 1)) by (nonlinear_arith)
                requires 0 <= cv <= UV_ONE, 1 <= h;
        }
        let nx = cu * (w - 1) + UV_ONE / 2;
        let ny = (UV_ONE - cv) * (h - 1) + UV_ONE / 2;
        let x = nx / UV_ONE;
        let y = ny / UV_ONE;
        proof {
            let d = UV_ONE as int;
            assert(0 <= x < w) by (nonlinear_arith)
                requires x as int == nx as int / d, d == 1000000, 0 <= nx as int, (nx as int) < d * (w as int - 1) + d;
            assert(0 <= y < h) by (nonlinear_arith)
                requires y as int == ny as int / d, d == 1000000, 0 <= ny as int, (ny as int) < d * (h as int - 1) + d;
            assert(cu == clamp_uv(u as int));
            assert(cv == clamp_uv(v as int));
        }
        pixel_of(&self.image, x as u32, y as u32)
    }
}

} // verus!
