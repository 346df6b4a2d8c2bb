use vstd::prelude::*;

verus! {

/// The mathematical value of a bitmap: its packed RGBA bytes (four bytes per
/// pixel, row-major) together with its dimensions.
#[verifier::ext_equal]
pub ghost struct BitmapView {
    pub bytes: Seq<u8>,
    pub width: int,
    pub height: int,
}

impl BitmapView {
    /// The byte buffer matches the dimensions: four bytes per pixel, and the
    /// whole buffer is addressable.
    pub open spec fn wf(self) -> bool {
        &&& self.bytes.len() == 4 * self.width * self.height
        &&& 0 <= 4 * self.width * self.height <= usize::MAX
    }

    pub open spec fn area(self) -> int {
        self.width * self.height
    }
}

/// The bytes of a freshly allocated canvas: every sample zero, that is,
/// transparent black.
pub open spec fn blank_px(w: int, h: int) -> Seq<u8> {
    Seq::new((4 * w * h) as nat, |i: int| 0u8)
}

/// What `image`'s resampler returns for a raster with the given bytes and
/// dimensions, resized to `new_w` x `new_h` with the Gaussian filter
/// (`gaussian`) or with Lanczos3 (`!gaussian`).
pub uninterp spec fn resize_px(
    src: Seq<u8>,
    src_w: int,
    src_h: int,
    new_w: int,
    new_h: int,
    gaussian: bool,
) -> Seq<u8>;

/// What `image`'s alpha-aware overlay leaves in the bottom raster after the
/// top raster is laid onto it at offset `(x, y)`.
pub uninterp spec fn overlay_px(
    bottom: Seq<u8>,
    bottom_w: int,
    bottom_h: int,
    top: Seq<u8>,
    top_w: int,
    top_h: int,
    x: int,
    y: int,
) -> Seq<u8>;

/// What `blurslice`'s three-channel Gaussian blur at the fixed backdrop radius
/// leaves in a packed RGB buffer of the given dimensions.
pub uninterp spec fn gaussian_blur_px(rgb: Seq<u8>, w: int, h: int) -> Seq<u8>;

/// The PNG encoding that `image` produces for an RGBA raster with the given
/// bytes and dimensions.
pub uninterp spec fn png_px(rgba: Seq<u8>, w: int, h: int) -> Seq<u8>;

#[verifier::external_type_specification]
#[verifier::external_body]
pub struct ExDynamicImage(image::DynamicImage);

#[verifier::external_type_specification]
#[verifier::external_body]
pub struct ExImageError(image::ImageError);

#[verifier::external_type_specification]
#[verifier::external_body]
pub struct ExSliceSizeError(blurslice::SliceSizeError);

/// A decoded in-memory raster. The raster is always held as RGBA8 samples in
/// the default color space, so its value is exactly the `BitmapView` that the
/// ghost field mirrors: the packed bytes plus the dimensions.
pub struct Bitmap {
    pub raster: image::DynamicImage,
    pub width: u32,
    pub height: u32,
    pub pixels: Ghost<Seq<u8>>,
}

impl View for Bitmap {
    type V = BitmapView;

    open spec fn view(&self) -> BitmapView {
        BitmapView { bytes: self.pixels@, width: self.width as int, height: self.height as int }
    }
}

impl Bitmap {
    /// Relies on image::ImageBuffer::from_pixel: the new buffer repeats the
    /// given pixel over all of `width` x `height`.
    #[verifier::external_body]
    pub fn solid(width: u32, height: u32, red: u8, green: u8, blue: u8, alpha: u8) -> (r: Bitmap)
        requires
            4 * width * height <= usize::MAX,
        ensures
            r.width == width,
            r.height == height,
            r@.bytes == Seq::new(
                (4 * width * height) as nat,
                (|i: int| if i % 4 == 0 {
                    red
                } else if i % 4 == 1 {
                    green
                } else if i % 4 == 2 {
                    blue
                } else {
                    alpha
                }),
            ),
    {
        let pixel = image::Rgba([red, green, blue, alpha]);
        let buffer = image::ImageBuffer::from_pixel(width, height, pixel);
        Bitmap {
            raster: image::DynamicImage::ImageRgba8(buffer),
            width,
            height,
            pixels: Ghost(Seq::empty()),
        }
    }

    /// Relies on image::ImageBuffer::from_raw: a buffer of exactly
    /// `width * height * 4` bytes is accepted as the RGBA raster holding
    /// those very bytes.
    #[verifier::external_body]
    pub fn from_rgba(width: u32, height: u32, bytes: Vec<u8>) -> (r: Bitmap)
        requires
            bytes@.len() == 4 * width * height,
        ensures
            r.width == width,
            r.height == height,
            r@.bytes == bytes@,
    {
        let buffer = image::ImageBuffer::from_raw(width, height, bytes).unwrap();
        Bitmap {
            raster: image::DynamicImage::ImageRgba8(buffer),
            width,
            height,
            pixels: Ghost(Seq::empty()),
        }
    }

    /// Relies on image::DynamicImage::to_rgba8 and ImageBuffer::into_raw: the
    /// packed RGBA bytes of the raster, unchanged, since the raster is already
    /// RGBA8.
    #[verifier::external_body]
    pub fn rgba_bytes(&self) -> (r: Vec<u8>)
        ensures
            r@ == self@.bytes,
    {
        self.raster.to_rgba8().into_raw()
    }

    /// Relies on image::DynamicImage::clone.
    #[verifier::external_body]
    pub fn duplicate(&self) -> (r: Bitmap)
        ensures
            r@ == self@,
            r.width == self.width,
            r.height == self.height,
    {
        Bitmap {
            raster: self.raster.clone(),
            width: self.width,
            height: self.height,
            pixels: Ghost(Seq::empty()),
        }
    }
}

/// Relies on image::DynamicImage::new_rgba8 and ImageBuffer::new: a fresh
/// buffer with every sample zero, that is, fully transparent black.
#[verifier::external_body]
pub(crate) fn new_canvas(width: u32, height: u32) -> (r: Bitmap)
    requires
        4 * width * height <= usize::MAX,
    ensures
        r.width == width,
        r.height == height,
        r@.bytes == blank_px(width as int, height as int),
{
    Bitmap {
        raster: image::DynamicImage::new_rgba8(width, height),
        width,
        height,
        pixels: Ghost(Seq::empty()),
    }
}

/// Relies on image::DynamicImage::resize_exact (imageops::resize): the result
/// has exactly the requested dimensions, and its pixels are a function of the
/// source raster, both sizes, and the chosen filter alone (Gaussian when
/// `gaussian`, Lanczos3 otherwise).
#[verifier::external_body]
pub(crate) fn resize_bitmap(src: &Bitmap, new_width: u32, new_height: u32, gaussian: bool) -> (r:
    Bitmap)
    requires
        4 * new_width * new_height <= usize::MAX,
    ensures
        r.width == new_width,
        r.height == new_height,
        r@.bytes.len() == 4 * new_width * new_height,
        r@.bytes == resize_px(
            src@.bytes,
            src@.width,
            src@.height,
            new_width as int,
            new_height as int,
            gaussian,
        ),
{
    let filter = if gaussian {
        image::imageops::FilterType::Gaussian
    } else {
        image::imageops::FilterType::Lanczos3
    };
    let raster = src.raster.resize_exact(new_width, new_height, filter);
    Bitmap { raster, width: new_width, height: new_height, pixels: Ghost(Seq::empty()) }
}

/// The byte at offset `i` of a packed RGBA raster `w` pixels wide belongs to
/// a pixel inside the rectangle `[x, x + tw) x [y, y + th)`.
pub open spec fn byte_in_rect(i: int, w: int, x: int, y: int, tw: int, th: int) -> bool {
    let px = (i / 4) % w;
    let py = (i / 4) / w;
    &&& x <= px < x + tw
    &&& y <= py < y + th
}

/// Relies on image::imageops::overlay: alpha-blends the top raster onto the
/// bottom one at the given offset, clipping at the bottom raster's edges; the
/// bottom raster keeps its dimensions, and every pixel of it outside the
/// placed rectangle keeps its value.
#[verifier::external_body]
pub(crate) fn overlay_onto(bottom: &mut Bitmap, top: &Bitmap, x: u32, y: u32)
    ensures
        final(bottom).width == old(bottom).width,
        final(bottom).height == old(bottom).height,
        final(bottom)@.bytes.len() == old(bottom)@.bytes.len(),
        final(bottom)@.bytes == overlay_px(
            old(bottom)@.bytes,
            old(bottom)@.width,
            old(bottom)@.height,
            top@.bytes,
            top@.width,
            top@.height,
            x as int,
            y as int,
        ),
        forall|i: int|
            0 <= i < old(bottom)@.bytes.len() && !byte_in_rect(
                i,
                old(bottom)@.width,
                x as int,
                y as int,
                top@.width,
                top@.height,
            ) ==> #[trigger] final(bottom)@.bytes[i] == old(bottom)@.bytes[i],
{
    image::imageops::overlay(&mut bottom.raster, &top.raster, x as i64, y as i64);
}

/// Relies on blurslice::gaussian_blur_bytes with three channels at the fixed
/// backdrop radius of 50: a buffer of exactly `width * height * 3` bytes is
/// accepted and blurred in place, and the result is a function of the bytes
/// and the dimensions alone. Its box passes walk both axes, so zero
/// dimensions are left out; so is a raster narrower than the blur window yet
/// taller than it, on which the horizontal pass subtracts the height from
/// the window radius and dies.
#[verifier::external_body]
pub(crate) fn gaussian_blur_rgb(data: &mut Vec<u8>, width: u32, height: u32) -> (r: Result<
    (),
    blurslice::SliceSizeError,
>)
    requires
        old(data)@.len() == 3 * width * height,
        width >= 1,
        height >= 1,
        width >= 50 || height <= 50,
    ensures
        r is Ok,
        final(data)@.len() == old(data)@.len(),
        final(data)@ == gaussian_blur_px(old(data)@, width as int, height as int),
{
    blurslice::gaussian_blur_bytes::<3>(
        data.as_mut_slice(),
        width as usize,
        height as usize,
        (50u8).into(),
    )
}

/// Relies on image::DynamicImage::write_to with the PNG format: on success the
/// buffer holds the PNG encoding of the raster, a function of its pixels and
/// dimensions alone. The encoder refuses only degenerate geometry — a zero
/// dimension, or one beyond the PNG dimension cap — and writing to the
/// in-memory buffer cannot fail, so within that range encoding succeeds.
#[verifier::external_body]
pub(crate) fn encode_png(image: &Bitmap) -> (r: Result<Vec<u8>, image::ImageError>)
    ensures
        r is Ok ==> (r->Ok_0)@ == png_px(image@.bytes, image@.width, image@.height),
        (1 <= image@.width <= 0x7fff_ffff && 1 <= image@.height <= 0x7fff_ffff) ==> r is Ok,
{
    let mut buffer = std::io::Cursor::new(Vec::new());
    match image.raster.write_to(&mut buffer, image::ImageFormat::Png) {
        Ok(()) => Ok(buffer.into_inner()),
        Err(e) => Err(e),
    }
}

} // verus!
