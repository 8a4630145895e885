//! Rendered pixels laid out as an RGB image.
use vstd::prelude::*;

verus! {

/// An RGB image with one byte per channel, kept in the image crate's buffer.
// The buffer type cannot be declared to Verus as it stands: its pixel
// parameter is bound by the crate's `Pixel` trait. So the buffer sits in a
// hidden field, and what the contracts need of it is named below.
#[verifier::external_body]
pub struct Frame {
    image: image::RgbImage,
}

/// The bytes of a frame: three per pixel (red, green, blue), pixels in
/// row-major order starting from the top row.
pub uninterp spec fn frame_samples(f: Frame) -> Seq<u8>;

/// The width and height of a frame, in pixels.
pub uninterp spec fn frame_dimensions(f: Frame) -> (u32, u32);

/// Where the bytes of pixel `(x, y)` start in an image `width` pixels wide.
pub open spec fn pixel_offset(width: int, x: int, y: int) -> int {
    3 * (y * width + x)
}

/// `s` holds the color `rgb` at the pixel `(x, y)` of an image `width` pixels wide.
pub open spec fn holds_pixel(s: Seq<u8>, width: int, x: int, y: int, rgb: [u8; 3]) -> bool {
    let o = pixel_offset(width, x, y);
    &&& s[o] == rgb[0]
    &&& s[o + 1] == rgb[1]
    &&& s[o + 2] == rgb[2]
}

/// `s` with the three bytes at `o` replaced by `rgb`.
pub open spec fn with_pixel(s: Seq<u8>, o: int, rgb: [u8; 3]) -> Seq<u8> {
    s.update(o, rgb[0]).update(o + 1, rgb[1]).update(o + 2, rgb[2])
}

/// `s` shows the scene pixel `(x, y)` of a `width` by `height` grid whose
/// colors are listed row by row in `colors`. The grid's rows count up from
/// the bottom, as the scene's +y axis points up, while an image's rows count
/// down from the top: the pixel lands in image row `height - 1 - y`.
pub open spec fn shows_scene_pixel(
    s: Seq<u8>,
    width: int,
    height: int,
    colors: Seq<[u8; 3]>,
    x: int,
    y: int,
) -> bool {
    holds_pixel(s, width, x, height - 1 - y, colors[y * width + x])
}

proof fn lemma_index_in_grid(width: int, height: int, x: int, y: int)
    requires
        0 <= x < width,
        0 <= y < height,
    ensures
        0 <= y * width,
        0 <= y * width + x,
        y * width + x + 1 <= width * height,
        width * height <= 3 * width * height,
        pixel_offset(width, x, y) + 3 <= 3 * width * height,
{
    assert(0 <= y * width && y * width + x + 1 <= width * height && width * height <= 3 * width
        * height && 3 * (y * width + x) + 3 <= 3 * width * height) by (nonlinear_arith)
        requires
            0 <= x < width,
            0 <= y < height,
    ;
}

proof fn lemma_pixels_apart(width: int, height: int, x1: int, y1: int, x2: int, y2: int)
    requires
        0 <= x1 < width,
        0 <= x2 < width,
        0 <= y1 < height,
        0 <= y2 < height,
        x1 != x2 || y1 != y2,
    ensures
        pixel_offset(width, x1, y1) + 3 <= pixel_offset(width, x2, y2) || pixel_offset(
            width,
            x2,
            y2,
        ) + 3 <= pixel_offset(width, x1, y1),
{
    if y1 < y2 {
        assert(y1 * width + x1 < y2 * width + x2) by (nonlinear_arith)
            requires
                y1 < y2,
                0 <= x1 < width,
                0 <= x2,
        ;
    } else if y2 < y1 {
        assert(y2 * width + x2 < y1 * width + x1) by (nonlinear_arith)
            requires
                y2 < y1,
                0 <= x2 < width,
                0 <= x1,
        ;
    }
}

/// Lays out a `width` by `height` grid of pixel colors as the bytes of an RGB
/// image. `colors[y * width + x]` is the color of the pixel in column `x` and
/// row `y`, rows counted from the bottom; the bytes list three per pixel,
/// rows from the top, so that pixel lands in image row `height - 1 - y`.
pub fn compose_image(width: u32, height: u32, colors: &Vec<[u8; 3]>) -> (bytes: Vec<u8>)
    requires
        colors@.len() == width * height,
        3 * width * height <= isize::MAX,
    ensures
        bytes@.len() == 3 * width * height,
        forall|x: int, y: int|
            0 <= x < width && 0 <= y < height ==> #[trigger] shows_scene_pixel(
                bytes@,
                width as int,
                height as int,
                colors@,
                x,
                y,
            ),
{
    let mut frame = Frame::blank(width, height);
    let mut y: u32 = 0;
    while y < height
        invariant
            y <= height,
            colors@.len() == width * height,
            3 * width * height <= isize::MAX,
            frame_dimensions(frame) == (width, height),
            frame_samples(frame).len() == 3 * width * height,
            forall|px: int, py: int|
                0 <= px < width && 0 <= py < y ==> #[trigger] shows_scene_pixel(
                    frame_samples(frame),
                    width as int,
                    height as int,
                    colors@,
                    px,
                    py,
                ),
        decreases height - y,
    {
        let mut x: u32 = 0;
        while x < width
            invariant
                x <= width,
                y < height,
                colors@.len() == width * height,
                3 * width * height <= isize::MAX,
                frame_dimensions(frame) == (width, height),
                frame_samples(frame).len() == 3 * width * height,
                forall|px: int, py: int|
                    0 <= px < width && 0 <= py < height && (py < y || (py == y && px < x))
                        ==> #[trigger] shows_scene_pixel(
                        frame_samples(frame),
                        width as int,
                        height as int,
                        colors@,
                        px,
                        py,
                    ),
            decreases width - x,
        {
            let row = height - 1 - y;
            proof {
                lemma_index_in_grid(width as int, height as int, x as int, y as int);
                lemma_index_in_grid(width as int, height as int, x as int, row as int);
            }
            let i = y as usize * width as usize + x as usize;
            let ghost before = frame_samples(frame);
            frame.put_rgb(x, row, colors[i]);
            proof {
                let o = pixel_offset(width as int, x as int, row as int);
                assert forall|px: int, py: int|
                    0 <= px < width && 0 <= py < height && (py < y || (py == y && px < x + 1))
                        implies #[trigger] shows_scene_pixel(
                        frame_samples(frame),
                        width as int,
                        height as int,
                        colors@,
                        px,
                        py,
                    ) by {
                    if px != x || py != y {
                        let r = height - 1 - py;
                        lemma_pixels_apart(width as int, height as int, px, r, x as int, row as int);
                        lemma_index_in_grid(width as int, height as int, px, r);
                        assert(shows_scene_pixel(
                            before,
                            width as int,
                            height as int,
                            colors@,
                            px,
                            py,
                        ));
                    }
                }
            }
            x = x + 1;
        }
        y = y + 1;
    }
    frame.into_raw()
}

impl Frame {
    /// Relies on image::ImageBuffer::new: an image of the given size whose
    /// bytes are all zero. It panics when the byte count does not fit a vector.
    #[verifier::external_body]
    fn blank(width: u32, height: u32) -> (f: Frame)
        requires
            3 * width * height <= isize::MAX,
        ensures
            frame_dimensions(f) == (width, height),
            frame_samples(f) == Seq::new((3 * width * height) as nat, |i: int| 0u8),
    {
        Frame { image: image::RgbImage::new(width, height) }
    }

    /// Relies on image::ImageBuffer::put_pixel: it overwrites the three bytes
    /// of pixel `(x, y)` and nothing else. It panics outside the image.
    #[verifier::external_body]
    fn put_rgb(&mut self, x: u32, y: u32, rgb: [u8; 3])
        requires
            x < frame_dimensions(*old(self)).0,
            y < frame_dimensions(*old(self)).1,
        ensures
            frame_dimensions(*final(self)) == frame_dimensions(*old(self)),
            frame_samples(*final(self)) == with_pixel(
                frame_samples(*old(self)),
                pixel_offset(frame_dimensions(*old(self)).0 as int, x as int, y as int),
                rgb,
            ),
    {
        self.image.put_pixel(x, y, image::Rgb(rgb))
    }

    /// Relies on image::ImageBuffer::into_raw: the buffer's bytes, unchanged.
    #[verifier::external_body]
    fn into_raw(self) -> (bytes: Vec<u8>)
        ensures
            bytes@ == frame_samples(self),
    {
        self.image.into_raw()
    }
}

} // verus!
