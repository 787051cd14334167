//! The pixel buffer: which byte layouts are supported, where each pixel lives
//! in a row-major buffer, and how an encoded color is written into its bytes.

use rayon::iter::{IntoParallelIterator, ParallelIterator};
use vstd::arithmetic::div_mod::lemma_fundamental_div_mod_converse;
use vstd::prelude::*;

verus! {

/// A color ready for storage: gamma-encoded and quantized to 8 bits a channel.
#[derive(Clone, Copy, Debug, PartialEq, Eq, Structural)]
pub struct Rgb8 {
    pub red: u8,
    pub green: u8,
    pub blue: u8,
}

/// The byte layouts a buffer can have.
#[derive(Clone, Copy, Debug, PartialEq, Eq, Structural)]
pub enum PixelFormat {
    /// Three bytes a pixel: red, green, blue.
    Rgb,
    /// Four bytes a pixel: red, green, blue, and an opaque alpha.
    Rgba,
}

/// The alpha byte of every pixel written in the four-byte layout.
pub const OPAQUE: u8 = 255;

impl PixelFormat {
    /// The number of bytes one pixel takes.
    pub open spec fn stride(self) -> int {
        match self {
            PixelFormat::Rgb => 3,
            PixelFormat::Rgba => 4,
        }
    }

    /// The bytes of one pixel of the given color.
    pub open spec fn encoded(self, color: Rgb8) -> Seq<u8> {
        match self {
            PixelFormat::Rgb => seq![color.red, color.green, color.blue],
            PixelFormat::Rgba => seq![color.red, color.green, color.blue, OPAQUE],
        }
    }

    /// The layout with the given number of bytes a pixel, if there is one.
    pub fn from_bytes_per_pixel(bytes_per_pixel: u8) -> (format: Option<PixelFormat>)
        ensures
            bytes_per_pixel == 3 <==> format == Some(PixelFormat::Rgb),
            bytes_per_pixel == 4 <==> format == Some(PixelFormat::Rgba),
            bytes_per_pixel != 3 && bytes_per_pixel != 4 <==> format is None,
    {
        if bytes_per_pixel == 3 {
            Some(PixelFormat::Rgb)
        } else if bytes_per_pixel == 4 {
            Some(PixelFormat::Rgba)
        } else {
            None
        }
    }

    /// The length of a buffer that holds an image of the given extent, where
    /// the machine can address one.
    pub open spec fn image_len(self, width: u32, height: u32) -> int {
        width * height * self.stride()
    }

    /// The length of the buffer to render an image of the given extent into:
    /// one pixel for every column of every row. There is none if that many
    /// bytes cannot be addressed.
    pub fn buffer_len(self, width: u32, height: u32) -> (len: Option<usize>)
        ensures
            len is Some <==> self.image_len(width, height) <= usize::MAX,
            len is Some ==> len->0 == self.image_len(width, height),
    {
        assert(width * height <= 0xffff_ffff * 0xffff_ffff) by (nonlinear_arith)
            requires
                width <= 0xffff_ffff,
                height <= 0xffff_ffff,
        ;
        let pixels: u64 = width as u64 * height as u64;
        let stride: u64 = self.bytes_per_pixel() as u64;
        if pixels > (usize::MAX as u64) / stride {
            assert(pixels * stride > usize::MAX) by (nonlinear_arith)
                requires
                    pixels > (usize::MAX as int) / (stride as int),
                    stride > 0,
            ;
            None
        } else {
            assert(pixels * stride <= usize::MAX) by (nonlinear_arith)
                requires
                    pixels <= (usize::MAX as int) / (stride as int),
                    stride > 0,
            ;
            Some((pixels * stride) as usize)
        }
    }

    /// The number of bytes one pixel takes.
    pub fn bytes_per_pixel(self) -> (count: usize)
        ensures
            count == self.stride(),
    {
        match self {
            PixelFormat::Rgb => 3,
            PixelFormat::Rgba => 4,
        }
    }
}

/// The column of the pixel with the given index in a row-major image.
pub open spec fn pixel_column(index: int, width: int) -> int {
    index % width
}

/// The row of the pixel with the given index in a row-major image.
pub open spec fn pixel_row(index: int, width: int) -> int {
    index / width
}

/// The column and row of the pixel with the given index in a row-major image
/// of the given width.
pub fn pixel_coords(index: usize, width: u32) -> (coords: (u64, u64))
    requires
        width > 0,
    ensures
        coords.0 == pixel_column(index as int, width as int),
        coords.1 == pixel_row(index as int, width as int),
{
    let span: u64 = width as u64;
    let position: u64 = index as u64;
    (position % span, position / span)
}

/// Row-major order: counting `width` pixels for every row above and one for
/// every column to the left gives a pixel's index back, and the pixel at a
/// column and row inside the image is found at exactly that index.
pub proof fn lemma_row_major(index: int, column: int, row: int, width: int)
    requires
        width > 0,
        index >= 0,
    ensures
        0 <= pixel_column(index, width) < width,
        pixel_row(index, width) * width + pixel_column(index, width) == index,
        0 <= column < width && 0 <= row ==> pixel_column(row * width + column, width) == column
            && pixel_row(row * width + column, width) == row,
{
    vstd::arithmetic::div_mod::lemma_fundamental_div_mod(index, width);
    assert(width * (index / width) == (index / width) * width) by (nonlinear_arith);
    if 0 <= column < width && 0 <= row {
        lemma_fundamental_div_mod_converse(row * width + column, width, row, column);
    }
}

/// Writes a color into the first three bytes of a pixel: red, green, blue.
pub fn write_rgb_pixel(color: Rgb8, pixel: &mut [u8])
    requires
        old(pixel)@.len() >= 3,
    ensures
        final(pixel)@ == old(pixel)@.update(0, color.red).update(1, color.green).update(
            2,
            color.blue,
        ),
{
    pixel[0] = color.red;
    pixel[1] = color.green;
    pixel[2] = color.blue;
}

/// Writes a color into the first four bytes of a pixel: red, green, blue and
/// an opaque alpha.
pub fn write_rgba_pixel(color: Rgb8, pixel: &mut [u8])
    requires
        old(pixel)@.len() >= 4,
    ensures
        final(pixel)@ == old(pixel)@.update(0, color.red).update(1, color.green).update(
            2,
            color.blue,
        ).update(3, OPAQUE),
{
    pixel[0] = color.red;
    pixel[1] = color.green;
    pixel[2] = color.blue;
    pixel[3] = OPAQUE;
}

/// Shades the pixel with the given index: finds its column and row and asks
/// the shader for the color there.
pub fn shade_pixel<F>(index: usize, width: u32, shade: &F) -> (color: Rgb8) where
    F: Fn(u64, u64) -> Rgb8,

    requires
        width > 0,
        shadeable(shade, index as int, width as int),
    ensures
        shaded(shade, index as int, width as int, color),
{
    let (x, y) = pixel_coords(index, width);
    shade(x, y)
}

/// Whether the shader can be asked for the pixel with the given index in an
/// image of the given width.
pub open spec fn shadeable<F: Fn(u64, u64) -> Rgb8>(shade: &F, index: int, width: int) -> bool {
    shade.requires((pixel_column(index, width) as u64, pixel_row(index, width) as u64))
}

/// Whether `color` is an answer of the shader for the pixel with the given
/// index in an image of the given width.
pub open spec fn shaded<F: Fn(u64, u64) -> Rgb8>(
    shade: &F,
    index: int,
    width: int,
    color: Rgb8,
) -> bool {
    shade.ensures((pixel_column(index, width) as u64, pixel_row(index, width) as u64), color)
}

/// Rayon's parallel iterator over the range of pixel indices
/// (`IntoParallelIterator::into_par_iter`), mapped through the shader
/// (`ParallelIterator::map`) and gathered into a vector
/// (`ParallelIterator::collect`). Rayon hands each index to one worker thread,
/// which shades it once, and a vector collected from a range holds the results
/// in the order of the indices, however the work was split.
#[verifier::external_body]
fn shade_in_parallel<F>(count: usize, width: u32, shade: &F) -> (colors: Vec<Rgb8>) where
    F: Fn(u64, u64) -> Rgb8 + Sync,

    requires
        width > 0 || count == 0,
        forall|index: int| 0 <= index < count ==> #[trigger] shadeable(shade, index, width as int),
    ensures
        colors@.len() == count,
        forall|index: int|
            0 <= index < count ==> shaded(shade, index, width as int, #[trigger] colors@[index]),
{
    (0..count).into_par_iter().map(|index| shade_pixel(index, width, shade)).collect()
}

/// A buffer after the given colors have been written into its leading
/// pixels: pixel `i` holds the bytes of `colors[i]`, and every byte behind the
/// last color is as it was.
pub open spec fn packed(before: Seq<u8>, colors: Seq<Rgb8>, format: PixelFormat) -> Seq<u8> {
    Seq::new(
        before.len(),
        |at: int|
            if at / format.stride() < colors.len() {
                format.encoded(colors[at / format.stride()])[at % format.stride()]
            } else {
                before[at]
            },
    )
}

/// Writes a color into a pixel in the given layout.
pub fn write_pixel(color: Rgb8, pixel: &mut [u8], format: PixelFormat)
    requires
        old(pixel)@.len() == format.stride(),
    ensures
        final(pixel)@ == format.encoded(color),
{
    match format {
        PixelFormat::Rgb => write_rgb_pixel(color, pixel),
        PixelFormat::Rgba => write_rgba_pixel(color, pixel),
    }
    assert(pixel@ =~= format.encoded(color));
}

/// Writes the colors into the leading pixels of the buffer, one pixel after
/// the other, and leaves the bytes behind them alone.
pub fn write_pixels(colors: &Vec<Rgb8>, buffer: &mut [u8], format: PixelFormat)
    requires
        colors@.len() <= old(buffer)@.len() / (format.stride() as nat),
    ensures
        final(buffer)@ == packed(old(buffer)@, colors@, format),
{
    let ghost before = buffer@;
    let stride: usize = format.bytes_per_pixel();
    let count: usize = colors.len();
    let total: usize = buffer.len();
    assert(count * stride <= before.len()) by (nonlinear_arith)
        requires
            count <= before.len() / (stride as nat),
            stride > 0,
    ;
    assert(buffer@ =~= packed(before, colors@.take(0), format));
    let mut index: usize = 0;
    while index < count
        invariant
            index <= count,
            count == colors@.len(),
            stride == format.stride(),
            count * stride <= before.len(),
            before.len() == total,
            buffer@ == packed(before, colors@.take(index as int), format),
        decreases count - index,
    {
        assert(index * stride + stride <= count * stride) by (nonlinear_arith)
            requires
                index < count,
                stride > 0,
        ;
        let base: usize = index * stride;
        let ghost current = buffer@;
        let (_, rest) = buffer.split_at_mut(base);
        let (pixel, _) = rest.split_at_mut(stride);
        write_pixel(colors[index], pixel, format);
        proof {
            let next = packed(before, colors@.take(index + 1), format);
            assert forall|at: int| 0 <= at < before.len() implies buffer@[at] == next[at] by {
                if base <= at < base + stride {
                    lemma_fundamental_div_mod_converse(at, stride as int, index as int, at - base);
                } else if at < base {
                    lemma_slot_before(at, stride as int, index as int);
                    assert(buffer@[at] == current[at]);
                } else {
                    lemma_slot_behind(at, stride as int, index as int);
                    assert(buffer@[at] == current[at]);
                }
            }
            assert(buffer@ =~= next);
        }
        index += 1;
    }
    assert(colors@.take(count as int) =~= colors@);
}

/// Whether `after` is `before` with every whole pixel overwritten by the
/// color that the shader gave for its column and row. The pixels are laid out
/// row-major; bytes behind the last whole pixel are not touched.
pub open spec fn rendered<F: Fn(u64, u64) -> Rgb8>(
    shade: &F,
    width: int,
    format: PixelFormat,
    before: Seq<u8>,
    after: Seq<u8>,
) -> bool {
    exists|colors: Seq<Rgb8>|
        {
            &&& colors.len() == before.len() / (format.stride() as nat)
            &&& forall|index: int|
                0 <= index < colors.len() ==> shaded(shade, index, width, #[trigger] colors[index])
            &&& after == #[trigger] packed(before, colors, format)
        }
}

/// Fills a row-major pixel buffer with one shaded color per pixel.
///
/// Only three and four bytes a pixel are supported; with any other value the
/// buffer is left exactly as it was. Otherwise the buffer is cut into whole
/// pixels, pixel `i` being at column `i % width` and row `i / width`, and each
/// is shaded independently of the others, in parallel, and written as red,
/// green, blue and, with four bytes, an opaque alpha.
pub fn render<F>(width: u32, buffer: &mut [u8], bytes_per_pixel: u8, shade: F) where
    F: Fn(u64, u64) -> Rgb8 + Sync,

    requires
        bytes_per_pixel == 3 || bytes_per_pixel == 4 ==> {
            &&& width > 0 || old(buffer)@.len() < bytes_per_pixel
            &&& forall|index: int|
                0 <= index < old(buffer)@.len() / (bytes_per_pixel as nat) ==> #[trigger] shadeable(
                    &shade,
                    index,
                    width as int,
                )
        },
    ensures
        bytes_per_pixel != 3 && bytes_per_pixel != 4 ==> final(buffer)@ == old(buffer)@,
        bytes_per_pixel == 3 ==> rendered(
            &shade,
            width as int,
            PixelFormat::Rgb,
            old(buffer)@,
            final(buffer)@,
        ),
        bytes_per_pixel == 4 ==> rendered(
            &shade,
            width as int,
            PixelFormat::Rgba,
            old(buffer)@,
            final(buffer)@,
        ),
{
    match PixelFormat::from_bytes_per_pixel(bytes_per_pixel) {
        None => {},
        Some(format) => {
            let stride: usize = format.bytes_per_pixel();
            let count: usize = buffer.len() / stride;
            assert(buffer@.len() < stride ==> count == 0) by (nonlinear_arith)
                requires
                    count == buffer@.len() / (stride as nat),
                    stride > 0,
            ;
            let colors: Vec<Rgb8> = shade_in_parallel(count, width, &shade);
            write_pixels(&colors, buffer, format);
            assert(rendered(&shade, width as int, format, old(buffer)@, buffer@)) by {
                assert(buffer@ == packed(old(buffer)@, colors@, format));
            }
        },
    }
}

/// The bytes of the pixel with the given index in a buffer.
pub open spec fn pixel_bytes(buffer: Seq<u8>, index: int, format: PixelFormat) -> Seq<u8> {
    buffer.subrange(index * format.stride(), index * format.stride() + format.stride())
}

/// Whether the pixel with the given index in a buffer holds the bytes of a
/// color that the shader gave for its column and row.
pub open spec fn shows<F: Fn(u64, u64) -> Rgb8>(
    shade: &F,
    width: int,
    format: PixelFormat,
    buffer: Seq<u8>,
    index: int,
) -> bool {
    exists|color: Rgb8|
        #![trigger shaded(shade, index, width, color)]
        shaded(shade, index, width, color) && pixel_bytes(buffer, index, format)
            == format.encoded(color)
}

/// Scheduling does not show in the picture: with a shader that has one color
/// for each column and row, a buffer can be rendered to one result only,
/// whatever the order and the threads the pixels were shaded in.
pub proof fn lemma_render_is_deterministic<F: Fn(u64, u64) -> Rgb8>(
    shade: &F,
    width: int,
    format: PixelFormat,
    before: Seq<u8>,
    first: Seq<u8>,
    second: Seq<u8>,
)
    requires
        forall|x: u64, y: u64, one: Rgb8, other: Rgb8|
            #![trigger shade.ensures((x, y), one), shade.ensures((x, y), other)]
            shade.ensures((x, y), one) && shade.ensures((x, y), other) ==> one == other,
        rendered(shade, width, format, before, first),
        rendered(shade, width, format, before, second),
    ensures
        first == second,
{
    let colors = choose|colors: Seq<Rgb8>|
        {
            &&& colors.len() == before.len() / (format.stride() as nat)
            &&& forall|index: int|
                0 <= index < colors.len() ==> shaded(shade, index, width, #[trigger] colors[index])
            &&& first == #[trigger] packed(before, colors, format)
        };
    let others = choose|colors: Seq<Rgb8>|
        {
            &&& colors.len() == before.len() / (format.stride() as nat)
            &&& forall|index: int|
                0 <= index < colors.len() ==> shaded(shade, index, width, #[trigger] colors[index])
            &&& second == #[trigger] packed(before, colors, format)
        };
    assert forall|index: int| 0 <= index < colors.len() implies colors[index]
        == others[index] by {
        assert(shaded(shade, index, width, colors[index]));
        assert(shaded(shade, index, width, others[index]));
    }
    assert(colors =~= others);
}

/// An unsupported number of bytes a pixel aside, rendering keeps the length
/// of the buffer, gives every whole pixel the bytes of a color of its shader
/// and leaves the bytes behind the last whole pixel as they were.
pub proof fn lemma_rendered_pixels<F: Fn(u64, u64) -> Rgb8>(
    shade: &F,
    width: int,
    format: PixelFormat,
    before: Seq<u8>,
    after: Seq<u8>,
)
    requires
        rendered(shade, width, format, before, after),
    ensures
        after.len() == before.len(),
        forall|index: int|
            0 <= index < before.len() / (format.stride() as nat) ==> #[trigger] shows(
                shade,
                width,
                format,
                after,
                index,
            ),
        forall|at: int|
            (before.len() / (format.stride() as nat)) * format.stride() <= at < before.len()
                ==> after[at] == before[at],
{
    let stride = format.stride();
    let colors = choose|colors: Seq<Rgb8>|
        {
            &&& colors.len() == before.len() / (stride as nat)
            &&& forall|index: int|
                0 <= index < colors.len() ==> shaded(shade, index, width, #[trigger] colors[index])
            &&& after == #[trigger] packed(before, colors, format)
        };
    vstd::arithmetic::div_mod::lemma_fundamental_div_mod(before.len() as int, stride);
    assert(stride * colors.len() == colors.len() * stride) by (nonlinear_arith);
    assert forall|index: int| 0 <= index < colors.len() implies #[trigger] shows(
        shade,
        width,
        format,
        after,
        index,
    ) by {
        assert(index * stride + stride <= colors.len() * stride) by (nonlinear_arith)
            requires
                0 <= index < colors.len(),
                stride > 0,
        ;
        assert(index * stride >= 0) by (nonlinear_arith)
            requires
                0 <= index,
                stride > 0,
        ;
        let pixel = pixel_bytes(after, index, format);
        assert forall|offset: int| 0 <= offset < stride implies pixel[offset] == format.encoded(
            colors[index],
        )[offset] by {
            lemma_fundamental_div_mod_converse(index * stride + offset, stride, index, offset);
        }
        assert(pixel =~= format.encoded(colors[index]));
        assert(shaded(shade, index, width, colors[index]));
    }
    assert forall|at: int| colors.len() * stride <= at < before.len() implies after[at]
        == before[at] by {
        lemma_slot_behind(at, stride, colors.len() - 1);
    }
}

/// In a buffer that holds exactly one image, the pixel at every column and row
/// of the image shows a color that the shader gave for that column and row.
pub proof fn lemma_rendered_image<F: Fn(u64, u64) -> Rgb8>(
    shade: &F,
    width: u32,
    height: u32,
    format: PixelFormat,
    before: Seq<u8>,
    after: Seq<u8>,
    column: u32,
    row: u32,
)
    requires
        before.len() == format.image_len(width, height),
        rendered(shade, width as int, format, before, after),
        column < width,
        row < height,
    ensures
        exists|color: Rgb8|
            #![trigger shade.ensures((column as u64, row as u64), color)]
            shade.ensures((column as u64, row as u64), color) && pixel_bytes(
                after,
                row * width + column,
                format,
            ) == format.encoded(color),
{
    let stride = format.stride();
    let index = row * width + column;
    assert(index < width * height) by (nonlinear_arith)
        requires
            index == row * width + column,
            column < width,
            row < height,
    ;
    assert(index >= 0) by (nonlinear_arith)
        requires
            index == row * width + column,
    ;
    lemma_fundamental_div_mod_converse(before.len() as int, stride, width * height, 0);
    lemma_rendered_pixels(shade, width as int, format, before, after);
    assert(shows(shade, width as int, format, after, index));
    lemma_row_major(index, column as int, row as int, width as int);
    let color = choose|color: Rgb8|
        #![trigger shaded(shade, index, width as int, color)]
        shaded(shade, index, width as int, color) && pixel_bytes(after, index, format)
            == format.encoded(color);
    assert(shade.ensures((column as u64, row as u64), color));
}

/// A byte in front of pixel `index` belongs to an earlier pixel.
proof fn lemma_slot_before(at: int, stride: int, index: int)
    requires
        stride > 0,
        0 <= at < index * stride,
    ensures
        at / stride < index,
{
    if at / stride >= index {
        vstd::arithmetic::div_mod::lemma_fundamental_div_mod(at, stride);
        assert((at / stride) * stride >= index * stride) by (nonlinear_arith)
            requires
                at / stride >= index,
                stride > 0,
        ;
        assert(stride * (at / stride) == (at / stride) * stride) by (nonlinear_arith);
    }
}

/// A byte behind pixel `index` belongs to a later pixel.
proof fn lemma_slot_behind(at: int, stride: int, index: int)
    requires
        stride > 0,
        index >= -1,
        at >= 0,
        at >= (index + 1) * stride,
    ensures
        at / stride > index,
{
    if at / stride <= index {
        vstd::arithmetic::div_mod::lemma_fundamental_div_mod(at, stride);
        assert((at / stride) * stride <= index * stride) by (nonlinear_arith)
            requires
                at / stride <= index,
                stride > 0,
        ;
        assert(stride * (at / stride) == (at / stride) * stride) by (nonlinear_arith);
        assert((index + 1) * stride == index * stride + stride) by (nonlinear_arith);
    }
}

} // verus!
