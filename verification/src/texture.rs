//! Texture addressing: continuous coordinates, once scaled to texel units and
//! truncated, are folded into the texture's extent so that a surface tiles its
//! texture without end.

use image::{DynamicImage, GenericImageView};
use vstd::arithmetic::div_mod::{
    lemma_fundamental_div_mod, lemma_fundamental_div_mod_converse, lemma_mod_multiples_vanish,
};
use vstd::prelude::*;

verus! {

/// The texel index that an unbounded texel coordinate falls on when a texture
/// of extent `bound` is repeated in both directions.
pub open spec fn wrapped(coord: int, bound: int) -> int {
    coord % bound
}

/// A truncating remainder of a negative coordinate, shifted up by the extent
/// when it is not zero, is the coordinate's non-negative remainder.
proof fn lemma_fold_negative(coord: int, bound: int)
    requires
        coord < 0,
        bound > 0,
    ensures
        (-coord) % bound == 0 ==> coord % bound == 0,
        (-coord) % bound != 0 ==> coord % bound == bound - (-coord) % bound,
{
    let q = (-coord) / bound;
    let m = (-coord) % bound;
    lemma_fundamental_div_mod(-coord, bound);
    if m == 0 {
        assert(coord == (-q) * bound + 0) by (nonlinear_arith)
            requires
                -coord == bound * q + m,
                m == 0,
        ;
        lemma_fundamental_div_mod_converse(coord, bound, -q, 0);
    } else {
        assert(coord == (-q - 1) * bound + (bound - m)) by (nonlinear_arith)
            requires
                -coord == bound * q + m,
        ;
        lemma_fundamental_div_mod_converse(coord, bound, -q - 1, bound - m);
    }
}

/// Folds a texel coordinate into `[0, bound)`. Negative coordinates wrap
/// around from the far edge rather than being clamped or mirrored.
pub fn wrap(coord: i32, bound: u32) -> (index: u32)
    requires
        bound > 0,
    ensures
        index as int == wrapped(coord as int, bound as int),
        index < bound,
{
    let extent: i64 = bound as i64;
    let position: i64 = coord as i64;
    let offset: i64 = position % extent;
    proof {
        if position < 0 {
            lemma_fold_negative(position as int, extent as int);
        }
    }
    if offset < 0 {
        (offset + extent) as u32
    } else {
        offset as u32
    }
}

/// Tiling: moving a coordinate by any whole number of texture extents, in
/// either direction, lands on the same texel.
pub proof fn lemma_wrap_tiles(coord: int, bound: int, repeats: int)
    requires
        bound > 0,
    ensures
        wrapped(coord + repeats * bound, bound) == wrapped(coord, bound),
{
    lemma_mod_multiples_vanish(repeats, coord, bound);
    assert(bound * repeats + coord == coord + repeats * bound) by (nonlinear_arith);
}

/// Every coordinate, negative ones included, wraps to an index inside the
/// texture.
pub proof fn lemma_wrap_in_range(coord: int, bound: int)
    requires
        bound > 0,
    ensures
        0 <= wrapped(coord, bound) < bound,
{
}

/// A stored texel: four 8-bit channels as they sit in the image, still
/// gamma-encoded.
#[derive(Clone, Copy, Debug, PartialEq, Eq, Structural)]
pub struct Rgba8 {
    pub red: u8,
    pub green: u8,
    pub blue: u8,
    pub alpha: u8,
}

/// `image::DynamicImage`: a decoded image of any pixel kind. Nothing inside
/// it is visible here; what it holds is spoken of through [`image_texels`]
/// and [`image_extent`].
#[verifier::external_type_specification]
#[verifier::external_body]
pub struct ExDynamicImage(DynamicImage);

/// The texels of a decoded image as RGBA channel values, keyed by column and
/// row counted from the top left corner.
pub uninterp spec fn image_texels(image: DynamicImage) -> Map<(int, int), (u8, u8, u8, u8)>;

/// The number of columns and the number of rows that a decoded image was made
/// with.
pub uninterp spec fn image_extent(image: DynamicImage) -> (int, int);

/// `GenericImageView::width` on a `DynamicImage`: the number of columns of the
/// image, which is the first component of its dimensions.
#[verifier::external_body]
fn image_width(image: &DynamicImage) -> (columns: u32)
    ensures
        columns as int == image_extent(*image).0,
{
    image.width()
}

/// `GenericImageView::height` on a `DynamicImage`: the number of rows of the
/// image, which is the second component of its dimensions.
#[verifier::external_body]
fn image_height(image: &DynamicImage) -> (rows: u32)
    ensures
        rows as int == image_extent(*image).1,
{
    image.height()
}

/// `GenericImageView::get_pixel` on a `DynamicImage`: the pixel at column `x`
/// and row `y`, converted to 8-bit RGBA. The call panics outside the image's
/// dimensions, so a caller has to show that the position is inside.
#[verifier::external_body]
fn image_get_pixel(image: &DynamicImage, x: u32, y: u32) -> (texel: Rgba8)
    requires
        x < image_extent(*image).0,
        y < image_extent(*image).1,
    ensures
        (texel.red, texel.green, texel.blue, texel.alpha) == image_texels(*image)[(
            x as int,
            y as int,
        )],
{
    let pixel = image.get_pixel(x, y);
    Rgba8 { red: pixel[0], green: pixel[1], blue: pixel[2], alpha: pixel[3] }
}

/// A decoded image that a surface is painted with. A texture always has at
/// least one column and one row, so every lookup finds a texel.
pub struct Texture {
    image: DynamicImage,
}

impl Texture {
    /// The number of texel columns.
    pub closed spec fn columns(&self) -> int {
        image_extent(self.image).0
    }

    /// The number of texel rows.
    pub closed spec fn rows(&self) -> int {
        image_extent(self.image).1
    }

    /// The texel stored at a column and row inside the texture.
    pub closed spec fn texel(&self, x: int, y: int) -> Rgba8 {
        Texture::converted(image_texels(self.image)[(x, y)])
    }

    /// The texel that an unbounded texel coordinate pair selects: each
    /// coordinate is wrapped into the texture independently.
    pub open spec fn sampled(&self, x: int, y: int) -> Rgba8 {
        self.texel(wrapped(x, self.columns()), wrapped(y, self.rows()))
    }

    /// Whether the texture has a texel to offer: neither extent is zero.
    pub open spec fn wf(&self) -> bool {
        self.columns() > 0 && self.rows() > 0
    }

    #[verifier::type_invariant]
    spec fn inv(&self) -> bool {
        self.wf()
    }

    /// Adopts a decoded image as a texture. An image without columns or
    /// without rows has nothing to sample and is turned down.
    pub fn new(image: DynamicImage) -> (texture: Option<Texture>)
        ensures
            texture is Some <==> image_extent(image).0 > 0 && image_extent(image).1 > 0,
            texture is Some ==> texture->0.wf() && texture->0.columns() == image_extent(image).0
                && texture->0.rows() == image_extent(image).1 && forall|x: int, y: int|
                #[trigger] texture->0.texel(x, y) == Texture::converted(image_texels(image)[(x, y)]),
    {
        if image_width(&image) > 0 && image_height(&image) > 0 {
            Some(Texture { image })
        } else {
            None
        }
    }

    /// A channel tuple as a texel.
    pub open spec fn converted(channels: (u8, u8, u8, u8)) -> Rgba8 {
        Rgba8 { red: channels.0, green: channels.1, blue: channels.2, alpha: channels.3 }
    }

    /// The number of texel columns.
    pub fn width(&self) -> (columns: u32)
        ensures
            columns as int == self.columns(),
            columns > 0,
    {
        proof {
            use_type_invariant(self);
        }
        image_width(&self.image)
    }

    /// The number of texel rows.
    pub fn height(&self) -> (rows: u32)
        ensures
            rows as int == self.rows(),
            rows > 0,
    {
        proof {
            use_type_invariant(self);
        }
        image_height(&self.image)
    }

    /// Tiling: a texture repeats itself after every whole extent, across and
    /// down, so shifting a lookup by whole extents finds the same texel.
    pub proof fn lemma_sample_tiles(&self, x: int, y: int, across: int, down: int)
        requires
            self.wf(),
        ensures
            self.sampled(x + across * self.columns(), y + down * self.rows()) == self.sampled(
                x,
                y,
            ),
    {
        lemma_wrap_tiles(x, self.columns(), across);
        lemma_wrap_tiles(y, self.rows(), down);
    }

    /// Looks up the texel at a coordinate pair given in texel units. The
    /// coordinates are unbounded: the texture repeats in every direction.
    pub fn sample(&self, x: i32, y: i32) -> (texel: Rgba8)
        ensures
            texel == self.sampled(x as int, y as int),
    {
        let column: u32 = wrap(x, self.width());
        let row: u32 = wrap(y, self.height());
        image_get_pixel(&self.image, column, row)
    }
}

} // verus!
