//! The compositor: paints every sprite onto a transparent sheet at its
//! placement, turned by a quarter where the placement says so.
//!
//! A rotated placement shows its sprite turned clockwise: the placement's
//! pixel `(i, j)` is the sprite's pixel `(j, height - 1 - i)`, `height` being
//! the sprite's own.

use crate::error::PackerError;
use crate::geometry::{pairwise_disjoint, Placement};
use crate::raster::{transparent, Image, ImageView};
use vstd::prelude::*;

verus! {

/// A sprite: an image and the name it goes by.
#[derive(Debug)]
pub struct ImageTexture {
    pub name: String,
    pub img: Image,
}

impl ImageTexture {
    /// The sprite called `name` that shows `img`.
    pub fn new(name: String, img: Image) -> (texture: Self)
        ensures
            texture.name == name,
            texture.img == img,
    {
        ImageTexture { name, img }
    }
}

/// The images of the sprites, in order.
pub open spec fn image_views(textures: Seq<ImageTexture>) -> Seq<ImageView> {
    Seq::new(textures.len(), |i: int| textures[i].img@)
}

/// Every sprite's image is well formed.
pub open spec fn all_well_formed(textures: Seq<ImageTexture>) -> bool {
    forall|i: int| 0 <= i < textures.len() ==> (#[trigger] textures[i]).img.well_formed()
}

/// The image as it is placed: turned clockwise by a quarter where `rotated`.
pub open spec fn oriented(image: ImageView, rotated: bool) -> ImageView {
    if rotated {
        image.rotated90()
    } else {
        image
    }
}

/// The placement can take the image on a sheet of the given size: its
/// footprint is the image's size, turned or not, and it lies on the sheet.
pub open spec fn paintable(width: u32, height: u32, placement: Placement, image: ImageView) -> bool {
    placement.footprint_of(image.width as int, image.height as int) && placement.within(
        width as int,
        height as int,
    )
}

/// There is one image per placement and each placement can take its image.
pub open spec fn all_paintable(
    width: u32,
    height: u32,
    placements: Seq<Placement>,
    images: Seq<ImageView>,
) -> bool {
    &&& placements.len() == images.len()
    &&& forall|k: int|
        0 <= k < placements.len() ==> paintable(width, height, #[trigger] placements[k], images[k])
}

/// The sheet after the first `count` images were painted, each over what was
/// there before.
pub open spec fn painted(
    width: u32,
    height: u32,
    placements: Seq<Placement>,
    images: Seq<ImageView>,
    count: nat,
) -> ImageView
    decreases count,
{
    if count == 0 {
        ImageView::blank(width, height)
    } else {
        let last = (count - 1) as nat;
        painted(width, height, placements, images, last).overlaid(
            oriented(images[last as int], placements[last as int].rotated),
            placements[last as int].x as int,
            placements[last as int].y as int,
        )
    }
}

/// What [`composite`] answers: the sheet with every image painted, or an
/// [`PackerError::InternalGeometryViolation`] where some placement cannot take
/// its image.
pub open spec fn composited(
    width: u32,
    height: u32,
    placements: Seq<Placement>,
    images: Seq<ImageView>,
) -> Result<ImageView, PackerError> {
    if all_paintable(width, height, placements, images) {
        Ok(painted(width, height, placements, images, placements.len()))
    } else {
        Err(PackerError::InternalGeometryViolation)
    }
}

/// Painting keeps the sheet's size and leaves it well formed.
pub proof fn lemma_painted_size(
    width: u32,
    height: u32,
    placements: Seq<Placement>,
    images: Seq<ImageView>,
    count: nat,
)
    ensures
        painted(width, height, placements, images, count).width == width,
        painted(width, height, placements, images, count).height == height,
        painted(width, height, placements, images, count).well_formed(),
    decreases count,
{
    if count > 0 {
        lemma_painted_size(width, height, placements, images, (count - 1) as nat);
    }
}

/// Where placements do not collide, what a placement shows stays as it was
/// painted, however many images are painted after it.
proof fn lemma_painted_keeps(
    width: u32,
    height: u32,
    placements: Seq<Placement>,
    images: Seq<ImageView>,
    count: nat,
    k: int,
    i: int,
    j: int,
)
    requires
        all_paintable(width, height, placements, images),
        pairwise_disjoint(placements),
        0 <= k < count <= placements.len(),
        0 <= i < placements[k].width,
        0 <= j < placements[k].height,
    ensures
        painted(width, height, placements, images, count).at(placements[k].x + i, placements[k].y + j)
            == oriented(images[k], placements[k].rotated).at(i, j),
    decreases count,
{
    let last = (count - 1) as nat;
    let px = placements[k].x + i;
    let py = placements[k].y + j;
    lemma_painted_size(width, height, placements, images, last);
    assert(paintable(width, height, placements[k], images[k]));
    assert(paintable(width, height, placements[last as int], images[last as int]));
    assert(placements[k].covers(px, py));
    if last == k {
    } else {
        lemma_painted_keeps(width, height, placements, images, last, k, i, j);
        assert(placements[last as int].disjoint_from(placements[k]));
        assert(!placements[last as int].covers(px, py));
    }
}

/// Pixel fidelity: on a sheet composited from placements that do not collide,
/// every placement shows its image pixel for pixel. An unrotated placement's
/// pixel `(i, j)` is the image's pixel `(i, j)`; a rotated placement's is the
/// image's pixel `(j, height - 1 - i)`, the image turned clockwise by a
/// quarter.
pub proof fn lemma_pixel_fidelity(
    width: u32,
    height: u32,
    placements: Seq<Placement>,
    images: Seq<ImageView>,
    k: int,
    i: int,
    j: int,
)
    requires
        pairwise_disjoint(placements),
        0 <= k < placements.len(),
        0 <= i < placements[k].width,
        0 <= j < placements[k].height,
        composited(width, height, placements, images) is Ok,
    ensures
        composited(width, height, placements, images) matches Ok(sheet) && sheet.contains(
            placements[k].x + i,
            placements[k].y + j,
        ) && sheet.at(placements[k].x + i, placements[k].y + j) == (if placements[k].rotated {
            images[k].at(j, images[k].height - 1 - i)
        } else {
            images[k].at(i, j)
        }),
{
    lemma_painted_keeps(width, height, placements, images, placements.len(), k, i, j);
    lemma_painted_size(width, height, placements, images, placements.len());
    assert(paintable(width, height, placements[k], images[k]));
}

/// What no placement among the first `count` covers is still transparent
/// after these are painted.
proof fn lemma_painted_spares(
    width: u32,
    height: u32,
    placements: Seq<Placement>,
    images: Seq<ImageView>,
    count: nat,
    px: int,
    py: int,
)
    requires
        all_paintable(width, height, placements, images),
        count <= placements.len(),
        0 <= px < width,
        0 <= py < height,
        forall|k: int| 0 <= k < count ==> !(#[trigger] placements[k]).covers(px, py),
    ensures
        painted(width, height, placements, images, count).at(px, py) == transparent(),
    decreases count,
{
    if count > 0 {
        let last = (count - 1) as nat;
        lemma_painted_size(width, height, placements, images, last);
        lemma_painted_spares(width, height, placements, images, last, px, py);
        assert(paintable(width, height, placements[last as int], images[last as int]));
        assert(!placements[last as int].covers(px, py));
    }
}

/// A pixel of a composited sheet that no placement covers is transparent.
pub proof fn lemma_uncovered_is_transparent(
    width: u32,
    height: u32,
    placements: Seq<Placement>,
    images: Seq<ImageView>,
    px: int,
    py: int,
)
    requires
        composited(width, height, placements, images) is Ok,
        0 <= px < width,
        0 <= py < height,
        forall|k: int| 0 <= k < placements.len() ==> !(#[trigger] placements[k]).covers(px, py),
    ensures
        composited(width, height, placements, images) matches Ok(sheet) && sheet.at(px, py) == transparent(),
{
    lemma_painted_spares(width, height, placements, images, placements.len(), px, py);
}

/// The sprite's image as `placement` shows it: turned clockwise by a quarter
/// where the placement is rotated, copied as it is where not.
pub fn rotate_90(placement: &Placement, texture: &ImageTexture) -> (image: Image)
    requires
        texture.img.well_formed(),
    ensures
        image.well_formed(),
        image@ == oriented(texture.img@, placement.rotated),
{
    if placement.rotated {
        texture.img.rotate90()
    } else {
        texture.img.duplicate()
    }
}

/// Paints the sprites onto a transparent sheet of `width` x `height` pixels,
/// each at its placement and in the order given.
///
/// A placement that is not of its image's size, or that does not lie on the
/// sheet, is an [`PackerError::InternalGeometryViolation`], as is a list of
/// placements that is not as long as the list of sprites.
pub fn composite(width: u32, height: u32, placements: &Vec<Placement>, textures: &Vec<ImageTexture>) -> (result:
    Result<Image, PackerError>)
    requires
        width * height <= usize::MAX,
        all_well_formed(textures@),
    ensures
        match result {
            Ok(sheet) => sheet.well_formed() && composited(width, height, placements@, image_views(textures@))
                == Ok::<ImageView, PackerError>(sheet@),
            Err(e) => composited(width, height, placements@, image_views(textures@)) == Err::<
                ImageView,
                PackerError,
            >(e),
        },
{
    if placements.len() != textures.len() {
        return Err(PackerError::InternalGeometryViolation);
    }
    let ghost images = image_views(textures@);
    let mut sheet = Image::new(width, height);
    let mut k: usize = 0;
    while k < placements.len()
        invariant
            k <= placements.len(),
            placements.len() == textures.len(),
            images == image_views(textures@),
            all_well_formed(textures@),
            sheet.well_formed(),
            sheet@ == painted(width, height, placements@, images, k as nat),
            forall|m: int| 0 <= m < k ==> paintable(width, height, #[trigger] placements@[m], images[m]),
        decreases placements.len() - k,
    {
        let placement = &placements[k];
        let texture = &textures[k];
        let own_width = if placement.rotated { texture.img.height() } else { texture.img.width() };
        let own_height = if placement.rotated { texture.img.width() } else { texture.img.height() };
        if placement.width != own_width || placement.height != own_height {
            proof {
                assert(!paintable(width, height, placements@[k as int], images[k as int]));
            }
            return Err(PackerError::InternalGeometryViolation);
        }
        let image = rotate_90(placement, texture);
        proof {
            lemma_painted_size(width, height, placements@, images, k as nat);
        }
        match sheet.copy_from(&image, placement.x, placement.y) {
            Ok(()) => {},
            Err(e) => {
                proof {
                    assert(!paintable(width, height, placements@[k as int], images[k as int]));
                }
                return Err(e);
            },
        }
        k += 1;
    }
    Ok(sheet)
}

} // verus!
