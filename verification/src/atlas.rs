//! The frame table of an atlas: which sprite sits where on the sheet, in the
//! order the sprites were added, and the path the sheet is meant for.

use crate::compositor::{all_paintable, all_well_formed, composite, composited, image_views, ImageTexture};
use crate::config::PackerConfigOptions;
use crate::error::PackerError;
use crate::geometry::Placement;
use crate::packer::{pack_items, packed, side_supported, LayoutView, PackItem};
use crate::raster::{Image, ImageView};
use vstd::prelude::*;

verus! {

/// One entry of the frame table.
#[derive(Debug)]
pub struct Frame {
    pub name: String,
    pub placement: Placement,
}

/// The frame table. No name occurs twice in it.
#[derive(Debug)]
pub struct PackerAtlas {
    sheet_path: String,
    frames: Vec<Frame>,
}

/// A [`PackerAtlas`] as a mathematical value: the sheet's path and the frames
/// in insertion order, each a name and its placement.
pub struct AtlasView {
    pub sheet_path: Seq<char>,
    pub frames: Seq<(Seq<char>, Placement)>,
}

impl AtlasView {
    /// Some frame carries this name.
    pub open spec fn has(self, name: Seq<char>) -> bool {
        exists|i: int| 0 <= i < self.frames.len() && (#[trigger] self.frames[i]).0 == name
    }

    /// No two frames carry the same name.
    pub open spec fn unique_names(self) -> bool {
        forall|i: int, j: int|
            0 <= i < j < self.frames.len() ==> (#[trigger] self.frames[i]).0 != (#[trigger] self.frames[j]).0
    }

    /// The frame names in insertion order.
    pub open spec fn names(self) -> Seq<Seq<char>> {
        Seq::new(self.frames.len(), |i: int| self.frames[i].0)
    }

    /// The table as a mapping from name to placement.
    pub open spec fn frame_map(self) -> Map<Seq<char>, Placement> {
        Map::new(|name: Seq<char>| self.has(name), |name: Seq<char>| self.frames[self.position(name)].1)
    }

    /// The position of the frame with this name.
    pub open spec fn position(self, name: Seq<char>) -> int {
        choose|i: int| 0 <= i < self.frames.len() && (#[trigger] self.frames[i]).0 == name
    }

    /// The table with one more frame at its end.
    pub open spec fn with_frame(self, name: Seq<char>, placement: Placement) -> AtlasView {
        AtlasView { sheet_path: self.sheet_path, frames: self.frames.push((name, placement)) }
    }

    /// The table with another sheet path.
    pub open spec fn with_sheet_path(self, path: Seq<char>) -> AtlasView {
        AtlasView { sheet_path: path, frames: self.frames }
    }
}

impl View for PackerAtlas {
    type V = AtlasView;

    closed spec fn view(&self) -> AtlasView {
        AtlasView {
            sheet_path: self.sheet_path@,
            frames: Seq::new(self.frames.len() as nat, |i: int| (self.frames[i].name@, self.frames[i].placement)),
        }
    }
}

impl Default for PackerAtlas {
    /// The empty table.
    fn default() -> (atlas: Self)
        ensures
            atlas.well_formed(),
            atlas@.sheet_path == Seq::<char>::empty(),
            atlas@.frames == Seq::<(Seq<char>, Placement)>::empty(),
    {
        PackerAtlas { sheet_path: String::new(), frames: Vec::new() }
    }
}

impl PackerAtlas {
    /// The table keeps its promise: no name occurs twice.
    pub open spec fn well_formed(&self) -> bool {
        self@.unique_names()
    }

    /// The number of frames.
    pub fn len(&self) -> (n: usize)
        ensures
            n == self@.frames.len(),
    {
        self.frames.len()
    }

    /// The frame at position `index` of the insertion order.
    pub fn frame(&self, index: usize) -> (frame: &Frame)
        requires
            index < self@.frames.len(),
        ensures
            (frame.name@, frame.placement) == self@.frames[index as int],
    {
        &self.frames[index]
    }

    /// The path the sheet is meant for.
    pub fn sheet_path(&self) -> (path: &String)
        ensures
            path@ == self@.sheet_path,
    {
        &self.sheet_path
    }

    /// The position of the first frame called `name`, if there is one.
    pub fn find(&self, name: &str) -> (found: Option<usize>)
        ensures
            match found {
                Some(i) => {
                    &&& i < self@.frames.len()
                    &&& self@.frames[i as int].0 == name@
                    &&& forall|k: int| 0 <= k < i ==> (#[trigger] self@.frames[k]).0 != name@
                },
                None => !self@.has(name@),
            },
    {
        let wanted = name.to_owned();
        let mut i: usize = 0;
        while i < self.frames.len()
            invariant
                i <= self.frames.len(),
                wanted@ == name@,
                forall|k: int| 0 <= k < i ==> (#[trigger] self@.frames[k]).0 != name@,
            decreases self.frames.len() - i,
        {
            if self.frames[i].name == wanted {
                return Some(i);
            }
            i += 1;
        }
        None
    }

    /// Where the sprite called `name` sits, if the table has it.
    pub fn get(&self, name: &str) -> (placement: Option<Placement>)
        requires
            self.well_formed(),
        ensures
            match placement {
                Some(p) => self@.has(name@) && self@.frame_map()[name@] == p,
                None => !self@.has(name@),
            },
    {
        match self.find(name) {
            Some(i) => {
                proof {
                    let at = self@.position(name@);
                    assert(self@.frames[at].0 == self@.frames[i as int].0);
                }
                Some(self.frames[i].placement)
            },
            None => None,
        }
    }

    /// Records where the sprite called `name` sits. A name the table already
    /// has is refused and the table stays as it was.
    pub fn add(&mut self, name: &str, x: u32, y: u32, width: u32, height: u32, rotated: bool) -> (added: Result<
        (),
        PackerError,
    >)
        requires
            old(self).well_formed(),
        ensures
            final(self).well_formed(),
            match added {
                Ok(()) => !old(self)@.has(name@) && final(self)@ == old(self)@.with_frame(
                    name@,
                    Placement { x, y, width, height, rotated },
                ),
                Err(e) => e == PackerError::DuplicateName && old(self)@.has(name@) && final(self)@ == old(self)@,
            },
    {
        if self.find(name).is_some() {
            return Err(PackerError::DuplicateName);
        }
        self.frames.push(Frame { name: name.to_owned(), placement: Placement { x, y, width, height, rotated } });
        proof {
            assert(self@.frames =~= old(self)@.frames.push((name@, Placement { x, y, width, height, rotated })));
        }
        Ok(())
    }

    /// Records the path the sheet is meant for.
    pub fn add_sheet_path(&mut self, path: &str)
        ensures
            final(self)@ == old(self)@.with_sheet_path(path@),
    {
        self.sheet_path = path.to_owned();
        proof {
            assert(self@.frames =~= old(self)@.frames);
        }
    }

    /// The table of a packing run: one frame per item, named as the item and
    /// placed as the layout says, in the order of the items.
    ///
    /// Placements that do not answer to the items one for one are an
    /// [`PackerError::InternalGeometryViolation`]; two items of one name are a
    /// [`PackerError::DuplicateName`].
    pub fn from_placements(items: &Vec<PackItem>, placements: &Vec<Placement>, sheet_path: &str) -> (result: Result<
        PackerAtlas,
        PackerError,
    >)
        ensures
            match result {
                Ok(table) => table.well_formed() && tabled(items@, placements@, sheet_path@) == Ok::<
                    AtlasView,
                    PackerError,
                >(table@),
                Err(e) => tabled(items@, placements@, sheet_path@) == Err::<AtlasView, PackerError>(e),
            },
    {
        if items.len() != placements.len() {
            return Err(PackerError::InternalGeometryViolation);
        }
        let mut table = PackerAtlas::default();
        table.add_sheet_path(sheet_path);
        let mut i: usize = 0;
        while i < items.len()
            invariant
                i <= items.len(),
                items.len() == placements.len(),
                table.well_formed(),
                table@.sheet_path == sheet_path@,
                table@.frames == framed(items@, placements@).take(i as int),
            decreases items.len() - i,
        {
            let placement = placements[i];
            let ghost before = table@;
            match table.add(
                items[i].name.as_str(),
                placement.x,
                placement.y,
                placement.width,
                placement.height,
                placement.rotated,
            ) {
                Ok(()) => {},
                Err(e) => {
                    proof {
                        let earlier = before.position(items@[i as int].name@);
                        assert(before.frames[earlier] == framed(items@, placements@)[earlier]);
                        assert(items@[earlier].name@ == items@[i as int].name@);
                    }
                    return Err(e);
                },
            }
            proof {
                assert(table@.frames =~= framed(items@, placements@).take(i + 1));
            }
            i += 1;
        }
        proof {
            assert(table@.frames =~= framed(items@, placements@));
            assert forall|a: int, b: int| 0 <= a < b < items@.len() implies (#[trigger] items@[a]).name@ != (
            #[trigger] items@[b]).name@ by {
                assert(table@.frames[a].0 != table@.frames[b].0);
            }
        }
        Ok(table)
    }
}

/// No two items go by the same name.
pub open spec fn distinct_names(items: Seq<PackItem>) -> bool {
    forall|i: int, j: int| 0 <= i < j < items.len() ==> (#[trigger] items[i]).name@ != (#[trigger] items[j]).name@
}

/// One frame per item: the item's name with the placement at its position.
pub open spec fn framed(items: Seq<PackItem>, placements: Seq<Placement>) -> Seq<(Seq<char>, Placement)> {
    Seq::new(items.len(), |i: int| (items[i].name@, placements[i]))
}

/// What [`PackerAtlas::from_placements`] answers.
pub open spec fn tabled(items: Seq<PackItem>, placements: Seq<Placement>, sheet_path: Seq<char>) -> Result<
    AtlasView,
    PackerError,
> {
    if items.len() != placements.len() {
        Err(PackerError::InternalGeometryViolation)
    } else if !distinct_names(items) {
        Err(PackerError::DuplicateName)
    } else {
        Ok(AtlasView { sheet_path, frames: framed(items, placements) })
    }
}

/// The sprites as items to pack: each with its own name and its image's size,
/// all of them free to be turned or none.
pub open spec fn items_of(textures: Seq<ImageTexture>, rotation: bool) -> Seq<PackItem> {
    Seq::new(
        textures.len(),
        |i: int|
            PackItem {
                name: textures[i].name,
                width: textures[i].img@.width,
                height: textures[i].img@.height,
                rotation_allowed: rotation,
            },
    )
}

/// The items for the sprites.
pub fn build_items(textures: &Vec<ImageTexture>, rotation: bool) -> (items: Vec<PackItem>)
    ensures
        items@ == items_of(textures@, rotation),
{
    let mut items: Vec<PackItem> = Vec::new();
    let mut i: usize = 0;
    while i < textures.len()
        invariant
            i <= textures.len(),
            items.len() == i,
            forall|k: int| 0 <= k < i ==> #[trigger] items@[k] == items_of(textures@, rotation)[k],
        decreases textures.len() - i,
    {
        let texture = &textures[i];
        items.push(
            PackItem {
                name: texture.name.clone(),
                width: texture.img.width(),
                height: texture.img.height(),
                rotation_allowed: rotation,
            },
        );
        i += 1;
    }
    assert(items@ =~= items_of(textures@, rotation));
    items
}

/// What [`pack`] answers: the sprites are packed as [`packed`] says, painted
/// onto the sheet as [`composited`] says and listed as [`tabled`] says; the
/// first of these to fail decides the error.
pub open spec fn atlas_of(textures: Seq<ImageTexture>, max_size: u32, rotation: bool, sheet_path: Seq<char>) -> Result<
    (ImageView, AtlasView),
    PackerError,
> {
    let items = items_of(textures, rotation);
    match packed(items, max_size) {
        Err(e) => Err(e),
        Ok(layout) => match composited(layout.width, layout.height, layout.placements, image_views(textures)) {
            Err(e) => Err(e),
            Ok(sheet) => match tabled(items, layout.placements, sheet_path) {
                Err(e) => Err(e),
                Ok(table) => Ok((sheet, table)),
            },
        },
    }
}

/// A layout that is valid for the sprites' items can be painted: every
/// placement is of its image's size, turned or not, and lies on the sheet.
pub proof fn lemma_valid_layout_is_paintable(
    textures: Seq<ImageTexture>,
    rotation: bool,
    max_size: u32,
    layout: LayoutView,
)
    requires
        layout.valid_for(items_of(textures, rotation), max_size),
    ensures
        all_paintable(layout.width, layout.height, layout.placements, image_views(textures)),
{
    let items = items_of(textures, rotation);
    assert forall|k: int| 0 <= k < layout.placements.len() implies crate::compositor::paintable(
        layout.width,
        layout.height,
        #[trigger] layout.placements[k],
        image_views(textures)[k],
    ) by {
        assert(layout.placements[k].footprint_of(items[k].width as int, items[k].height as int));
        assert(layout.placements[k].within(layout.width as int, layout.height as int));
    }
}

/// The names of the sprites, in order.
pub open spec fn names_of(textures: Seq<ImageTexture>) -> Seq<Seq<char>> {
    Seq::new(textures.len(), |i: int| textures[i].name@)
}

/// Every atlas that [`atlas_of`] answers with rests on a valid layout: the
/// sheet has the layout's size, both sides a power of two within the limit;
/// every sprite has its placement, of its image's size and turned only where
/// turning is allowed; all placements lie on the sheet and no two of them
/// share a pixel. Where there is no atlas, either the packer refused the
/// sprites or two of them share a name: a layout that the packer answers with
/// can always be painted.
pub proof fn lemma_atlas_is_sound(textures: Seq<ImageTexture>, max_size: u32, rotation: bool, sheet_path: Seq<char>)
    ensures
        match atlas_of(textures, max_size, rotation, sheet_path) {
            Ok((sheet, table)) => match packed(items_of(textures, rotation), max_size) {
                Ok(layout) => {
                    &&& layout.valid_for(items_of(textures, rotation), max_size)
                    &&& sheet.width == layout.width
                    &&& sheet.height == layout.height
                    &&& sheet.well_formed()
                    &&& table.frames == framed(items_of(textures, rotation), layout.placements)
                },
                Err(_) => false,
            },
            Err(e) => match packed(items_of(textures, rotation), max_size) {
                Ok(_) => e == PackerError::DuplicateName && !distinct_names(items_of(textures, rotation)),
                Err(refusal) => e == refusal,
            },
        },
{
    let items = items_of(textures, rotation);
    crate::packer::lemma_packed_is_valid(items, max_size);
    if let Ok(layout) = packed(items, max_size) {
        lemma_valid_layout_is_paintable(textures, rotation, max_size, layout);
        crate::compositor::lemma_painted_size(
            layout.width,
            layout.height,
            layout.placements,
            image_views(textures),
            layout.placements.len(),
        );
    }
}

/// Every atlas that [`atlas_of`] answers with is complete: its table lists
/// the sprites' names, each once and in the order of the sprites, under the
/// sheet path that was given, and each frame has the size of its sprite's
/// image, turned or not.
pub proof fn lemma_atlas_is_complete(
    textures: Seq<ImageTexture>,
    max_size: u32,
    rotation: bool,
    sheet_path: Seq<char>,
)
    ensures
        atlas_of(textures, max_size, rotation, sheet_path) matches Ok((sheet, table)) ==> {
            &&& table.sheet_path == sheet_path
            &&& table.names() == names_of(textures)
            &&& table.unique_names()
            &&& forall|i: int|
                0 <= i < textures.len() ==> {
                    &&& table.has(#[trigger] textures[i].name@)
                    &&& table.frames[i].1.footprint_of(textures[i].img@.width as int, textures[i].img@.height as int)
                    &&& table.frames[i].1.rotated ==> rotation
                }
        },
{
    let items = items_of(textures, rotation);
    lemma_atlas_is_sound(textures, max_size, rotation, sheet_path);
    if let Ok((sheet, table)) = atlas_of(textures, max_size, rotation, sheet_path) {
        let layout = packed(items, max_size).unwrap();
        assert(table.names() =~= names_of(textures));
        assert forall|i: int| 0 <= i < textures.len() implies {
            &&& table.has(#[trigger] textures[i].name@)
            &&& table.frames[i].1.footprint_of(textures[i].img@.width as int, textures[i].img@.height as int)
            &&& table.frames[i].1.rotated ==> rotation
        } by {
            assert(table.frames[i].0 == textures[i].name@);
            assert(layout.placements[i].footprint_of(items[i].width as int, items[i].height as int));
        }
    }
}

/// Sprites of the same names and the same images, in the same order, get the
/// same atlas: the same sheet, pixel for pixel, and the same table.
pub proof fn lemma_atlas_is_deterministic(
    first: Seq<ImageTexture>,
    second: Seq<ImageTexture>,
    max_size: u32,
    rotation: bool,
    sheet_path: Seq<char>,
)
    requires
        first.len() == second.len(),
        forall|i: int|
            0 <= i < first.len() ==> (#[trigger] first[i]).name@ == second[i].name@ && first[i].img@
                == second[i].img@,
    ensures
        atlas_of(first, max_size, rotation, sheet_path) == atlas_of(second, max_size, rotation, sheet_path),
{
    let one = items_of(first, rotation);
    let other = items_of(second, rotation);
    assert forall|i: int| 0 <= i < one.len() implies {
        &&& (#[trigger] one[i]).width == other[i].width
        &&& one[i].height == other[i].height
        &&& one[i].rotation_allowed == other[i].rotation_allowed
        &&& one[i].name@ == other[i].name@
    } by {
        assert(first[i].img@ == second[i].img@);
    }
    crate::packer::lemma_packed_is_deterministic(one, other, max_size);
    assert(image_views(first) =~= image_views(second));
    if let Ok(layout) = packed(one, max_size) {
        assert(framed(one, layout.placements) =~= framed(other, layout.placements));
        if distinct_names(one) {
            assert forall|i: int, j: int| 0 <= i < j < other.len() implies (#[trigger] other[i]).name@ != (
            #[trigger] other[j]).name@ by {
                assert(one[i].name@ != one[j].name@);
            }
        }
        if distinct_names(other) {
            assert forall|i: int, j: int| 0 <= i < j < one.len() implies (#[trigger] one[i]).name@ != (
            #[trigger] one[j]).name@ by {
                assert(other[i].name@ != other[j].name@);
            }
        }
    }
}

/// Every atlas that [`atlas_of`] answers with shows its sprites pixel for
/// pixel: the sheet's pixel `(x + i, y + j)` under the placement of sprite `k`
/// at `(x, y)` is the sprite's pixel `(i, j)`, or, where the placement is
/// rotated, its pixel `(j, height - 1 - i)`, `height` being the sprite's own.
pub proof fn lemma_atlas_shows_sprites(
    textures: Seq<ImageTexture>,
    max_size: u32,
    rotation: bool,
    sheet_path: Seq<char>,
    k: int,
    i: int,
    j: int,
)
    requires
        atlas_of(textures, max_size, rotation, sheet_path) is Ok,
        0 <= k < textures.len(),
        0 <= i < atlas_of(textures, max_size, rotation, sheet_path).unwrap().1.frames[k].1.width,
        0 <= j < atlas_of(textures, max_size, rotation, sheet_path).unwrap().1.frames[k].1.height,
    ensures
        ({
            let (sheet, table) = atlas_of(textures, max_size, rotation, sheet_path).unwrap();
            let placement = table.frames[k].1;
            sheet.at(placement.x + i, placement.y + j) == (if placement.rotated {
                textures[k].img@.at(j, textures[k].img@.height - 1 - i)
            } else {
                textures[k].img@.at(i, j)
            })
        }),
{
    let items = items_of(textures, rotation);
    lemma_atlas_is_sound(textures, max_size, rotation, sheet_path);
    let layout = packed(items, max_size).unwrap();
    crate::compositor::lemma_pixel_fidelity(
        layout.width,
        layout.height,
        layout.placements,
        image_views(textures),
        k,
        i,
        j,
    );
}

/// Packs the sprites into one atlas: the sheet with every sprite painted at
/// its place, and the table that says where each one is.
///
/// `options.max_size` limits the sheet's sides, `options.rotation` lets the
/// packer turn sprites, and `sheet_path` is recorded in the table. Nothing is
/// produced unless everything is: the answer is [`atlas_of`].
pub fn pack(textures: &Vec<ImageTexture>, options: &PackerConfigOptions, sheet_path: &str) -> (result: Result<
    (Image, PackerAtlas),
    PackerError,
>)
    requires
        side_supported(options.max_size),
        all_well_formed(textures@),
    ensures
        match result {
            Ok((sheet, table)) => sheet.well_formed() && table.well_formed() && atlas_of(
                textures@,
                options.max_size,
                options.rotation,
                sheet_path@,
            ) == Ok::<(ImageView, AtlasView), PackerError>((sheet@, table@)),
            Err(e) => atlas_of(textures@, options.max_size, options.rotation, sheet_path@) == Err::<
                (ImageView, AtlasView),
                PackerError,
            >(e),
        },
{
    let items = build_items(textures, options.rotation);
    let layout = match pack_items(&items, options.max_size) {
        Ok(layout) => layout,
        Err(e) => {
            return Err(e);
        },
    };
    assert(layout.width * layout.height <= 4 * options.max_size * options.max_size) by (nonlinear_arith)
        requires
            0 <= layout.width <= options.max_size,
            0 <= layout.height <= options.max_size,
    ;
    let sheet = match composite(layout.width, layout.height, &layout.placements, textures) {
        Ok(sheet) => sheet,
        Err(e) => {
            return Err(e);
        },
    };
    let table = match PackerAtlas::from_placements(&items, &layout.placements, sheet_path) {
        Ok(table) => table,
        Err(e) => {
            return Err(e);
        },
    };
    Ok((sheet, table))
}

} // verus!
