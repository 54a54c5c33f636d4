//! The bin packer: chooses a power-of-two sheet and a place on it for every
//! item.
//!
//! The search itself is done by the `crunch` crate. What it answers is taken
//! as a proposal: [`arrange`] accepts it only after checking that the sheet is
//! a power of two within the limit, that every item got exactly one rectangle
//! of its own size (turned only where turning is allowed), that every rectangle
//! lies on the sheet and that no two of them share a pixel.
//!
//! Sheets may be square or twice as wide as high or the reverse; the smallest
//! sheet is 2 x 2. The search tries the sheets from the smallest up and, at
//! each size, the square before the wide before the high one. On a sheet it
//! places the items in descending order of area plus longer side, items that
//! tie in input order, each in the free rectangle that it fills best: the one
//! with the least area left over and, among those, the least room along the
//! tighter side. An item that may be turned is turned only where that scores
//! better. Nothing in this depends on anything but the items and the limit.
//! Items keep their input order in the result.

use crate::error::PackerError;
use crate::geometry::{all_within, is_power_of_two, non_overlapping, pairwise_disjoint, Placement};
use vstd::arithmetic::power2::is_pow2;
use vstd::prelude::*;

verus! {

/// One rectangle to pack.
pub struct PackItem {
    pub name: String,
    pub width: u32,
    pub height: u32,
    pub rotation_allowed: bool,
}

/// The size of one item as the search sees it, with the item's position in the
/// input as its tag.
#[derive(Clone, Copy, Debug)]
pub struct SizedItem {
    pub tag: usize,
    pub width: usize,
    pub height: usize,
    pub may_rotate: bool,
}

/// One rectangle as the search hands it back, with the tag of its item.
#[derive(Clone, Copy, Debug)]
pub struct PackedRect {
    pub tag: usize,
    pub x: usize,
    pub y: usize,
    pub width: usize,
    pub height: usize,
}

/// A sheet size and the rectangles proposed for it.
#[derive(Debug)]
pub struct Packing {
    pub width: usize,
    pub height: usize,
    pub rects: Vec<PackedRect>,
}

/// A sheet size and one placement per item, in the order of the items.
#[derive(Debug)]
pub struct Layout {
    pub width: u32,
    pub height: u32,
    pub placements: Vec<Placement>,
}

/// A [`Layout`] as a mathematical value.
pub struct LayoutView {
    pub width: u32,
    pub height: u32,
    pub placements: Seq<Placement>,
}

impl View for Layout {
    type V = LayoutView;

    open spec fn view(&self) -> LayoutView {
        LayoutView { width: self.width, height: self.height, placements: self.placements@ }
    }
}

impl LayoutView {
    /// Both sides of the sheet are powers of two within the limit.
    pub open spec fn sheet_allowed(self, max_size: u32) -> bool {
        &&& is_pow2(self.width as int)
        &&& is_pow2(self.height as int)
        &&& self.width <= max_size
        &&& self.height <= max_size
    }

    /// Each item has one placement, of the item's own size, turned only where
    /// the item allows it.
    pub open spec fn matches_items(self, items: Seq<PackItem>) -> bool {
        &&& self.placements.len() == items.len()
        &&& forall|i: int|
            0 <= i < items.len() ==> {
                &&& (#[trigger] self.placements[i]).footprint_of(items[i].width as int, items[i].height as int)
                &&& self.placements[i].rotated ==> items[i].rotation_allowed
            }
    }

    /// Everything a layout owes its items: an allowed sheet, one fitting
    /// placement per item, all of them on the sheet and none colliding.
    pub open spec fn valid_for(self, items: Seq<PackItem>, max_size: u32) -> bool {
        &&& self.sheet_allowed(max_size)
        &&& self.matches_items(items)
        &&& all_within(self.placements, self.width as int, self.height as int)
        &&& pairwise_disjoint(self.placements)
    }
}

/// The items as the search sees them: sizes and turning flags, tagged by
/// position.
pub open spec fn sized(items: Seq<PackItem>) -> Seq<SizedItem> {
    Seq::new(
        items.len(),
        |i: int|
            SizedItem {
                tag: i as usize,
                width: items[i].width as usize,
                height: items[i].height as usize,
                may_rotate: items[i].rotation_allowed,
            },
    )
}

/// The summed area of the items.
pub open spec fn total_area(items: Seq<SizedItem>) -> int
    decreases items.len(),
{
    if items.len() == 0 {
        0
    } else {
        total_area(items.drop_last()) + items.last().width * items.last().height
    }
}

/// Some item is wider or higher than the limit.
pub open spec fn oversized(items: Seq<SizedItem>, max_size: int) -> bool {
    exists|i: int| 0 <= i < items.len() && (#[trigger] items[i]).longer_than(max_size)
}

impl SizedItem {
    /// A side of the item exceeds `limit`.
    pub open spec fn longer_than(self, limit: int) -> bool {
        self.width > limit || self.height > limit
    }
}

/// The machine can do the search's arithmetic for this limit: four times the
/// largest sheet area fits in `usize`.
pub open spec fn side_supported(max_size: u32) -> bool {
    4 * max_size * max_size <= usize::MAX
}

/// Whether [`side_supported`] holds of `max_size`.
pub fn is_side_supported(max_size: u32) -> (ok: bool)
    ensures
        ok == side_supported(max_size),
{
    let side: u128 = max_size as u128;
    assert(side * side <= 0xffff_ffff * 0xffff_ffff) by (nonlinear_arith)
        requires
            0 <= side <= 0xffff_ffff,
    ;
    let square: u128 = side * side;
    assert(4 * max_size * max_size == 4 * square) by (nonlinear_arith)
        requires
            square == max_size * max_size,
    ;
    4 * square <= usize::MAX as u128
}

/// What `crunch::pack_into_po2` answers for a size limit and a list of items:
/// `None` where it reports failure, else the sheet's width and height and the
/// rectangles it chose.
pub uninterp spec fn po2_packing(max_size: usize, items: Seq<SizedItem>) -> Option<(usize, usize, Seq<PackedRect>)>;

/// The view of what [`crunch_pack_into_po2`] hands back.
pub open spec fn packing_view(outcome: Option<Packing>) -> Option<(usize, usize, Seq<PackedRect>)> {
    match outcome {
        Some(packing) => Some((packing.width, packing.height, packing.rects@)),
        None => None,
    }
}

/// Runs `crunch::pack_into_po2` on the items, each tagged with its `tag`, and
/// hands back what it answers.
///
/// The search is deterministic: it sorts with a stable sort and consults
/// nothing but its arguments, so its answer is [`po2_packing`] of them. Nothing
/// else is claimed of the answer. The search does unchecked `usize` arithmetic
/// on the summed area of the items, on an item's area plus its longer side, on
/// twice the square of a candidate side while that is below the summed area,
/// and on the area of candidate sheets no larger than the limit; the
/// `requires` keeps all of these below four times the limit's square.
#[verifier::external_body]
fn crunch_pack_into_po2(max_size: usize, items: &Vec<SizedItem>) -> (outcome: Option<Packing>)
    requires
        4 * max_size * max_size <= usize::MAX,
        !oversized(items@, max_size as int),
        total_area(items@) <= max_size * max_size,
    ensures
        packing_view(outcome) == po2_packing(max_size, items@),
{
    let input = items.iter().map(|i| {
        let rot = if i.may_rotate { crunch::Rotation::Allowed } else { crunch::Rotation::None };
        crunch::Item::new(i.tag, i.width, i.height, rot)
    });
    match crunch::pack_into_po2(max_size, input) {
        Ok(p) => Some(Packing {
            width: p.w,
            height: p.h,
            rects: p.items.iter().map(|i| PackedRect { tag: i.data, x: i.rect.x, y: i.rect.y, width: i.rect.w, height: i.rect.h }).collect(),
        }),
        Err(()) => None,
    }
}

impl PackedRect {
    /// The rectangle has the size of `item`, as it is or, where the item may
    /// be turned, with width and height exchanged.
    pub open spec fn suits(self, item: PackItem) -> bool {
        ||| (self.width == item.width && self.height == item.height)
        ||| (item.rotation_allowed && self.width == item.height && self.height == item.width)
    }

    /// The rectangle lies fully on a sheet of the given size.
    pub open spec fn on_sheet(self, sheet_width: int, sheet_height: int) -> bool {
        self.x + self.width <= sheet_width && self.y + self.height <= sheet_height
    }

    /// The placement that the rectangle means for `item`: turned exactly where
    /// its size is not the item's own.
    pub open spec fn placement_for(self, item: PackItem) -> Placement {
        Placement {
            x: self.x as u32,
            y: self.y as u32,
            width: self.width as u32,
            height: self.height as u32,
            rotated: !(self.width == item.width && self.height == item.height),
        }
    }

    /// The placement of `item` at this rectangle, if the rectangle suits the
    /// item and lies on the sheet.
    pub fn to_placement(&self, item: &PackItem, sheet_width: u32, sheet_height: u32) -> (placement: Option<
        Placement,
    >)
        ensures
            match placement {
                Some(p) => self.suits(*item) && self.on_sheet(sheet_width as int, sheet_height as int) && p
                    == self.placement_for(*item),
                None => !(self.suits(*item) && self.on_sheet(sheet_width as int, sheet_height as int)),
            },
    {
        let own = self.width == item.width as usize && self.height == item.height as usize;
        let turned = item.rotation_allowed && self.width == item.height as usize && self.height
            == item.width as usize;
        if !(own || turned) {
            return None;
        }
        let sheet_w = sheet_width as usize;
        let sheet_h = sheet_height as usize;
        if self.width > sheet_w || self.x > sheet_w - self.width || self.height > sheet_h || self.y > sheet_h
            - self.height {
            return None;
        }
        Some(
            Placement {
                x: self.x as u32,
                y: self.y as u32,
                width: self.width as u32,
                height: self.height as u32,
                rotated: !own,
            },
        )
    }
}

/// The position of the rectangle that carries `tag`.
pub open spec fn rect_of(rects: Seq<PackedRect>, tag: int) -> int {
    choose|k: int| 0 <= k < rects.len() && (#[trigger] rects[k]).tag == tag
}

/// The rectangles answer to the items one for one: there are `count` of them,
/// no tag is out of range, none occurs twice and none is missing.
pub open spec fn tags_match(rects: Seq<PackedRect>, count: int) -> bool {
    &&& rects.len() == count
    &&& forall|k: int| 0 <= k < rects.len() ==> (#[trigger] rects[k]).tag < count
    &&& forall|k: int, l: int|
        0 <= k < l < rects.len() ==> (#[trigger] rects[k]).tag != (#[trigger] rects[l]).tag
    &&& forall|i: int| 0 <= i < count ==> has_tag(rects, i)
}

/// Some rectangle carries `tag`.
pub open spec fn has_tag(rects: Seq<PackedRect>, tag: int) -> bool {
    exists|k: int| 0 <= k < rects.len() && (#[trigger] rects[k]).tag == tag
}

/// The placements that the rectangles mean, in the order of the items.
pub open spec fn placements_of(items: Seq<PackItem>, rects: Seq<PackedRect>) -> Seq<Placement> {
    Seq::new(items.len(), |i: int| rects[rect_of(rects, i)].placement_for(items[i]))
}

/// The proposal can be taken: the sheet is a power of two within the limit,
/// the rectangles answer to the items one for one, each suits its item and
/// lies on the sheet, and no two share a pixel.
pub open spec fn acceptable(
    items: Seq<PackItem>,
    max_size: u32,
    width: usize,
    height: usize,
    rects: Seq<PackedRect>,
) -> bool {
    &&& width <= max_size
    &&& height <= max_size
    &&& is_pow2(width as int)
    &&& is_pow2(height as int)
    &&& tags_match(rects, items.len() as int)
    &&& forall|k: int|
        0 <= k < rects.len() ==> {
            &&& (#[trigger] rects[k]).suits(items[rects[k].tag as int])
            &&& rects[k].on_sheet(width as int, height as int)
        }
    &&& pairwise_disjoint(placements_of(items, rects))
}

/// What [`arrange`] makes of the search's answer: no answer means that the
/// items do not fit, an acceptable one becomes the layout, and any other is a
/// broken promise of the search.
pub open spec fn arranged(
    items: Seq<PackItem>,
    max_size: u32,
    outcome: Option<(usize, usize, Seq<PackedRect>)>,
) -> Result<LayoutView, PackerError> {
    match outcome {
        None => Err(PackerError::PackingInfeasible),
        Some((width, height, rects)) => if acceptable(items, max_size, width, height, rects) {
            Ok(LayoutView { width: width as u32, height: height as u32, placements: placements_of(items, rects) })
        } else {
            Err(PackerError::InternalGeometryViolation)
        },
    }
}

/// Whatever the search answered, a layout that [`arranged`] lets through is
/// valid for its items: the sheet is a power of two within the limit, every
/// item has its placement, of its own size and turned only where allowed, all
/// placements lie on the sheet, and no two of them share a pixel.
pub proof fn lemma_arranged_is_valid(
    items: Seq<PackItem>,
    max_size: u32,
    outcome: Option<(usize, usize, Seq<PackedRect>)>,
)
    ensures
        arranged(items, max_size, outcome) matches Ok(layout) ==> layout.valid_for(items, max_size),
{
    if let Ok(layout) = arranged(items, max_size, outcome) {
        let (width, height, rects) = outcome.unwrap();
        assert forall|i: int| 0 <= i < items.len() implies {
            &&& (#[trigger] layout.placements[i]).footprint_of(items[i].width as int, items[i].height as int)
            &&& layout.placements[i].rotated ==> items[i].rotation_allowed
            &&& layout.placements[i].within(layout.width as int, layout.height as int)
        } by {
            assert(has_tag(rects, i));
            let k = rect_of(rects, i);
            assert(rects[k].suits(items[rects[k].tag as int]));
        }
    }
}

/// Turns the search's answer into a layout, or says why there is none.
///
/// Without an answer the items do not fit: [`PackerError::PackingInfeasible`].
/// An answer is taken only if it is [`acceptable`]; the layout then lists, for
/// each item in input order, the placement its rectangle means. Any other
/// answer is an [`PackerError::InternalGeometryViolation`].
#[verifier::loop_isolation(false)]
pub fn arrange(items: &Vec<PackItem>, max_size: u32, outcome: Option<Packing>) -> (result: Result<
    Layout,
    PackerError,
>)
    ensures
        match result {
            Ok(layout) => arranged(items@, max_size, packing_view(outcome)) == Ok::<LayoutView, PackerError>(
                layout@,
            ) && layout@.valid_for(items@, max_size),
            Err(e) => arranged(items@, max_size, packing_view(outcome)) == Err::<LayoutView, PackerError>(e),
        },
{
    let packing = match outcome {
        Some(packing) => packing,
        None => {
            return Err(PackerError::PackingInfeasible);
        },
    };
    let n = items.len();
    let limit = max_size as usize;
    if packing.width > limit || packing.height > limit {
        return Err(PackerError::InternalGeometryViolation);
    }
    let sheet_width = packing.width as u32;
    let sheet_height = packing.height as u32;
    if !is_power_of_two(sheet_width) || !is_power_of_two(sheet_height) {
        return Err(PackerError::InternalGeometryViolation);
    }
    if packing.rects.len() != n {
        return Err(PackerError::InternalGeometryViolation);
    }
    let ghost rects = packing.rects@;
    let mut slots: Vec<Option<Placement>> = Vec::new();
    while slots.len() < n
        invariant
            slots.len() <= n,
            forall|i: int| 0 <= i < slots.len() ==> slots@[i] is None,
        decreases n - slots.len(),
    {
        slots.push(None);
    }
    let mut k: usize = 0;
    while k < n
        invariant
            k <= n,
            n == items.len(),
            n == rects.len(),
            n == slots.len(),
            rects == packing.rects@,
            forall|j: int|
                0 <= j < k ==> {
                    &&& (#[trigger] rects[j]).tag < n
                    &&& rects[j].suits(items@[rects[j].tag as int])
                    &&& rects[j].on_sheet(sheet_width as int, sheet_height as int)
                    &&& slots@[rects[j].tag as int] == Some(rects[j].placement_for(items@[rects[j].tag as int]))
                },
            forall|j: int, l: int| 0 <= j < l < k ==> (#[trigger] rects[j]).tag != (#[trigger] rects[l]).tag,
            forall|i: int| 0 <= i < n && (#[trigger] slots@[i]) is Some ==> has_tag(rects.take(k as int), i),
        decreases n - k,
    {
        let rect = packing.rects[k];
        if rect.tag >= n {
            return Err(PackerError::InternalGeometryViolation);
        }
        if slots[rect.tag].is_some() {
            proof {
                let earlier = rect_of(rects.take(k as int), rect.tag as int);
                assert(rects.take(k as int)[earlier] == rects[earlier]);
                assert(rects[earlier].tag == rects[k as int].tag);
            }
            return Err(PackerError::InternalGeometryViolation);
        }
        let placement = match rect.to_placement(&items[rect.tag], sheet_width, sheet_height) {
            Some(placement) => placement,
            None => {
                return Err(PackerError::InternalGeometryViolation);
            },
        };
        let ghost before = slots@;
        slots.set(rect.tag, Some(placement));
        proof {
            assert forall|i: int| 0 <= i < n && (#[trigger] slots@[i]) is Some implies has_tag(
                rects.take(k + 1),
                i,
            ) by {
                if i == rect.tag {
                    assert(rects.take(k + 1)[k as int].tag == i);
                } else {
                    assert(before[i] is Some);
                    let earlier = rect_of(rects.take(k as int), i);
                    assert(rects.take(k + 1)[earlier] == rects.take(k as int)[earlier]);
                }
            }
            assert forall|j: int| 0 <= j < k implies (#[trigger] rects[j]).tag != rect.tag by {
                if rects[j].tag == rect.tag {
                    assert(before[rects[j].tag as int] is Some);
                }
            }
        }
        k += 1;
    }
    let mut placements: Vec<Placement> = Vec::new();
    let mut i: usize = 0;
    while i < n
        invariant
            i <= n,
            n == slots.len(),
            placements.len() == i,
            forall|m: int| 0 <= m < i ==> slots@[m] == Some(#[trigger] placements@[m]),
        decreases n - i,
    {
        match slots[i] {
            Some(placement) => {
                placements.push(placement);
            },
            None => {
                proof {
                    assert(!has_tag(rects, i as int)) by {
                        if has_tag(rects, i as int) {
                            let at = rect_of(rects, i as int);
                            assert(slots@[rects[at].tag as int] is Some);
                        }
                    }
                }
                return Err(PackerError::InternalGeometryViolation);
            },
        }
        i += 1;
    }
    proof {
        assert(rects.take(n as int) =~= rects);
        assert forall|m: int| 0 <= m < n implies has_tag(rects, m) by {
            assert(slots@[m] == Some(placements@[m]));
        }
        assert forall|m: int| 0 <= m < n implies placements@[m] == #[trigger] placements_of(items@, rects)[m] by {
            assert(has_tag(rects, m));
            let at = rect_of(rects, m);
            assert(slots@[rects[at].tag as int] == Some(rects[at].placement_for(items@[rects[at].tag as int])));
            assert(slots@[m] == Some(placements@[m]));
        }
        assert(placements@ =~= placements_of(items@, rects));
    }
    if !non_overlapping(&placements) {
        return Err(PackerError::InternalGeometryViolation);
    }
    let layout = Layout { width: sheet_width, height: sheet_height, placements };
    proof {
        assert(acceptable(items@, max_size, packing.width, packing.height, rects));
        lemma_arranged_is_valid(items@, max_size, packing_view(outcome));
    }
    Ok(layout)
}

/// The area of the first items of a list is no more than the area of all.
pub proof fn lemma_total_area_grows(items: Seq<SizedItem>, count: int)
    requires
        0 <= count <= items.len(),
    ensures
        0 <= total_area(items.take(count)) <= total_area(items),
    decreases items.len(),
{
    if count == items.len() {
        assert(items.take(count) =~= items);
        if items.len() > 0 {
            lemma_total_area_grows(items.drop_last(), count - 1);
            assert(items.drop_last().take(count - 1) =~= items.drop_last());
        }
    } else {
        lemma_total_area_grows(items.drop_last(), count);
        assert(items.drop_last().take(count) =~= items.take(count));
    }
    if items.len() > 0 {
        assert(items.last().width * items.last().height >= 0) by (nonlinear_arith)
            requires
                items.last().width >= 0,
                items.last().height >= 0,
        ;
    }
}

/// The sizes of the items, tagged by position.
pub fn item_sizes(items: &Vec<PackItem>) -> (sizes: Vec<SizedItem>)
    ensures
        sizes@ == sized(items@),
{
    let mut sizes: Vec<SizedItem> = Vec::new();
    let mut i: usize = 0;
    while i < items.len()
        invariant
            i <= items.len(),
            sizes.len() == i,
            forall|j: int| 0 <= j < i ==> #[trigger] sizes@[j] == sized(items@)[j],
        decreases items.len() - i,
    {
        let item = &items[i];
        sizes.push(
            SizedItem {
                tag: i,
                width: item.width as usize,
                height: item.height as usize,
                may_rotate: item.rotation_allowed,
            },
        );
        i += 1;
    }
    assert(sizes@ =~= sized(items@));
    sizes
}

/// Whether the items could fit at all: no side exceeds the limit and the
/// summed area is no more than the largest sheet's.
pub fn within_limit(sizes: &Vec<SizedItem>, max_size: u32) -> (ok: bool)
    ensures
        ok == (!oversized(sizes@, max_size as int) && total_area(sizes@) <= max_size * max_size),
{
    let limit: u128 = max_size as u128;
    assert(limit * limit <= 0xffff_ffff * 0xffff_ffff) by (nonlinear_arith)
        requires
            0 <= limit <= 0xffff_ffff,
    ;
    let largest: u128 = limit * limit;
    let mut sum: u128 = 0;
    let mut i: usize = 0;
    while i < sizes.len()
        invariant
            i <= sizes.len(),
            limit == max_size,
            largest == limit * limit,
            largest <= 0xffff_ffff * 0xffff_ffff,
            sum == total_area(sizes@.take(i as int)),
            sum <= largest,
            forall|j: int| 0 <= j < i ==> !(#[trigger] sizes@[j]).longer_than(max_size as int),
        decreases sizes.len() - i,
    {
        let item = sizes[i];
        if item.width > max_size as usize || item.height > max_size as usize {
            return false;
        }
        assert(item.width * item.height <= limit * limit) by (nonlinear_arith)
            requires
                0 <= item.width <= limit,
                0 <= item.height <= limit,
        ;
        let area: u128 = item.width as u128 * item.height as u128;
        proof {
            assert(sizes@.take(i + 1).drop_last() =~= sizes@.take(i as int));
            lemma_total_area_grows(sizes@, i + 1);
        }
        sum = sum + area;
        if sum > largest {
            return false;
        }
        i += 1;
    }
    assert(sizes@.take(i as int) =~= sizes@);
    true
}

/// What the packer answers for the items and the limit.
///
/// Items with a side beyond the limit, or with more area than the largest
/// sheet, do not fit. No items at all get the smallest sheet, 2 x 2, where
/// the limit allows one. Everything else is put to the search, and its answer
/// is taken as [`arranged`] says.
pub open spec fn packed(items: Seq<PackItem>, max_size: u32) -> Result<LayoutView, PackerError> {
    if oversized(sized(items), max_size as int) || total_area(sized(items)) > max_size * max_size {
        Err(PackerError::PackingInfeasible)
    } else if items.len() == 0 {
        if max_size >= 2 {
            Ok(LayoutView { width: 2, height: 2, placements: Seq::empty() })
        } else {
            Err(PackerError::PackingInfeasible)
        }
    } else {
        arranged(items, max_size, po2_packing(max_size as usize, sized(items)))
    }
}

/// Two lists of items have the same sizes and turning flags in the same order.
pub open spec fn same_shapes(first: Seq<PackItem>, second: Seq<PackItem>) -> bool {
    &&& first.len() == second.len()
    &&& forall|i: int|
        0 <= i < first.len() ==> {
            &&& (#[trigger] first[i]).width == second[i].width
            &&& first[i].height == second[i].height
            &&& first[i].rotation_allowed == second[i].rotation_allowed
        }
}

/// Every layout that the packer answers with is valid for its items: the sheet
/// is a power of two within the limit, every item has its placement, of its
/// own size and turned only where allowed, all placements lie on the sheet,
/// and no two of them share a pixel.
pub proof fn lemma_packed_is_valid(items: Seq<PackItem>, max_size: u32)
    ensures
        packed(items, max_size) matches Ok(layout) ==> layout.valid_for(items, max_size),
{
    if items.len() == 0 {
        reveal_with_fuel(is_pow2, 2);
        assert(is_pow2(2));
    } else {
        lemma_arranged_is_valid(items, max_size, po2_packing(max_size as usize, sized(items)));
    }
}

/// Packing is a function of the items' sizes, turning flags and order and of
/// the limit: lists that agree in these get the same sheet and the same
/// placements, whatever the items are called and however often it is asked.
pub proof fn lemma_packed_is_deterministic(first: Seq<PackItem>, second: Seq<PackItem>, max_size: u32)
    requires
        same_shapes(first, second),
    ensures
        packed(first, max_size) == packed(second, max_size),
{
    assert(sized(first) =~= sized(second));
    if first.len() > 0 {
        if let Some((width, height, rects)) = po2_packing(max_size as usize, sized(first)) {
            assert(placements_of(first, rects) =~= placements_of(second, rects));
            if tags_match(rects, first.len() as int) {
                assert forall|k: int| 0 <= k < rects.len() implies (#[trigger] rects[k]).suits(
                    first[rects[k].tag as int],
                ) == rects[k].suits(second[rects[k].tag as int]) by {
                    assert(first[rects[k].tag as int].width == second[rects[k].tag as int].width);
                }
            }
        }
    }
}

/// Packs the items: chooses a power-of-two sheet no larger than `max_size` a
/// side and a place on it for every item, or reports that they do not fit.
///
/// The answer is [`packed`] of the items and the limit. A layout that comes
/// back is valid for the items; the items keep their order in it.
pub fn pack_items(items: &Vec<PackItem>, max_size: u32) -> (result: Result<Layout, PackerError>)
    requires
        side_supported(max_size),
    ensures
        match result {
            Ok(layout) => packed(items@, max_size) == Ok::<LayoutView, PackerError>(layout@) && layout@.valid_for(
                items@,
                max_size,
            ),
            Err(e) => packed(items@, max_size) == Err::<LayoutView, PackerError>(e),
        },
{
    let sizes = item_sizes(items);
    if !within_limit(&sizes, max_size) {
        return Err(PackerError::PackingInfeasible);
    }
    if items.len() == 0 {
        if max_size < 2 {
            return Err(PackerError::PackingInfeasible);
        }
        proof {
            lemma_packed_is_valid(items@, max_size);
        }
        return Ok(Layout { width: 2, height: 2, placements: Vec::new() });
    }
    arrange(items, max_size, crunch_pack_into_po2(max_size as usize, &sizes))
}

} // verus!
