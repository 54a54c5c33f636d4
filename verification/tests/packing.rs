use atlas_packer::geometry::{is_power_of_two, non_overlapping};
use atlas_packer::packer::{is_side_supported, item_sizes, within_limit};
use atlas_packer::{arrange, pack_items, Layout, PackItem, PackedRect, PackerError, Packing, Placement};

fn item(name: &str, width: u32, height: u32, rotation_allowed: bool) -> PackItem {
    PackItem { name: name.to_string(), width, height, rotation_allowed }
}

fn check_layout(items: &[PackItem], max_size: u32, layout: &Layout) {
    assert!(layout.width.is_power_of_two());
    assert!(layout.height.is_power_of_two());
    assert!(layout.width <= max_size);
    assert!(layout.height <= max_size);
    assert_eq!(layout.placements.len(), items.len());
    for (placement, item) in layout.placements.iter().zip(items) {
        if placement.rotated {
            assert!(item.rotation_allowed);
            assert_eq!((placement.width, placement.height), (item.height, item.width));
        } else {
            assert_eq!((placement.width, placement.height), (item.width, item.height));
        }
        assert!(placement.x + placement.width <= layout.width);
        assert!(placement.y + placement.height <= layout.height);
    }
    for (i, a) in layout.placements.iter().enumerate() {
        for b in layout.placements.iter().skip(i + 1) {
            let apart = a.x + a.width <= b.x
                || b.x + b.width <= a.x
                || a.y + a.height <= b.y
                || b.y + b.height <= a.y
                || a.width == 0
                || a.height == 0
                || b.width == 0
                || b.height == 0;
            assert!(apart, "{:?} and {:?} collide", a, b);
        }
    }
}

#[test]
fn three_squares_fill_the_smallest_sheet() {
    let items = vec![item("a", 64, 64, false), item("b", 64, 64, false), item("c", 128, 128, false)];
    let layout = pack_items(&items, 256).unwrap();
    assert!(
        (layout.width, layout.height) == (256, 128) || (layout.width, layout.height) == (128, 256),
        "sheet is {}x{}",
        layout.width,
        layout.height
    );
    check_layout(&items, 256, &layout);
    assert!(layout.placements.iter().all(|p| !p.rotated));
    let covered: u32 = layout.placements.iter().map(|p| p.width * p.height).sum();
    assert_eq!(covered, 64 * 64 * 2 + 128 * 128);
}

#[test]
fn an_item_larger_than_the_limit_does_not_fit() {
    let items = vec![item("big", 300, 300, false)];
    assert_eq!(pack_items(&items, 256).unwrap_err(), PackerError::PackingInfeasible);
}

#[test]
fn turning_does_not_help_an_item_longer_than_the_limit() {
    let items = vec![item("tall", 50, 100, true)];
    assert_eq!(pack_items(&items, 64).unwrap_err(), PackerError::PackingInfeasible);
}

#[test]
fn an_item_is_turned_where_only_that_fits() {
    let items = vec![item("wide", 128, 64, true), item("tall", 64, 128, true)];
    let layout = pack_items(&items, 128).unwrap();
    assert_eq!((layout.width, layout.height), (128, 128));
    check_layout(&items, 128, &layout);
    let turned = layout.placements.iter().filter(|p| p.rotated).count();
    assert_eq!(turned, 1);
    for placement in &layout.placements {
        assert_eq!((placement.width, placement.height), (128, 64));
    }
}

#[test]
fn nothing_is_turned_without_leave() {
    let items = vec![item("wide", 128, 64, false), item("tall", 64, 128, false)];
    let layout = pack_items(&items, 256).unwrap();
    check_layout(&items, 256, &layout);
    assert!(layout.placements.iter().all(|p| !p.rotated));
    assert_eq!(pack_items(&items, 128).unwrap_err(), PackerError::PackingInfeasible);
}

#[test]
fn no_items_get_the_smallest_sheet() {
    let items: Vec<PackItem> = Vec::new();
    let layout = pack_items(&items, 1024).unwrap();
    assert_eq!((layout.width, layout.height), (2, 2));
    assert!(layout.placements.is_empty());
    let smallest = pack_items(&items, 2).unwrap();
    assert_eq!((smallest.width, smallest.height), (2, 2));
}

#[test]
fn a_limit_below_two_admits_no_sheet() {
    let none: Vec<PackItem> = Vec::new();
    assert_eq!(pack_items(&none, 1).unwrap_err(), PackerError::PackingInfeasible);
    assert_eq!(pack_items(&none, 0).unwrap_err(), PackerError::PackingInfeasible);
    let one = vec![item("dot", 1, 1, false)];
    assert_eq!(pack_items(&one, 1).unwrap_err(), PackerError::PackingInfeasible);
}

#[test]
fn the_empty_answer_is_the_search_s_own() {
    let found = crunch::pack_into_po2(1024, Vec::<crunch::Item<usize>>::new()).ok().unwrap();
    assert_eq!((found.w, found.h), (2, 2));
    assert!(found.items.is_empty());
    assert!(crunch::pack_into_po2(1, Vec::<crunch::Item<usize>>::new()).is_err());
}

#[test]
fn too_much_area_does_not_fit() {
    let items = vec![item("a", 64, 64, false), item("b", 64, 64, false), item("c", 1, 1, false)];
    assert_eq!(pack_items(&items, 64).unwrap_err(), PackerError::PackingInfeasible);
}

#[test]
fn the_sheet_is_a_power_of_two_under_an_odd_limit() {
    let items = vec![item("a", 30, 30, false), item("b", 30, 30, false)];
    let layout = pack_items(&items, 100).unwrap();
    check_layout(&items, 100, &layout);
    assert_eq!((layout.width, layout.height), (64, 32));
}

#[test]
fn many_items_are_all_placed_apart() {
    let mut items = Vec::new();
    for i in 0..40u32 {
        items.push(item(&format!("sprite{}", i), 3 + (i * 7) % 29, 2 + (i * 11) % 23, i % 3 == 0));
    }
    let layout = pack_items(&items, 512).unwrap();
    check_layout(&items, 512, &layout);
    assert!(non_overlapping(&layout.placements));
}

#[test]
fn items_without_area_are_placed_too() {
    let items = vec![item("line", 0, 5, false), item("dot", 0, 0, true), item("box", 4, 4, false)];
    let layout = pack_items(&items, 16).unwrap();
    check_layout(&items, 16, &layout);
}

#[test]
fn packing_twice_gives_the_same_layout() {
    let mut items = Vec::new();
    for i in 0..25u32 {
        items.push(item(&format!("s{}", i), 5 + (i * 13) % 40, 4 + (i * 17) % 31, i % 2 == 0));
    }
    let first = pack_items(&items, 256).unwrap();
    let second = pack_items(&items, 256).unwrap();
    assert_eq!(first.width, second.width);
    assert_eq!(first.height, second.height);
    assert_eq!(first.placements, second.placements);
}

#[test]
fn names_do_not_matter_to_the_layout() {
    let named = vec![item("a", 20, 10, true), item("b", 10, 20, true), item("c", 7, 7, false)];
    let renamed = vec![item("x", 20, 10, true), item("x", 10, 20, true), item("", 7, 7, false)];
    let first = pack_items(&named, 64).unwrap();
    let second = pack_items(&renamed, 64).unwrap();
    assert_eq!((first.width, first.height), (second.width, second.height));
    assert_eq!(first.placements, second.placements);
}

#[test]
fn placements_follow_the_order_of_the_items() {
    let items = vec![item("small", 8, 8, false), item("large", 32, 32, false), item("mid", 16, 16, false)];
    let layout = pack_items(&items, 64).unwrap();
    assert_eq!((layout.placements[0].width, layout.placements[0].height), (8, 8));
    assert_eq!((layout.placements[1].width, layout.placements[1].height), (32, 32));
    assert_eq!((layout.placements[2].width, layout.placements[2].height), (16, 16));
    assert_eq!((layout.placements[1].x, layout.placements[1].y), (0, 0));
}

#[test]
fn the_layout_is_what_the_search_found() {
    let items = vec![item("a", 20, 10, true), item("b", 10, 20, true), item("c", 7, 7, false), item("d", 30, 3, true)];
    let layout = pack_items(&items, 64).unwrap();
    let input = items.iter().enumerate().map(|(i, it)| {
        let rot = if it.rotation_allowed { crunch::Rotation::Allowed } else { crunch::Rotation::None };
        crunch::Item::new(i, it.width as usize, it.height as usize, rot)
    });
    let found = crunch::pack_into_po2(64, input).ok().unwrap();
    assert_eq!((layout.width as usize, layout.height as usize), (found.w, found.h));
    assert_eq!(found.items.len(), items.len());
    for packed in &found.items {
        let placement = layout.placements[packed.data];
        assert_eq!(placement.x as usize, packed.rect.x);
        assert_eq!(placement.y as usize, packed.rect.y);
        assert_eq!(placement.width as usize, packed.rect.w);
        assert_eq!(placement.height as usize, packed.rect.h);
        assert_eq!(placement.rotated, packed.rect.w != items[packed.data].width as usize);
    }
}

fn rect(tag: usize, x: usize, y: usize, width: usize, height: usize) -> PackedRect {
    PackedRect { tag, x, y, width, height }
}

fn two_items() -> Vec<PackItem> {
    vec![item("a", 4, 2, true), item("b", 3, 3, false)]
}

#[test]
fn arrange_takes_a_sound_answer() {
    let items = two_items();
    let answer = Packing { width: 8, height: 4, rects: vec![rect(1, 0, 0, 3, 3), rect(0, 3, 0, 2, 4)] };
    let layout = arrange(&items, 8, Some(answer)).unwrap();
    assert_eq!((layout.width, layout.height), (8, 4));
    assert_eq!(
        layout.placements,
        vec![
            Placement { x: 3, y: 0, width: 2, height: 4, rotated: true },
            Placement { x: 0, y: 0, width: 3, height: 3, rotated: false },
        ]
    );
}

#[test]
fn arrange_without_an_answer_reports_no_fit() {
    assert_eq!(arrange(&two_items(), 8, None).unwrap_err(), PackerError::PackingInfeasible);
}

fn refused(width: usize, height: usize, rects: Vec<PackedRect>, max_size: u32) {
    let outcome = arrange(&two_items(), max_size, Some(Packing { width, height, rects }));
    assert_eq!(outcome.unwrap_err(), PackerError::InternalGeometryViolation);
}

#[test]
fn arrange_refuses_a_sheet_that_is_no_power_of_two() {
    refused(6, 4, vec![rect(0, 0, 0, 4, 2), rect(1, 0, 2, 3, 2)], 8);
    refused(8, 0, vec![rect(0, 0, 0, 4, 2), rect(1, 4, 0, 3, 3)], 8);
}

#[test]
fn arrange_refuses_a_sheet_beyond_the_limit() {
    refused(16, 4, vec![rect(0, 0, 0, 4, 2), rect(1, 4, 0, 3, 3)], 8);
    refused(4, 16, vec![rect(0, 0, 0, 4, 2), rect(1, 0, 2, 3, 3)], 8);
}

#[test]
fn arrange_refuses_colliding_rectangles() {
    refused(8, 4, vec![rect(0, 0, 0, 4, 2), rect(1, 3, 1, 3, 3)], 8);
}

#[test]
fn arrange_refuses_a_rectangle_off_the_sheet() {
    refused(8, 4, vec![rect(0, 5, 0, 4, 2), rect(1, 0, 0, 3, 3)], 8);
    refused(8, 4, vec![rect(0, 0, 3, 4, 2), rect(1, 4, 0, 3, 3)], 8);
    refused(8, 4, vec![rect(0, usize::MAX, 0, 4, 2), rect(1, 0, 0, 3, 3)], 8);
}

#[test]
fn arrange_refuses_a_missing_or_doubled_item() {
    refused(8, 4, vec![rect(0, 0, 0, 4, 2)], 8);
    refused(8, 4, vec![rect(0, 0, 0, 4, 2), rect(0, 4, 0, 4, 2)], 8);
    refused(8, 4, vec![rect(0, 0, 0, 4, 2), rect(2, 4, 0, 3, 3)], 8);
    refused(8, 4, vec![rect(0, 0, 0, 4, 2), rect(1, 4, 0, 3, 3), rect(1, 0, 2, 1, 1)], 8);
}

#[test]
fn arrange_refuses_a_rectangle_of_the_wrong_size() {
    refused(8, 4, vec![rect(0, 0, 0, 4, 3), rect(1, 4, 0, 3, 3)], 8);
    refused(8, 4, vec![rect(0, 0, 0, 4, 2), rect(1, 4, 0, 3, 2)], 8);
}

#[test]
fn arrange_refuses_a_turn_that_is_not_allowed() {
    let items = vec![item("a", 4, 2, false)];
    let answer = Packing { width: 4, height: 4, rects: vec![rect(0, 0, 0, 2, 4)] };
    assert_eq!(arrange(&items, 4, Some(answer)).unwrap_err(), PackerError::InternalGeometryViolation);
}

#[test]
fn a_square_is_never_called_turned() {
    let items = vec![item("a", 3, 3, true)];
    let answer = Packing { width: 4, height: 4, rects: vec![rect(0, 1, 1, 3, 3)] };
    let layout = arrange(&items, 4, Some(answer)).unwrap();
    assert_eq!(layout.placements, vec![Placement { x: 1, y: 1, width: 3, height: 3, rotated: false }]);
}

#[test]
fn sizes_are_tagged_by_position() {
    let sizes = item_sizes(&two_items());
    assert_eq!(sizes.len(), 2);
    assert_eq!((sizes[0].tag, sizes[0].width, sizes[0].height, sizes[0].may_rotate), (0, 4, 2, true));
    assert_eq!((sizes[1].tag, sizes[1].width, sizes[1].height, sizes[1].may_rotate), (1, 3, 3, false));
}

#[test]
fn the_limit_bounds_sides_and_area() {
    let sizes = item_sizes(&two_items());
    assert!(within_limit(&sizes, 5));
    assert!(!within_limit(&sizes, 4));
    assert!(!within_limit(&sizes, 3));
    let slim = item_sizes(&vec![item("a", 4, 2, true), item("b", 2, 4, false)]);
    assert!(within_limit(&slim, 4));
    assert!(!within_limit(&slim, 3));
    let full = item_sizes(&vec![item("a", 4, 4, false)]);
    assert!(within_limit(&full, 4));
    let over = item_sizes(&vec![item("a", 4, 4, false), item("b", 1, 1, false)]);
    assert!(!within_limit(&over, 4));
    assert!(within_limit(&Vec::new(), 0));
}

#[test]
fn common_limits_are_supported() {
    assert!(is_side_supported(0));
    assert!(is_side_supported(1024));
    assert!(is_side_supported(16384));
    assert_eq!(is_side_supported(u32::MAX), 4u128 * (u32::MAX as u128) * (u32::MAX as u128) <= usize::MAX as u128);
}

#[test]
fn powers_of_two_are_told_apart() {
    assert!(!is_power_of_two(0));
    assert!(is_power_of_two(1));
    assert!(is_power_of_two(2));
    assert!(!is_power_of_two(3));
    assert!(is_power_of_two(256));
    assert!(!is_power_of_two(384));
    assert!(is_power_of_two(1 << 31));
    assert!(!is_power_of_two(u32::MAX));
}

#[test]
fn placements_overlap_only_where_they_share_a_pixel() {
    let a = Placement { x: 0, y: 0, width: 4, height: 4, rotated: false };
    let beside = Placement { x: 4, y: 0, width: 4, height: 4, rotated: false };
    let below = Placement { x: 0, y: 4, width: 4, height: 4, rotated: true };
    let corner = Placement { x: 3, y: 3, width: 2, height: 2, rotated: false };
    let empty = Placement { x: 1, y: 1, width: 0, height: 3, rotated: false };
    let far = Placement { x: u32::MAX, y: u32::MAX, width: u32::MAX, height: u32::MAX, rotated: false };
    assert!(!a.overlaps(&beside));
    assert!(!a.overlaps(&below));
    assert!(a.overlaps(&corner));
    assert!(corner.overlaps(&a));
    assert!(a.overlaps(&a));
    assert!(!a.overlaps(&empty));
    assert!(!empty.overlaps(&empty));
    assert!(!a.overlaps(&far));
    assert!(far.overlaps(&far));
    assert!(non_overlapping(&vec![a, beside, below, empty]));
    assert!(!non_overlapping(&vec![a, beside, below, corner]));
    assert!(non_overlapping(&Vec::new()));
}

#[test]
fn placements_fit_where_they_end_on_the_sheet() {
    let p = Placement { x: 2, y: 1, width: 6, height: 3, rotated: false };
    assert!(p.fits_within(8, 4));
    assert!(!p.fits_within(7, 4));
    assert!(!p.fits_within(8, 3));
    let far = Placement { x: u32::MAX, y: 0, width: 1, height: 1, rotated: false };
    assert!(!far.fits_within(u32::MAX, u32::MAX));
}
