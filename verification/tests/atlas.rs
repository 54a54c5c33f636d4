use atlas_packer::raster::{Image, Rgba};
use atlas_packer::{
    build_items, pack, ImageTexture, OutputPlan, OutputType, PackItem, PackerAtlas, PackerConfig,
    PackerConfigOptions, PackerError, Placement,
};

fn colour(x: u32, y: u32, salt: u8) -> Rgba {
    Rgba { r: x as u8, g: y as u8, b: salt, a: 200 }
}

fn sprite(name: &str, width: u32, height: u32, salt: u8) -> ImageTexture {
    let mut pixels = Vec::new();
    for y in 0..height {
        for x in 0..width {
            pixels.push(colour(x, y, salt));
        }
    }
    ImageTexture::new(name.to_string(), Image::from_pixels(width, height, pixels).unwrap())
}

fn options(max_size: u32, rotation: bool) -> PackerConfigOptions {
    PackerConfigOptions { max_size, show_extension: true, rotation }
}

fn check_sheet(sprites: &[ImageTexture], sheet: &Image, table: &PackerAtlas) {
    let mut covered = vec![false; (sheet.width() * sheet.height()) as usize];
    assert_eq!(table.len(), sprites.len());
    for (k, texture) in sprites.iter().enumerate() {
        let frame = table.frame(k);
        assert_eq!(frame.name, texture.name);
        assert_eq!(table.get(&texture.name), Some(frame.placement));
        let p = frame.placement;
        for j in 0..p.height {
            for i in 0..p.width {
                let source = if p.rotated {
                    texture.img.get_pixel(j, texture.img.height() - 1 - i)
                } else {
                    texture.img.get_pixel(i, j)
                };
                assert_eq!(sheet.get_pixel(p.x + i, p.y + j), source);
                let at = ((p.y + j) * sheet.width() + p.x + i) as usize;
                assert!(!covered[at]);
                covered[at] = true;
            }
        }
    }
    for y in 0..sheet.height() {
        for x in 0..sheet.width() {
            if !covered[(y * sheet.width() + x) as usize] {
                assert_eq!(sheet.get_pixel(x, y), Rgba { r: 0, g: 0, b: 0, a: 0 });
            }
        }
    }
}

#[test]
fn the_defaults_are_a_sheet_of_1024_without_turning() {
    let defaults = PackerConfigOptions::default();
    assert_eq!(defaults.max_size, 1024);
    assert!(defaults.show_extension);
    assert!(!defaults.rotation);
}

#[test]
fn the_atlas_shows_and_lists_every_sprite() {
    let sprites = vec![sprite("a.png", 64, 64, 1), sprite("b.png", 64, 64, 2), sprite("c.png", 128, 128, 3)];
    let (sheet, table) = pack(&sprites, &options(256, false), "out/atlas.png").unwrap();
    assert!((sheet.width(), sheet.height()) == (256, 128) || (sheet.width(), sheet.height()) == (128, 256));
    assert_eq!(table.sheet_path(), "out/atlas.png");
    check_sheet(&sprites, &sheet, &table);
    for k in 0..3 {
        assert!(!table.frame(k).placement.rotated);
    }
}

#[test]
fn a_turned_sprite_is_painted_turned() {
    let sprites = vec![sprite("wide", 8, 4, 1), sprite("tall", 4, 8, 2)];
    let (sheet, table) = pack(&sprites, &options(8, true), "sheet.png").unwrap();
    assert_eq!((sheet.width(), sheet.height()), (8, 8));
    check_sheet(&sprites, &sheet, &table);
    let turned = (0..2).filter(|k| table.frame(*k).placement.rotated).count();
    assert_eq!(turned, 1);
}

#[test]
fn many_sprites_end_up_where_the_table_says() {
    let mut sprites = Vec::new();
    for i in 0..30u32 {
        sprites.push(sprite(&format!("s{}", i), 1 + (i * 5) % 17, 1 + (i * 3) % 13, i as u8));
    }
    let (sheet, table) = pack(&sprites, &options(128, true), "many.png").unwrap();
    assert!(sheet.width().is_power_of_two() && sheet.height().is_power_of_two());
    assert!(sheet.width() <= 128 && sheet.height() <= 128);
    check_sheet(&sprites, &sheet, &table);
}

#[test]
fn packing_the_same_sprites_twice_gives_the_same_atlas() {
    let mut sprites = Vec::new();
    for i in 0..12u32 {
        sprites.push(sprite(&format!("s{}", i), 2 + (i * 7) % 19, 3 + (i * 5) % 11, i as u8));
    }
    let (first_sheet, first_table) = pack(&sprites, &options(64, true), "twice.png").unwrap();
    let (second_sheet, second_table) = pack(&sprites, &options(64, true), "twice.png").unwrap();
    assert_eq!((first_sheet.width(), first_sheet.height()), (second_sheet.width(), second_sheet.height()));
    assert_eq!(first_sheet.pixels(), second_sheet.pixels());
    assert_eq!(first_table.len(), second_table.len());
    for k in 0..first_table.len() {
        assert_eq!(first_table.frame(k).name, second_table.frame(k).name);
        assert_eq!(first_table.frame(k).placement, second_table.frame(k).placement);
    }
}

#[test]
fn no_sprites_give_an_empty_atlas() {
    let (sheet, table) = pack(&Vec::new(), &options(1024, false), "empty.png").unwrap();
    assert_eq!((sheet.width(), sheet.height()), (2, 2));
    assert_eq!(table.len(), 0);
    assert_eq!(table.sheet_path(), "empty.png");
    check_sheet(&[], &sheet, &table);
}

#[test]
fn a_sprite_too_large_gives_no_atlas() {
    let sprites = vec![sprite("big", 300, 300, 1)];
    assert_eq!(pack(&sprites, &options(256, false), "x.png").unwrap_err(), PackerError::PackingInfeasible);
    let tall = vec![sprite("tall", 50, 100, 1)];
    assert_eq!(pack(&tall, &options(64, true), "x.png").unwrap_err(), PackerError::PackingInfeasible);
}

#[test]
fn two_sprites_of_one_name_give_no_atlas() {
    let sprites = vec![sprite("same", 4, 4, 1), sprite("other", 4, 4, 2), sprite("same", 2, 2, 3)];
    assert_eq!(pack(&sprites, &options(64, false), "x.png").unwrap_err(), PackerError::DuplicateName);
}

#[test]
fn items_take_name_and_size_from_their_sprites() {
    let sprites = vec![sprite("a", 3, 5, 1), sprite("b", 0, 2, 2)];
    let items = build_items(&sprites, true);
    assert_eq!(items.len(), 2);
    assert_eq!((items[0].name.as_str(), items[0].width, items[0].height, items[0].rotation_allowed), ("a", 3, 5, true));
    assert_eq!((items[1].name.as_str(), items[1].width, items[1].height, items[1].rotation_allowed), ("b", 0, 2, true));
    assert!(build_items(&sprites, false).iter().all(|i| !i.rotation_allowed));
    assert!(build_items(&Vec::new(), true).is_empty());
}

#[test]
fn the_table_keeps_frames_in_insertion_order() {
    let mut table = PackerAtlas::default();
    assert_eq!(table.len(), 0);
    assert_eq!(table.sheet_path(), "");
    table.add("b", 1, 2, 3, 4, false).unwrap();
    table.add("a", 5, 6, 7, 8, true).unwrap();
    assert_eq!(table.len(), 2);
    assert_eq!(table.frame(0).name, "b");
    assert_eq!(table.frame(0).placement, Placement { x: 1, y: 2, width: 3, height: 4, rotated: false });
    assert_eq!(table.frame(1).name, "a");
    assert_eq!(table.frame(1).placement, Placement { x: 5, y: 6, width: 7, height: 8, rotated: true });
    assert_eq!(table.find("a"), Some(1));
    assert_eq!(table.find("b"), Some(0));
    assert_eq!(table.find("c"), None);
    assert_eq!(table.get("a"), Some(Placement { x: 5, y: 6, width: 7, height: 8, rotated: true }));
    assert_eq!(table.get("c"), None);
}

#[test]
fn the_table_refuses_a_name_it_has() {
    let mut table = PackerAtlas::default();
    table.add("a", 1, 2, 3, 4, false).unwrap();
    assert_eq!(table.add("a", 9, 9, 9, 9, true).unwrap_err(), PackerError::DuplicateName);
    assert_eq!(table.len(), 1);
    assert_eq!(table.get("a"), Some(Placement { x: 1, y: 2, width: 3, height: 4, rotated: false }));
    table.add("A", 9, 9, 9, 9, true).unwrap();
    table.add("", 0, 0, 0, 0, false).unwrap();
    assert_eq!(table.add("", 1, 1, 1, 1, false).unwrap_err(), PackerError::DuplicateName);
    assert_eq!(table.len(), 3);
}

#[test]
fn the_sheet_path_is_the_last_one_given() {
    let mut table = PackerAtlas::default();
    table.add("a", 1, 2, 3, 4, false).unwrap();
    table.add_sheet_path("out/first.png");
    assert_eq!(table.sheet_path(), "out/first.png");
    table.add_sheet_path("out/second.png");
    assert_eq!(table.sheet_path(), "out/second.png");
    assert_eq!(table.len(), 1);
    assert_eq!(table.frame(0).name, "a");
}

fn named(name: &str) -> PackItem {
    PackItem { name: name.to_string(), width: 1, height: 1, rotation_allowed: false }
}

#[test]
fn a_table_from_placements_lists_every_item() {
    let items = vec![named("x"), named("y")];
    let placements = vec![
        Placement { x: 0, y: 0, width: 1, height: 1, rotated: false },
        Placement { x: 1, y: 0, width: 1, height: 1, rotated: false },
    ];
    let table = PackerAtlas::from_placements(&items, &placements, "p.png").unwrap();
    assert_eq!(table.sheet_path(), "p.png");
    assert_eq!(table.len(), 2);
    assert_eq!(table.get("x"), Some(placements[0]));
    assert_eq!(table.get("y"), Some(placements[1]));
    let doubled = vec![named("x"), named("x")];
    assert_eq!(
        PackerAtlas::from_placements(&doubled, &placements, "p.png").unwrap_err(),
        PackerError::DuplicateName
    );
    assert_eq!(
        PackerAtlas::from_placements(&items, &placements[..1].to_vec(), "p.png").unwrap_err(),
        PackerError::InternalGeometryViolation
    );
}

fn config(output_type: OutputType, template_path: Option<&str>) -> PackerConfig {
    PackerConfig {
        name: "atlas".to_string(),
        output_path: "out".to_string(),
        output_type,
        folders: vec!["sprites".to_string()],
        template_path: template_path.map(|p| p.to_string()),
        options: PackerConfigOptions::default(),
    }
}

#[test]
fn each_output_type_plans_its_own_encoding() {
    assert!(matches!(config(OutputType::Json, None).output_plan(), Ok(OutputPlan::Json)));
    assert!(matches!(config(OutputType::Binary, Some("t.hbs")).output_plan(), Ok(OutputPlan::Binary)));
    assert!(matches!(config(OutputType::Ron, None).output_plan(), Ok(OutputPlan::Ron)));
    match config(OutputType::Template, Some("t.hbs")).output_plan() {
        Ok(OutputPlan::Template { template_path }) => assert_eq!(template_path, "t.hbs"),
        other => panic!("unexpected plan {:?}", other),
    }
}

#[test]
fn a_template_without_a_file_is_refused() {
    assert_eq!(config(OutputType::Template, None).output_plan().unwrap_err(), PackerError::NoTemplateFile);
}

#[test]
fn every_error_has_its_own_message() {
    let all = [
        PackerError::PackingInfeasible,
        PackerError::InternalGeometryViolation,
        PackerError::DuplicateName,
        PackerError::NoTemplateFile,
    ];
    for (i, a) in all.iter().enumerate() {
        assert!(!a.message().is_empty());
        for b in all.iter().skip(i + 1) {
            assert_ne!(a.message(), b.message());
        }
    }
    assert_eq!(PackerError::DuplicateName.message(), "two frames share one name");
}
