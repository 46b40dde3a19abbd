use nestools::sprites::sheet::{
    load_tiles, Animation, Bitmap, Fill, LoadTiles, Sheet, SheetPatternTable, Simple, Slice,
};
use nestools::sprites::{Error, PatternTable, Subject};

fn solid_bitmap(width: usize, height: usize, value: u8) -> Bitmap {
    Bitmap {
        width,
        height,
        buffer: vec![value; width * height],
    }
}

/// A bitmap whose every tile is filled with its own raster index modulo 4,
/// so tiles can be told apart after extraction.
fn numbered_bitmap(tiles_wide: usize, tiles_high: usize) -> Bitmap {
    let width = tiles_wide * 8;
    let height = tiles_high * 8;
    let mut buffer = vec![0u8; width * height];
    for y in 0..height {
        for x in 0..width {
            let tile = (y / 8) * tiles_wide + x / 8;
            buffer[y * width + x] = (tile % 4) as u8;
        }
    }
    Bitmap {
        width,
        height,
        buffer,
    }
}

/// The 16 packed bytes of a tile holding `value` everywhere.
fn solid_tile_data(value: u8) -> [u8; 16] {
    let mut data = [0u8; 16];
    for row in 0..8 {
        data[row] = if value & 1 != 0 { 0xFF } else { 0x00 };
        data[row + 8] = if value & 2 != 0 { 0xFF } else { 0x00 };
    }
    data
}

fn no_image() -> Bitmap {
    Bitmap {
        width: 0,
        height: 0,
        buffer: Vec::new(),
    }
}

#[test]
fn fill_rejects_value_over_three() {
    let fill = Fill {
        value: 5,
        name: String::from("solid"),
        count: 4,
    };
    assert_eq!(
        fill.pull_tiles().unwrap_err(),
        Error::FormatError { value: 5 }
    );
}

#[test]
fn fill_produces_identical_named_tiles() {
    let fill = Fill {
        value: 2,
        name: String::from("solid"),
        count: 3,
    };
    let tiles = fill.pull_tiles().unwrap();
    assert_eq!(tiles.len(), 3);
    for tile in &tiles {
        assert_eq!(tile.name, Some(String::from("solid")));
        assert_eq!(tile.data, solid_tile_data(2));
    }
}

#[test]
fn simple_names_run_x_fastest() {
    let simple = Simple {
        file: String::from("sheet.png"),
        name: String::from("name"),
        width: 2,
        height: 2,
    };
    let tiles = simple.pull_tiles(&solid_bitmap(16, 16, 0)).unwrap();
    let names: Vec<String> = tiles.iter().map(|t| t.name.clone().unwrap()).collect();
    assert_eq!(names, ["name_0_0", "name_1_0", "name_0_1", "name_1_1"]);
}

#[test]
fn simple_names_use_decimal_digits() {
    let simple = Simple {
        file: String::from("sheet.png"),
        name: String::from("wide"),
        width: 11,
        height: 1,
    };
    let tiles = simple.pull_tiles(&solid_bitmap(88, 8, 0)).unwrap();
    assert_eq!(tiles[10].name, Some(String::from("wide_10_0")));
}

#[test]
fn simple_keeps_raster_order() {
    let simple = Simple {
        file: String::from("sheet.png"),
        name: String::from("name"),
        width: 2,
        height: 2,
    };
    let tiles = simple.pull_tiles(&numbered_bitmap(2, 2)).unwrap();
    for (index, tile) in tiles.iter().enumerate() {
        assert_eq!(tile.data, solid_tile_data((index % 4) as u8));
    }
}

#[test]
fn simple_rejects_thin_image() {
    let simple = Simple {
        file: String::from("sheet.png"),
        name: String::from("name"),
        width: 2,
        height: 1,
    };
    assert_eq!(
        simple.pull_tiles(&solid_bitmap(8, 8, 0)).unwrap_err(),
        Error::DimensionsError {
            subject: Subject::ImageWidth,
            need: 2,
            got: 1,
        }
    );
}

#[test]
fn simple_rejects_short_image() {
    let simple = Simple {
        file: String::from("sheet.png"),
        name: String::from("name"),
        width: 1,
        height: 2,
    };
    assert_eq!(
        simple.pull_tiles(&solid_bitmap(8, 8, 0)).unwrap_err(),
        Error::DimensionsError {
            subject: Subject::ImageHeight,
            need: 2,
            got: 1,
        }
    );
}

#[test]
fn load_tiles_rejects_high_pixel() {
    let mut image = solid_bitmap(8, 8, 0);
    image.buffer[13] = 7;
    assert_eq!(
        load_tiles(1, 1, "name", &image).unwrap_err(),
        Error::PaletteError { value: 7 }
    );
}

#[test]
fn load_tiles_pools_in_raster_order() {
    let tiles = load_tiles(2, 2, "pool", &numbered_bitmap(2, 2)).unwrap();
    assert_eq!(tiles.len(), 4);
    for (index, tile) in tiles.iter().enumerate() {
        assert_eq!(tile.name, Some(String::from("pool")));
        assert_eq!(tile.data, solid_tile_data((index % 4) as u8));
    }
}

#[test]
fn animation_names_frames_side_by_side() {
    let animation = Animation {
        file: String::from("sheet.png"),
        name: String::from("name"),
        frame_width: 1,
        frame_height: 1,
        frames: 2,
    };
    let tiles = animation.pull_tiles(&solid_bitmap(16, 8, 0)).unwrap();
    let names: Vec<String> = tiles.iter().map(|t| t.name.clone().unwrap()).collect();
    assert_eq!(names, ["name_0_0", "name_1_0"]);
}

#[test]
fn animation_extracts_frame_major() {
    // Two frames of 2x1 tiles: the sheet's tiles are numbered 0,1,2,3
    // left to right, so frame 0 holds tiles 0,1 and frame 1 tiles 2,3.
    let animation = Animation {
        file: String::from("sheet.png"),
        name: String::from("walk"),
        frame_width: 2,
        frame_height: 1,
        frames: 2,
    };
    let tiles = animation.pull_tiles(&numbered_bitmap(4, 1)).unwrap();
    let names: Vec<String> = tiles.iter().map(|t| t.name.clone().unwrap()).collect();
    assert_eq!(names, ["walk_0_0", "walk_0_1", "walk_1_0", "walk_1_1"]);
    assert_eq!(tiles[0].data, solid_tile_data(0));
    assert_eq!(tiles[1].data, solid_tile_data(1));
    assert_eq!(tiles[2].data, solid_tile_data(2));
    assert_eq!(tiles[3].data, solid_tile_data(3));
}

#[test]
fn slice_picks_pool_tiles_in_order() {
    let slice = Slice {
        file: String::from("sheet.png"),
        name: String::from("cut"),
        width: 2,
        height: 1,
        slices: vec![vec![1], vec![0, 1]],
    };
    let tiles = slice.pull_tiles(&numbered_bitmap(2, 1)).unwrap();
    let names: Vec<String> = tiles.iter().map(|t| t.name.clone().unwrap()).collect();
    assert_eq!(names, ["cut_0_0", "cut_1_0", "cut_1_1"]);
    assert_eq!(tiles[0].data, solid_tile_data(1));
    assert_eq!(tiles[1].data, solid_tile_data(0));
    assert_eq!(tiles[2].data, solid_tile_data(1));
}

#[test]
fn slice_rejects_out_of_range_index() {
    let slice = Slice {
        file: String::from("sheet.png"),
        name: String::from("cut"),
        width: 2,
        height: 1,
        slices: vec![vec![0], vec![5]],
    };
    assert_eq!(
        slice.pull_tiles(&numbered_bitmap(2, 1)).unwrap_err(),
        Error::DimensionsError {
            subject: Subject::SliceIndex,
            need: 2,
            got: 5,
        }
    );
}

#[test]
fn sheet_getters_describe_geometry() {
    let animation = Animation {
        file: String::from("walk.png"),
        name: String::from("walk"),
        frame_width: 3,
        frame_height: 4,
        frames: 5,
    };
    assert_eq!(animation.sheet_width(), 15);
    assert_eq!(animation.sheet_height(), 4);
    assert_eq!(animation.image_path(), "walk.png");
    assert_eq!(animation.name(), "walk");

    let simple = Simple {
        file: String::from("s.png"),
        name: String::from("s"),
        width: 2,
        height: 7,
    };
    assert_eq!(simple.sheet_width(), 2);
    assert_eq!(simple.sheet_height(), 7);

    let slice = Slice {
        file: String::from("c.png"),
        name: String::from("c"),
        width: 6,
        height: 1,
        slices: Vec::new(),
    };
    assert_eq!(slice.sheet_width(), 6);
    assert_eq!(slice.sheet_height(), 1);
}

fn fill_table(left_count: usize, right_count: usize) -> (SheetPatternTable, Vec<Bitmap>, Vec<Bitmap>) {
    let table = SheetPatternTable {
        left: vec![Sheet::Fill(Fill {
            value: 1,
            name: String::from("lf"),
            count: left_count,
        })],
        right: vec![Sheet::Fill(Fill {
            value: 2,
            name: String::from("rf"),
            count: right_count,
        })],
    };
    (table, vec![no_image()], vec![no_image()])
}

#[test]
fn pattern_table_pads_every_page_to_256() {
    for count in [0usize, 1, 255, 256] {
        let (table, left_images, right_images) = fill_table(count, 0);
        let pattern = PatternTable::from_sheet_pattern_table(&table, &left_images, &right_images)
            .unwrap();
        assert_eq!(pattern.left.len(), 256);
        assert_eq!(pattern.right.len(), 256);
        for (index, tile) in pattern.left.iter().enumerate() {
            if index < count {
                assert_eq!(tile.name, Some(String::from("lf")));
                assert_eq!(tile.data, solid_tile_data(1));
            } else {
                assert_eq!(tile.name, None);
                assert_eq!(tile.data, [0u8; 16]);
            }
        }
    }
}

#[test]
fn pattern_table_rejects_left_overflow() {
    let (table, left_images, right_images) = fill_table(257, 0);
    assert_eq!(
        PatternTable::from_sheet_pattern_table(&table, &left_images, &right_images).err(),
        Some(Error::DimensionsError {
            subject: Subject::LeftPage,
            need: 256,
            got: 257,
        })
    );
}

#[test]
fn pattern_table_rejects_right_overflow() {
    let (table, left_images, right_images) = fill_table(0, 300);
    assert_eq!(
        PatternTable::from_sheet_pattern_table(&table, &left_images, &right_images).err(),
        Some(Error::DimensionsError {
            subject: Subject::RightPage,
            need: 256,
            got: 300,
        })
    );
}

#[test]
fn pattern_table_propagates_sheet_errors() {
    let table = SheetPatternTable {
        left: vec![Sheet::Fill(Fill {
            value: 9,
            name: String::from("bad"),
            count: 1,
        })],
        right: Vec::new(),
    };
    assert_eq!(
        PatternTable::from_sheet_pattern_table(&table, &vec![no_image()], &Vec::new()).err(),
        Some(Error::FormatError { value: 9 })
    );
}

#[test]
fn pattern_table_concatenates_in_manifest_order() {
    let table = SheetPatternTable {
        left: vec![
            Sheet::Fill(Fill {
                value: 1,
                name: String::from("first"),
                count: 1,
            }),
            Sheet::Fill(Fill {
                value: 3,
                name: String::from("second"),
                count: 2,
            }),
        ],
        right: Vec::new(),
    };
    let images = vec![no_image(), no_image()];
    let pattern = PatternTable::from_sheet_pattern_table(&table, &images, &Vec::new()).unwrap();
    assert_eq!(pattern.left[0].name, Some(String::from("first")));
    assert_eq!(pattern.left[1].name, Some(String::from("second")));
    assert_eq!(pattern.left[2].name, Some(String::from("second")));
    assert_eq!(pattern.left[3].name, None);
}

#[test]
fn chr_output_is_8192_bytes_page_major() {
    let (table, left_images, right_images) = fill_table(1, 1);
    let pattern = PatternTable::from_sheet_pattern_table(&table, &left_images, &right_images)
        .unwrap();
    let mut out: Vec<u8> = Vec::new();
    pattern.write(&mut out);
    assert_eq!(out.len(), 8192);
    assert_eq!(&out[0..16], &solid_tile_data(1));
    assert_eq!(&out[16..32], &[0u8; 16]);
    assert_eq!(&out[4096..4112], &solid_tile_data(2));
    assert_eq!(&out[8176..8192], &[0u8; 16]);
}
