use nestools::sprites::{Error, Subject, Tile};

/// The reference sprite from the pattern-table documentation: its chunky
/// pixel block and its packed planar form.
fn example_block() -> Vec<u8> {
    vec![
        0, 1, 0, 0, 0, 0, 0, 3, //
        1, 1, 0, 0, 0, 0, 3, 0, //
        0, 1, 0, 0, 0, 3, 0, 0, //
        0, 1, 0, 0, 3, 0, 0, 0, //
        0, 0, 0, 3, 0, 2, 2, 0, //
        0, 0, 3, 0, 0, 0, 0, 2, //
        0, 3, 0, 0, 0, 0, 2, 0, //
        3, 0, 0, 0, 0, 2, 2, 2,
    ]
}

fn example_packed() -> [u8; 16] {
    [
        0x41, 0xC2, 0x44, 0x48, 0x10, 0x20, 0x40, 0x80, //
        0x01, 0x02, 0x04, 0x08, 0x16, 0x21, 0x42, 0x87,
    ]
}

#[test]
fn pack_example_block() {
    let tile = Tile::from_bytes(&example_block(), None).unwrap();
    assert_eq!(tile.data, example_packed());
    assert_eq!(tile.name, None);
}

#[test]
fn pack_keeps_name() {
    let tile = Tile::from_bytes(&example_block(), Some("hero")).unwrap();
    assert_eq!(tile.name, Some(String::from("hero")));
}

#[test]
fn unpack_example_tile() {
    let tile = Tile {
        name: None,
        data: example_packed(),
    };
    let mut pixels: Vec<u8> = Vec::new();
    let mut rows = tile.iter();
    while let Some(mut row) = rows.next() {
        while let Some(pixel) = row.next() {
            pixels.push(pixel);
        }
    }
    assert_eq!(pixels, example_block());
}

#[test]
fn pack_then_unpack_round_trips() {
    let mut block: Vec<u8> = Vec::new();
    for i in 0..64u32 {
        block.push(((i * 7 + i / 9) % 4) as u8);
    }
    let tile = Tile::from_bytes(&block, None).unwrap();
    let mut pixels: Vec<u8> = Vec::new();
    let mut rows = tile.iter();
    while let Some(mut row) = rows.next() {
        while let Some(pixel) = row.next() {
            pixels.push(pixel);
        }
    }
    assert_eq!(pixels, block);
}

#[test]
fn tile_iterators_stop_after_eight() {
    let tile = Tile {
        name: None,
        data: example_packed(),
    };
    let mut rows = tile.iter();
    let mut first_row = rows.next().unwrap();
    for _ in 0..8 {
        assert!(first_row.next().is_some());
    }
    assert_eq!(first_row.next(), None);
    assert_eq!(first_row.next(), None);
    for _ in 0..7 {
        assert!(rows.next().is_some());
    }
    assert!(rows.next().is_none());
}

#[test]
fn from_bytes_rejects_wrong_length() {
    let bytes = vec![0u8; 63];
    assert_eq!(
        Tile::from_bytes(&bytes, None).unwrap_err(),
        Error::DimensionsError {
            subject: Subject::BlockLength,
            need: 64,
            got: 63,
        }
    );
}

#[test]
fn from_bytes_rejects_first_high_pixel() {
    let mut bytes = vec![0u8; 64];
    bytes[20] = 9;
    bytes[40] = 4;
    assert_eq!(
        Tile::from_bytes(&bytes, None).unwrap_err(),
        Error::PaletteError { value: 9 }
    );
}
