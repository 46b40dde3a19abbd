use nestools::sprites::{Error, Subject};
use nestools::stage::serialize::{run_length_encode, Metatile, Orientation, Stage};

fn metatile(symbol: char, index_hint: &str) -> Metatile {
    Metatile {
        name: String::from(index_hint),
        symbol,
        tiles: [0, 1, 2, 3],
        palette: 0,
    }
}

fn stage(orientation: Orientation, metatiles: Vec<Metatile>, data: &str) -> Stage {
    Stage {
        orientation,
        background_palette: [0x0F; 16],
        sprite_palette: [0x20; 16],
        metatiles,
        data: String::from(data),
    }
}

/// The fixed part of a compiled stage: palettes, count, records.
fn expected_header(stage: &Stage) -> Vec<u8> {
    let mut bytes: Vec<u8> = Vec::new();
    bytes.extend_from_slice(&stage.background_palette);
    bytes.extend_from_slice(&stage.sprite_palette);
    bytes.push(stage.metatiles.len() as u8);
    for metatile in &stage.metatiles {
        bytes.push(metatile.palette);
        bytes.extend_from_slice(&metatile.tiles);
    }
    bytes
}

fn compiled_body(stage: &Stage) -> Vec<u8> {
    let mut out: Vec<u8> = Vec::new();
    stage.write_binary(&mut out).unwrap();
    let header = expected_header(stage);
    assert_eq!(&out[..header.len()], &header[..]);
    let body_len = out[header.len()] as usize;
    let body = out[header.len() + 1..].to_vec();
    assert_eq!(body.len(), body_len);
    body
}

#[test]
fn rle_splits_a_seventeen_run_at_sixteen() {
    let chars = vec!['a'; 17];
    assert_eq!(run_length_encode(&chars, 16), [('a', 16), ('a', 1)]);
}

#[test]
fn rle_closes_runs_on_new_characters() {
    let chars = vec!['a', 'a', 'b', 'a'];
    assert_eq!(
        run_length_encode(&chars, 16),
        [('a', 2), ('b', 1), ('a', 1)]
    );
}

#[test]
fn rle_of_empty_input_is_empty() {
    assert_eq!(run_length_encode(&Vec::new(), 16), []);
}

#[test]
fn seventeen_long_run_compiles_to_two_bytes() {
    let stage = stage(
        Orientation::Horizontal,
        vec![metatile('a', "floor")],
        "aaaaaaaaaaaaaaaaa",
    );
    assert_eq!(compiled_body(&stage), [0xF0, 0x00]);
}

#[test]
fn sixteen_long_run_compiles_to_one_byte() {
    let stage = stage(
        Orientation::Horizontal,
        vec![metatile('a', "floor")],
        "aaaaaaaaaaaaaaaa",
    );
    assert_eq!(compiled_body(&stage), [0xF0]);
}

#[test]
fn horizontal_orientation_transposes_the_grid() {
    let catalog = vec![
        metatile('a', "a"),
        metatile('b', "b"),
        metatile('c', "c"),
        metatile('d', "d"),
    ];
    let stage = stage(Orientation::Horizontal, catalog, "ab\ncd");
    assert_eq!(compiled_body(&stage), [0x00, 0x02, 0x01, 0x03]);
}

#[test]
fn vertical_orientation_keeps_row_order() {
    let catalog = vec![
        metatile('a', "a"),
        metatile('b', "b"),
        metatile('c', "c"),
        metatile('d', "d"),
    ];
    let stage = stage(Orientation::Vertical, catalog, "ab\ncd");
    assert_eq!(compiled_body(&stage), [0x00, 0x01, 0x02, 0x03]);
}

#[test]
fn horizontal_truncates_at_the_shortest_line() {
    let catalog = vec![
        metatile('a', "a"),
        metatile('b', "b"),
        metatile('c', "c"),
    ];
    let stage = stage(Orientation::Horizontal, catalog, "ab\nc");
    assert_eq!(compiled_body(&stage), [0x00, 0x02]);
}

#[test]
fn trailing_newline_adds_no_line() {
    let catalog = vec![metatile('a', "a"), metatile('b', "b")];
    let with = stage(Orientation::Vertical, catalog, "ab\n");
    assert_eq!(compiled_body(&with), [0x00, 0x01]);
}

#[test]
fn carriage_returns_are_stripped_from_line_ends() {
    let catalog = vec![
        metatile('a', "a"),
        metatile('b', "b"),
        metatile('c', "c"),
        metatile('d', "d"),
    ];
    let stage = stage(Orientation::Vertical, catalog, "ab\r\ncd");
    assert_eq!(compiled_body(&stage), [0x00, 0x01, 0x02, 0x03]);
}

#[test]
fn unknown_symbols_are_dropped() {
    let stage = stage(Orientation::Vertical, vec![metatile('a', "a")], "axa");
    assert_eq!(compiled_body(&stage), [0x00, 0x00]);
}

#[test]
fn later_duplicate_symbol_wins() {
    let catalog = vec![metatile('a', "old"), metatile('a', "new")];
    let stage = stage(Orientation::Vertical, catalog, "a");
    assert_eq!(compiled_body(&stage), [0x01]);
}

#[test]
fn catalog_beyond_sixteen_entries_is_rejected() {
    let mut catalog: Vec<Metatile> = Vec::new();
    for i in 0..17u8 {
        catalog.push(metatile((b'a' + i) as char, "m"));
    }
    let stage = stage(Orientation::Vertical, catalog, "a");
    let mut out = vec![0xAAu8];
    assert_eq!(
        stage.write_binary(&mut out),
        Err(Error::DimensionsError {
            subject: Subject::MetatileCount,
            need: 16,
            got: 17,
        })
    );
    assert_eq!(out, [0xAA]);
}

#[test]
fn body_beyond_255_bytes_is_rejected() {
    let catalog = vec![metatile('a', "a"), metatile('b', "b")];
    let data: String = "ab".repeat(128);
    let stage = stage(Orientation::Vertical, catalog, &data);
    let mut out: Vec<u8> = Vec::new();
    assert_eq!(
        stage.write_binary(&mut out),
        Err(Error::DimensionsError {
            subject: Subject::BodyLength,
            need: 255,
            got: 256,
        })
    );
    assert_eq!(out.len(), 0);
}

#[test]
fn empty_grid_compiles_to_an_empty_body() {
    let stage = stage(Orientation::Horizontal, vec![metatile('a', "a")], "");
    assert_eq!(compiled_body(&stage), []);
}

#[test]
fn default_orientation_is_horizontal() {
    assert_eq!(Orientation::default(), Orientation::Horizontal);
}

#[test]
fn binary_layout_matches_the_format() {
    let stage = stage(
        Orientation::Vertical,
        vec![Metatile {
            name: String::from("block"),
            symbol: '#',
            tiles: [4, 5, 6, 7],
            palette: 2,
        }],
        "##",
    );
    let mut out: Vec<u8> = Vec::new();
    stage.write_binary(&mut out).unwrap();
    let mut expected: Vec<u8> = Vec::new();
    expected.extend_from_slice(&[0x0F; 16]);
    expected.extend_from_slice(&[0x20; 16]);
    expected.push(1);
    expected.extend_from_slice(&[2, 4, 5, 6, 7]);
    expected.push(1);
    expected.push(0x10);
    assert_eq!(out, expected);
}
