//! Sprite tiles and the codec between chunky 2-bit pixel blocks and the packed
//! 16-byte planar tile representation consumed by the pattern tables.

use vstd::prelude::*;

pub mod sheet;

use crate::sprites::sheet::{sheet_pull_spec, sheet_wf, Bitmap, Sheet, SheetPatternTable};

verus! {

/// Which quantity a [`Error::DimensionsError`] complains about.
#[derive(Clone, Copy, Debug, PartialEq, Eq, Structural)]
pub enum Subject {
    /// A pixel block handed to the codec was not 64 bytes long.
    BlockLength,
    /// A decoded image is narrower than the sheet asks for, in whole tiles.
    ImageWidth,
    /// A decoded image is shorter than the sheet asks for, in whole tiles.
    ImageHeight,
    /// A slice refers to a tile index outside the sheet's tile pool.
    SliceIndex,
    /// The left pattern table page received more than 256 tiles.
    LeftPage,
    /// The right pattern table page received more than 256 tiles.
    RightPage,
    /// A stage declares more metatiles than the 4-bit index field can name.
    MetatileCount,
    /// The run-length encoded stage body does not fit its one-byte length.
    BodyLength,
}

/// Global sprite error type. Rolls up all errors that can occur extracting
/// and packing tiles, and carries the offending quantities as plain values.
#[derive(Clone, Copy, Debug, PartialEq, Eq, Structural)]
pub enum Error {
    /// An image could not be decoded; wraps the decoder's numeric error code.
    PNGError { code: u64 },
    /// A size or capacity did not match: `need` is what was required,
    /// `got` what was found, for the named `subject`.
    DimensionsError { subject: Subject, need: usize, got: usize },
    /// A pixel value was out of palette range: every pixel must be at most 3.
    PaletteError { value: u8 },
    /// A fill value was out of range, or the image was not in indexed form.
    FormatError { value: u8 },
}

/// A single tile, with an optional name.
#[derive(Clone, Debug)]
pub struct Tile {
    /// The name of the tile, carried through to the symbol headers that a
    /// collaborator emits. If this is `None`, the tile is anonymous padding.
    pub name: Option<String>,

    /// The packed planar form: bytes 0..8 are bit-plane 0 of rows 0..8,
    /// bytes 8..16 are bit-plane 1 of the same rows.
    pub data: [u8; 16],
}

/// The mathematical content of a [`Tile`]: its name as a character sequence
/// and its 16 packed bytes.
pub struct TileView {
    pub name: Option<Seq<char>>,
    pub data: Seq<u8>,
}

impl View for Tile {
    type V = TileView;

    open spec fn view(&self) -> TileView {
        TileView {
            name: match self.name {
                Some(s) => Some(s@),
                None => None,
            },
            data: self.data@,
        }
    }
}

/// Bit-plane 0 of one row of eight pixels: the low bit of each pixel,
/// most significant bit holding the leftmost pixel.
pub open spec fn plane0_of(p0: u8, p1: u8, p2: u8, p3: u8, p4: u8, p5: u8, p6: u8, p7: u8) -> u8 {
    ((p0 & 1) << 7) | ((p1 & 1) << 6) | ((p2 & 1) << 5) | ((p3 & 1) << 4) | ((p4 & 1) << 3)
        | ((p5 & 1) << 2) | ((p6 & 1) << 1) | (p7 & 1)
}

/// Bit-plane 1 of one row of eight pixels: the high bit of each pixel,
/// most significant bit holding the leftmost pixel.
pub open spec fn plane1_of(p0: u8, p1: u8, p2: u8, p3: u8, p4: u8, p5: u8, p6: u8, p7: u8) -> u8 {
    ((p0 & 2) << 6) | ((p1 & 2) << 5) | ((p2 & 2) << 4) | ((p3 & 2) << 3) | ((p4 & 2) << 2)
        | ((p5 & 2) << 1) | (p6 & 2) | ((p7 & 2) >> 1)
}

/// Bit-plane 0 of row `r` of a 64-byte row-major pixel block.
pub open spec fn plane0_byte(block: Seq<u8>, r: int) -> u8
    recommends
        block.len() == 64,
        0 <= r < 8,
{
    plane0_of(
        block[8 * r],
        block[8 * r + 1],
        block[8 * r + 2],
        block[8 * r + 3],
        block[8 * r + 4],
        block[8 * r + 5],
        block[8 * r + 6],
        block[8 * r + 7],
    )
}

/// Bit-plane 1 of row `r` of a 64-byte row-major pixel block.
pub open spec fn plane1_byte(block: Seq<u8>, r: int) -> u8
    recommends
        block.len() == 64,
        0 <= r < 8,
{
    plane1_of(
        block[8 * r],
        block[8 * r + 1],
        block[8 * r + 2],
        block[8 * r + 3],
        block[8 * r + 4],
        block[8 * r + 5],
        block[8 * r + 6],
        block[8 * r + 7],
    )
}

/// Byte `i` of the packed tile: all eight plane-0 bytes first, then all
/// eight plane-1 bytes. This exact layout is the hardware contract.
pub open spec fn pack_byte(block: Seq<u8>, i: int) -> u8
    recommends
        block.len() == 64,
        0 <= i < 16,
{
    if i < 8 {
        plane0_byte(block, i)
    } else {
        plane1_byte(block, i - 8)
    }
}

/// The 16 packed bytes of a 64-byte row-major pixel block.
pub open spec fn pack_spec(block: Seq<u8>) -> Seq<u8>
    recommends
        block.len() == 64,
{
    Seq::new(16, |i: int| pack_byte(block, i))
}

/// The pixel in column `c` of a row whose plane bytes are `b0` and `b1`:
/// bit `7 - c` of plane 0 is the low bit, bit `7 - c` of plane 1 the high bit.
pub open spec fn pixel_of(b0: u8, b1: u8, c: u8) -> u8
    recommends
        c < 8,
{
    ((b0 >> ((7 - c) as u8)) & 1) | (((b1 >> ((7 - c) as u8)) & 1) << 1)
}

/// Pixel `j` (row-major) of the block that packed tile data `data` encodes.
pub open spec fn unpack_pixel(data: Seq<u8>, j: int) -> u8
    recommends
        data.len() == 16,
        0 <= j < 64,
{
    pixel_of(data[j / 8], data[j / 8 + 8], (j % 8) as u8)
}

/// The 64-byte row-major pixel block that packed tile data `data` encodes.
pub open spec fn unpack_spec(data: Seq<u8>) -> Seq<u8>
    recommends
        data.len() == 16,
{
    Seq::new(64, |j: int| unpack_pixel(data, j))
}

/// A well-formed pixel block: 64 pixels, each a 2-bit value.
pub open spec fn block_valid(block: Seq<u8>) -> bool {
    &&& block.len() == 64
    &&& forall|i: int| 0 <= i < 64 ==> block[i] <= 3
}

/// The index of the first byte above 3, or `s.len()` if every byte is small.
pub open spec fn first_high(s: Seq<u8>) -> int
    decreases s.len(),
{
    if s.len() == 0 {
        0
    } else if s[0] > 3 {
        0
    } else {
        1 + first_high(s.skip(1))
    }
}

pub proof fn lemma_first_high_bounds(s: Seq<u8>)
    ensures
        0 <= first_high(s) <= s.len(),
        forall|i: int| 0 <= i < first_high(s) ==> s[i] <= 3,
        first_high(s) < s.len() ==> s[first_high(s)] > 3,
    decreases s.len(),
{
    if s.len() != 0 && s[0] <= 3 {
        lemma_first_high_bounds(s.skip(1));
        assert forall|i: int| 0 <= i < first_high(s) implies s[i] <= 3 by {
            if i > 0 {
                assert(s.skip(1)[i - 1] == s[i]);
            }
        }
        if first_high(s) < s.len() {
            assert(s.skip(1)[first_high(s) - 1] == s[first_high(s)]);
        }
    }
}

pub proof fn lemma_first_high_at(s: Seq<u8>, i: int)
    requires
        0 <= i < s.len(),
        forall|k: int| 0 <= k < i ==> s[k] <= 3,
        s[i] > 3,
    ensures
        first_high(s) == i,
    decreases i,
{
    if i > 0 {
        assert(forall|k: int| 0 <= k < i - 1 ==> s.skip(1)[k] == s[k + 1]);
        assert(s.skip(1)[i - 1] == s[i]);
        lemma_first_high_at(s.skip(1), i - 1);
    }
}

/// Which of eight row pixels column `c` selects.
pub open spec fn row_pixel(
    p0: u8, p1: u8, p2: u8, p3: u8, p4: u8, p5: u8, p6: u8, p7: u8, c: u8,
) -> u8
    recommends
        c < 8,
{
    if c == 0 {
        p0
    } else if c == 1 {
        p1
    } else if c == 2 {
        p2
    } else if c == 3 {
        p3
    } else if c == 4 {
        p4
    } else if c == 5 {
        p5
    } else if c == 6 {
        p6
    } else {
        p7
    }
}

/// Splitting a row of 2-bit pixels into its two plane bytes loses nothing:
/// reading any column back out of the planes returns the original pixel.
pub proof fn lemma_row_round_trip(
    p0: u8, p1: u8, p2: u8, p3: u8, p4: u8, p5: u8, p6: u8, p7: u8, c: u8,
)
    requires
        p0 <= 3, p1 <= 3, p2 <= 3, p3 <= 3, p4 <= 3, p5 <= 3, p6 <= 3, p7 <= 3,
        c < 8,
    ensures
        pixel_of(
            plane0_of(p0, p1, p2, p3, p4, p5, p6, p7),
            plane1_of(p0, p1, p2, p3, p4, p5, p6, p7),
            c,
        ) == row_pixel(p0, p1, p2, p3, p4, p5, p6, p7, c),
{
    let b0 = plane0_of(p0, p1, p2, p3, p4, p5, p6, p7);
    let b1 = plane1_of(p0, p1, p2, p3, p4, p5, p6, p7);
    assert(((b0 >> ((7 - c) as u8)) & 1) | (((b1 >> ((7 - c) as u8)) & 1) << 1)
        == row_pixel(p0, p1, p2, p3, p4, p5, p6, p7, c)) by (bit_vector)
        requires
            p0 <= 3, p1 <= 3, p2 <= 3, p3 <= 3, p4 <= 3, p5 <= 3, p6 <= 3, p7 <= 3,
            c < 8,
            b0 == ((p0 & 1) << 7) | ((p1 & 1) << 6) | ((p2 & 1) << 5) | ((p3 & 1) << 4)
                | ((p4 & 1) << 3) | ((p5 & 1) << 2) | ((p6 & 1) << 1) | (p7 & 1),
            b1 == ((p0 & 2) << 6) | ((p1 & 2) << 5) | ((p2 & 2) << 4) | ((p3 & 2) << 3)
                | ((p4 & 2) << 2) | ((p5 & 2) << 1) | (p6 & 2) | ((p7 & 2) >> 1),
    ;
}

/// Round trip: packing a valid 64-pixel block into planar form and reading
/// every pixel back reproduces the block exactly.
pub proof fn lemma_pack_unpack_round_trip(block: Seq<u8>)
    requires
        block_valid(block),
    ensures
        unpack_spec(pack_spec(block)) == block,
{
    let packed = pack_spec(block);
    assert forall|j: int| 0 <= j < 64 implies unpack_pixel(packed, j) == block[j] by {
        let r = j / 8;
        let c = j % 8;
        lemma_row_round_trip(
            block[8 * r],
            block[8 * r + 1],
            block[8 * r + 2],
            block[8 * r + 3],
            block[8 * r + 4],
            block[8 * r + 5],
            block[8 * r + 6],
            block[8 * r + 7],
            c as u8,
        );
        assert(8 * r + c == j);
    }
    assert(unpack_spec(packed) =~= block);
}

impl Tile {
    /// Iterate over rows. Each row is in turn iterated pixel by pixel through
    /// [`TileRowIterator::next`].
    pub fn iter(&self) -> (it: TileIterator<'_>)
        ensures
            it.row == 0,
            it.tile == self,
    {
        TileIterator { row: 0, tile: self }
    }

    /// Convert index bytes (one byte per pixel, as delivered from a decoded
    /// image) into a packed planar `Tile`.
    pub fn from_bytes(bytes: &[u8], name: Option<&str>) -> (r: Result<Tile, Error>)
        ensures
            bytes@.len() != 64 ==> r == Err::<Tile, Error>(
                Error::DimensionsError {
                    subject: Subject::BlockLength,
                    need: 64,
                    got: bytes@.len() as usize,
                },
            ),
            bytes@.len() == 64 && first_high(bytes@) < 64 ==> r == Err::<Tile, Error>(
                Error::PaletteError { value: bytes@[first_high(bytes@)] },
            ),
            block_valid(bytes@) ==> {
                &&& r is Ok
                &&& r->Ok_0@.data == pack_spec(bytes@)
                &&& r->Ok_0@.name == name.deep_view()
            },
    {
        if bytes.len() != 64 {
            return Err(
                Error::DimensionsError {
                    subject: Subject::BlockLength,
                    need: 64,
                    got: bytes.len(),
                },
            );
        }
        let mut i: usize = 0;
        while i < 64
            invariant
                i <= 64,
                bytes@.len() == 64,
                forall|k: int| 0 <= k < i ==> bytes@[k] <= 3,
            decreases 64 - i,
        {
            if bytes[i] > 3 {
                proof {
                    lemma_first_high_at(bytes@, i as int);
                }
                return Err(Error::PaletteError { value: bytes[i] });
            }
            i = i + 1;
        }
        proof {
            lemma_first_high_bounds(bytes@);
        }

        let mut data: [u8; 16] = [0; 16];
        let mut r: usize = 0;
        while r < 8
            invariant
                r <= 8,
                bytes@.len() == 64,
                forall|k: int| 0 <= k < r ==> data@[k] == plane0_byte(bytes@, k),
                forall|k: int| 0 <= k < r ==> data@[k + 8] == plane1_byte(bytes@, k),
            decreases 8 - r,
        {
            let byte1 = ((bytes[8 * r] & 1) << 7) | ((bytes[8 * r + 1] & 1) << 6)
                | ((bytes[8 * r + 2] & 1) << 5) | ((bytes[8 * r + 3] & 1) << 4)
                | ((bytes[8 * r + 4] & 1) << 3) | ((bytes[8 * r + 5] & 1) << 2)
                | ((bytes[8 * r + 6] & 1) << 1) | (bytes[8 * r + 7] & 1);
            let byte2 = ((bytes[8 * r] & 2) << 6) | ((bytes[8 * r + 1] & 2) << 5)
                | ((bytes[8 * r + 2] & 2) << 4) | ((bytes[8 * r + 3] & 2) << 3)
                | ((bytes[8 * r + 4] & 2) << 2) | ((bytes[8 * r + 5] & 2) << 1)
                | (bytes[8 * r + 6] & 2) | ((bytes[8 * r + 7] & 2) >> 1);
            data[r] = byte1;
            data[r + 8] = byte2;
            r = r + 1;
        }
        assert(data@ =~= pack_spec(bytes@));

        let new_name = match name {
            Some(name) => Some(name.to_owned()),
            None => None,
        };
        Ok(Tile { name: new_name, data })
    }
}

/// An iterator over the rows of a tile, created by [`Tile::iter`].
pub struct TileIterator<'a> {
    /// The next row to yield, counting from the top.
    pub row: u8,
    /// The tile being read.
    pub tile: &'a Tile,
}

impl<'a> TileIterator<'a> {
    /// Yield the next row as a [`TileRowIterator`] holding the row's two
    /// plane bytes, or `None` when all eight rows have been yielded.
    pub fn next(&mut self) -> (r: Option<TileRowIterator>)
        ensures
            old(self).row > 7 ==> r is None && *final(self) == *old(self),
            old(self).row <= 7 ==> {
                &&& final(self).row == old(self).row + 1
                &&& final(self).tile == old(self).tile
                &&& r == Some(
                    TileRowIterator {
                        column: 0,
                        bytes: (
                            old(self).tile@.data[old(self).row as int],
                            old(self).tile@.data[old(self).row as int + 8],
                        ),
                    },
                )
            },
    {
        let row = self.row as usize;
        if row > 7 {
            return None;
        }
        self.row = self.row + 1;
        let byte1 = self.tile.data[row];
        let byte2 = self.tile.data[row + 8];
        Some(TileRowIterator { column: 0, bytes: (byte1, byte2) })
    }
}

/// An iterator over the pixels of one tile row, yielded by
/// [`TileIterator::next`].
#[derive(Clone, Copy, Debug)]
pub struct TileRowIterator {
    /// The next column to yield, counting from the left.
    pub column: u8,
    /// The row's plane-0 and plane-1 bytes.
    pub bytes: (u8, u8),
}

impl TileRowIterator {
    /// Yield the next pixel of the row, a 2-bit value, or `None` when all
    /// eight columns have been yielded.
    pub fn next(&mut self) -> (r: Option<u8>)
        ensures
            old(self).column > 7 ==> r is None && *final(self) == *old(self),
            old(self).column <= 7 ==> {
                &&& final(self).column == old(self).column + 1
                &&& final(self).bytes == old(self).bytes
                &&& r == Some(pixel_of(old(self).bytes.0, old(self).bytes.1, old(self).column))
            },
    {
        let column = self.column;
        if column > 7 {
            return None;
        }
        self.column = self.column + 1;
        let shift = 7 - column;
        let first = (self.bytes.0 >> shift) & 1;
        let second = ((self.bytes.1 >> shift) & 1) << 1;
        Some(first | second)
    }
}

/// The view of an anonymous all-zero padding tile.
pub open spec fn blank_tile_view() -> TileView {
    TileView { name: None, data: Seq::new(16, |i: int| 0u8) }
}

/// What pulling a whole page's sheets yields: the first sheet error in
/// order, or all their tile sequences concatenated. Sheet `k` draws on
/// image `k`; fills ignore theirs.
pub open spec fn page_pull_spec(sheets: Seq<Sheet>, images: Seq<Bitmap>) -> Result<
    Seq<TileView>,
    Error,
>
    decreases sheets.len(),
{
    if sheets.len() == 0 {
        Ok(Seq::empty())
    } else {
        match sheet_pull_spec(sheets[0], images[0]) {
            Err(e) => Err(e),
            Ok(ts) => match page_pull_spec(sheets.skip(1), images.skip(1)) {
                Err(e) => Err(e),
                Ok(rest) => Ok(ts + rest),
            },
        }
    }
}

/// A page padded with anonymous blank tiles to exactly 256 entries.
pub open spec fn padded_page(ts: Seq<TileView>) -> Seq<TileView>
    recommends
        ts.len() <= 256,
{
    ts + Seq::new((256 - ts.len()) as nat, |i: int| blank_tile_view())
}

/// What building a pattern table yields: the first extraction error (left
/// page first), then an overflow error for a page beyond 256 tiles (left
/// page first), and else both pages padded to exactly 256 tiles.
pub open spec fn build_spec(table: SheetPatternTable, li: Seq<Bitmap>, ri: Seq<Bitmap>) -> Result<
    (Seq<TileView>, Seq<TileView>),
    Error,
> {
    match page_pull_spec(table.left@, li) {
        Err(e) => Err(e),
        Ok(lt) => match page_pull_spec(table.right@, ri) {
            Err(e) => Err(e),
            Ok(rt) => if lt.len() > 256 {
                Err(
                    Error::DimensionsError {
                        subject: Subject::LeftPage,
                        need: 256,
                        got: lt.len() as usize,
                    },
                )
            } else if rt.len() > 256 {
                Err(
                    Error::DimensionsError {
                        subject: Subject::RightPage,
                        need: 256,
                        got: rt.len() as usize,
                    },
                )
            } else {
                Ok((padded_page(lt), padded_page(rt)))
            },
        },
    }
}

/// The mathematical content of a [`PatternTable`]: both pages as tile views.
pub struct PatternTableView {
    pub left: Seq<TileView>,
    pub right: Seq<TileView>,
}

/// A pattern table of tiles, in two pages.
pub struct PatternTable {
    pub left: Vec<Tile>,
    pub right: Vec<Tile>,
}

impl View for PatternTable {
    type V = PatternTableView;

    open spec fn view(&self) -> PatternTableView {
        PatternTableView {
            left: self.left@.map_values(|t: Tile| t@),
            right: self.right@.map_values(|t: Tile| t@),
        }
    }
}

impl PatternTable {
    /// A built pattern table always holds exactly 256 tiles per page.
    pub open spec fn wf(&self) -> bool {
        &&& self.left@.len() == 256
        &&& self.right@.len() == 256
    }
}

/// The packed bytes of a sequence of tiles, 16 bytes each, in order.
pub open spec fn tiles_bytes(ts: Seq<TileView>) -> Seq<u8>
    decreases ts.len(),
{
    if ts.len() == 0 {
        Seq::empty()
    } else {
        ts[0].data + tiles_bytes(ts.skip(1))
    }
}

/// The CHR binary of a pattern table: every left tile's bytes, then every
/// right tile's bytes, page-major then index-major.
pub open spec fn chr_bytes(pt: PatternTableView) -> Seq<u8> {
    tiles_bytes(pt.left) + tiles_bytes(pt.right)
}

proof fn lemma_tiles_bytes_len(ts: Seq<TileView>)
    requires
        forall|k: int| 0 <= k < ts.len() ==> #[trigger] ts[k].data.len() == 16,
    ensures
        tiles_bytes(ts).len() == 16 * ts.len(),
    decreases ts.len(),
{
    if ts.len() > 0 {
        assert(forall|k: int| 0 <= k < ts.len() - 1 ==> ts.skip(1)[k] == ts[k + 1]);
        lemma_tiles_bytes_len(ts.skip(1));
    }
}

/// Pulls every sheet of one page in order and concatenates the tiles.
#[verifier::loop_isolation(false)]
fn pull_page(sheets: &Vec<Sheet>, images: &Vec<Bitmap>) -> (r: Result<Vec<Tile>, Error>)
    requires
        sheets@.len() == images@.len(),
        forall|k: int| 0 <= k < sheets@.len() ==> sheet_wf(sheets@[k]),
        forall|k: int| 0 <= k < images@.len() ==> images@[k].wf(),
    ensures
        crate::sprites::sheet::pull_result_view(r) == page_pull_spec(sheets@, images@),
{
    let mut page: Vec<Tile> = Vec::new();
    let n = sheets.len();
    let mut i: usize = 0;
    proof {
        assert(sheets@.skip(0) =~= sheets@);
        assert(images@.skip(0) =~= images@);
        assert(page@.map_values(|t: Tile| t@) =~= Seq::<TileView>::empty());
        if page_pull_spec(sheets@, images@) is Ok {
            assert(Seq::<TileView>::empty() + page_pull_spec(sheets@, images@)->Ok_0
                =~= page_pull_spec(sheets@, images@)->Ok_0);
        }
    }
    while i < n
        invariant
            i <= n,
            ({
                let done = page@.map_values(|t: Tile| t@);
                match page_pull_spec(sheets@.skip(i as int), images@.skip(i as int)) {
                    Ok(rest) => page_pull_spec(sheets@, images@) == Ok::<Seq<TileView>, Error>(
                        done + rest,
                    ),
                    Err(e) => page_pull_spec(sheets@, images@) == Err::<Seq<TileView>, Error>(e),
                }
            }),
        decreases n - i,
    {
        proof {
            assert(sheets@.skip(i as int)[0] == sheets@[i as int]);
            assert(images@.skip(i as int)[0] == images@[i as int]);
            assert(sheets@.skip(i as int).skip(1) =~= sheets@.skip(i as int + 1));
            assert(images@.skip(i as int).skip(1) =~= images@.skip(i as int + 1));
        }
        let mut tiles = match sheets[i].pull_tiles(&images[i]) {
            Ok(tiles) => tiles,
            Err(e) => {
                return Err(e);
            },
        };
        let ghost done_before = page@.map_values(|t: Tile| t@);
        let ghost tsv = tiles@.map_values(|t: Tile| t@);
        page.append(&mut tiles);
        proof {
            assert(page@.map_values(|t: Tile| t@) =~= done_before + tsv);
            let rem = page_pull_spec(sheets@.skip(i as int + 1), images@.skip(i as int + 1));
            match rem {
                Ok(rest) => {
                    assert((done_before + tsv) + rest =~= done_before + (tsv + rest));
                },
                Err(_) => {},
            }
        }
        i = i + 1;
    }
    proof {
        assert(sheets@.skip(n as int) =~= Seq::<Sheet>::empty());
        assert(images@.skip(n as int) =~= Seq::<Bitmap>::empty());
        assert(page@.map_values(|t: Tile| t@) + Seq::<TileView>::empty() =~= page@.map_values(
            |t: Tile| t@,
        ));
    }
    Ok(page)
}

/// Pads `page` with anonymous blank tiles up to exactly 256 entries.
#[verifier::loop_isolation(false)]
fn pad_page(page: &mut Vec<Tile>)
    requires
        old(page)@.len() <= 256,
    ensures
        final(page)@.map_values(|t: Tile| t@) == padded_page(
            old(page)@.map_values(|t: Tile| t@),
        ),
{
    let ghost before = page@.map_values(|t: Tile| t@);
    proof {
        assert(before + Seq::new(0, |k: int| blank_tile_view()) =~= before);
    }
    while page.len() < 256
        invariant
            before.len() <= page@.len() <= 256,
            page@.map_values(|t: Tile| t@) == before + Seq::new(
                (page@.len() - before.len()) as nat,
                |k: int| blank_tile_view(),
            ),
        decreases 256 - page@.len(),
    {
        let ghost prev = page@.map_values(|t: Tile| t@);
        let blank = Tile { name: None, data: [0; 16] };
        proof {
            assert(blank@.data =~= blank_tile_view().data);
        }
        page.push(blank);
        proof {
            assert(page@.map_values(|t: Tile| t@) =~= prev.push(blank_tile_view()));
            assert(prev.push(blank_tile_view()) =~= before + Seq::new(
                (page@.len() - before.len()) as nat,
                |k: int| blank_tile_view(),
            ));
        }
    }
    proof {
        assert(page@.map_values(|t: Tile| t@) =~= padded_page(before));
    }
}

impl PatternTable {
    /// Loads a [`SheetPatternTable`] together with one decoded image per
    /// sheet (fills ignore theirs) and uses it to create a `PatternTable`
    /// of exactly 256 tiles per page.
    pub fn from_sheet_pattern_table(
        sheet_table: &SheetPatternTable,
        left_images: &Vec<Bitmap>,
        right_images: &Vec<Bitmap>,
    ) -> (r: Result<PatternTable, Error>)
        requires
            left_images@.len() == sheet_table.left@.len(),
            right_images@.len() == sheet_table.right@.len(),
            forall|k: int| 0 <= k < sheet_table.left@.len() ==> sheet_wf(sheet_table.left@[k]),
            forall|k: int| 0 <= k < sheet_table.right@.len() ==> sheet_wf(sheet_table.right@[k]),
            forall|k: int| 0 <= k < left_images@.len() ==> left_images@[k].wf(),
            forall|k: int| 0 <= k < right_images@.len() ==> right_images@[k].wf(),
        ensures
            match build_spec(*sheet_table, left_images@, right_images@) {
                Err(e) => r == Err::<PatternTable, Error>(e),
                Ok(pages) => {
                    &&& r is Ok
                    &&& r->Ok_0@.left == pages.0
                    &&& r->Ok_0@.right == pages.1
                    &&& r->Ok_0.wf()
                },
            },
    {
        let mut left = match pull_page(&sheet_table.left, left_images) {
            Ok(v) => v,
            Err(e) => {
                return Err(e);
            },
        };
        let mut right = match pull_page(&sheet_table.right, right_images) {
            Ok(v) => v,
            Err(e) => {
                return Err(e);
            },
        };

        if left.len() > 256 {
            return Err(
                Error::DimensionsError {
                    subject: Subject::LeftPage,
                    need: 256,
                    got: left.len(),
                },
            );
        }
        if right.len() > 256 {
            return Err(
                Error::DimensionsError {
                    subject: Subject::RightPage,
                    need: 256,
                    got: right.len(),
                },
            );
        }

        // Pattern table pages must be tightly packed at exactly 256 tiles.
        pad_page(&mut left);
        pad_page(&mut right);

        proof {
            let lt = page_pull_spec(sheet_table.left@, left_images@)->Ok_0;
            let rt = page_pull_spec(sheet_table.right@, right_images@)->Ok_0;
            assert(left@.map_values(|t: Tile| t@) == padded_page(lt));
            assert(right@.map_values(|t: Tile| t@) == padded_page(rt));
            assert(left@.map_values(|t: Tile| t@).len() == left@.len());
            assert(right@.map_values(|t: Tile| t@).len() == right@.len());
            assert(padded_page(lt).len() == 256);
            assert(padded_page(rt).len() == 256);
        }
        Ok(PatternTable { left, right })
    }

    /// Appends the CHR binary to `out`: the 16 data bytes of every left
    /// tile, then of every right tile, preserving tile order. For a built
    /// table this is exactly 8192 bytes.
    pub fn write(&self, out: &mut Vec<u8>)
        ensures
            final(out)@ == old(out)@ + chr_bytes(self@),
            self.wf() ==> final(out)@.len() == old(out)@.len() + 8192,
    {
        let ghost base = out@;
        write_tiles(&self.left, out);
        write_tiles(&self.right, out);
        proof {
            assert(out@ =~= base + chr_bytes(self@));
            if self.wf() {
                assert(forall|k: int| 0 <= k < self@.left.len() ==> #[trigger] self@.left[k]
                    .data.len() == 16);
                assert(forall|k: int| 0 <= k < self@.right.len() ==> #[trigger] self@.right[k]
                    .data.len() == 16);
                lemma_tiles_bytes_len(self@.left);
                lemma_tiles_bytes_len(self@.right);
            }
        }
    }
}

/// Appends the 16 data bytes of every tile, in order.
#[verifier::loop_isolation(false)]
fn write_tiles(tiles: &Vec<Tile>, out: &mut Vec<u8>)
    ensures
        final(out)@ == old(out)@ + tiles_bytes(tiles@.map_values(|t: Tile| t@)),
{
    let ghost tv = tiles@.map_values(|t: Tile| t@);
    let n = tiles.len();
    let mut i: usize = 0;
    proof {
        assert(tv.skip(0) =~= tv);
    }
    while i < n
        invariant
            i <= n,
            out@ + tiles_bytes(tv.skip(i as int)) == old(out)@ + tiles_bytes(tv),
        decreases n - i,
    {
        let ghost row_base = out@;
        let mut j: usize = 0;
        while j < 16
            invariant
                j <= 16,
                out@ == row_base + tiles@[i as int]@.data.take(j as int),
            decreases 16 - j,
        {
            let ghost prev = out@;
            out.push(tiles[i].data[j]);
            proof {
                assert(out@ =~= row_base + tiles@[i as int]@.data.take(j as int + 1));
            }
            j = j + 1;
        }
        proof {
            assert(tv.skip(i as int)[0] == tv[i as int]);
            assert(tv.skip(i as int).skip(1) =~= tv.skip(i as int + 1));
            assert(tiles@[i as int]@.data.take(16) =~= tv[i as int].data);
            assert((row_base + tv[i as int].data) + tiles_bytes(tv.skip(i as int + 1))
                =~= row_base + (tv[i as int].data + tiles_bytes(tv.skip(i as int + 1))));
        }
        i = i + 1;
    }
    proof {
        assert(tv.skip(n as int) =~= Seq::<TileView>::empty());
        assert(out@ + Seq::<u8>::empty() =~= out@);
    }
}

} // verus!
