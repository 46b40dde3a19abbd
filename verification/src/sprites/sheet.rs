//! Sheet descriptors and the extraction of named tile sequences from decoded
//! indexed-color bitmaps.

use vstd::prelude::*;
use vstd::string::StringExecFns;

use crate::sprites::{
    block_valid, first_high, lemma_first_high_bounds, pack_spec, Error, Subject, Tile, TileView,
};

verus! {

/// A decoded indexed-color image: one byte per pixel, row-major.
///
/// Decoding itself is an external capability; the extractor only consumes
/// the plain values it yields.
pub struct Bitmap {
    /// Width in pixels.
    pub width: usize,
    /// Height in pixels.
    pub height: usize,
    /// One palette index per pixel, row by row from the top left.
    pub buffer: Vec<u8>,
}

impl Bitmap {
    /// A well-formed bitmap holds exactly one byte per pixel.
    pub open spec fn wf(&self) -> bool {
        self.buffer@.len() == self.width * self.height
    }
}

/// The decimal digit character for a value below ten.
pub open spec fn digit_char(d: nat) -> char
    recommends
        d < 10,
{
    if d == 0 {
        '0'
    } else if d == 1 {
        '1'
    } else if d == 2 {
        '2'
    } else if d == 3 {
        '3'
    } else if d == 4 {
        '4'
    } else if d == 5 {
        '5'
    } else if d == 6 {
        '6'
    } else if d == 7 {
        '7'
    } else if d == 8 {
        '8'
    } else {
        '9'
    }
}

/// The decimal digits of `n`, most significant first, with no leading zeros.
pub open spec fn dec_digits(n: nat) -> Seq<char>
    decreases n,
{
    if n < 10 {
        seq![digit_char(n)]
    } else {
        dec_digits(n / 10).push(digit_char(n % 10))
    }
}

/// A tile name of the form `{base}_{a}_{b}`.
pub open spec fn indexed_name(base: Seq<char>, a: nat, b: nat) -> Seq<char> {
    base + seq!['_'] + dec_digits(a) + seq!['_'] + dec_digits(b)
}

/// The one-character string spelling a decimal digit.
fn digit_str(d: usize) -> (r: &'static str)
    requires
        d < 10,
    ensures
        r@ == seq![digit_char(d as nat)],
{
    proof {
        reveal_strlit("0");
        reveal_strlit("1");
        reveal_strlit("2");
        reveal_strlit("3");
        reveal_strlit("4");
        reveal_strlit("5");
        reveal_strlit("6");
        reveal_strlit("7");
        reveal_strlit("8");
        reveal_strlit("9");
    }
    let r: &'static str = if d == 0 {
        "0"
    } else if d == 1 {
        "1"
    } else if d == 2 {
        "2"
    } else if d == 3 {
        "3"
    } else if d == 4 {
        "4"
    } else if d == 5 {
        "5"
    } else if d == 6 {
        "6"
    } else if d == 7 {
        "7"
    } else if d == 8 {
        "8"
    } else {
        "9"
    };
    proof {
        assert(r@ =~= seq![digit_char(d as nat)]);
    }
    r
}

/// Appends the decimal digits of `n`, most significant first.
fn push_decimal(out: &mut String, n: usize)
    ensures
        final(out)@ == old(out)@ + dec_digits(n as nat),
    decreases n,
{
    if n >= 10 {
        push_decimal(out, n / 10);
    }
    out.append(digit_str(n % 10));
    proof {
        assert(out@ =~= old(out)@ + dec_digits(n as nat));
    }
}

/// Builds `{base}_{a}_{b}`, the digits in decimal.
fn compose_name(base: &str, a: usize, b: usize) -> (r: String)
    ensures
        r@ == indexed_name(base@, a as nat, b as nat),
{
    proof {
        reveal_strlit("_");
    }
    let mut name = base.to_owned();
    name.append("_");
    push_decimal(&mut name, a);
    name.append("_");
    push_decimal(&mut name, b);
    proof {
        assert(name@ =~= indexed_name(base@, a as nat, b as nat));
    }
    name
}

/// The 64-byte row-major pixel block of the tile in tile column `tx` and
/// tile row `ty` of `image`.
pub open spec fn tile_block(image: Bitmap, tx: int, ty: int) -> Seq<u8> {
    Seq::new(64, |j: int| image.buffer@[(ty * 8 + j / 8) * image.width + tx * 8 + j % 8])
}

/// A `Result` of extracted tiles reduced to its mathematical content.
pub open spec fn pull_result_view(r: Result<Vec<Tile>, Error>) -> Result<Seq<TileView>, Error> {
    match r {
        Ok(v) => Ok(v@.map_values(|t: Tile| t@)),
        Err(e) => Err(e),
    }
}

/// What loading the raster-ordered tile pool of a `w` by `h` sheet from
/// `image` yields: a dimension error if the image is too small (width
/// first), a palette error naming the first out-of-range byte otherwise,
/// and else one packed tile per sheet position, all named `name`.
pub open spec fn load_tiles_spec(w: int, h: int, name: Seq<char>, image: Bitmap) -> Result<
    Seq<TileView>,
    Error,
> {
    if image.width < w * 8 {
        Err(
            Error::DimensionsError {
                subject: Subject::ImageWidth,
                need: w as usize,
                got: ((image.width as int) / 8) as usize,
            },
        )
    } else if image.height < h * 8 {
        Err(
            Error::DimensionsError {
                subject: Subject::ImageHeight,
                need: h as usize,
                got: ((image.height as int) / 8) as usize,
            },
        )
    } else if first_high(image.buffer@) < image.buffer@.len() {
        Err(Error::PaletteError { value: image.buffer@[first_high(image.buffer@)] })
    } else {
        Ok(
            Seq::new(
                (w * h) as nat,
                |i: int| TileView {
                    name: Some(name),
                    data: pack_spec(tile_block(image, i % w, i / w)),
                },
            ),
        )
    }
}

proof fn lemma_row_col_bound(row: int, col: int, iw: int, ih: int)
    by (nonlinear_arith)
    requires
        0 <= row < ih,
        0 <= col < iw,
    ensures
        row * iw + col < iw * ih,
{
}

proof fn lemma_div_floor_lt(a: int, b: int)
    by (nonlinear_arith)
    requires
        a >= 0,
        a / 8 < b,
    ensures
        a < b * 8,
{
}

proof fn lemma_div_floor_ge(a: int, b: int)
    by (nonlinear_arith)
    requires
        a >= 0,
        a / 8 >= b,
    ensures
        a >= b * 8,
{
}

proof fn lemma_count_bound(w: int, h: int, iw: int, ih: int)
    by (nonlinear_arith)
    requires
        0 <= w,
        0 <= h,
        w * 8 <= iw,
        h * 8 <= ih,
    ensures
        w * h <= iw * ih,
{
}

/// Loads the raster-ordered pool of `width` by `height` tiles from a decoded
/// image, validating the image's size and palette range first. Every pool
/// tile carries the sheet's own `name`; callers rename them.
#[verifier::loop_isolation(false)]
pub fn load_tiles(width: usize, height: usize, name: &str, image: &Bitmap) -> (r: Result<
    Vec<Tile>,
    Error,
>)
    requires
        image.wf(),
    ensures
        pull_result_view(r) == load_tiles_spec(width as int, height as int, name@, *image),
{
    if image.width / 8 < width {
        proof {
            lemma_div_floor_lt(image.width as int, width as int);
        }
        return Err(
            Error::DimensionsError {
                subject: Subject::ImageWidth,
                need: width,
                got: image.width / 8,
            },
        );
    }
    if image.height / 8 < height {
        proof {
            lemma_div_floor_lt(image.height as int, height as int);
            lemma_div_floor_ge(image.width as int, width as int);
        }
        return Err(
            Error::DimensionsError {
                subject: Subject::ImageHeight,
                need: height,
                got: image.height / 8,
            },
        );
    }
    proof {
        lemma_div_floor_ge(image.width as int, width as int);
        lemma_div_floor_ge(image.height as int, height as int);
    }

    // Reject any pixel outside the 4-color palette, first offender first.
    let mut i: usize = 0;
    let n = image.buffer.len();
    while i < n
        invariant
            i <= n,
            forall|k: int| 0 <= k < i ==> image.buffer@[k] <= 3,
        decreases n - i,
    {
        if image.buffer[i] > 3 {
            proof {
                crate::sprites::lemma_first_high_at(image.buffer@, i as int);
            }
            return Err(Error::PaletteError { value: image.buffer[i] });
        }
        i = i + 1;
    }
    proof {
        lemma_first_high_bounds(image.buffer@);
    }

    // 64 pixels per tile fit inside the image's own pixel count.
    proof {
        lemma_count_bound(width as int, height as int, image.width as int, image.height as int);
    }
    let count = width * height;

    let mut tiles: Vec<Tile> = Vec::new();
    let mut t: usize = 0;
    while t < count
        invariant
            t <= count,
            tiles@.len() == t,
            forall|k: int| 0 <= k < t ==> #[trigger] tiles@[k]@ == (TileView {
                name: Some(name@),
                data: pack_spec(tile_block(*image, k % (width as int), k / (width as int))),
            }),
        decreases count - t,
    {
        let tx = t % width;
        let ty = t / width;
        proof {
            assert(width > 0) by (nonlinear_arith)
                requires
                    t < count,
                    count == width * height,
                    t >= 0,
            ;
            assert(ty < height) by (nonlinear_arith)
                requires
                    t < count,
                    count == width * height,
                    ty == t / width,
                    width > 0,
                    t >= 0,
            ;
        }

        let mut block: Vec<u8> = Vec::new();
        let mut j: usize = 0;
        while j < 64
            invariant
                j <= 64,
                tx < width,
                ty < height,
                block@.len() == j,
                forall|k: int| 0 <= k < j ==> block@[k] == tile_block(*image, tx as int,
                    ty as int,
                )[k],
            decreases 64 - j,
        {
            let row = ty * 8 + j / 8;
            let col = tx * 8 + j % 8;
            proof {
                assert(row < image.height && col < image.width) by (nonlinear_arith)
                    requires
                        row == ty * 8 + j / 8,
                        col == tx * 8 + j % 8,
                        0 <= j < 64,
                        0 <= tx < width,
                        0 <= ty < height,
                        image.width >= width * 8,
                        image.height >= height * 8,
                ;
                lemma_row_col_bound(row as int, col as int, image.width as int,
                    image.height as int);
                lemma_first_high_bounds(image.buffer@);
            }
            let idx = row * image.width + col;
            block.push(image.buffer[idx]);
            j = j + 1;
        }
        assert(block@ =~= tile_block(*image, tx as int, ty as int));
        proof {
            lemma_first_high_bounds(image.buffer@);
            assert forall|k: int| 0 <= k < 64 implies block@[k] <= 3 by {
                lemma_row_col_bound(
                    (ty as int) * 8 + k / 8,
                    (tx as int) * 8 + k % 8,
                    image.width as int,
                    image.height as int,
                );
            }
        }

        let tile = match Tile::from_bytes(block.as_slice(), Some(name)) {
            Ok(tile) => tile,
            Err(_) => {
                proof {
                    assert(block_valid(block@));
                }
                vstd::pervasive::unreached()
            },
        };
        tiles.push(tile);
        t = t + 1;
    }

    proof {
        let w = width as int;
        let h = height as int;
        assert(pull_result_view(Ok(tiles)) == load_tiles_spec(w, h, name@, *image)) by {
            let have = tiles@.map_values(|tl: Tile| tl@);
            let want = Seq::new(
                (w * h) as nat,
                |i: int| TileView {
                    name: Some(name@),
                    data: pack_spec(tile_block(*image, i % w, i / w)),
                },
            );
            assert(have =~= want);
        }
    }
    Ok(tiles)
}

/// A 64-pixel block holding the same 2-bit value everywhere.
pub open spec fn fill_block(value: u8) -> Seq<u8> {
    Seq::new(64, |j: int| value)
}

/// What pulling a [`Fill`] yields: a format error for a value above 3, and
/// else `count` identical solid tiles sharing the fill's name.
pub open spec fn fill_pull_spec(f: Fill) -> Result<Seq<TileView>, Error> {
    if f.value > 3 {
        Err(Error::FormatError { value: f.value })
    } else {
        Ok(
            Seq::new(
                f.count as nat,
                |i: int| TileView { name: Some(f.name@), data: pack_spec(fill_block(f.value)) },
            ),
        )
    }
}

/// The simplest sprite type. Fills every tile with its value.
///
/// Generates defines named `$name`.
#[derive(Debug)]
pub struct Fill {
    /// The value to fill in; must be 0-3, inclusive.
    pub value: u8,

    /// The name, used for generation of the C and ASM definition headers.
    pub name: String,

    /// The number of tiles to generate.
    pub count: usize,
}

impl Fill {
    /// Pulls the named tiles out of this fill sprite.
    #[verifier::loop_isolation(false)]
    pub fn pull_tiles(&self) -> (r: Result<Vec<Tile>, Error>)
        ensures
            pull_result_view(r) == fill_pull_spec(*self),
    {
        if self.value > 3 {
            return Err(Error::FormatError { value: self.value });
        }
        let mut data: Vec<u8> = Vec::new();
        let mut j: usize = 0;
        while j < 64
            invariant
                j <= 64,
                data@.len() == j,
                forall|k: int| 0 <= k < j ==> data@[k] == self.value,
            decreases 64 - j,
        {
            data.push(self.value);
            j = j + 1;
        }
        assert(data@ =~= fill_block(self.value));
        let tile = match Tile::from_bytes(data.as_slice(), Some(self.name.as_str())) {
            Ok(tile) => tile,
            Err(_) => {
                proof {
                    assert(block_valid(data@));
                }
                vstd::pervasive::unreached()
            },
        };

        let mut output: Vec<Tile> = Vec::new();
        let mut i: usize = 0;
        while i < self.count
            invariant
                i <= self.count,
                output@.len() == i,
                tile@.data == pack_spec(fill_block(self.value)),
                forall|k: int| 0 <= k < i ==> #[trigger] output@[k]@ == (TileView {
                    name: Some(self.name@),
                    data: pack_spec(fill_block(self.value)),
                }),
            decreases self.count - i,
        {
            output.push(Tile { name: Some(self.name.clone()), data: tile.data });
            i = i + 1;
        }
        proof {
            assert(output@.map_values(|t: Tile| t@) =~= fill_pull_spec(*self)->Ok_0);
        }
        Ok(output)
    }
}

/// What pulling a [`Simple`] sheet yields: the errors of loading its tile
/// pool, or every pool tile in raster order renamed `{name}_{x}_{y}` with
/// the x coordinate varying fastest.
pub open spec fn simple_pull_spec(s: Simple, image: Bitmap) -> Result<Seq<TileView>, Error> {
    match load_tiles_spec(s.width as int, s.height as int, s.name@, image) {
        Err(e) => Err(e),
        Ok(pool) => Ok(
            Seq::new(
                pool.len(),
                |i: int| TileView {
                    name: Some(
                        indexed_name(
                            s.name@,
                            (i % (s.width as int)) as nat,
                            (i / (s.width as int)) as nat,
                        ),
                    ),
                    data: pool[i].data,
                },
            ),
        ),
    }
}

/// A very simple sprite type. Simply pulls in the tiles and numbers them.
///
/// Generates defines named `$name_$x_$y`, with the position relative to the
/// top left of the image.
#[derive(Debug)]
pub struct Simple {
    /// The image filename to pull in.
    pub file: String,

    /// The name, used for generation of the C and ASM definition headers.
    pub name: String,

    /// The width of the whole image, in 8x8 tiles.
    pub width: usize,

    /// The height of the whole image, in 8x8 tiles.
    pub height: usize,
}

impl Simple {
    /// Pulls the named tiles out of this simple sprite.
    #[verifier::loop_isolation(false)]
    pub fn pull_tiles(&self, image: &Bitmap) -> (r: Result<Vec<Tile>, Error>)
        requires
            image.wf(),
        ensures
            pull_result_view(r) == simple_pull_spec(*self, *image),
    {
        let tiles = match load_tiles(self.width, self.height, self.name.as_str(), image) {
            Ok(tiles) => tiles,
            Err(e) => {
                return Err(e);
            },
        };
        let count = tiles.len();

        let mut output: Vec<Tile> = Vec::new();
        let mut i: usize = 0;
        while i < count
            invariant
                i <= count,
                output@.len() == i,
                forall|k: int| 0 <= k < i ==> #[trigger] output@[k]@
                    == simple_pull_spec(*self, *image)->Ok_0[k],
            decreases count - i,
        {
            proof {
                assert(self.width > 0) by (nonlinear_arith)
                    requires
                        i < count,
                        count == self.width * self.height,
                        i >= 0,
                ;
            }
            let x = i % self.width;
            let y = i / self.width;
            let tile = Tile {
                name: Some(compose_name(self.name.as_str(), x, y)),
                data: tiles[i].data,
            };
            output.push(tile);
            i = i + 1;
        }
        proof {
            assert(output@.map_values(|t: Tile| t@) =~= simple_pull_spec(*self, *image)->Ok_0);
        }
        Ok(output)
    }
}

/// Output tile `o` of an animation pull: frame `o / per`, tile `o % per`
/// within its frame, drawn from the pool tile at the frame's horizontal
/// offset plus the in-frame position.
pub open spec fn animation_elem(a: Animation, pool: Seq<TileView>, o: int) -> TileView {
    let fw = a.frame_width as int;
    let per = fw * (a.frame_height as int);
    let w = fw * (a.frames as int);
    let f = o / per;
    let rem = o % per;
    let y = rem / fw;
    let x = rem % fw;
    TileView {
        name: Some(indexed_name(a.name@, f as nat, rem as nat)),
        data: pool[y * w + f * fw + x].data,
    }
}

/// What pulling an [`Animation`] yields: the errors of loading the pool of
/// its full sheet (`frame_width * frames` tiles wide), or the pool tiles
/// reordered frame-major and renamed `{name}_{frame}_{frame_tile}`, the
/// frame tile index counted raster-order within its own frame.
pub open spec fn animation_pull_spec(a: Animation, image: Bitmap) -> Result<Seq<TileView>, Error> {
    let w = (a.frame_width as int) * (a.frames as int);
    match load_tiles_spec(w, a.frame_height as int, a.name@, image) {
        Err(e) => Err(e),
        Ok(pool) => Ok(Seq::new(pool.len(), |o: int| animation_elem(a, pool, o))),
    }
}

/// An animation sprite type. Used for creating sprites that are composed of
/// multiple equal-sized frames laid out side by side horizontally.
///
/// Frames are laid out in memory one frame after another, so each frame
/// contributes `frame_width * frame_height` tiles before the next begins.
/// Generates defines named `$name_$frame_$tile`, with each tile number
/// relative to its frame.
#[derive(Debug)]
pub struct Animation {
    /// The image filename to pull in.
    pub file: String,

    /// The name, used for generation of the C and ASM definition headers.
    pub name: String,

    /// The width of a single frame, in 8x8 tiles.
    pub frame_width: usize,

    /// The height of a single frame, in 8x8 tiles.
    pub frame_height: usize,

    /// The number of frames in this animation.
    pub frames: usize,
}

impl Animation {
    /// Pulls the named tiles out of this animation.
    #[verifier::loop_isolation(false)]
    pub fn pull_tiles(&self, image: &Bitmap) -> (r: Result<Vec<Tile>, Error>)
        requires
            image.wf(),
            self.frame_width * self.frames <= usize::MAX,
        ensures
            pull_result_view(r) == animation_pull_spec(*self, *image),
    {
        let sheet_width = self.frame_width * self.frames;
        let tiles = match load_tiles(sheet_width, self.frame_height, self.name.as_str(), image) {
            Ok(tiles) => tiles,
            Err(e) => {
                return Err(e);
            },
        };
        let count = tiles.len();
        let ghost fw = self.frame_width as int;
        let ghost fh = self.frame_height as int;
        let ghost per = fw * fh;
        let ghost want = animation_pull_spec(*self, *image)->Ok_0;

        let mut output: Vec<Tile> = Vec::new();
        let mut frame: usize = 0;
        while frame < self.frames
            invariant
                frame <= self.frames,
                output@.len() == frame * per,
                output@.len() <= count,
                forall|k: int| 0 <= k < output@.len() ==> #[trigger] output@[k]@ == want[k],
            decreases self.frames - frame,
        {
            let mut y: usize = 0;
            while y < self.frame_height
                invariant
                    y <= self.frame_height,
                    output@.len() == frame * per + y * fw,
                    output@.len() <= count,
                    forall|k: int| 0 <= k < output@.len() ==> #[trigger] output@[k]@ == want[k],
                decreases self.frame_height - y,
            {
                let mut x: usize = 0;
                while x < self.frame_width
                    invariant
                        x <= self.frame_width,
                        output@.len() == frame * per + y * fw + x,
                        output@.len() <= count,
                        forall|k: int| 0 <= k < output@.len() ==> #[trigger] output@[k]@
                            == want[k],
                    decreases self.frame_width - x,
                {
                    proof {
                        assert(frame * per + y * fw + x < count && y * (fw * (self.frames as int))
                            + frame * fw + x < count) by (nonlinear_arith)
                            requires
                                count == (fw * (self.frames as int)) * fh,
                                per == fw * fh,
                                0 <= frame < self.frames,
                                0 <= y < fh,
                                0 <= x < fw,
                        ;
                    }
                    let frame_tile = y * self.frame_width + x;
                    let pool_index = y * sheet_width + frame * self.frame_width + x;
                    let tile = Tile {
                        name: Some(compose_name(self.name.as_str(), frame, frame_tile)),
                        data: tiles[pool_index].data,
                    };
                    output.push(tile);
                    proof {
                        let o = frame * per + y * fw + x;
                        assert(y * fw + x < per) by (nonlinear_arith)
                            requires
                                0 <= y < fh,
                                0 <= x < fw,
                                per == fw * fh,
                        ;
                        vstd::arithmetic::div_mod::lemma_fundamental_div_mod_converse(
                            o, per, frame as int, y * fw + x);
                        vstd::arithmetic::div_mod::lemma_fundamental_div_mod_converse(
                            y * fw + x, fw, y as int, x as int);
                        assert(output@[o]@ == want[o]);
                    }
                    x = x + 1;
                }
                proof {
                    assert((y + 1) * fw == y * fw + fw) by (nonlinear_arith);
                }
                y = y + 1;
            }
            proof {
                assert((frame + 1) * per == frame * per + fh * fw) by (nonlinear_arith)
                    requires
                        per == fw * fh,
                ;
            }
            frame = frame + 1;
        }
        proof {
            assert(output@.len() == count) by (nonlinear_arith)
                requires
                    output@.len() == (self.frames as int) * per,
                    per == fw * fh,
                    count == (fw * (self.frames as int)) * fh,
            ;
            assert(output@.map_values(|t: Tile| t@) =~= want);
        }
        Ok(output)
    }
}

/// The first pool index in `row` at or beyond `pool_len`, if any.
pub open spec fn row_oob(row: Seq<usize>, pool_len: int) -> Option<usize>
    decreases row.len(),
{
    if row.len() == 0 {
        None
    } else if row[0] >= pool_len {
        Some(row[0])
    } else {
        row_oob(row.skip(1), pool_len)
    }
}

/// The first pool index across `ss` (slice by slice, position by position)
/// at or beyond `pool_len`, if any.
pub open spec fn slices_oob(ss: Seq<Seq<usize>>, pool_len: int) -> Option<usize>
    decreases ss.len(),
{
    if ss.len() == 0 {
        None
    } else if row_oob(ss[0], pool_len) is Some {
        row_oob(ss[0], pool_len)
    } else {
        slices_oob(ss.skip(1), pool_len)
    }
}

proof fn lemma_row_oob_at(row: Seq<usize>, pool_len: int, p: int)
    requires
        0 <= p < row.len(),
        forall|k: int| 0 <= k < p ==> row[k] < pool_len,
        row[p] >= pool_len,
    ensures
        row_oob(row, pool_len) == Some(row[p]),
    decreases p,
{
    if p > 0 {
        assert(forall|k: int| 0 <= k < p - 1 ==> row.skip(1)[k] == row[k + 1]);
        assert(row.skip(1)[p - 1] == row[p]);
        lemma_row_oob_at(row.skip(1), pool_len, p - 1);
    }
}

proof fn lemma_row_oob_none(row: Seq<usize>, pool_len: int)
    requires
        forall|k: int| 0 <= k < row.len() ==> row[k] < pool_len,
    ensures
        row_oob(row, pool_len) is None,
    decreases row.len(),
{
    if row.len() > 0 {
        assert(forall|k: int| 0 <= k < row.len() - 1 ==> row.skip(1)[k] == row[k + 1]);
        lemma_row_oob_none(row.skip(1), pool_len);
    }
}

/// The tiles of one slice: position `p` is the pool tile at index `row[p]`,
/// renamed `{base}_{s}_{p}`.
pub open spec fn slice_row_out(row: Seq<usize>, s: nat, base: Seq<char>, pool: Seq<TileView>) -> Seq<
    TileView,
> {
    Seq::new(
        row.len(),
        |p: int| TileView {
            name: Some(indexed_name(base, s, p as nat)),
            data: pool[row[p] as int].data,
        },
    )
}

/// The tiles of the slices of `ss` from slice number `s` on, in order.
pub open spec fn slices_out(ss: Seq<Seq<usize>>, s: nat, base: Seq<char>, pool: Seq<TileView>) -> Seq<
    TileView,
>
    decreases ss.len(),
{
    if ss.len() == 0 {
        Seq::empty()
    } else {
        slice_row_out(ss[0], s, base, pool) + slices_out(ss.skip(1), (s + 1) as nat, base, pool)
    }
}

/// What pulling a [`Slice`] yields: the errors of loading its tile pool,
/// then a dimension error naming the first out-of-range pool index, and
/// else the chosen pool tiles slice by slice, renamed
/// `{name}_{slice}_{position}`.
pub open spec fn slice_pull_spec(sl: Slice, image: Bitmap) -> Result<Seq<TileView>, Error> {
    match load_tiles_spec(sl.width as int, sl.height as int, sl.name@, image) {
        Err(e) => Err(e),
        Ok(pool) => match slices_oob(sl.slices.deep_view(), pool.len() as int) {
            Some(bad) => Err(
                Error::DimensionsError {
                    subject: Subject::SliceIndex,
                    need: pool.len() as usize,
                    got: bad,
                },
            ),
            None => Ok(slices_out(sl.slices.deep_view(), 0, sl.name@, pool)),
        },
    }
}

/// A sprite composed of "slices", for fine-tuned grouping of tiles without
/// raw numbering: the sheet is read raster-order into a flat pool, and each
/// slice lists the pool indices it takes, in order.
///
/// Generates defines named `$name_$slice_$tile`, with each tile number
/// relative to its slice.
#[derive(Debug)]
pub struct Slice {
    /// The image filename to pull in.
    pub file: String,

    /// The name, used for generation of the C and ASM definition headers.
    pub name: String,

    /// The width of the whole image, in 8x8 tiles.
    pub width: usize,

    /// The height of the whole image, in 8x8 tiles.
    pub height: usize,

    /// Slices, each a list of tile indices into the sheet's raster-order
    /// tile pool.
    pub slices: Vec<Vec<usize>>,
}

impl Slice {
    /// Pulls the named tiles out of this slice sprite.
    #[verifier::loop_isolation(false)]
    pub fn pull_tiles(&self, image: &Bitmap) -> (r: Result<Vec<Tile>, Error>)
        requires
            image.wf(),
        ensures
            pull_result_view(r) == slice_pull_spec(*self, *image),
    {
        let tiles = match load_tiles(self.width, self.height, self.name.as_str(), image) {
            Ok(tiles) => tiles,
            Err(e) => {
                return Err(e);
            },
        };
        let pool_len = tiles.len();
        let ghost dv = self.slices.deep_view();
        let ghost poolv = tiles@.map_values(|t: Tile| t@);

        let mut output: Vec<Tile> = Vec::new();
        let mut s: usize = 0;
        let slice_count = self.slices.len();
        proof {
            assert(dv.skip(0) =~= dv);
            assert(output@.map_values(|t: Tile| t@) =~= Seq::<TileView>::empty());
            assert(Seq::<TileView>::empty() + slices_out(dv, 0, self.name@, poolv)
                =~= slices_out(dv, 0, self.name@, poolv));
        }
        while s < slice_count
            invariant
                s <= slice_count,
                slices_oob(dv, pool_len as int) == slices_oob(dv.skip(s as int), pool_len as int),
                slices_out(dv, 0, self.name@, poolv) =~= output@.map_values(|t: Tile| t@)
                    + slices_out(dv.skip(s as int), s as nat, self.name@, poolv),
            decreases slice_count - s,
        {
            let row = &self.slices[s];
            let row_len = row.len();
            let ghost out_before = output@;
            let mut p: usize = 0;
            while p < row_len
                invariant
                    p <= row_len,
                    output@.len() == out_before.len() + p,
                    forall|k: int| 0 <= k < out_before.len() ==> output@[k] == out_before[k],
                    forall|k: int| 0 <= k < p ==> row@[k] < pool_len,
                    forall|k: int| 0 <= k < p ==> #[trigger] output@[out_before.len() + k]@
                        == slice_row_out(row@, s as nat, self.name@, poolv)[k],
                decreases row_len - p,
            {
                let index = row[p];
                if index >= pool_len {
                    proof {
                        lemma_row_oob_at(row@, pool_len as int, p as int);
                        assert(dv.skip(s as int)[0] == dv[s as int]);
                        assert(dv[s as int] == row@);
                    }
                    return Err(
                        Error::DimensionsError {
                            subject: Subject::SliceIndex,
                            need: pool_len,
                            got: index,
                        },
                    );
                }
                let tile = Tile {
                    name: Some(compose_name(self.name.as_str(), s, p)),
                    data: tiles[index].data,
                };
                output.push(tile);
                p = p + 1;
            }
            proof {
                lemma_row_oob_none(row@, pool_len as int);
                assert(dv.skip(s as int)[0] == dv[s as int]);
                assert(dv[s as int] == row@);
                assert(dv.skip(s as int).skip(1) =~= dv.skip(s as int + 1));
                let rowv = slice_row_out(row@, s as nat, self.name@, poolv);
                assert forall|i: int| 0 <= i < output@.len() implies #[trigger] output@[i]@
                    == (out_before.map_values(|t: Tile| t@) + rowv)[i] by {
                    if i >= out_before.len() {
                        let k = i - out_before.len();
                        assert(output@[out_before.len() + k]@ == rowv[k]);
                    }
                }
                assert(output@.map_values(|t: Tile| t@) =~= out_before.map_values(|t: Tile| t@)
                    + rowv);
            }
            s = s + 1;
        }
        proof {
            assert(dv.skip(slice_count as int) =~= Seq::<Seq<usize>>::empty());
            assert(output@.map_values(|t: Tile| t@) =~= slices_out(dv, 0, self.name@, poolv));
        }
        Ok(output)
    }
}

/// An enum used for differentiating sheets by type.
#[derive(Debug)]
pub enum Sheet {
    Animation(Animation),
    Slice(Slice),
    Simple(Simple),
    Fill(Fill),
}

/// The machine limit a sheet's geometry must respect: an animation's full
/// sheet width in tiles must be a representable count.
pub open spec fn sheet_wf(s: Sheet) -> bool {
    match s {
        Sheet::Animation(a) => a.frame_width * a.frames <= usize::MAX,
        _ => true,
    }
}

/// What pulling any sheet from `image` yields; [`Sheet::Fill`] ignores the
/// image entirely.
pub open spec fn sheet_pull_spec(s: Sheet, image: Bitmap) -> Result<Seq<TileView>, Error> {
    match s {
        Sheet::Animation(a) => animation_pull_spec(a, image),
        Sheet::Slice(sl) => slice_pull_spec(sl, image),
        Sheet::Simple(sp) => simple_pull_spec(sp, image),
        Sheet::Fill(f) => fill_pull_spec(f),
    }
}

impl Sheet {
    /// Pulls the named tiles out of this sheet, whatever its type.
    pub fn pull_tiles(&self, image: &Bitmap) -> (r: Result<Vec<Tile>, Error>)
        requires
            image.wf(),
            sheet_wf(*self),
        ensures
            pull_result_view(r) == sheet_pull_spec(*self, *image),
    {
        match self {
            Sheet::Animation(a) => a.pull_tiles(image),
            Sheet::Slice(sl) => sl.pull_tiles(image),
            Sheet::Simple(sp) => sp.pull_tiles(image),
            Sheet::Fill(f) => f.pull_tiles(),
        }
    }
}

/// A sheet pattern table, for organizing sprite sheets by order into their
/// appropriate table section.
#[derive(Debug)]
pub struct SheetPatternTable {
    pub left: Vec<Sheet>,
    pub right: Vec<Sheet>,
}

/// The sheet geometry that image-backed sprite types share: how large a
/// bitmap they need, where it comes from, and what the tiles are called.
pub trait LoadTiles {
    /// Width of the sheet in tiles.
    spec fn spec_sheet_width(&self) -> int;

    /// Height of the sheet in tiles.
    spec fn spec_sheet_height(&self) -> int;

    /// Path to the image.
    spec fn spec_image_path(&self) -> Seq<char>;

    /// Name of the image.
    spec fn spec_name(&self) -> Seq<char>;

    /// Width of the sheet in tiles.
    fn sheet_width(&self) -> (w: usize)
        requires
            self.spec_sheet_width() <= usize::MAX,
        ensures
            w as int == self.spec_sheet_width(),
    ;

    /// Height of the sheet in tiles.
    fn sheet_height(&self) -> (h: usize)
        ensures
            h as int == self.spec_sheet_height(),
    ;

    /// Path to the image.
    fn image_path<'a>(&'a self) -> (p: &'a str)
        ensures
            p@ == self.spec_image_path(),
    ;

    /// Name of the image.
    fn name<'a>(&'a self) -> (n: &'a str)
        ensures
            n@ == self.spec_name(),
    ;
}

impl LoadTiles for Simple {
    open spec fn spec_sheet_width(&self) -> int {
        self.width as int
    }

    open spec fn spec_sheet_height(&self) -> int {
        self.height as int
    }

    open spec fn spec_image_path(&self) -> Seq<char> {
        self.file@
    }

    open spec fn spec_name(&self) -> Seq<char> {
        self.name@
    }

    fn sheet_width(&self) -> usize {
        self.width
    }

    fn sheet_height(&self) -> usize {
        self.height
    }

    fn image_path<'a>(&'a self) -> &'a str {
        self.file.as_str()
    }

    fn name<'a>(&'a self) -> &'a str {
        self.name.as_str()
    }
}

impl LoadTiles for Animation {
    open spec fn spec_sheet_width(&self) -> int {
        (self.frame_width as int) * (self.frames as int)
    }

    open spec fn spec_sheet_height(&self) -> int {
        self.frame_height as int
    }

    open spec fn spec_image_path(&self) -> Seq<char> {
        self.file@
    }

    open spec fn spec_name(&self) -> Seq<char> {
        self.name@
    }

    fn sheet_width(&self) -> usize {
        self.frame_width * self.frames
    }

    fn sheet_height(&self) -> usize {
        self.frame_height
    }

    fn image_path<'a>(&'a self) -> &'a str {
        self.file.as_str()
    }

    fn name<'a>(&'a self) -> &'a str {
        self.name.as_str()
    }
}

impl LoadTiles for Slice {
    open spec fn spec_sheet_width(&self) -> int {
        self.width as int
    }

    open spec fn spec_sheet_height(&self) -> int {
        self.height as int
    }

    open spec fn spec_image_path(&self) -> Seq<char> {
        self.file@
    }

    open spec fn spec_name(&self) -> Seq<char> {
        self.name@
    }

    fn sheet_width(&self) -> usize {
        self.width
    }

    fn sheet_height(&self) -> usize {
        self.height
    }

    fn image_path<'a>(&'a self) -> &'a str {
        self.file.as_str()
    }

    fn name<'a>(&'a self) -> &'a str {
        self.name.as_str()
    }
}

} // verus!
