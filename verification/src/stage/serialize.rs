//! Serialization of the stage format: linearizing an ASCII stage grid by
//! orientation, run-length encoding it against the metatile catalog, and
//! framing it with palette and metatile headers.

use vstd::prelude::*;
use vstd::string::StrSliceExecFns;

use crate::sprites::{Error, Subject};

verus! {

/// Whether a stage scrolls horizontally or vertically; this decides the
/// order in which its grid is linearized.
#[derive(Clone, Copy, Debug, PartialEq, Eq, Structural)]
pub enum Orientation {
    Horizontal,
    Vertical,
}

impl Default for Orientation {
    /// Stages are horizontal unless the manifest says otherwise.
    fn default() -> (r: Orientation)
        ensures
            r == Orientation::Horizontal,
    {
        Orientation::Horizontal
    }
}

/// One building block of a stage grid: a symbol naming it in the ASCII
/// grid, the four tiles composing it, and its palette selector.
#[derive(Debug)]
pub struct Metatile {
    /// Just used to help with some debugging. Not compiled in at all.
    pub name: String,

    /// The symbol standing for this metatile in the grid data.
    pub symbol: char,

    /// The four tile indices composing the metatile.
    pub tiles: [u8; 4],

    /// The attribute table palette selector.
    pub palette: u8,
}

/// The mathematical content of a [`Metatile`].
pub struct MetatileView {
    pub name: Seq<char>,
    pub symbol: char,
    pub tiles: Seq<u8>,
    pub palette: u8,
}

impl View for Metatile {
    type V = MetatileView;

    open spec fn view(&self) -> MetatileView {
        MetatileView {
            name: self.name@,
            symbol: self.symbol,
            tiles: self.tiles@,
            palette: self.palette,
        }
    }
}

/// Top level stage sheet type. Holds all the data necessary to compile the
/// stage file.
#[derive(Debug)]
pub struct Stage {
    /// Whether the stage is serialized to be a horizontal stage or a
    /// vertical one.
    pub orientation: Orientation,

    /// Background palette definition.
    pub background_palette: [u8; 16],

    /// Sprite palette definition.
    pub sprite_palette: [u8; 16],

    /// Metatiles, for specifying the tiles used to compose a grid cell.
    pub metatiles: Vec<Metatile>,

    /// The ASCII grid: one line per grid row, one symbol per cell.
    pub data: String,
}

/// The mathematical content of a [`Stage`].
pub struct StageView {
    pub orientation: Orientation,
    pub background_palette: Seq<u8>,
    pub sprite_palette: Seq<u8>,
    pub metatiles: Seq<MetatileView>,
    pub data: Seq<char>,
}

impl View for Stage {
    type V = StageView;

    open spec fn view(&self) -> StageView {
        StageView {
            orientation: self.orientation,
            background_palette: self.background_palette@,
            sprite_palette: self.sprite_palette@,
            metatiles: self.metatiles@.map_values(|m: Metatile| m@),
            data: self.data@,
        }
    }
}

/// The index of the first newline in `s`, or `s.len()` if there is none.
pub open spec fn first_nl(s: Seq<char>) -> int
    decreases s.len(),
{
    if s.len() == 0 {
        0
    } else if s[0] == '\n' {
        0
    } else {
        1 + first_nl(s.skip(1))
    }
}

proof fn lemma_first_nl_bounds(s: Seq<char>)
    ensures
        0 <= first_nl(s) <= s.len(),
        forall|k: int| 0 <= k < first_nl(s) ==> s[k] != '\n',
        first_nl(s) < s.len() ==> s[first_nl(s)] == '\n',
    decreases s.len(),
{
    if s.len() != 0 && s[0] != '\n' {
        lemma_first_nl_bounds(s.skip(1));
        assert forall|k: int| 0 <= k < first_nl(s) implies s[k] != '\n' by {
            if k > 0 {
                assert(s.skip(1)[k - 1] == s[k]);
            }
        }
        if first_nl(s) < s.len() {
            assert(s.skip(1)[first_nl(s) - 1] == s[first_nl(s)]);
        }
    }
}

proof fn lemma_first_nl_at(s: Seq<char>, i: int)
    requires
        0 <= i < s.len(),
        forall|k: int| 0 <= k < i ==> s[k] != '\n',
        s[i] == '\n',
    ensures
        first_nl(s) == i,
    decreases i,
{
    if i > 0 {
        assert(forall|k: int| 0 <= k < i - 1 ==> s.skip(1)[k] == s[k + 1]);
        assert(s.skip(1)[i - 1] == s[i]);
        lemma_first_nl_at(s.skip(1), i - 1);
    }
}

/// A line with any trailing carriage return removed.
pub open spec fn strip_cr(line: Seq<char>) -> Seq<char> {
    if line.len() > 0 && line[line.len() - 1] == '\r' {
        line.drop_last()
    } else {
        line
    }
}

/// The lines of `s`: split at every newline, each line stripped of a
/// trailing carriage return, with no empty line after a final newline.
pub open spec fn split_lines_spec(s: Seq<char>) -> Seq<Seq<char>>
    decreases s.len(),
{
    if s.len() == 0 {
        Seq::empty()
    } else {
        let i = first_nl(s);
        if 0 <= i < s.len() {
            seq![strip_cr(s.take(i))] + split_lines_spec(s.skip(i + 1))
        } else {
            seq![strip_cr(s)]
        }
    }
}

/// Splits the grid characters into lines.
#[verifier::loop_isolation(false)]
fn split_lines(chars: &Vec<char>) -> (r: Vec<Vec<char>>)
    ensures
        r.deep_view() == split_lines_spec(chars@),
{
    let n = chars.len();
    let mut lines: Vec<Vec<char>> = Vec::new();
    let mut pos: usize = 0;
    proof {
        assert(chars@.skip(0) =~= chars@);
        assert(lines.deep_view() + split_lines_spec(chars@) =~= split_lines_spec(chars@));
    }
    while pos < n
        invariant
            pos <= n,
            split_lines_spec(chars@) == lines.deep_view() + split_lines_spec(
                chars@.skip(pos as int),
            ),
        decreases n - pos,
    {
        let ghost rest = chars@.skip(pos as int);
        let ghost dv_before = lines.deep_view();

        // Find the next newline, or the end of the data.
        let mut end: usize = pos;
        while end < n && chars[end] != '\n'
            invariant
                pos <= end <= n,
                forall|k: int| pos <= k < end ==> chars@[k] != '\n',
            decreases n - end,
        {
            end = end + 1;
        }
        proof {
            assert forall|k: int| 0 <= k < end - pos implies rest[k] != '\n' by {
                assert(rest[k] == chars@[pos + k]);
            }
            if end < n {
                assert(rest[end - pos] == chars@[end as int]);
                lemma_first_nl_at(rest, end - pos);
            } else {
                lemma_first_nl_bounds(rest);
            }
        }

        // Strip a trailing carriage return from the line.
        let stop: usize = if end > pos && chars[end - 1] == '\r' {
            end - 1
        } else {
            end
        };
        let mut line: Vec<char> = Vec::new();
        let mut k: usize = pos;
        while k < stop
            invariant
                pos <= k <= stop,
                line@ == chars@.subrange(pos as int, k as int),
            decreases stop - k,
        {
            line.push(chars[k]);
            proof {
                assert(line@ =~= chars@.subrange(pos as int, k as int + 1));
            }
            k = k + 1;
        }
        lines.push(line);

        proof {
            assert(lines.deep_view() =~~= dv_before.push(line@));
            if end < n {
                assert(rest.take(end - pos) =~= chars@.subrange(pos as int, end as int));
                assert(strip_cr(rest.take(end - pos)) =~= line@);
                assert(rest.skip(end - pos + 1) =~= chars@.skip(end as int + 1));
                assert(split_lines_spec(rest) == seq![strip_cr(rest.take(end - pos))]
                    + split_lines_spec(rest.skip(end - pos + 1)));
                assert(dv_before + (seq![line@] + split_lines_spec(chars@.skip(end as int + 1)))
                    =~= dv_before.push(line@) + split_lines_spec(chars@.skip(end as int + 1)));
            } else {
                assert(rest =~= chars@.subrange(pos as int, n as int));
                assert(strip_cr(rest) =~= line@);
                assert(split_lines_spec(rest) == seq![strip_cr(rest)]);
                assert(chars@.skip(n as int) =~= Seq::<char>::empty());
                assert(dv_before + seq![line@] =~= dv_before.push(line@)
                    + split_lines_spec(chars@.skip(n as int)));
            }
        }
        pos = if end < n {
            end + 1
        } else {
            n
        };
    }
    proof {
        assert(chars@.skip(n as int) =~= Seq::<char>::empty());
        assert(lines.deep_view() + Seq::<Seq<char>>::empty() =~= lines.deep_view());
    }
    lines
}

proof fn lemma_lines_dv(lines: &Vec<Vec<char>>, i: int)
    requires
        0 <= i < lines@.len(),
    ensures
        lines.deep_view().len() == lines@.len(),
        lines.deep_view()[i] == lines@[i]@,
{
    assert(lines.deep_view()[i] =~= lines@[i]@);
}

/// The length of the shortest line, or 0 where there are no lines.
pub open spec fn min_line_len(lines: Seq<Seq<char>>) -> int
    decreases lines.len(),
{
    if lines.len() == 0 {
        0
    } else if lines.len() == 1 {
        lines[0].len() as int
    } else {
        let m = min_line_len(lines.skip(1));
        if lines[0].len() <= m {
            lines[0].len() as int
        } else {
            m
        }
    }
}

proof fn lemma_min_line_le(lines: Seq<Seq<char>>, k: int)
    requires
        0 <= k < lines.len(),
    ensures
        min_line_len(lines) <= lines[k].len(),
    decreases lines.len(),
{
    if lines.len() > 1 && k > 0 {
        assert(lines.skip(1)[k - 1] == lines[k]);
        lemma_min_line_le(lines.skip(1), k - 1);
    }
}

proof fn lemma_min_line_attained(lines: Seq<Seq<char>>)
    requires
        lines.len() > 0,
    ensures
        exists|k: int| 0 <= k < lines.len() && min_line_len(lines) == lines[k].len(),
    decreases lines.len(),
{
    if lines.len() == 1 {
        assert(min_line_len(lines) == lines[0].len());
    } else {
        lemma_min_line_attained(lines.skip(1));
        if lines[0].len() <= min_line_len(lines.skip(1)) {
            assert(min_line_len(lines) == lines[0].len());
        } else {
            let k0 = choose|k: int| 0 <= k < lines.skip(1).len() && min_line_len(lines.skip(1))
                == lines.skip(1)[k].len();
            assert(lines.skip(1)[k0] == lines[k0 + 1]);
            assert(min_line_len(lines) == lines[k0 + 1].len());
        }
    }
}

/// All lines concatenated in order.
pub open spec fn concat_lines(lines: Seq<Seq<char>>) -> Seq<char>
    decreases lines.len(),
{
    if lines.len() == 0 {
        Seq::empty()
    } else {
        lines[0] + concat_lines(lines.skip(1))
    }
}

/// The grid linearized by orientation. Horizontal reads column-major
/// (cell 0 of every line, then cell 1, ...) and truncates every line at the
/// shortest line's length; vertical reads row-major with no truncation.
pub open spec fn linearize_spec(lines: Seq<Seq<char>>, o: Orientation) -> Seq<char> {
    match o {
        Orientation::Horizontal => Seq::new(
            (min_line_len(lines) * lines.len()) as nat,
            |k: int| lines[k % (lines.len() as int)][k / (lines.len() as int)],
        ),
        Orientation::Vertical => concat_lines(lines),
    }
}

/// Linearizes the grid lines by orientation.
#[verifier::loop_isolation(false)]
fn linearize(lines: &Vec<Vec<char>>, orientation: Orientation) -> (r: Vec<char>)
    ensures
        r@ == linearize_spec(lines.deep_view(), orientation),
{
    let ghost dv = lines.deep_view();
    match orientation {
        Orientation::Vertical => {
            let mut out: Vec<char> = Vec::new();
            let line_count = lines.len();
            let mut l: usize = 0;
            proof {
                assert(dv.skip(0) =~= dv);
                assert(out@ + concat_lines(dv) =~= concat_lines(dv));
            }
            while l < line_count
                invariant
                    l <= line_count,
                    out@ + concat_lines(dv.skip(l as int)) == concat_lines(dv),
                decreases line_count - l,
            {
                proof {
                    lemma_lines_dv(lines, l as int);
                }
                let ghost line_base = out@;
                let line_len = lines[l].len();
                let mut k: usize = 0;
                while k < line_len
                    invariant
                        k <= line_len,
                        out@ == line_base + dv[l as int].take(k as int),
                    decreases line_len - k,
                {
                    out.push(lines[l][k]);
                    proof {
                        assert(out@ =~= line_base + dv[l as int].take(k as int + 1));
                    }
                    k = k + 1;
                }
                proof {
                    assert(dv[l as int].take(line_len as int) =~= dv[l as int]);
                    assert(dv.skip(l as int)[0] == dv[l as int]);
                    assert(dv.skip(l as int).skip(1) =~= dv.skip(l as int + 1));
                    assert((line_base + dv[l as int]) + concat_lines(dv.skip(l as int + 1))
                        =~= line_base + (dv[l as int] + concat_lines(dv.skip(l as int + 1))));
                }
                l = l + 1;
            }
            proof {
                assert(dv.skip(line_count as int) =~= Seq::<Seq<char>>::empty());
                assert(out@ + Seq::<char>::empty() =~= out@);
            }
            out
        },
        Orientation::Horizontal => {
            let line_count = lines.len();
            let mut out: Vec<char> = Vec::new();
            if line_count == 0 {
                proof {
                    assert(out@ =~= linearize_spec(dv, orientation));
                }
                return out;
            }

            // The shortest line bounds every column that can be read whole.
            proof {
                lemma_lines_dv(lines, 0);
            }
            let mut m: usize = lines[0].len();
            let mut i: usize = 1;
            while i < line_count
                invariant
                    1 <= i <= line_count,
                    exists|k: int| 0 <= k < i && m == #[trigger] dv[k].len(),
                    forall|k: int| 0 <= k < i ==> m <= #[trigger] dv[k].len(),
                decreases line_count - i,
            {
                proof {
                    lemma_lines_dv(lines, i as int);
                }
                if lines[i].len() < m {
                    m = lines[i].len();
                    assert(m == dv[i as int].len());
                }
                i = i + 1;
            }
            proof {
                lemma_min_line_attained(dv);
                let ka = choose|k: int| 0 <= k < dv.len() && min_line_len(dv) == dv[k].len();
                let km = choose|k: int| 0 <= k < line_count && m == dv[k].len();
                lemma_min_line_le(dv, km);
                assert(min_line_len(dv) == m);
            }

            let mut c: usize = 0;
            while c < m
                invariant
                    c <= m,
                    out@.len() == c * line_count,
                    forall|k: int| 0 <= k < out@.len() ==> out@[k] == dv[k % (line_count as int)][k
                        / (line_count as int)],
                decreases m - c,
            {
                let mut l: usize = 0;
                while l < line_count
                    invariant
                        l <= line_count,
                        out@.len() == c * line_count + l,
                        forall|k: int| 0 <= k < out@.len() ==> out@[k] == dv[k % (line_count
                            as int)][k / (line_count as int)],
                    decreases line_count - l,
                {
                    proof {
                        lemma_lines_dv(lines, l as int);
                        lemma_min_line_le(dv, l as int);
                        vstd::arithmetic::div_mod::lemma_fundamental_div_mod_converse(
                            (c * line_count + l) as int,
                            line_count as int,
                            c as int,
                            l as int,
                        );
                    }
                    out.push(lines[l][c]);
                    l = l + 1;
                }
                proof {
                    assert((c + 1) * line_count == c * line_count + line_count)
                        by (nonlinear_arith);
                }
                c = c + 1;
            }
            proof {
                assert(out@ =~= linearize_spec(dv, orientation));
            }
            out
        },
    }
}

/// The length of the run of `s[0]` at the head of `s`.
pub open spec fn run_len(s: Seq<char>) -> int
    decreases s.len(),
{
    if s.len() == 0 {
        0
    } else if s.len() == 1 {
        1
    } else if s[1] != s[0] {
        1
    } else {
        1 + run_len(s.skip(1))
    }
}

proof fn lemma_run_len_bounds(s: Seq<char>)
    ensures
        0 <= run_len(s) <= s.len(),
        s.len() > 0 ==> run_len(s) >= 1,
    decreases s.len(),
{
    if s.len() > 1 && s[1] == s[0] {
        lemma_run_len_bounds(s.skip(1));
    }
}

proof fn lemma_run_len_is(s: Seq<char>, j: int)
    requires
        1 <= j <= s.len(),
        forall|k: int| 0 <= k < j ==> #[trigger] s[k] == s[0],
        j < s.len() ==> s[j] != s[0],
    ensures
        run_len(s) == j,
    decreases j,
{
    if j == 1 {
        if s.len() > 1 {
            assert(s[1] != s[0]);
        }
    } else {
        let t = s.skip(1);
        assert(s[1] == s[0]);
        assert forall|k: int| 0 <= k < j - 1 implies #[trigger] t[k] == t[0] by {
            assert(t[k] == s[k + 1]);
            assert(t[0] == s[1]);
        }
        if j - 1 < t.len() {
            assert(t[j - 1] == s[j]);
        }
        lemma_run_len_is(t, j - 1);
    }
}

proof fn lemma_run_len_ge(s: Seq<char>, j: int)
    requires
        0 <= j <= s.len(),
        forall|k: int| 0 <= k < j ==> #[trigger] s[k] == s[0],
    ensures
        run_len(s) >= j,
    decreases j,
{
    lemma_run_len_bounds(s);
    if j >= 2 {
        let t = s.skip(1);
        assert(s[1] == s[0]);
        assert forall|k: int| 0 <= k < j - 1 implies #[trigger] t[k] == t[0] by {
            assert(t[k] == s[k + 1]);
            assert(t[0] == s[1]);
        }
        lemma_run_len_ge(t, j - 1);
    }
}

/// The grid characters run-length encoded greedily: each run closes on a
/// differing character or on reaching `limit`, and is emitted as the
/// character with the run's length.
pub open spec fn rle_spec(s: Seq<char>, limit: u16) -> Seq<(char, u16)>
    decreases s.len(),
{
    if s.len() == 0 {
        Seq::empty()
    } else {
        let r = if run_len(s) <= limit as int {
            run_len(s)
        } else {
            limit as int
        };
        if 1 <= r <= s.len() {
            seq![(s[0], r as u16)] + rle_spec(s.skip(r), limit)
        } else {
            Seq::empty()
        }
    }
}

proof fn lemma_rle_bounds(s: Seq<char>, limit: u16)
    requires
        limit >= 1,
    ensures
        forall|k: int| 0 <= k < rle_spec(s, limit).len() ==> 1 <= (#[trigger] rle_spec(s, limit)[k]).1
            <= limit,
    decreases s.len(),
{
    if s.len() > 0 {
        lemma_run_len_bounds(s);
        let r = if run_len(s) <= limit as int {
            run_len(s)
        } else {
            limit as int
        };
        if 1 <= r <= s.len() {
            lemma_rle_bounds(s.skip(r), limit);
            assert forall|k: int| 0 <= k < rle_spec(s, limit).len() implies 1 <= (
            #[trigger] rle_spec(s, limit)[k]).1 <= limit by {
                if k > 0 {
                    assert(rle_spec(s, limit)[k] == rle_spec(s.skip(r), limit)[k - 1]);
                }
            }
        }
    }
}

/// Run-length encodes `chars`: a run closes on a differing character or on
/// reaching `limit` characters.
#[verifier::loop_isolation(false)]
pub fn run_length_encode(chars: &Vec<char>, limit: u16) -> (r: Vec<(char, u16)>)
    requires
        limit >= 2,
    ensures
        r@ == rle_spec(chars@, limit),
{
    let mut output: Vec<(char, u16)> = Vec::new();
    let n = chars.len();
    let mut i: usize = 0;
    proof {
        assert(chars@.skip(0) =~= chars@);
        assert(output@ + rle_spec(chars@, limit) =~= rle_spec(chars@, limit));
    }
    while i < n
        invariant
            i <= n,
            rle_spec(chars@, limit) == output@ + rle_spec(chars@.skip(i as int), limit),
        decreases n - i,
    {
        let current = chars[i];
        let mut j: usize = i + 1;
        let mut count: u16 = 1;
        while j < n && count < limit && chars[j] == current
            invariant
                i < j <= n,
                count as int == j - i,
                count <= limit,
                forall|k: int| i <= k < j ==> chars@[k] == current,
            decreases n - j,
        {
            j = j + 1;
            count = count + 1;
        }

        let ghost rest = chars@.skip(i as int);
        proof {
            assert(rest[0] == chars@[i as int]);
            assert forall|k: int| 0 <= k < j - i implies #[trigger] rest[k] == rest[0] by {
                assert(rest[k] == chars@[i + k]);
            }
            if j < n && count >= limit {
                lemma_run_len_ge(rest, j - i);
            } else if j < n {
                assert(rest[j - i] == chars@[j as int]);
                lemma_run_len_is(rest, j - i);
            } else {
                lemma_run_len_is(rest, j - i);
            }
            let r = if run_len(rest) <= limit as int {
                run_len(rest)
            } else {
                limit as int
            };
            assert(r == count as int);
            assert(rest.skip(count as int) =~= chars@.skip(i + count as int));
            assert((output@ + seq![(current, count)]) + rle_spec(chars@.skip(i + count as int),
                limit) =~= output@ + (seq![(current, count)] + rle_spec(
                chars@.skip(i + count as int),
                limit,
            )));
        }
        output.push((current, count));
        i = i + count as usize;
    }
    proof {
        assert(chars@.skip(n as int) =~= Seq::<char>::empty());
        assert(output@ + Seq::<(char, u16)>::empty() =~= output@);
    }
    output
}

/// The catalog index a symbol resolves to: the highest-numbered metatile
/// carrying it, as a later duplicate overrides an earlier one, or nothing.
pub open spec fn resolve_symbol(metatiles: Seq<MetatileView>, c: char) -> Option<int>
    decreases metatiles.len(),
{
    if metatiles.len() == 0 {
        None
    } else if metatiles.last().symbol == c {
        Some(metatiles.len() - 1)
    } else {
        resolve_symbol(metatiles.drop_last(), c)
    }
}

proof fn lemma_resolve_bound(ms: Seq<MetatileView>, c: char)
    ensures
        resolve_symbol(ms, c) is Some ==> 0 <= resolve_symbol(ms, c)->Some_0 < ms.len(),
    decreases ms.len(),
{
    if ms.len() > 0 && ms.last().symbol != c {
        lemma_resolve_bound(ms.drop_last(), c);
    }
}

/// Looks a grid symbol up in the metatile catalog.
#[verifier::loop_isolation(false)]
fn resolve(metatiles: &Vec<Metatile>, c: char) -> (r: Option<usize>)
    ensures
        match r {
            Some(i) => resolve_symbol(metatiles@.map_values(|m: Metatile| m@), c) == Some(
                i as int,
            ),
            None => resolve_symbol(metatiles@.map_values(|m: Metatile| m@), c) is None,
        },
{
    let ghost mv = metatiles@.map_values(|m: Metatile| m@);
    let mut i: usize = metatiles.len();
    proof {
        assert(mv.take(i as int) =~= mv);
    }
    while i > 0
        invariant
            i <= metatiles@.len(),
            resolve_symbol(mv, c) == resolve_symbol(mv.take(i as int), c),
        decreases i,
    {
        i = i - 1;
        if metatiles[i].symbol == c {
            proof {
                assert(mv.take(i as int + 1).last() == mv[i as int]);
            }
            return Some(i);
        }
        proof {
            assert(mv.take(i as int + 1).last() == mv[i as int]);
            assert(mv.take(i as int + 1).drop_last() =~= mv.take(i as int));
        }
    }
    None
}

/// The encoded body: one byte per run whose symbol the catalog resolves,
/// the high nibble holding the run length minus one and the low nibble the
/// metatile index. Runs of symbols absent from the catalog are dropped.
pub open spec fn encode_runs(runs: Seq<(char, u16)>, metatiles: Seq<MetatileView>) -> Seq<u8>
    decreases runs.len(),
{
    if runs.len() == 0 {
        Seq::empty()
    } else {
        let rest = encode_runs(runs.skip(1), metatiles);
        match resolve_symbol(metatiles, runs[0].0) {
            Some(idx) => seq![(((runs[0].1 - 1) * 16) + idx % 16) as u8] + rest,
            None => rest,
        }
    }
}

/// Encodes the runs against the catalog.
#[verifier::loop_isolation(false)]
fn encode_body(runs: &Vec<(char, u16)>, metatiles: &Vec<Metatile>) -> (r: Vec<u8>)
    requires
        forall|k: int| 0 <= k < runs@.len() ==> 1 <= (#[trigger] runs@[k]).1 <= 16,
        metatiles@.len() <= 16,
    ensures
        r@ == encode_runs(runs@, metatiles@.map_values(|m: Metatile| m@)),
{
    let ghost mv = metatiles@.map_values(|m: Metatile| m@);
    let mut output: Vec<u8> = Vec::new();
    let n = runs.len();
    let mut i: usize = 0;
    proof {
        assert(runs@.skip(0) =~= runs@);
        assert(output@ + encode_runs(runs@, mv) =~= encode_runs(runs@, mv));
    }
    while i < n
        invariant
            i <= n,
            encode_runs(runs@, mv) == output@ + encode_runs(runs@.skip(i as int), mv),
        decreases n - i,
    {
        proof {
            assert(runs@.skip(i as int)[0] == runs@[i as int]);
            assert(runs@.skip(i as int).skip(1) =~= runs@.skip(i as int + 1));
        }
        let (current, count) = runs[i];
        match resolve(metatiles, current) {
            Some(index) => {
                proof {
                    lemma_resolve_bound(mv, current);
                }
                // High nibble: run length biased by one; low nibble: index.
                let high = (count - 1) as u8;
                let low = (index as u8) & 0x0F;
                let byte = high << 4 | low;
                proof {
                    let idx8 = index as u8;
                    assert(high << 4 | (idx8 & 0x0F) == high * 16 + idx8 % 16) by (bit_vector)
                        requires
                            high <= 15,
                    ;
                    assert(byte as int == ((runs@[i as int].1 - 1) * 16) + (index as int) % 16);
                }
                let ghost before = output@;
                output.push(byte);
                proof {
                    assert((before + seq![byte]) + encode_runs(runs@.skip(i as int + 1), mv)
                        =~= before + (seq![byte] + encode_runs(runs@.skip(i as int + 1), mv)));
                }
            },
            None => {
            },
        }
        i = i + 1;
    }
    proof {
        assert(runs@.skip(n as int) =~= Seq::<(char, u16)>::empty());
        assert(output@ + Seq::<u8>::empty() =~= output@);
    }
    output
}

/// Collects the characters of the grid string.
fn chars_of(s: &str) -> (r: Vec<char>)
    ensures
        r@ == s@,
{
    let n = s.unicode_len();
    let mut v: Vec<char> = Vec::new();
    let mut i: usize = 0;
    while i < n
        invariant
            i <= n,
            n as nat == s@.len(),
            v@ == s@.take(i as int),
        decreases n - i,
    {
        v.push(s.get_char(i));
        proof {
            assert(v@ =~= s@.take(i as int + 1));
        }
        i = i + 1;
    }
    proof {
        assert(s@.take(n as int) =~= s@);
    }
    v
}

/// One record per metatile: its palette byte, then its four tile indices.
pub open spec fn metatile_records(ms: Seq<MetatileView>) -> Seq<u8>
    decreases ms.len(),
{
    if ms.len() == 0 {
        Seq::empty()
    } else {
        (seq![ms[0].palette] + ms[0].tiles) + metatile_records(ms.skip(1))
    }
}

/// The stage grid linearized by the stage's orientation.
pub open spec fn stage_chars(st: StageView) -> Seq<char> {
    linearize_spec(split_lines_spec(st.data), st.orientation)
}

/// The run-length encoded stage body, with runs capped at 16 characters.
pub open spec fn stage_body(st: StageView) -> Seq<u8> {
    encode_runs(rle_spec(stage_chars(st), 16), st.metatiles)
}

/// The full stage binary: 16 bytes background palette, 16 bytes sprite
/// palette, the metatile count, the metatile records, then the encoded
/// body prefixed with its one-byte length.
pub open spec fn stage_binary(st: StageView) -> Seq<u8> {
    st.background_palette + st.sprite_palette + seq![st.metatiles.len() as u8]
        + metatile_records(st.metatiles) + seq![stage_body(st).len() as u8] + stage_body(st)
}

/// What compiling a stage yields: a dimension error for a catalog beyond
/// the 16 entries a 4-bit index can name, then one for a body beyond the
/// 255 bytes its length byte can state, and else the stage binary.
pub open spec fn write_binary_spec(st: StageView) -> Result<Seq<u8>, Error> {
    if st.metatiles.len() > 16 {
        Err(
            Error::DimensionsError {
                subject: Subject::MetatileCount,
                need: 16,
                got: st.metatiles.len() as usize,
            },
        )
    } else if stage_body(st).len() > 255 {
        Err(
            Error::DimensionsError {
                subject: Subject::BodyLength,
                need: 255,
                got: stage_body(st).len() as usize,
            },
        )
    } else {
        Ok(stage_binary(st))
    }
}

impl Stage {
    /// Compiles this stage and appends its binary to `out`. The whole
    /// output is staged in memory first: on an error (a catalog beyond 16
    /// entries, or a body beyond 255 bytes) `out` is left untouched.
    #[verifier::loop_isolation(false)]
    pub fn write_binary(&self, out: &mut Vec<u8>) -> (r: Result<(), Error>)
        ensures
            match write_binary_spec(self@) {
                Ok(bytes) => r is Ok && final(out)@ == old(out)@ + bytes,
                Err(e) => r == Err::<(), Error>(e) && final(out)@ == old(out)@,
            },
    {
        let metatile_count = self.metatiles.len();
        if metatile_count > 16 {
            return Err(
                Error::DimensionsError {
                    subject: Subject::MetatileCount,
                    need: 16,
                    got: metatile_count,
                },
            );
        }
        let ghost mv = self.metatiles@.map_values(|m: Metatile| m@);

        // Compile the whole body before touching the output.
        let chars = chars_of(self.data.as_str());
        let lines = split_lines(&chars);
        let linear = linearize(&lines, self.orientation);
        let runs = run_length_encode(&linear, 16);
        proof {
            lemma_rle_bounds(linear@, 16);
        }
        let body = encode_body(&runs, &self.metatiles);
        let body_len = body.len();
        if body_len > 255 {
            return Err(
                Error::DimensionsError {
                    subject: Subject::BodyLength,
                    need: 255,
                    got: body_len,
                },
            );
        }
        proof {
            assert(body@ == stage_body(self@));
        }

        let ghost base = out@;

        // Write out the palettes literally.
        let mut k: usize = 0;
        while k < 16
            invariant
                k <= 16,
                out@ == base + self.background_palette@.take(k as int),
            decreases 16 - k,
        {
            out.push(self.background_palette[k]);
            proof {
                assert(out@ =~= base + self.background_palette@.take(k as int + 1));
            }
            k = k + 1;
        }
        let ghost base_sp = out@;
        let mut k: usize = 0;
        while k < 16
            invariant
                k <= 16,
                out@ == base_sp + self.sprite_palette@.take(k as int),
            decreases 16 - k,
        {
            out.push(self.sprite_palette[k]);
            proof {
                assert(out@ =~= base_sp + self.sprite_palette@.take(k as int + 1));
            }
            k = k + 1;
        }

        // Count of metatiles; the catalog was checked to hold at most 16.
        out.push(metatile_count as u8);

        // One record per metatile.
        let ghost base_rec = out@;
        let mut i: usize = 0;
        proof {
            assert(mv.skip(0) =~= mv);
            assert(out@ + Seq::<u8>::empty() =~= out@);
        }
        while i < metatile_count
            invariant
                i <= metatile_count,
                out@ + metatile_records(mv.skip(i as int)) == base_rec + metatile_records(mv),
            decreases metatile_count - i,
        {
            let ghost row_base = out@;
            out.push(self.metatiles[i].palette);
            let mut k: usize = 0;
            while k < 4
                invariant
                    k <= 4,
                    out@ == row_base + seq![mv[i as int].palette] + mv[i as int].tiles.take(
                        k as int,
                    ),
                decreases 4 - k,
            {
                out.push(self.metatiles[i].tiles[k]);
                proof {
                    assert(out@ =~= row_base + seq![mv[i as int].palette] + mv[i as int]
                        .tiles.take(k as int + 1));
                }
                k = k + 1;
            }
            proof {
                assert(mv[i as int].tiles.take(4) =~= mv[i as int].tiles);
                assert(mv.skip(i as int)[0] == mv[i as int]);
                assert(mv.skip(i as int).skip(1) =~= mv.skip(i as int + 1));
                assert((row_base + (seq![mv[i as int].palette] + mv[i as int].tiles))
                    + metatile_records(mv.skip(i as int + 1)) =~= row_base + ((seq![mv[i
                    as int].palette] + mv[i as int].tiles) + metatile_records(
                    mv.skip(i as int + 1),
                )));
                assert(row_base + seq![mv[i as int].palette] + mv[i as int].tiles =~= row_base
                    + (seq![mv[i as int].palette] + mv[i as int].tiles));
            }
            i = i + 1;
        }
        proof {
            assert(mv.skip(metatile_count as int) =~= Seq::<MetatileView>::empty());
            assert(out@ + Seq::<u8>::empty() =~= out@);
        }

        // Body length, then the body itself.
        out.push(body_len as u8);
        let ghost base_body = out@;
        let mut k: usize = 0;
        while k < body_len
            invariant
                k <= body_len,
                out@ == base_body + body@.take(k as int),
            decreases body_len - k,
        {
            out.push(body[k]);
            proof {
                assert(out@ =~= base_body + body@.take(k as int + 1));
            }
            k = k + 1;
        }
        proof {
            assert(body@.take(body_len as int) =~= body@);
            assert(out@ =~= base + stage_binary(self@));
        }
        Ok(())
    }
}

} // verus!
