//! Patterns for the cellular automaton, read from the run-length encoded
//! (RLE) text format of Life patterns.
use vstd::prelude::*;
use crate::text::{
    all_digits, digit_value, digits_value, lemma_digits_value_nonneg, chars_of, parse_int, parse_int_chars, split, split_chars, split_once, split_once_chars, trim,
    trim_chars, views,
};

verus! {

/// Columns of the automaton grid (1920 pixels in cells of 15).
pub const WIDTH: usize = 128;

/// Rows of the automaton grid (1080 pixels in cells of 15).
pub const HEIGHT: usize = 72;

/// What a pattern holds: its size and its cells, row by row.
pub struct PatternView {
    pub w: nat,
    pub h: nat,
    pub cells: Seq<bool>,
}

impl PatternView {
    pub open spec fn wf(self) -> bool {
        &&& 0 < self.w <= WIDTH
        &&& 0 < self.h <= HEIGHT
        &&& self.cells.len() == self.w * self.h
    }

    /// The cell at column `x`, row `y` (both taken modulo the size).
    pub open spec fn at(self, x: int, y: int) -> bool {
        self.cells[cell_index(x, y, self.w as int, self.h as int)]
    }
}

/// Index of the cell at `(x, y)` on a torus of `w` by `h` cells.
pub open spec fn cell_index(x: int, y: int, w: int, h: int) -> int {
    (y % h) * w + (x % w)
}

pub proof fn lemma_cell_index_bounds(x: int, y: int, w: int, h: int)
    requires
        w > 0,
        h > 0,
    ensures
        0 <= cell_index(x, y, w, h) < w * h,
{
    let a = y % h;
    let b = x % w;
    assert(0 <= a < h);
    assert(0 <= b < w);
    assert(a * w + b < w * h) by (nonlinear_arith)
        requires
            0 <= a < h,
            0 <= b < w,
    ;
    assert(a * w >= 0) by (nonlinear_arith)
        requires
            0 <= a,
            0 < w,
    ;
}

/// A cellular automaton pattern.
pub struct Pattern {
    w: usize,
    h: usize,
    cells: Vec<bool>,
}

/// Where the RLE decoder writes next, and the cells written so far. The row
/// counter wraps around as in a release build.
pub struct RlePos {
    pub x: i32,
    pub y: i32,
    pub cells: Seq<bool>,
}

/// The state of the RLE decoder: the pending run count (which also wraps)
/// and the position.
pub struct RleCursor {
    pub run: u32,
    pub pos: RlePos,
}

/// The cursor moved one cell to the right, onto the next row after the last
/// column.
pub open spec fn rle_advance(st: RlePos, w: int) -> RlePos {
    let nx = (st.x + 1) % w;
    RlePos {
        x: nx as i32,
        y: if nx == 0 {
            st.y.wrapping_add(1)
        } else {
            st.y
        },
        cells: st.cells,
    }
}

/// One step of the tag `c`: `b` skips a cell, `o` fills one, `$` starts the
/// next row; other tags do nothing.
pub open spec fn rle_unit(st: RlePos, c: char, w: int, h: int) -> RlePos {
    if c == 'b' {
        rle_advance(st, w)
    } else if c == 'o' {
        rle_advance(
            RlePos { cells: st.cells.update(cell_index(st.x as int, st.y as int, w, h), true), ..st },
            w,
        )
    } else if c == '$' {
        RlePos { x: 0, y: st.y.wrapping_add(1), cells: st.cells }
    } else {
        st
    }
}

pub open spec fn rle_repeat(st: RlePos, c: char, k: nat, w: int, h: int) -> RlePos
    decreases k,
{
    if k == 0 {
        st
    } else {
        rle_unit(rle_repeat(st, c, (k - 1) as nat, w, h), c, w, h)
    }
}

pub open spec fn is_dec_digit(c: char) -> bool {
    '0' <= c <= '9'
}

/// The decoder after reading `c`: a digit extends the run count; any other
/// character applies its tag as many times as the count says (once where
/// there is none, one time fewer for a `$` at the start of a row) and
/// clears the count.
pub open spec fn rle_char(st: RleCursor, c: char, w: int, h: int) -> RleCursor {
    if is_dec_digit(c) {
        RleCursor { run: st.run.wrapping_mul(10).wrapping_add((c as u32 - '0' as u32) as u32), ..st }
    } else {
        let r0: u32 = if st.run == 0 {
            1
        } else {
            st.run
        };
        let r: u32 = if c == '$' && st.pos.x == 0 {
            (r0 - 1) as u32
        } else {
            r0
        };
        RleCursor { run: 0, pos: rle_repeat(st.pos, c, r as nat, w, h) }
    }
}

/// The decoder after reading the first `n` characters of `s`.
pub open spec fn rle_decode(st: RleCursor, s: Seq<char>, n: nat, w: int, h: int) -> RleCursor
    decreases n,
{
    if n == 0 {
        st
    } else {
        rle_char(rle_decode(st, s, (n - 1) as nat, w, h), s[n - 1], w, h)
    }
}

/// The cells after decoding all of `s` from the top left corner into `cells`.
pub open spec fn rle_populate(cells: Seq<bool>, s: Seq<char>, w: int, h: int) -> Seq<bool> {
    rle_decode(RleCursor { run: 0, pos: RlePos { x: 0, y: 0, cells } }, s, s.len(), w, h).pos.cells
}

/// A header assignment `name = value`: `x` sets the width, `y` the height,
/// any other name is ignored; a value that does not parse fails the whole
/// pattern.
pub open spec fn rle_assign(st: (int, int), a: Seq<char>) -> Option<(int, int)> {
    match split_once(a, seq![' ', '=', ' ']) {
        None => Some(st),
        Some((var, val)) => {
            let v = trim(var);
            if v == seq!['x'] {
                match parse_int(trim(val), 10, 0, usize::MAX as int) {
                    Some(n) => Some((n, st.1)),
                    None => None,
                }
            } else if v == seq!['y'] {
                match parse_int(trim(val), 10, 0, usize::MAX as int) {
                    Some(n) => Some((st.0, n)),
                    None => None,
                }
            } else {
                Some(st)
            }
        },
    }
}

pub open spec fn rle_assigns(st: (int, int), a: Seq<Seq<char>>, n: nat) -> Option<(int, int)>
    decreases n,
{
    if n == 0 {
        Some(st)
    } else {
        match rle_assigns(st, a, (n - 1) as nat) {
            None => None,
            Some(s) => rle_assign(s, a[n - 1]),
        }
    }
}

/// One line of an RLE file: comments (`#`) are skipped, the header (`x`)
/// sets the size, and every other line, untrimmed, is pattern data.
pub open spec fn rle_line(st: (int, int, Seq<char>), line: Seq<char>) -> Option<(int, int, Seq<char>)> {
    let t = trim(line);
    if t.len() > 0 && t[0] == '#' {
        Some(st)
    } else if t.len() > 0 && t[0] == 'x' {
        let a = split(t, ',');
        match rle_assigns((st.0, st.1), a, a.len()) {
            Some((w, h)) => Some((w, h, st.2)),
            None => None,
        }
    } else {
        Some((st.0, st.1, st.2 + line))
    }
}

pub open spec fn rle_lines(lines: Seq<Seq<char>>, n: nat) -> Option<(int, int, Seq<char>)>
    decreases n,
{
    if n == 0 {
        Some((0, 0, Seq::<char>::empty()))
    } else {
        match rle_lines(lines, (n - 1) as nat) {
            None => None,
            Some(st) => rle_line(st, lines[n - 1]),
        }
    }
}

/// The text with every `;` read as a line break.
pub open spec fn semis_to_newlines(s: Seq<char>) -> Seq<char> {
    s.map_values(|c: char| if c == ';' { '\n' } else { c })
}

/// The text with every line break written as `;`.
pub open spec fn newlines_to_semis(s: Seq<char>) -> Seq<char> {
    s.map_values(|c: char| if c == '\n' { ';' } else { c })
}

/// The size and pattern data that the lines of `inp` give.
pub open spec fn rle_header(inp: Seq<char>) -> Option<(int, int, Seq<char>)> {
    let lines = split(semis_to_newlines(inp), '\n');
    rle_lines(lines, lines.len())
}

/// The pattern that RLE text `inp` describes: `None` where a header value
/// does not parse, or the size is zero or larger than the grid.
pub open spec fn rle_parse(inp: Seq<char>) -> Option<PatternView> {
    match rle_header(inp) {
        None => None,
        Some((w, h, data)) => if w == 0 || h == 0 || w > WIDTH || h > HEIGHT {
            None
        } else {
            Some(
                PatternView {
                    w: w as nat,
                    h: h as nat,
                    cells: rle_populate(Seq::new((w * h) as nat, |i: int| false), data, w, h),
                },
            )
        },
    }
}

/// `;` and a line break mean the same: writing every line break of RLE
/// text as `;` gives the same pattern (or the same refusal).
pub proof fn law_semicolons_are_line_breaks(inp: Seq<char>)
    ensures
        rle_parse(newlines_to_semis(inp)) == rle_parse(inp),
{
    assert(semis_to_newlines(newlines_to_semis(inp)) =~= semis_to_newlines(inp));
}

/// The pattern `p` with the cell at `(x, y)` (modulo its size) alive.
pub open spec fn pattern_set(p: PatternView, x: int, y: int) -> PatternView {
    PatternView { cells: p.cells.update(cell_index(x, y, p.w as int, p.h as int), true), ..p }
}

/// A pattern repeats with its size: after a cell is set, it reads alive at
/// every copy of its position one width or height (or several) away, and
/// every cell at another position modulo the size reads as before.
pub proof fn law_pattern_set_get(p: PatternView, x: int, y: int, i: int, j: int, a: int, b: int)
    requires
        p.wf(),
    ensures
        pattern_set(p, x, y).at(x + i * p.w, y + j * p.h),
        (a % (p.w as int), b % (p.h as int)) != (x % (p.w as int), y % (p.h as int)) ==> pattern_set(p, x, y).at(a, b)
            == p.at(a, b),
{
    let w = p.w as int;
    let h = p.h as int;
    vstd::arithmetic::div_mod::lemma_mod_multiples_vanish(i, x, w);
    vstd::arithmetic::div_mod::lemma_mod_multiples_vanish(j, y, h);
    vstd::arithmetic::mul::lemma_mul_is_commutative(i, w);
    vstd::arithmetic::mul::lemma_mul_is_commutative(j, h);
    assert(x + i * w == w * i + x);
    assert(y + j * h == h * j + y);
    assert(cell_index(x + i * w, y + j * h, w, h) == cell_index(x, y, w, h));
    lemma_cell_index_bounds(x, y, w, h);
    lemma_cell_index_bounds(a, b, w, h);
    if (a % w, b % h) != (x % w, y % h) {
        let xa = a % w;
        let ya = b % h;
        let xb = x % w;
        let yb = y % h;
        assert(0 <= xa < w && 0 <= xb < w && 0 <= ya < h && 0 <= yb < h);
        assert(ya * w + xa != yb * w + xb) by (nonlinear_arith)
            requires
                0 <= xa < w,
                0 <= xb < w,
                (xa, ya) != (xb, yb),
        ;
    }
}

/// A run count is the decimal number that its digits spell: reading the
/// digits `ds` (a number that fits in 32 bits) and then a tag applies the
/// tag that many times (a count of 0 counts as 1, and a `$` at the start of
/// a row is applied once fewer) and leaves no count behind.
pub proof fn law_run_count(pos: RlePos, ds: Seq<char>, tag: char, w: int, h: int)
    requires
        ds.len() >= 1,
        forall|i: int| 0 <= i < ds.len() ==> #[trigger] is_dec_digit(ds[i]),
        !is_dec_digit(tag),
        digits_value(ds, 10) <= u32::MAX,
    ensures
        ({
            let r = digits_value(ds, 10);
            let r0 = if r == 0 {
                1
            } else {
                r
            };
            let n = if tag == '$' && pos.x == 0 {
                r0 - 1
            } else {
                r0
            };
            rle_decode(RleCursor { run: 0, pos }, ds.push(tag), ds.len() + 1, w, h) == RleCursor {
                run: 0,
                pos: rle_repeat(pos, tag, n as nat, w, h),
            }
        }),
{
    let s = ds.push(tag);
    assert forall|i: int| 0 <= i < ds.len() implies #[trigger] digit_value(ds[i]) < 10 by {
        assert(is_dec_digit(ds[i]));
    }
    lemma_run_prefix(pos, ds, s, ds.len(), w, h);
    assert(ds.take(ds.len() as int) =~= ds);
    assert(s[ds.len() as int] == tag);
    lemma_digits_value_nonneg(ds, 10);
    let st = rle_decode(RleCursor { run: 0, pos }, s, ds.len(), w, h);
    assert(st.run as int == digits_value(ds, 10));
    assert(rle_decode(RleCursor { run: 0, pos }, s, ds.len() + 1, w, h) == rle_char(st, tag, w, h));
}

/// Reading the first `i` digits leaves their decimal value as the count.
proof fn lemma_run_prefix(pos: RlePos, ds: Seq<char>, s: Seq<char>, i: nat, w: int, h: int)
    requires
        i <= ds.len(),
        s.len() > ds.len(),
        forall|j: int| 0 <= j < ds.len() ==> s[j] == ds[j],
        forall|j: int| 0 <= j < ds.len() ==> #[trigger] is_dec_digit(ds[j]),
        all_digits(ds, 10),
        digits_value(ds, 10) <= u32::MAX,
    ensures
        rle_decode(RleCursor { run: 0, pos }, s, i, w, h) == (RleCursor {
            run: digits_value(ds.take(i as int), 10) as u32,
            pos,
        }),
        digits_value(ds.take(i as int), 10) <= digits_value(ds, 10),
    decreases i,
{
    if i == 0 {
        assert(ds.take(0) =~= Seq::<char>::empty());
        lemma_prefix_value_bound(ds, 0);
    } else {
        lemma_run_prefix(pos, ds, s, (i - 1) as nat, w, h);
        let pre = ds.take(i - 1);
        let cur = ds.take(i as int);
        assert(cur.drop_last() =~= pre);
        assert(cur.last() == ds[i - 1]);
        let c = s[i - 1];
        assert(c == ds[i - 1]);
        assert(is_dec_digit(c));
        let d = digit_value(c);
        assert(d == c as u32 - '0' as u32);
        lemma_prefix_value_bound(ds, i);
        let a = digits_value(pre, 10);
        assert(all_digits(pre, 10));
        lemma_digits_value_nonneg(pre, 10);
        assert(digits_value(cur, 10) == a * 10 + d);
        let run = a as u32;
        assert(a * 10 <= u32::MAX);
        assert(run.wrapping_mul(10) == (a * 10) as u32) by {
            assert((run as nat * 10nat) % 0x1_0000_0000nat == run as nat * 10nat) by {
                vstd::arithmetic::div_mod::lemma_small_mod(run as nat * 10nat, 0x1_0000_0000nat);
            }
        }
    }
}

/// The value of a prefix of digits is at most the value of all of them.
proof fn lemma_prefix_value_bound(ds: Seq<char>, i: nat)
    requires
        i <= ds.len(),
        all_digits(ds, 10),
    ensures
        digits_value(ds.take(i as int), 10) <= digits_value(ds, 10),
    decreases ds.len() - i,
{
    if i < ds.len() {
        lemma_prefix_value_bound(ds, i + 1);
        let cur = ds.take((i + 1) as int);
        let pre = ds.take(i as int);
        assert(cur.drop_last() =~= pre);
        assert(all_digits(pre, 10));
        assert(digit_value(cur.last()) >= 0);
        lemma_digits_value_nonneg(pre, 10);
    } else {
        assert(ds.take(i as int) =~= ds);
    }
}

proof fn lemma_repeat_noop(st: RlePos, c: char, k: nat, w: int, h: int)
    requires
        c != 'b' && c != 'o' && c != '$',
    ensures
        rle_repeat(st, c, k, w, h) == st,
    decreases k,
{
    if k > 0 {
        lemma_repeat_noop(st, c, (k - 1) as nat, w, h);
    }
}

proof fn lemma_assigns_none(st: (int, int), a: Seq<Seq<char>>, k: nat, n: nat)
    requires
        k <= n,
        rle_assigns(st, a, k) is None,
    ensures
        rle_assigns(st, a, n) is None,
    decreases n - k,
{
    if k < n {
        lemma_assigns_none(st, a, k, (n - 1) as nat);
    }
}

proof fn lemma_lines_none(lines: Seq<Seq<char>>, k: nat, n: nat)
    requires
        k <= n,
        rle_lines(lines, k) is None,
    ensures
        rle_lines(lines, n) is None,
    decreases n - k,
{
    if k < n {
        lemma_lines_none(lines, k, (n - 1) as nat);
    }
}

/// Appends the characters of `src` to `dst`.
fn append_chars(dst: &mut Vec<char>, src: &[char])
    ensures
        final(dst)@ == old(dst)@ + src@,
{
    let n = src.len();
    let mut i: usize = 0;
    while i < n
        invariant
            n == src@.len(),
            i <= n,
            dst@ == old(dst)@ + src@.take(i as int),
        decreases n - i,
    {
        dst.push(src[i]);
        i = i + 1;
        assert(dst@ =~= old(dst)@ + src@.take(i as int));
    }
    assert(src@.take(n as int) =~= src@);
}

impl View for Pattern {
    type V = PatternView;

    closed spec fn view(&self) -> PatternView {
        PatternView { w: self.w as nat, h: self.h as nat, cells: self.cells@ }
    }
}

impl Pattern {
    pub open spec fn inv(&self) -> bool {
        self@.wf()
    }

    /// Reads a pattern from RLE text, in which `;` also ends a line. `None`
    /// where a header value does not parse, or where the size is missing,
    /// zero, or larger than the automaton grid.
    pub fn from_rle(inp: &str) -> (r: Option<Self>)
        ensures
            match r {
                Some(p) => p.inv() && rle_parse(inp@) == Some(p@),
                None => rle_parse(inp@) is None,
            },
    {
        let raw = chars_of(inp);
        let mut s: Vec<char> = Vec::new();
        let mut k: usize = 0;
        while k < raw.len()
            invariant
                k <= raw@.len(),
                s@ == semis_to_newlines(raw@.take(k as int)),
            decreases raw@.len() - k,
        {
            let c = raw[k];
            s.push(if c == ';' { '\n' } else { c });
            k = k + 1;
            assert(s@ =~= semis_to_newlines(raw@.take(k as int)));
        }
        assert(raw@.take(raw@.len() as int) =~= raw@);
        let lines = split_chars(&s, '\n');
        let ghost lv = views(lines@);
        assert(lv == split(semis_to_newlines(inp@), '\n'));
        let sep = vec![' ', '=', ' '];
        assert(sep@ =~= seq![' ', '=', ' ']);
        let mut w: usize = 0;
        let mut h: usize = 0;
        let mut data: Vec<char> = Vec::new();
        let mut i: usize = 0;
        while i < lines.len()
            invariant
                i <= lines@.len(),
                lv == views(lines@),
                lv == split(semis_to_newlines(inp@), '\n'),
                sep@ == seq![' ', '=', ' '],
                rle_lines(lv, i as nat) == Some((w as int, h as int, data@)),
            decreases lines@.len() - i,
        {
            let line = &lines[i];
            assert(line@ == lv[i as int]);
            let t = trim_chars(line.as_slice());
            if t.len() > 0 && t[0] == '#' {
            } else if t.len() > 0 && t[0] == 'x' {
                let assigns = split_chars(&t, ',');
                let ghost av = views(assigns@);
                let ghost st0 = (w as int, h as int);
                let mut j: usize = 0;
                assert(rle_assigns(st0, av, 0) == Some(st0));
                while j < assigns.len()
                    invariant
                        j <= assigns@.len(),
                        av == views(assigns@),
                        i < lines@.len(),
                        lv == views(lines@),
                        lv == split(semis_to_newlines(inp@), '\n'),
                        rle_lines(lv, i as nat) == Some((st0.0, st0.1, data@)),
                        t@ == trim(lv[i as int]),
                        t@.len() > 0 && t@[0] == 'x',
                        av == split(t@, ','),
                        sep@ == seq![' ', '=', ' '],
                        rle_assigns(st0, av, j as nat) == Some((w as int, h as int)),
                    decreases assigns@.len() - j,
                {
                    let a = &assigns[j];
                    assert(a@ == av[j as int]);
                    match split_once_chars(a.as_slice(), sep.as_slice()) {
                        None => {},
                        Some((var, val)) => {
                            let v = trim_chars(var.as_slice());
                            if v.len() == 1 && (v[0] == 'x' || v[0] == 'y') {
                                assert(v@ =~= seq![v@[0]]);
                                let tv = trim_chars(val.as_slice());
                                match parse_int_chars(tv.as_slice(), 10, 0, usize::MAX as i128) {
                                    Some(n) => {
                                        if v[0] == 'x' {
                                            w = n as usize;
                                        } else {
                                            h = n as usize;
                                        }
                                    },
                                    None => {
                                        proof {
                                            assert(rle_assign((w as int, h as int), av[j as int]) is None);
                                            assert(rle_assigns(st0, av, (j + 1) as nat) is None);
                                            lemma_assigns_none(st0, av, (j + 1) as nat, av.len());
                                            assert(rle_line((st0.0, st0.1, data@), lv[i as int]) is None);
                                            assert(rle_lines(lv, (i + 1) as nat) is None);
                                            lemma_lines_none(lv, (i + 1) as nat, lv.len());
                                        }
                                        return None;
                                    },
                                }
                            } else {
                                assert(v@ != seq!['x'] && v@ != seq!['y']) by {
                                    if v@.len() == 1 {
                                        assert(v@[0] != 'x');
                                    }
                                    assert(seq!['x'].len() == 1);
                                    assert(seq!['x'][0] == 'x');
                                    assert(seq!['y'][0] == 'y');
                                }
                            }
                        },
                    }
                    j = j + 1;
                }
            } else {
                append_chars(&mut data, line.as_slice());
            }
            i = i + 1;
        }
        if w == 0 || h == 0 || w > WIDTH || h > HEIGHT {
            return None;
        }
        assert(w * h <= WIDTH * HEIGHT) by (nonlinear_arith)
            requires
                w <= WIDTH,
                h <= HEIGHT,
        ;
        let n = w * h;
        let mut cells: Vec<bool> = Vec::new();
        let mut k: usize = 0;
        while k < n
            invariant
                k <= n,
                cells@ == Seq::new(k as nat, |i: int| false),
            decreases n - k,
        {
            cells.push(false);
            k = k + 1;
            assert(cells@ =~= Seq::new(k as nat, |i: int| false));
        }
        let mut p = Pattern { w, h, cells };
        p.populate_chars(data.as_slice());
        Some(p)
    }

    /// The pattern's width.
    pub fn width(&self) -> (w: usize)
        ensures
            w == self@.w,
    {
        self.w
    }

    /// The pattern's height.
    pub fn height(&self) -> (h: usize)
        ensures
            h == self@.h,
    {
        self.h
    }

    /// Index into the cells of the cell at `(x, y)`, each coordinate taken
    /// modulo the pattern's size.
    pub fn idx(&self, x: i32, y: i32) -> (r: usize)
        requires
            self.inv(),
        ensures
            r as int == cell_index(x as int, y as int, self@.w as int, self@.h as int),
            r < self@.cells.len(),
    {
        let ux = x.checked_rem_euclid(self.w as i32).unwrap() as usize;
        let uy = y.checked_rem_euclid(self.h as i32).unwrap() as usize;
        proof {
            lemma_cell_index_bounds(x as int, y as int, self.w as int, self.h as int);
            assert(self.w * self.h <= WIDTH * HEIGHT) by (nonlinear_arith)
                requires
                    self.w <= WIDTH,
                    self.h <= HEIGHT,
            ;
        }
        uy * self.w + ux
    }

    /// Whether the cell at `(x, y)` (modulo the size) is alive.
    pub fn get(&self, x: i32, y: i32) -> (b: bool)
        requires
            self.inv(),
        ensures
            b == self@.at(x as int, y as int),
    {
        let idx = self.idx(x, y);
        self.cells[idx]
    }

    /// Makes the cell at `(x, y)` (modulo the size) alive.
    pub fn set(&mut self, x: i32, y: i32)
        requires
            old(self).inv(),
        ensures
            final(self).inv(),
            final(self)@ == pattern_set(old(self)@, x as int, y as int),
    {
        let idx = self.idx(x, y);
        self.cells.set(idx, true);
    }

    /// Applies one tag `c` `run` times from the cursor `(x, y)`.
    fn repeat_tag(&mut self, c: char, run: u32, x: &mut i32, y: &mut i32)
        requires
            old(self).inv(),
            0 <= *old(x) < old(self)@.w,
        ensures
            final(self).inv(),
            final(self)@.w == old(self)@.w,
            final(self)@.h == old(self)@.h,
            0 <= *final(x) < old(self)@.w,
            ({
                let st = RlePos { x: *old(x), y: *old(y), cells: old(self)@.cells };
                let en = rle_repeat(st, c, run as nat, old(self)@.w as int, old(self)@.h as int);
                &&& *final(x) == en.x
                &&& *final(y) == en.y
                &&& final(self)@.cells == en.cells
            }),
    {
        let ghost w = self@.w as int;
        let ghost h = self@.h as int;
        let ghost st = RlePos { x: *x, y: *y, cells: self@.cells };
        if c != 'b' && c != 'o' && c != '$' {
            proof {
                lemma_repeat_noop(st, c, run as nat, w, h);
            }
            return;
        }
        let wi = self.w as i32;
        let mut k: u32 = 0;
        while k < run
            invariant
                self.inv(),
                self@.w == w,
                self@.h == h,
                wi == w,
                0 <= *x < w,
                k <= run,
                c == 'b' || c == 'o' || c == '$',
                ({
                    let en = rle_repeat(st, c, k as nat, w, h);
                    &&& *x == en.x
                    &&& *y == en.y
                    &&& self@.cells == en.cells
                }),
            decreases run - k,
        {
            let ghost prev = rle_repeat(st, c, k as nat, w, h);
            if c == 'o' {
                self.set(*x, *y);
            }
            if c == '$' {
                *x = 0;
                *y = y.wrapping_add(1);
            } else {
                let ghost x0 = *x as int;
                *x = if *x + 1 == wi {
                    0
                } else {
                    *x + 1
                };
                assert(*x as int == (x0 + 1) % w) by {
                    if x0 + 1 == w {
                        vstd::arithmetic::div_mod::lemma_mod_self_0(w);
                    } else {
                        vstd::arithmetic::div_mod::lemma_small_mod((x0 + 1) as nat, w as nat);
                    }
                }
                assert(0 <= (x0 + 1) % w < w);
                assert(((x0 + 1) % w) as i32 == (x0 + 1) % w);
                if *x == 0 {
                    *y = y.wrapping_add(1);
                }
            }
            assert(rle_repeat(st, c, (k + 1) as nat, w, h) == rle_unit(prev, c, w, h));
            k = k + 1;
        }
    }

    fn populate_chars(&mut self, s: &[char])
        requires
            old(self).inv(),
        ensures
            final(self).inv(),
            final(self)@ == (PatternView {
                cells: rle_populate(old(self)@.cells, s@, old(self)@.w as int, old(self)@.h as int),
                ..old(self)@
            }),
    {
        let ghost w = self@.w as int;
        let ghost h = self@.h as int;
        let ghost st0 = RleCursor { run: 0, pos: RlePos { x: 0, y: 0, cells: self@.cells } };
        let mut run: u32 = 0;
        let mut x: i32 = 0;
        let mut y: i32 = 0;
        let n = s.len();
        let mut i: usize = 0;
        while i < n
            invariant
                self.inv(),
                self@.w == w,
                self@.h == h,
                n == s@.len(),
                i <= n,
                0 <= x < w,
                ({
                    let en = rle_decode(st0, s@, i as nat, w, h);
                    &&& run == en.run
                    &&& x == en.pos.x
                    &&& y == en.pos.y
                    &&& self@.cells == en.pos.cells
                }),
            decreases n - i,
        {
            let c = s[i];
            if '0' <= c && c <= '9' {
                let d = (c as u32) - ('0' as u32);
                run = run.wrapping_mul(10).wrapping_add(d);
            } else {
                if run == 0 {
                    run = 1;
                }
                if c == '$' && x == 0 {
                    run = run - 1;
                }
                self.repeat_tag(c, run, &mut x, &mut y);
                run = 0;
            }
            i = i + 1;
        }
    }

    /// Decodes RLE pattern data `s` onto the cells, from the top left.
    pub fn populate(&mut self, s: &str)
        requires
            old(self).inv(),
        ensures
            final(self).inv(),
            final(self)@ == (PatternView {
                cells: rle_populate(old(self)@.cells, s@, old(self)@.w as int, old(self)@.h as int),
                ..old(self)@
            }),
    {
        let v = chars_of(s);
        self.populate_chars(&v);
    }
}

} // verus!
