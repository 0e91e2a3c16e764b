//! The cellular automaton overlay: two grids that take turns, colour rules
//! per cell value, patterns spawned from bus messages, and the RGBA texture
//! that shows the current grid.
use vstd::prelude::*;
use vstd::utf8::{decode_utf8, valid_utf8};
use crate::cells::{grid_index, lemma_grid_index_bounds, life_into, life_step, CellBuffer, CELLS};
use crate::codec::{base64_standard_decode, decode_base64, random_below, str_from_utf8};
use crate::rle::{rle_parse, Pattern, PatternView, HEIGHT, WIDTH};
use crate::text::{chars_of, parse_int, parse_int_chars, trim, trim_chars};

verus! {

/// Number of colour rules, one per cell value.
pub const RULES: usize = 256;

/// What the automaton holds.
pub struct OverlayView {
    /// Whether `buf0` (rather than `buf1`) is the current grid.
    pub active: bool,
    pub buf0: Seq<u8>,
    pub buf1: Seq<u8>,
    /// The cell value that the next spawned pattern gets.
    pub next_rule: nat,
    /// The RGBA colour of each cell value.
    pub rules: Seq<[u8; 4]>,
}

impl OverlayView {
    pub open spec fn current(self) -> Seq<u8> {
        if self.active {
            self.buf0
        } else {
            self.buf1
        }
    }

    /// The same state with `g` as the current grid.
    pub open spec fn with_current(self, g: Seq<u8>) -> OverlayView {
        if self.active {
            OverlayView { buf0: g, ..self }
        } else {
            OverlayView { buf1: g, ..self }
        }
    }
}

/// The grid `g` with pattern `p` written with value `c` at `(x, y)`: every
/// cell of the pattern's box (wrapping around the edges) takes `c` where
/// the pattern is alive and 0 where it is dead; other cells keep their
/// value.
pub open spec fn spawn_cells(g: Seq<u8>, x: int, y: int, c: u8, p: PatternView) -> Seq<u8> {
    Seq::new(
        CELLS as nat,
        |k: int|
            {
                let xo = (k % (WIDTH as int) - x) % (WIDTH as int);
                let yo = (k / (WIDTH as int) - y) % (HEIGHT as int);
                if xo < p.w && yo < p.h {
                    if p.at(xo, yo) {
                        c
                    } else {
                        0u8
                    }
                } else {
                    g[k]
                }
            },
    )
}

/// A spawn writes the whole box of the pattern: the grid cell `(x + i,
/// y + j)` (wrapping around the edges) of every pattern cell `(i, j)` holds
/// `c` where the pattern is alive and 0 where it is dead, whatever it held
/// before.
pub proof fn law_spawn_fills_box(g: Seq<u8>, x: int, y: int, c: u8, p: PatternView, i: int, j: int)
    requires
        g.len() == CELLS,
        p.wf(),
        0 <= i < p.w,
        0 <= j < p.h,
    ensures
        spawn_cells(g, x, y, c, p)[grid_index(x + i, y + j)] == if p.at(i, j) {
            c
        } else {
            0u8
        },
{
    let w = WIDTH as int;
    let h = HEIGHT as int;
    let a = (x + i) % w;
    let b = (y + j) % h;
    let k = grid_index(x + i, y + j);
    lemma_grid_index_bounds(x + i, y + j);
    assert(k == b * w + a);
    vstd::arithmetic::div_mod::lemma_fundamental_div_mod_converse(k, w, b, a);
    vstd::arithmetic::div_mod::lemma_sub_mod_noop_right(a, x, w);
    vstd::arithmetic::div_mod::lemma_sub_mod_noop(x + i, x, w);
    vstd::arithmetic::div_mod::lemma_small_mod(i as nat, w as nat);
    vstd::arithmetic::div_mod::lemma_sub_mod_noop_right(b, y, h);
    vstd::arithmetic::div_mod::lemma_sub_mod_noop(y + j, y, h);
    vstd::arithmetic::div_mod::lemma_small_mod(j as nat, h as nat);
    assert((k % w - x) % w == i);
    assert((k / w - y) % h == j);
}

/// A spawn changes nothing outside the box of the pattern: a grid cell that
/// is no `(x + i, y + j)` for a pattern cell `(i, j)` keeps its value.
pub proof fn law_spawn_keeps_outside(g: Seq<u8>, x: int, y: int, c: u8, p: PatternView, k: int)
    requires
        g.len() == CELLS,
        p.wf(),
        0 <= k < CELLS,
        forall|i: int, j: int| 0 <= i < p.w && 0 <= j < p.h ==> #[trigger] grid_index(x + i, y + j) != k,
    ensures
        spawn_cells(g, x, y, c, p)[k] == g[k],
{
    let w = WIDTH as int;
    let h = HEIGHT as int;
    let kx = k % w;
    let ky = k / w;
    let xo = (kx - x) % w;
    let yo = (ky - y) % h;
    if xo < p.w && yo < p.h {
        crate::cells::lemma_grid_index_of_cell(k);
        vstd::arithmetic::div_mod::lemma_add_mod_noop_right(x, kx - x, w);
        vstd::arithmetic::div_mod::lemma_add_mod_noop_right(y, ky - y, h);
        vstd::arithmetic::div_mod::lemma_small_mod(kx as nat, w as nat);
        vstd::arithmetic::div_mod::lemma_small_mod(ky as nat, h as nat);
        assert((x + xo) % w == kx);
        assert((y + yo) % h == ky);
        assert(grid_index(x + xo, y + yo) == k);
    }
}

/// The rule that follows `r`: 1 to 255 in turn, skipping 0.
pub open spec fn next_rule_after(r: nat) -> nat {
    if (r + 1) % (RULES as nat) == 0 {
        1
    } else {
        (r + 1) % (RULES as nat)
    }
}

/// The automaton after a pattern `p` of colour `rgb` is spawned at
/// `(x, y)` with the next rule.
pub open spec fn spawned(v: OverlayView, p: PatternView, rgb: (u8, u8, u8), x: int, y: int) -> OverlayView {
    let w = v.with_current(spawn_cells(v.current(), x, y, v.next_rule as u8, p));
    OverlayView {
        rules: v.rules.update(v.next_rule as int, [rgb.0, rgb.1, rgb.2, 0xff]),
        next_rule: next_rule_after(v.next_rule),
        ..w
    }
}

/// What a spawn message asks for: `None` where a field does not decode
/// (Base64, UTF-8, a `#` and a hexadecimal colour); otherwise the pattern
/// (if its RLE text is valid) and the colour's red, green and blue bytes.
pub open spec fn spawn_request(pattern_b64: Seq<char>, color_b64: Seq<char>) -> Option<
    (Option<PatternView>, (u8, u8, u8)),
> {
    match base64_standard_decode(pattern_b64) {
        None => None,
        Some(bs) => if !valid_utf8(bs) {
            None
        } else {
            match base64_standard_decode(color_b64) {
                None => None,
                Some(bc) => if !valid_utf8(bc) {
                    None
                } else {
                    let t = trim(decode_utf8(bc));
                    if !(t.len() > 0 && t[0] == '#') {
                        None
                    } else {
                        match parse_int(t.drop_first(), 16, 0, u32::MAX as int) {
                            None => None,
                            Some(col) => Some(
                                (
                                    rle_parse(decode_utf8(bs)),
                                    (
                                        ((col / 0x10000) % 0x100) as u8,
                                        ((col / 0x100) % 0x100) as u8,
                                        (col % 0x100) as u8,
                                    ),
                                ),
                            ),
                        }
                    }
                },
            }
        },
    }
}

/// The cellular automaton.
pub struct Overlay {
    active: bool,
    buf0: CellBuffer,
    buf1: CellBuffer,
    next_rule: usize,
    rules: Vec<[u8; 4]>,
}

impl View for Overlay {
    type V = OverlayView;

    closed spec fn view(&self) -> OverlayView {
        OverlayView {
            active: self.active,
            buf0: self.buf0@,
            buf1: self.buf1@,
            next_rule: self.next_rule as nat,
            rules: self.rules@,
        }
    }
}

/// Writes pattern `pat` with value `c` at `(x, y)` into `buf`.
fn spawn_into(buf: &mut CellBuffer, x: i32, y: i32, c: u8, pat: &Pattern)
    requires
        old(buf).inv(),
        pat.inv(),
    ensures
        final(buf).inv(),
        final(buf)@ == spawn_cells(old(buf)@, x as int, y as int, c, pat@),
{
    let ghost target = spawn_cells(buf@, x as int, y as int, c, pat@);
    let ghost orig = buf@;
    let pw = pat.width();
    let ph = pat.height();
    let mut k: usize = 0;
    while k < CELLS
        invariant
            buf.inv(),
            pat.inv(),
            pw == pat@.w,
            ph == pat@.h,
            target == spawn_cells(orig, x as int, y as int, c, pat@),
            orig.len() == CELLS,
            k <= CELLS,
            forall|j: int| 0 <= j < k ==> buf@[j] == target[j],
            forall|j: int| k <= j < CELLS ==> buf@[j] == orig[j],
        decreases CELLS - k,
    {
        let kx = (k % WIDTH) as i64;
        let ky = (k / WIDTH) as i64;
        let xo = (kx - x as i64).checked_rem_euclid(WIDTH as i64).unwrap();
        let yo = (ky - y as i64).checked_rem_euclid(HEIGHT as i64).unwrap();
        if (xo as usize) < pw && (yo as usize) < ph {
            let v = if pat.get(xo as i32, yo as i32) {
                c
            } else {
                0
            };
            buf.set_index(k, v);
        }
        assert(buf@[k as int] == target[k as int]);
        k = k + 1;
    }
    assert(buf@ =~= target);
}

impl Overlay {
    pub closed spec fn inv(&self) -> bool {
        &&& self.buf0.inv()
        &&& self.buf1.inv()
        &&& self.rules@.len() == RULES
        &&& 1 <= self.next_rule < RULES
        &&& self.rules@[0] == [0u8, 0u8, 0u8, 0u8]
    }

    /// The colour rules stay in shape through every operation (each keeps
    /// `inv`): there is one rule per cell value, the next rule to hand out
    /// is never 0, and rule 0 stays transparent.
    pub proof fn law_rules_in_shape(&self)
        requires
            self.inv(),
        ensures
            self@.rules.len() == RULES,
            1 <= self@.next_rule < RULES,
            self@.rules[0] == [0u8, 0u8, 0u8, 0u8],
            self@.buf0.len() == CELLS,
            self@.buf1.len() == CELLS,
    {
    }

    /// Dead cells always show as transparent: rule 0 keeps its clear colour
    /// whatever patterns are spawned, so every texel of a cell of value 0
    /// is 0.
    pub proof fn law_dead_cells_transparent(&self, i: int)
        requires
            self.inv(),
            0 <= i < CELLS * 4,
            self@.current()[i / 4] == 0,
        ensures
            self@.rules[self@.current()[i / 4] as int]@[i % 4] == 0,
    {
        assert(self.rules@[0]@[i % 4] == 0);
    }

    /// An automaton with both grids empty, rule 0 transparent, every other
    /// rule opaque white, and rule 1 next.
    pub fn new() -> (r: Self)
        ensures
            r.inv(),
            r@.active == false,
            r@.buf0 == Seq::new(CELLS as nat, |k: int| 0u8),
            r@.buf1 == Seq::new(CELLS as nat, |k: int| 0u8),
            r@.next_rule == 1,
            r@.rules[0] == [0u8, 0u8, 0u8, 0u8],
            forall|i: int| 1 <= i < RULES ==> #[trigger] r@.rules[i] == [0xffu8, 0xffu8, 0xffu8, 0xffu8],
    {
        let mut rules: Vec<[u8; 4]> = Vec::new();
        rules.push([0, 0, 0, 0]);
        let mut i: usize = 1;
        while i < RULES
            invariant
                1 <= i <= RULES,
                rules@.len() == i,
                rules@[0] == [0u8, 0u8, 0u8, 0u8],
                forall|j: int| 1 <= j < i ==> #[trigger] rules@[j] == [0xffu8, 0xffu8, 0xffu8, 0xffu8],
            decreases RULES - i,
        {
            rules.push([0xff, 0xff, 0xff, 0xff]);
            i = i + 1;
        }
        Overlay {
            active: false,
            buf0: CellBuffer::new(),
            buf1: CellBuffer::new(),
            next_rule: 1,
            rules,
        }
    }

    /// The current grid.
    pub fn current(&self) -> (g: &CellBuffer)
        requires
            self.inv(),
        ensures
            g@ == self@.current(),
            g.inv(),
    {
        if self.active {
            &self.buf0
        } else {
            &self.buf1
        }
    }

    /// The value that the next spawned pattern gets.
    pub fn next_rule(&self) -> (r: usize)
        ensures
            r == self@.next_rule,
    {
        self.next_rule
    }

    /// The colour of cell value `i`.
    pub fn rule(&self, i: u8) -> (c: [u8; 4])
        requires
            self.inv(),
        ensures
            c == self@.rules[i as int],
    {
        self.rules[i as usize]
    }

    /// Writes pattern `pat` with value `c` into the current grid at `(x, y)`.
    pub fn spawn(&mut self, x: i32, y: i32, c: u8, pat: &Pattern)
        requires
            old(self).inv(),
            pat.inv(),
        ensures
            final(self).inv(),
            final(self)@ == old(self)@.with_current(
                spawn_cells(old(self)@.current(), x as int, y as int, c, pat@),
            ),
    {
        if self.active {
            spawn_into(&mut self.buf0, x, y, c, pat);
        } else {
            spawn_into(&mut self.buf1, x, y, c, pat);
        }
    }

    /// Advances the automaton by one step: the other grid receives the next
    /// generation and becomes current.
    pub fn step(&mut self)
        requires
            old(self).inv(),
        ensures
            final(self).inv(),
            final(self)@.active == !old(self)@.active,
            final(self)@.current() == life_step(old(self)@.current()),
            old(self)@.active ==> final(self)@.buf0 == old(self)@.buf0,
            !old(self)@.active ==> final(self)@.buf1 == old(self)@.buf1,
            final(self)@.rules == old(self)@.rules,
            final(self)@.next_rule == old(self)@.next_rule,
    {
        if self.active {
            life_into(&self.buf0, &mut self.buf1);
        } else {
            life_into(&self.buf1, &mut self.buf0);
        }
        self.active = !self.active;
    }

    /// One frame at `tick`: every tenth tick the automaton steps, and the
    /// texture must then be uploaded again (`true`).
    pub fn update(&mut self, tick: u64) -> (stepped: bool)
        requires
            old(self).inv(),
        ensures
            final(self).inv(),
            stepped == (tick % 10 == 0),
            stepped ==> final(self)@.active == !old(self)@.active && final(self)@.current() == life_step(
                old(self)@.current(),
            ) && final(self)@.rules == old(self)@.rules && final(self)@.next_rule == old(self)@.next_rule
                && (old(self)@.active ==> final(self)@.buf0 == old(self)@.buf0) && (!old(self)@.active
                ==> final(self)@.buf1 == old(self)@.buf1),
            !stepped ==> final(self)@ == old(self)@,
    {
        if tick % 10 == 0 {
            self.step();
            true
        } else {
            false
        }
    }

    /// Clears the current grid.
    pub fn reset(&mut self)
        requires
            old(self).inv(),
        ensures
            final(self).inv(),
            final(self)@ == old(self)@.with_current(Seq::new(CELLS as nat, |k: int| 0u8)),
    {
        if self.active {
            self.buf0 = CellBuffer::new();
        } else {
            self.buf1 = CellBuffer::new();
        }
    }

    /// The RGBA bytes of the texture that shows the current grid: each
    /// cell's four bytes are the colour of its rule.
    pub fn upload_pixels(&self) -> (px: Vec<u8>)
        requires
            self.inv(),
        ensures
            px@.len() == CELLS * 4,
            forall|i: int|
                0 <= i < CELLS * 4 ==> #[trigger] px@[i] == self@.rules[self@.current()[i / 4] as int]@[i
                    % 4],
    {
        let cur = if self.active {
            &self.buf0
        } else {
            &self.buf1
        };
        let mut px: Vec<u8> = Vec::new();
        let mut k: usize = 0;
        while k < CELLS
            invariant
                self.inv(),
                cur@ == self@.current(),
                cur.inv(),
                k <= CELLS,
                px@.len() == k * 4,
                forall|i: int|
                    0 <= i < k * 4 ==> #[trigger] px@[i] == self@.rules[cur@[i / 4] as int]@[i % 4],
            decreases CELLS - k,
        {
            let c = cur.get_index(k);
            let color = self.rules[c as usize];
            let mut off: usize = 0;
            while off < 4
                invariant
                    k < CELLS,
                    off <= 4,
                    px@.len() == k * 4 + off,
                    color == self@.rules[cur@[k as int] as int],
                    forall|i: int|
                        0 <= i < k * 4 + off ==> #[trigger] px@[i] == self@.rules[cur@[i / 4] as int]@[i
                            % 4],
                decreases 4 - off,
            {
                px.push(color[off]);
                assert((k * 4 + off) as int / 4 == k as int);
                assert((k * 4 + off) as int % 4 == off as int);
                off = off + 1;
            }
            k = k + 1;
        }
        px
    }

    /// Spawns pattern `pat` in colour `(r, g, b)` at `(x, y)`: the next rule
    /// takes the colour, the pattern is written with that rule's value, and
    /// the rule after it is next.
    pub fn spawn_colored(&mut self, pat: &Pattern, r: u8, g: u8, b: u8, x: i32, y: i32)
        requires
            old(self).inv(),
            pat.inv(),
        ensures
            final(self).inv(),
            final(self)@ == spawned(old(self)@, pat@, (r, g, b), x as int, y as int),
    {
        let rule = self.next_rule;
        self.rules.set(rule, [r, g, b, 0xff]);
        self.spawn(x, y, rule as u8, pat);
        let n = (rule + 1) % RULES;
        self.next_rule = if n == 0 {
            1
        } else {
            n
        };
    }

    /// Handles a spawn message whose first field is the RLE pattern and whose
    /// third is the colour (`#rrggbb`), both Base64. `None` where a field does
    /// not decode; otherwise a valid pattern is spawned at a random cell.
    pub fn handle_spawn(&mut self, pattern_b64: &str, color_b64: &str) -> (res: Option<()>)
        requires
            old(self).inv(),
        ensures
            final(self).inv(),
            res is Some <==> spawn_request(pattern_b64@, color_b64@) is Some,
            match spawn_request(pattern_b64@, color_b64@) {
                Some((Some(p), rgb)) => exists|x: int, y: int|
                    #![trigger spawned(old(self)@, p, rgb, x, y)]
                    0 <= x < WIDTH && 0 <= y < HEIGHT && final(self)@ == spawned(
                        old(self)@,
                        p,
                        rgb,
                        x,
                        y,
                    ),
                _ => final(self)@ == old(self)@,
            },
    {
        let bs = match decode_base64(pattern_b64) {
            Some(v) => v,
            None => return None,
        };
        let s = match str_from_utf8(bs.as_slice()) {
            Some(s) => s,
            None => return None,
        };
        let bcol = match decode_base64(color_b64) {
            Some(v) => v,
            None => return None,
        };
        let scol = match str_from_utf8(bcol.as_slice()) {
            Some(s) => s,
            None => return None,
        };
        let cs = chars_of(scol);
        let t = trim_chars(cs.as_slice());
        if !(t.len() > 0 && t[0] == '#') {
            return None;
        }
        let n = t.len();
        let mut hex: Vec<char> = Vec::new();
        let mut i: usize = 1;
        while i < n
            invariant
                1 <= i <= n == t@.len(),
                hex@ == t@.subrange(1, i as int),
            decreases n - i,
        {
            hex.push(t[i]);
            i = i + 1;
        }
        assert(hex@ =~= t@.drop_first());
        let col = match parse_int_chars(hex.as_slice(), 16, 0, 0xffff_ffff) {
            Some(v) => v,
            None => return None,
        };
        assert(spawn_request(pattern_b64@, color_b64@) == Some(
            (rle_parse(s@), (((col / 0x10000) % 0x100) as u8, ((col / 0x100) % 0x100) as u8, (col % 0x100) as u8)),
        ));
        let cu = col as u32;
        let r = ((cu / 0x10000) % 0x100) as u8;
        let g = ((cu / 0x100) % 0x100) as u8;
        let b = (cu % 0x100) as u8;
        assert(r == ((col / 0x10000) % 0x100) as u8);
        assert(g == ((col / 0x100) % 0x100) as u8);
        assert(b == (col % 0x100) as u8);
        let ghost before = self@;
        if let Some(pat) = Pattern::from_rle(s) {
            let x = random_below(WIDTH);
            let y = random_below(HEIGHT);
            self.spawn_colored(&pat, r, g, b, x as i32, y as i32);
            assert(0 <= (x as int) && (x as int) < WIDTH && 0 <= (y as int) && (y as int) < HEIGHT
                && self@ == spawned(before, pat@, (r, g, b), x as int, y as int));
            assert(spawn_request(pattern_b64@, color_b64@) == Some((Some(pat@), (r, g, b))));
            assert(before == old(self)@);
            assert(exists|xx: int, yy: int|
                #![trigger spawned(old(self)@, pat@, (r, g, b), xx, yy)]
                0 <= xx < WIDTH && 0 <= yy < HEIGHT && self@ == spawned(old(self)@, pat@, (r, g, b), xx, yy));
            assert(match spawn_request(pattern_b64@, color_b64@) {
                    Some((Some(p), rgb)) => p == pat@ && rgb == (r, g, b),
                    _ => false,
                });
            assert(match spawn_request(pattern_b64@, color_b64@) {
                    Some((Some(p), rgb)) => exists|x: int, y: int|
                        #![trigger spawned(old(self)@, p, rgb, x, y)]
                        0 <= x < WIDTH && 0 <= y < HEIGHT && self@ == spawned(
                            old(self)@,
                            p,
                            rgb,
                            x,
                            y,
                        ),
                    _ => self@ == old(self)@,
                });
        } else {
            assert(spawn_request(pattern_b64@, color_b64@) == Some((None::<PatternView>, (r, g, b))));
            assert(self@ == old(self)@);
        }
        Some(())
    }
}

} // verus!
