//! The grid of the cellular automaton and the rule by which it steps: a cell
//! is alive when it holds a nonzero colour index; births take the most
//! common colour among the neighbours.
use vstd::prelude::*;
use crate::rle::{cell_index, lemma_cell_index_bounds, HEIGHT, WIDTH};

verus! {

/// Number of cells in the grid.
pub const CELLS: usize = 9216;

/// Index of the cell at `(x, y)`, each coordinate taken modulo the grid.
pub open spec fn grid_index(x: int, y: int) -> int {
    cell_index(x, y, WIDTH as int, HEIGHT as int)
}

pub proof fn lemma_grid_index_bounds(x: int, y: int)
    ensures
        0 <= grid_index(x, y) < CELLS,
{
    lemma_cell_index_bounds(x, y, WIDTH as int, HEIGHT as int);
}

/// The cell at index `k` has coordinates `(k % WIDTH, k / WIDTH)`.
pub proof fn lemma_grid_index_of_cell(k: int)
    requires
        0 <= k < CELLS,
    ensures
        grid_index(k % (WIDTH as int), k / (WIDTH as int)) == k,
{
    let x = k % 128;
    let y = k / 128;
    assert(0 <= y < 72);
    assert(0 <= x < 128);
    vstd::arithmetic::div_mod::lemma_small_mod(x as nat, 128);
    vstd::arithmetic::div_mod::lemma_small_mod(y as nat, 72);
    vstd::arithmetic::div_mod::lemma_fundamental_div_mod(k, 128);
}

/// The grid is a torus: a coordinate one full width or height further on
/// names the same cell, so `get` and `set` there read and write it.
pub proof fn law_grid_wraps(x: int, y: int)
    ensures
        grid_index(x + WIDTH, y) == grid_index(x, y),
        grid_index(x - WIDTH, y) == grid_index(x, y),
        grid_index(x, y + HEIGHT) == grid_index(x, y),
        grid_index(x, y - HEIGHT) == grid_index(x, y),
{
    vstd::arithmetic::div_mod::lemma_mod_add_multiples_vanish(x, WIDTH as int);
    vstd::arithmetic::div_mod::lemma_mod_sub_multiples_vanish(x, WIDTH as int);
    vstd::arithmetic::div_mod::lemma_mod_add_multiples_vanish(y, HEIGHT as int);
    vstd::arithmetic::div_mod::lemma_mod_sub_multiples_vanish(y, HEIGHT as int);
}

/// The offsets of the eight neighbours, in the order in which `neighbors`
/// lists them.
pub open spec fn neighbor_dx(i: int) -> int {
    if i == 0 || i == 3 || i == 5 {
        -1
    } else if i == 1 || i == 6 {
        0
    } else {
        1
    }
}

pub open spec fn neighbor_dy(i: int) -> int {
    if i < 3 {
        -1
    } else if i < 5 {
        0
    } else {
        1
    }
}

/// The eight neighbours of `(x, y)` on the torus `g`.
pub open spec fn neighbors_of(g: Seq<u8>, x: int, y: int) -> Seq<u8> {
    Seq::new(8, |i: int| g[grid_index(x + neighbor_dx(i), y + neighbor_dy(i))])
}

/// How many entries of `s` are nonzero.
pub open spec fn count_nonzero(s: Seq<u8>) -> nat
    decreases s.len(),
{
    if s.len() == 0 {
        0
    } else {
        count_nonzero(s.drop_last()) + if s.last() != 0 {
            1nat
        } else {
            0nat
        }
    }
}

/// How many entries of `s` equal `v`.
pub open spec fn count_eq(s: Seq<u8>, v: u8) -> nat
    decreases s.len(),
{
    if s.len() == 0 {
        0
    } else {
        count_eq(s.drop_last(), v) + if s.last() == v {
            1nat
        } else {
            0nat
        }
    }
}

/// `v` is a nonzero value of `s` that no other nonzero value outnumbers,
/// and the largest such.
pub open spec fn is_most_common(s: Seq<u8>, v: u8) -> bool {
    &&& v != 0
    &&& count_eq(s, v) > 0
    &&& forall|u: u8|
        u != 0 && count_eq(s, u) > 0 ==> (count_eq(s, u) < count_eq(s, v) || (count_eq(s, u)
            == count_eq(s, v) && u <= v))
}

/// The most common nonzero value of `s` (the largest among those tied),
/// or 0 where all are zero.
pub open spec fn most_common(s: Seq<u8>) -> u8 {
    if exists|v: u8| is_most_common(s, v) {
        choose|v: u8| is_most_common(s, v)
    } else {
        0
    }
}

/// The state of the cell at `(x, y)` after one step: a live cell with
/// fewer than two or more than three live neighbours dies, a cell with
/// exactly three takes the most common neighbour colour, any other keeps
/// its state.
pub open spec fn life_cell(g: Seq<u8>, x: int, y: int) -> u8 {
    let ns = neighbors_of(g, x, y);
    let n = count_nonzero(ns);
    let c = g[grid_index(x, y)];
    if c > 0 && n != 2 && n != 3 {
        0
    } else if n == 3 {
        most_common(ns)
    } else {
        c
    }
}

/// The whole grid after one step.
pub open spec fn life_step(g: Seq<u8>) -> Seq<u8> {
    Seq::new(CELLS as nat, |k: int| life_cell(g, k % (WIDTH as int), k / (WIDTH as int)))
}

pub proof fn lemma_count_eq_witness(s: Seq<u8>, v: u8)
    requires
        count_eq(s, v) > 0,
    ensures
        exists|j: int| 0 <= j < s.len() && s[j] == v,
    decreases s.len(),
{
    if s.last() != v {
        lemma_count_eq_witness(s.drop_last(), v);
        let j = choose|j: int| 0 <= j < s.drop_last().len() && s.drop_last()[j] == v;
        assert(s[j] == v);
    } else {
        assert(s[s.len() - 1] == v);
    }
}

pub proof fn lemma_count_eq_pos(s: Seq<u8>, j: int)
    requires
        0 <= j < s.len(),
    ensures
        count_eq(s, s[j]) > 0,
    decreases s.len(),
{
    if j < s.len() - 1 {
        lemma_count_eq_pos(s.drop_last(), j);
    }
}

pub proof fn lemma_most_common_unique(s: Seq<u8>, a: u8, b: u8)
    requires
        is_most_common(s, a),
        is_most_common(s, b),
    ensures
        a == b,
{
}

pub proof fn lemma_count_nonzero_bound(s: Seq<u8>)
    ensures
        count_nonzero(s) <= s.len(),
    decreases s.len(),
{
    if s.len() > 0 {
        lemma_count_nonzero_bound(s.drop_last());
    }
}

proof fn lemma_count_nonzero_zero(s: Seq<u8>)
    requires
        forall|i: int| 0 <= i < s.len() ==> s[i] == 0,
    ensures
        count_nonzero(s) == 0,
    decreases s.len(),
{
    if s.len() > 0 {
        lemma_count_nonzero_zero(s.drop_last());
    }
}

/// The rule of the automaton is B3/S23: with `n` live cells among the eight
/// neighbours, a dead cell is born only where `n` is exactly 3, a live cell
/// survives only where `n` is 2 or 3, and every other cell is dead next.
/// A cell with exactly 3 live neighbours is alive next with the colour of
/// one of them; a live cell with 2 keeps its own colour.
pub proof fn law_birth_and_survival(g: Seq<u8>, k: int)
    requires
        g.len() == CELLS,
        0 <= k < CELLS,
    ensures
        ({
            let ns = neighbors_of(g, k % (WIDTH as int), k / (WIDTH as int));
            let n = count_nonzero(ns);
            let v = life_step(g)[k];
            &&& (g[k] == 0 && n != 3) ==> v == 0
            &&& (g[k] != 0 && n != 2 && n != 3) ==> v == 0
            &&& n == 3 ==> v != 0 && exists|i: int| 0 <= i < 8 && #[trigger] ns[i] == v
            &&& (g[k] != 0 && n == 2) ==> v == g[k]
        }),
{
    let x = k % (WIDTH as int);
    let y = k / (WIDTH as int);
    let ns = neighbors_of(g, x, y);
    lemma_grid_index_of_cell(k);
    assert(life_step(g)[k] == life_cell(g, x, y));
    assert(g[grid_index(x, y)] == g[k]);
    if count_nonzero(ns) == 3 {
        lemma_most_common_of_live(ns);
        let m = most_common(ns);
        assert(life_step(g)[k] == m);
        lemma_count_eq_witness(ns, m);
        let j = choose|j: int| 0 <= j < ns.len() && ns[j] == m;
        assert(ns[j] == life_step(g)[k]);
    }
}

/// Where some entry is nonzero, the most common value is a nonzero entry.
proof fn lemma_most_common_of_live(s: Seq<u8>)
    requires
        count_nonzero(s) > 0,
    ensures
        most_common(s) != 0,
        count_eq(s, most_common(s)) > 0,
{
    let j = lemma_nonzero_witness(s);
    let w = s[j];
    lemma_count_eq_pos(s, j);
    // Among the nonzero values present, one with the largest count (largest
    // value on ties) is most common.
    let best = lemma_best_value(s, w);
    assert(is_most_common(s, best));
}

proof fn lemma_nonzero_witness(s: Seq<u8>) -> (j: int)
    requires
        count_nonzero(s) > 0,
    ensures
        0 <= j < s.len(),
        s[j] != 0,
    decreases s.len(),
{
    if s.last() != 0 {
        (s.len() - 1) as int
    } else {
        let j = lemma_nonzero_witness(s.drop_last());
        assert(s[j] == s.drop_last()[j]);
        j
    }
}

/// A nonzero value present in `s` that no other nonzero value present
/// outnumbers (the largest on ties), found by trying every byte value from
/// the top down.
proof fn lemma_best_value(s: Seq<u8>, w: u8) -> (b: u8)
    requires
        w != 0,
        count_eq(s, w) > 0,
    ensures
        is_most_common(s, b),
{
    lemma_best_from(s, w, 255)
}

proof fn lemma_best_from(s: Seq<u8>, cur: u8, t: int) -> (b: u8)
    requires
        cur != 0,
        count_eq(s, cur) > 0,
        -1 <= t <= 255,
        forall|u: u8|
            t < u && u != 0 && count_eq(s, u) > 0 ==> (count_eq(s, u) < count_eq(s, cur) || (count_eq(s, u)
                == count_eq(s, cur) && u <= cur)),
    ensures
        is_most_common(s, b),
    decreases t + 1,
{
    if t < 0 {
        cur
    } else {
        let u = t as u8;
        if u != 0 && count_eq(s, u) > 0 && (count_eq(s, u) > count_eq(s, cur) || (count_eq(s, u)
            == count_eq(s, cur) && u > cur)) {
            lemma_best_from(s, u, t - 1)
        } else {
            lemma_best_from(s, cur, t - 1)
        }
    }
}

/// A step brings no new colour: each cell of the next generation is empty,
/// keeps its own colour, or takes the colour of one of its neighbours.
pub proof fn law_no_new_colours(g: Seq<u8>, k: int)
    requires
        g.len() == CELLS,
        0 <= k < CELLS,
    ensures
        life_step(g)[k] == 0 || life_step(g)[k] == g[k] || exists|i: int|
            0 <= i < 8 && #[trigger] neighbors_of(g, k % (WIDTH as int), k / (WIDTH as int))[i]
                == life_step(g)[k],
{
    let x = k % (WIDTH as int);
    let y = k / (WIDTH as int);
    let ns = neighbors_of(g, x, y);
    lemma_grid_index_of_cell(k);
    let v = life_step(g)[k];
    if v != 0 && v != g[k] {
        assert(v == most_common(ns));
        let m = choose|m: u8| is_most_common(ns, m);
        assert(is_most_common(ns, m));
        lemma_count_eq_witness(ns, m);
        let j = choose|j: int| 0 <= j < ns.len() && ns[j] == m;
        assert(ns[j] == v);
    }
}

/// An empty grid stays empty: no cell is born without live neighbours.
pub proof fn law_empty_stays_empty()
    ensures
        life_step(Seq::new(CELLS as nat, |k: int| 0u8)) == Seq::new(CELLS as nat, |k: int| 0u8),
{
    let z = Seq::new(CELLS as nat, |k: int| 0u8);
    assert forall|k: int| 0 <= k < CELLS implies #[trigger] life_step(z)[k] == z[k] by {
        let x = k % (WIDTH as int);
        let y = k / (WIDTH as int);
        let ns = neighbors_of(z, x, y);
        assert forall|i: int| 0 <= i < ns.len() implies ns[i] == 0 by {
            lemma_grid_index_bounds(x + neighbor_dx(i), y + neighbor_dy(i));
        }
        lemma_count_nonzero_zero(ns);
        lemma_grid_index_bounds(x, y);
    }
    assert(life_step(z) =~= z);
}

/// A grid of colour indices, one byte per cell, row by row.
pub struct CellBuffer {
    buf: Vec<u8>,
}

impl View for CellBuffer {
    type V = Seq<u8>;

    closed spec fn view(&self) -> Seq<u8> {
        self.buf@
    }
}

/// How many entries of `s[0..k]` equal `v`.
fn count_value(s: &[u8; 8], v: u8) -> (c: u8)
    ensures
        c == count_eq(s@, v),
        c <= 8,
{
    let mut c: u8 = 0;
    let mut k: usize = 0;
    assert(s@.take(0) =~= Seq::<u8>::empty());
    while k < 8
        invariant
            k <= 8,
            c == count_eq(s@.take(k as int), v),
            c <= k,
        decreases 8 - k,
    {
        assert(s@.take(k + 1).drop_last() =~= s@.take(k as int));
        if s[k] == v {
            c = c + 1;
        }
        k = k + 1;
    }
    assert(s@.take(8) =~= s@);
    c
}

/// The most common nonzero value of `ns`, the largest among those tied;
/// 0 where all are zero.
pub fn most_common_value(ns: &[u8; 8]) -> (r: u8)
    ensures
        r == most_common(ns@),
{
    let mut best: u8 = 0;
    let mut best_count: u8 = 0;
    let mut i: usize = 0;
    while i < 8
        invariant
            i <= 8,
            best == 0 <==> (forall|j: int| 0 <= j < i ==> ns@[j] == 0),
            best == 0 ==> best_count == 0,
            best != 0 ==> best_count == count_eq(ns@, best) && exists|j: int|
                0 <= j < i && ns@[j] == best,
            forall|j: int|
                0 <= j < i && ns@[j] != 0 ==> (count_eq(ns@, ns@[j]) < best_count || (count_eq(
                    ns@,
                    ns@[j],
                ) == best_count && ns@[j] <= best)),
        decreases 8 - i,
    {
        let v = ns[i];
        if v != 0 {
            let c = count_value(ns, v);
            proof {
                lemma_count_eq_pos(ns@, i as int);
            }
            if c > best_count || (c == best_count && v > best) {
                best = v;
                best_count = c;
            }
        }
        i = i + 1;
    }
    if best != 0 {
        assert(is_most_common(ns@, best)) by {
            let j0 = choose|j: int| 0 <= j < 8 && ns@[j] == best;
            lemma_count_eq_pos(ns@, j0);
            assert forall|u: u8| u != 0 && count_eq(ns@, u) > 0 implies (count_eq(ns@, u)
                < count_eq(ns@, best) || (count_eq(ns@, u) == count_eq(ns@, best) && u
                <= best)) by {
                lemma_count_eq_witness(ns@, u);
                let j = choose|j: int| 0 <= j < ns@.len() && ns@[j] == u;
                assert(ns@[j] == u);
            }
        }
        let ghost m = choose|v: u8| is_most_common(ns@, v);
        proof {
            lemma_most_common_unique(ns@, m, best);
        }
    } else {
        assert forall|v: u8| !is_most_common(ns@, v) by {
            if is_most_common(ns@, v) {
                lemma_count_eq_witness(ns@, v);
            }
        }
    }
    best
}

/// The number of nonzero entries of `ns`.
fn nonzero_count(ns: &[u8; 8]) -> (c: i32)
    ensures
        c == count_nonzero(ns@),
{
    let mut c: i32 = 0;
    let mut k: usize = 0;
    assert(ns@.take(0) =~= Seq::<u8>::empty());
    while k < 8
        invariant
            k <= 8,
            c == count_nonzero(ns@.take(k as int)),
            c <= k,
        decreases 8 - k,
    {
        assert(ns@.take(k + 1).drop_last() =~= ns@.take(k as int));
        c = c + if ns[k] > 0 {
            1
        } else {
            0
        };
        k = k + 1;
    }
    assert(ns@.take(8) =~= ns@);
    c
}

impl CellBuffer {
    pub open spec fn inv(&self) -> bool {
        self@.len() == CELLS
    }

    /// A grid of dead cells.
    pub fn new() -> (r: Self)
        ensures
            r.inv(),
            r@ == Seq::new(CELLS as nat, |k: int| 0u8),
    {
        let mut buf: Vec<u8> = Vec::new();
        let mut k: usize = 0;
        while k < CELLS
            invariant
                k <= CELLS,
                buf@ == Seq::new(k as nat, |i: int| 0u8),
            decreases CELLS - k,
        {
            buf.push(0);
            k = k + 1;
            assert(buf@ =~= Seq::new(k as nat, |i: int| 0u8));
        }
        CellBuffer { buf }
    }

    /// Index of the cell at `(x, y)`, each coordinate taken modulo the grid.
    pub fn idx(x: i32, y: i32) -> (r: usize)
        ensures
            r == grid_index(x as int, y as int),
            r < CELLS,
    {
        let ux = x.checked_rem_euclid(WIDTH as i32).unwrap() as usize;
        let uy = y.checked_rem_euclid(HEIGHT as i32).unwrap() as usize;
        proof {
            lemma_grid_index_bounds(x as int, y as int);
        }
        uy * WIDTH + ux
    }

    /// The cell at `(x, y)` (modulo the grid).
    pub fn get(&self, x: i32, y: i32) -> (c: u8)
        requires
            self.inv(),
        ensures
            c == self@[grid_index(x as int, y as int)],
    {
        self.buf[Self::idx(x, y)]
    }

    /// The cell at index `k`.
    pub fn get_index(&self, k: usize) -> (c: u8)
        requires
            self.inv(),
            k < CELLS,
        ensures
            c == self@[k as int],
    {
        self.buf[k]
    }

    /// Sets the cell at `(x, y)` (modulo the grid) to `v`.
    pub fn set(&mut self, x: i32, y: i32, v: u8)
        requires
            old(self).inv(),
        ensures
            final(self).inv(),
            final(self)@ == old(self)@.update(grid_index(x as int, y as int), v),
    {
        let i = Self::idx(x, y);
        self.buf.set(i, v);
    }

    /// Sets the cell at index `k` to `v`.
    pub fn set_index(&mut self, k: usize, v: u8)
        requires
            old(self).inv(),
            k < CELLS,
        ensures
            final(self).inv(),
            final(self)@ == old(self)@.update(k as int, v),
    {
        self.buf.set(k, v);
    }

    /// The eight neighbours of `(x, y)`: the row above from left to right,
    /// left and right, then the row below.
    pub fn neighbors(&self, x: i32, y: i32) -> (r: [u8; 8])
        requires
            self.inv(),
            i32::MIN < x < i32::MAX,
            i32::MIN < y < i32::MAX,
        ensures
            r@ == neighbors_of(self@, x as int, y as int),
    {
        let r = [
            self.get(x - 1, y - 1),
            self.get(x, y - 1),
            self.get(x + 1, y - 1),
            self.get(x - 1, y),
            self.get(x + 1, y),
            self.get(x - 1, y + 1),
            self.get(x, y + 1),
            self.get(x + 1, y + 1),
        ];
        assert(r@ =~= neighbors_of(self@, x as int, y as int));
        r
    }

    /// Whether the cell at `(x, y)` is alive.
    pub fn is_nonzero(&self, x: i32, y: i32) -> (b: bool)
        requires
            self.inv(),
        ensures
            b == (self@[grid_index(x as int, y as int)] > 0),
    {
        self.get(x, y) > 0
    }

    /// 1 where the cell at `(x, y)` is alive, else 0.
    pub fn count_cell(&self, x: i32, y: i32) -> (c: i32)
        requires
            self.inv(),
        ensures
            c == (if self@[grid_index(x as int, y as int)] > 0 {
                1int
            } else {
                0int
            }),
    {
        if self.get(x, y) > 0 {
            1
        } else {
            0
        }
    }

    /// The number of live neighbours of `(x, y)`.
    pub fn count_neighbors(&self, x: i32, y: i32) -> (c: i32)
        requires
            self.inv(),
            i32::MIN < x < i32::MAX,
            i32::MIN < y < i32::MAX,
        ensures
            c == count_nonzero(neighbors_of(self@, x as int, y as int)),
    {
        let ns = self.neighbors(x, y);
        nonzero_count(&ns)
    }

    /// The most common colour among the neighbours of `(x, y)`, the largest
    /// among those tied; 0 where none is alive.
    pub fn most_common_neighbor(&self, x: i32, y: i32) -> (c: u8)
        requires
            self.inv(),
            i32::MIN < x < i32::MAX,
            i32::MIN < y < i32::MAX,
        ensures
            c == most_common(neighbors_of(self@, x as int, y as int)),
    {
        let ns = self.neighbors(x, y);
        most_common_value(&ns)
    }
}

/// Writes into `next` the grid that follows `cur` by one step.
pub fn life_into(cur: &CellBuffer, next: &mut CellBuffer)
    requires
        cur.inv(),
        old(next).inv(),
    ensures
        final(next).inv(),
        final(next)@ == life_step(cur@),
{
    let mut k: usize = 0;
    while k < CELLS
        invariant
            cur.inv(),
            next.inv(),
            k <= CELLS,
            forall|j: int| 0 <= j < k ==> next@[j] == #[trigger] life_step(cur@)[j],
        decreases CELLS - k,
    {
        let x = (k % WIDTH) as i32;
        let y = (k / WIDTH) as i32;
        let n = cur.count_neighbors(x, y);
        let v = if cur.is_nonzero(x, y) && n != 2 && n != 3 {
            0
        } else if n == 3 {
            cur.most_common_neighbor(x, y)
        } else {
            cur.get(x, y)
        };
        proof {
            lemma_grid_index_of_cell(k as int);
        }
        assert(v == life_cell(cur@, k as int % (WIDTH as int), k as int / (WIDTH as int)));
        next.set_index(k, v);
        k = k + 1;
    }
    assert(next@ =~= life_step(cur@));
}

} // verus!
