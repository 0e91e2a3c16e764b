//! The text-mode rendering of the avatar: 64 by 64 layers of colours and
//! character pairs, outlines picked from the shape of the neighbourhood, and
//! the palette classes of the model's colours.
use vstd::prelude::*;
use crate::cells::{neighbor_dx, neighbor_dy};
use vstd::utf8::valid_utf8;
use crate::codec::{base64_standard_decode, decode_base64, str_from_utf8};
use crate::text::{chars_of, string_from_chars};

verus! {

/// Layer width in cells.
pub const WIDTH: usize = 64;

/// Layer height in cells.
pub const HEIGHT: usize = 64;

/// Number of cells in a layer.
pub const CELLS: usize = 4096;

/// A cell position.
#[derive(PartialEq, Eq, Structural, PartialOrd, Ord, Clone, Copy, Debug)]
pub struct Pos {
    pub x: i32,
    pub y: i32,
}

impl Pos {
    pub fn new(x: i32, y: i32) -> (p: Self)
        ensures
            p == (Pos { x, y }),
    {
        Pos { x, y }
    }

    /// The componentwise sum of two positions.
    pub fn add(self, rhs: Self) -> (p: Self)
        requires
            i32::MIN <= self.x + rhs.x <= i32::MAX,
            i32::MIN <= self.y + rhs.y <= i32::MAX,
        ensures
            p == (Pos { x: (self.x + rhs.x) as i32, y: (self.y + rhs.y) as i32 }),
    {
        Pos { x: self.x + rhs.x, y: self.y + rhs.y }
    }
}

/// The two characters that a cell shows; the second may be missing.
#[derive(PartialEq, Eq, Structural, Clone, Copy, Debug)]
pub struct CharPair {
    pub first: char,
    pub second: Option<char>,
}

impl Default for CharPair {
    fn default() -> (r: Self)
        ensures
            r == (CharPair { first: 'a', second: Some('b') }),
    {
        CharPair { first: 'a', second: Some('b') }
    }
}

/// A colour as the renderer reads it back: the bit patterns of its three
/// 32-bit float channels (negative zero read as zero), so that two colours
/// are equal exactly when their channels compare equal.
#[derive(PartialEq, Eq, Structural, Clone, Copy, Debug)]
pub struct Color {
    pub r: u32,
    pub g: u32,
    pub b: u32,
}

impl Color {
    /// Black, the background of the avatar's framebuffer.
    pub fn black() -> (c: Self)
        ensures
            c == (Color { r: 0, g: 0, b: 0 }),
    {
        Color { r: 0, g: 0, b: 0 }
    }
}

/// Whether `(x, y)` lies in a layer.
pub open spec fn in_layer(x: int, y: int) -> bool {
    0 <= x < WIDTH && 0 <= y < HEIGHT
}

pub open spec fn layer_index(x: int, y: int) -> int {
    x + y * WIDTH
}

/// The entry of `data` at `(x, y)`, or `None` outside the layer.
pub open spec fn layer_at<T>(data: Seq<T>, x: int, y: int) -> Option<T> {
    if in_layer(x, y) {
        Some(data[layer_index(x, y)])
    } else {
        None
    }
}

/// `data` after writing `v` at `(x, y)`: nothing changes outside the layer.
pub open spec fn layer_set<T>(data: Seq<T>, x: int, y: int, v: T) -> Seq<T> {
    if in_layer(x, y) {
        data.update(layer_index(x, y), v)
    } else {
        data
    }
}

/// A read gives back what a write put inside the layer, and a write
/// changes no other position.
pub proof fn law_layer_set_get<T>(data: Seq<T>, x: int, y: int, v: T, x2: int, y2: int)
    requires
        data.len() == CELLS,
    ensures
        in_layer(x, y) ==> layer_at(layer_set(data, x, y, v), x, y) == Some(v),
        (x2, y2) != (x, y) ==> layer_at(layer_set(data, x, y, v), x2, y2) == layer_at(data, x2, y2),
{
    if in_layer(x2, y2) && in_layer(x, y) && (x2, y2) != (x, y) {
        assert(layer_index(x2, y2) != layer_index(x, y)) by (nonlinear_arith)
            requires
                0 <= x < WIDTH,
                0 <= x2 < WIDTH,
                (x2, y2) != (x, y),
                layer_index(x, y) == x + y * WIDTH,
                layer_index(x2, y2) == x2 + y2 * WIDTH,
        ;
    }
}

/// A 64 by 64 grid of values, row by row.
pub struct Layer<T> {
    data: Vec<T>,
}

impl<T> View for Layer<T> {
    type V = Seq<T>;

    closed spec fn view(&self) -> Seq<T> {
        self.data@
    }
}

impl<T: Copy> Layer<T> {
    pub open spec fn inv(&self) -> bool {
        self@.len() == CELLS
    }

    /// A layer with every cell `v`.
    pub fn filled(v: T) -> (l: Self)
        ensures
            l.inv(),
            l@ == Seq::new(CELLS as nat, |k: int| v),
    {
        let mut data: Vec<T> = Vec::new();
        let mut k: usize = 0;
        while k < CELLS
            invariant
                k <= CELLS,
                data@ == Seq::new(k as nat, |i: int| v),
            decreases CELLS - k,
        {
            data.push(v);
            k = k + 1;
            assert(data@ =~= Seq::new(k as nat, |i: int| v));
        }
        Layer { data }
    }

    /// The cell at `p`, or `None` outside the layer.
    pub fn get(&self, p: Pos) -> (r: Option<&T>)
        requires
            self.inv(),
        ensures
            match r {
                Some(v) => layer_at(self@, p.x as int, p.y as int) == Some(*v),
                None => layer_at(self@, p.x as int, p.y as int) is None,
            },
    {
        if p.x < 0 || p.x >= WIDTH as i32 || p.y < 0 || p.y >= HEIGHT as i32 {
            return None;
        }
        let idx = p.x as usize + p.y as usize * WIDTH;
        Some(&self.data[idx])
    }

    /// Sets the cell at `p`; nothing happens outside the layer.
    pub fn set(&mut self, p: Pos, x: T)
        requires
            old(self).inv(),
        ensures
            final(self).inv(),
            final(self)@ == layer_set(old(self)@, p.x as int, p.y as int, x),
    {
        if p.x < 0 || p.x >= WIDTH as i32 || p.y < 0 || p.y >= HEIGHT as i32 {
            return;
        }
        let idx = p.x as usize + p.y as usize * WIDTH;
        self.data.set(idx, x);
    }

    /// Replaces every cell, row by row, with `data`.
    pub fn fill_from(&mut self, data: Vec<T>)
        requires
            data@.len() == CELLS,
        ensures
            final(self).inv(),
            final(self)@ == data@,
    {
        self.data = data;
    }
}

/// The pair of characters that `from_str` puts in cell `k`: the text's
/// characters taken two at a time, starting over at its end.
pub open spec fn text_pair(chars: Seq<char>, k: int) -> CharPair {
    CharPair { first: chars[(2 * k) % (chars.len() as int)], second: Some(chars[(2 * k + 1) % (chars.len() as int)]) }
}

impl Layer<CharPair> {
    /// A layer of default character pairs.
    pub fn new() -> (l: Self)
        ensures
            l.inv(),
            l@ == Seq::new(CELLS as nat, |k: int| CharPair { first: 'a', second: Some('b') }),
    {
        Self::filled(CharPair::default())
    }

    /// Fills every cell, row by row, with the characters of `s` two at a
    /// time, repeating `s` as often as needed; an empty `s` changes nothing.
    pub fn from_str(&mut self, s: &str)
        requires
            old(self).inv(),
        ensures
            final(self).inv(),
            s@.len() == 0 ==> final(self)@ == old(self)@,
            s@.len() > 0 ==> final(self)@ == Seq::new(CELLS as nat, |k: int| text_pair(s@, k)),
    {
        let chars = chars_of(s);
        let n = chars.len();
        if n == 0 {
            return;
        }
        let mut i: usize = 0;
        let mut k: usize = 0;
        proof {
            vstd::arithmetic::div_mod::lemma_small_mod(0, n as nat);
        }
        while k < CELLS
            invariant
                self.inv(),
                n == chars@.len() == s@.len(),
                chars@ == s@,
                n > 0,
                k <= CELLS,
                i == (2 * k) % (n as int),
                forall|j: int| 0 <= j < k ==> self@[j] == #[trigger] text_pair(s@, j),
            decreases CELLS - k,
        {
            let col = (k % WIDTH) as i32;
            let row = (k / WIDTH) as i32;
            let first = chars[i];
            proof {
                vstd::arithmetic::div_mod::lemma_add_mod_noop_right(1, 2 * k as int, n as int);
            }
            i = i + 1;
            i = i % n;
            let second = Some(chars[i]);
            proof {
                vstd::arithmetic::div_mod::lemma_add_mod_noop_right(1, 2 * k as int + 1, n as int);
            }
            i = i + 1;
            i = i % n;
            assert(k == col + row * WIDTH);
            assert(first == s@[(2 * k) % (n as int)]);
            assert(second == Some(s@[(2 * k + 1) % (n as int)]));
            assert(in_layer(col as int, row as int));
            self.set(Pos::new(col, row), CharPair { first, second });
            assert(self@[k as int] == text_pair(s@, k as int));
            k = k + 1;
        }
        assert(self@ =~= Seq::new(CELLS as nat, |k: int| text_pair(s@, k)));
    }
}

/// The neighbourhood mask of `pos` over its first `n` neighbours (in the
/// order of `neighbors`): one bit per neighbour, the first neighbour in the
/// highest of the `n` bits, set where the neighbour is outside the layer
/// or differs from `bg`.
pub open spec fn surround_bits(data: Seq<Color>, x: int, y: int, bg: Color, n: nat) -> nat
    decreases n,
{
    if n == 0 {
        0
    } else {
        surround_bits(data, x, y, bg, (n - 1) as nat) * 2 + if layer_at(
            data,
            x + neighbor_dx(n - 1),
            y + neighbor_dy(n - 1),
        ) != Some(bg) {
            1nat
        } else {
            0nat
        }
    }
}

proof fn lemma_surround_bound(data: Seq<Color>, x: int, y: int, bg: Color, n: nat)
    requires
        n <= 7,
    ensures
        surround_bits(data, x, y, bg, n) < 128,
        n <= 6 ==> surround_bits(data, x, y, bg, n) < 64,
        n <= 5 ==> surround_bits(data, x, y, bg, n) < 32,
        n <= 4 ==> surround_bits(data, x, y, bg, n) < 16,
        n <= 3 ==> surround_bits(data, x, y, bg, n) < 8,
        n <= 2 ==> surround_bits(data, x, y, bg, n) < 4,
        n <= 1 ==> surround_bits(data, x, y, bg, n) < 2,
        n == 0 ==> surround_bits(data, x, y, bg, n) < 1,
    decreases n,
{
    if n > 0 {
        lemma_surround_bound(data, x, y, bg, (n - 1) as nat);
    }
}

/// The offset of neighbour `k`, in the order of `neighbors`.
fn neighbor_offset(k: usize) -> (o: (i32, i32))
    requires
        k < 8,
    ensures
        o.0 == neighbor_dx(k as int),
        o.1 == neighbor_dy(k as int),
{
    let dx: i32 = if k == 0 || k == 3 || k == 5 {
        -1
    } else if k == 1 || k == 6 {
        0
    } else {
        1
    };
    let dy: i32 = if k < 3 {
        -1
    } else if k < 5 {
        0
    } else {
        1
    };
    (dx, dy)
}

impl Layer<Color> {
    /// A black layer.
    pub fn new() -> (l: Self)
        ensures
            l.inv(),
            l@ == Seq::new(CELLS as nat, |k: int| Color { r: 0, g: 0, b: 0 }),
    {
        Self::filled(Color::black())
    }

    /// The shape of the neighbourhood of `pos`: eight bits, one per
    /// neighbour from the top left to the bottom right, set where the
    /// neighbour is outside the layer or not `bgcolor`.
    pub fn get_surrounding(&self, pos: Pos, bgcolor: &Color) -> (r: u8)
        requires
            self.inv(),
            i32::MIN < pos.x < i32::MAX,
            i32::MIN < pos.y < i32::MAX,
        ensures
            r == surround_bits(self@, pos.x as int, pos.y as int, *bgcolor, 8),
    {
        let mut ret: u8 = 0;
        let mut k: usize = 0;
        while k < 8
            invariant
                self.inv(),
                i32::MIN < pos.x < i32::MAX,
                i32::MIN < pos.y < i32::MAX,
                k <= 8,
                ret == surround_bits(self@, pos.x as int, pos.y as int, *bgcolor, k as nat),
            decreases 8 - k,
        {
            proof {
                lemma_surround_bound(self@, pos.x as int, pos.y as int, *bgcolor, k as nat);
            }
            let (ox, oy) = neighbor_offset(k);
            let p = pos.add(Pos::new(ox, oy));
            let v: u8 = match self.get(p) {
                Some(c) => if *c != *bgcolor {
                    1
                } else {
                    0
                },
                None => 1,
            };
            ret = ret * 2 + v;
            k = k + 1;
        }
        ret
    }
}

/// The outline characters for neighbourhood mask `sur`, where its shape is
/// an edge.
pub open spec fn outline_for(sur: u8) -> Option<Seq<char>> {
    if sur == 0b01101011 || sur == 0b01101111 {
        Some(seq![' ', '|'])
    } else if sur == 0b11010110 || sur == 0b11010111 {
        Some(seq!['|', ' '])
    } else if sur == 0b00101011 || sur == 0b00101111 || sur == 0b00101110 || sur == 0b00101100
        || sur == 0b00001011 {
        Some(seq![' ', '/'])
    } else if sur == 0b10010110 || sur == 0b10010111 || sur == 0b10010011 || sur == 0b10010001
        || sur == 0b00010110 {
        Some(seq!['\\', ' '])
    } else if sur == 0b00111111 {
        Some(seq!['-', '/'])
    } else if sur == 0b10011111 {
        Some(seq!['\\', '-'])
    } else if sur == 0b00011111 {
        Some(seq!['-', '-'])
    } else if sur == 0b00000111 {
        Some(seq!['_', '_'])
    } else if sur == 0b00001111 {
        Some(seq![' ', '_'])
    } else if sur == 0b00010111 {
        Some(seq!['_', ' '])
    } else {
        None
    }
}

/// Whether neighbour `i` of `(x, y)` (in the order of `neighbors`) is the
/// background colour `bg` of the layer; a neighbour outside is not.
pub open spec fn neighbour_is(data: Seq<Color>, x: int, y: int, bg: Color, i: int) -> bool {
    layer_at(data, x + neighbor_dx(i), y + neighbor_dy(i)) == Some(bg)
}

/// The neighbourhood mask is the eight neighbours in order, most
/// significant first, each 1 where it is not background.
proof fn lemma_surround_digits(data: Seq<Color>, x: int, y: int, bg: Color)
    ensures
        surround_bits(data, x, y, bg, 8) == (if neighbour_is(data, x, y, bg, 0) { 0int } else { 128 }) + (if neighbour_is(
            data,
            x,
            y,
            bg,
            1,
        ) { 0int } else { 64 }) + (if neighbour_is(data, x, y, bg, 2) { 0int } else { 32 }) + (if neighbour_is(
            data,
            x,
            y,
            bg,
            3,
        ) { 0int } else { 16 }) + (if neighbour_is(data, x, y, bg, 4) { 0int } else { 8 }) + (if neighbour_is(
            data,
            x,
            y,
            bg,
            5,
        ) { 0int } else { 4 }) + (if neighbour_is(data, x, y, bg, 6) { 0int } else { 2 }) + (if neighbour_is(
            data,
            x,
            y,
            bg,
            7,
        ) { 0int } else { 1 }),
{
    reveal_with_fuel(surround_bits, 9);
}

/// A vertical outline bar stands on the side of the cell away from the
/// background: where the outline is " |", the cells to the left and to the
/// upper left are background and the cell to the right is not; where it is
/// "| ", the same holds mirrored.
pub proof fn law_bar_away_from_background(data: Seq<Color>, x: int, y: int)
    ensures
        outline_for(surround_bits(data, x, y, Color { r: 0, g: 0, b: 0 }, 8) as u8) == Some(seq![' ', '|'])
            ==> layer_at(data, x - 1, y - 1) == Some(Color { r: 0, g: 0, b: 0 }) && layer_at(data, x - 1, y)
            == Some(Color { r: 0, g: 0, b: 0 }) && layer_at(data, x + 1, y) != Some(Color { r: 0, g: 0, b: 0 }),
        outline_for(surround_bits(data, x, y, Color { r: 0, g: 0, b: 0 }, 8) as u8) == Some(seq!['|', ' '])
            ==> layer_at(data, x + 1, y - 1) == Some(Color { r: 0, g: 0, b: 0 }) && layer_at(data, x + 1, y)
            == Some(Color { r: 0, g: 0, b: 0 }) && layer_at(data, x - 1, y) != Some(Color { r: 0, g: 0, b: 0 }),
{
    let bg = Color { r: 0, g: 0, b: 0 };
    lemma_surround_digits(data, x, y, bg);
    lemma_surround_bound(data, x, y, bg, 7);
    reveal_with_fuel(surround_bits, 2);
    let v = surround_bits(data, x, y, bg, 8);
    assert(0 <= v < 256);
    let sur = v as u8;
    assert(sur as int == v);
    let o = outline_for(sur);
    let left = seq![' ', '|'];
    let right = seq!['|', ' '];
    assert(left != right) by {
        assert(left[0] != right[0]);
    }
    assert(seq![' ', '/'] != left && seq!['\\', ' '] != left && seq!['-', '/'] != left && seq!['\\', '-'] != left
        && seq!['-', '-'] != left && seq!['_', '_'] != left && seq![' ', '_'] != left && seq!['_', ' '] != left)
        by {
        assert(seq![' ', '/'][1] != left[1]);
        assert(seq!['\\', ' '][0] != left[0]);
        assert(seq!['-', '/'][0] != left[0]);
        assert(seq!['\\', '-'][0] != left[0]);
        assert(seq!['-', '-'][0] != left[0]);
        assert(seq!['_', '_'][0] != left[0]);
        assert(seq![' ', '_'][1] != left[1]);
        assert(seq!['_', ' '][0] != left[0]);
    }
    assert(seq![' ', '/'] != right && seq!['\\', ' '] != right && seq!['-', '/'] != right && seq!['\\', '-'] != right
        && seq!['-', '-'] != right && seq!['_', '_'] != right && seq![' ', '_'] != right && seq!['_', ' '] != right)
        by {
        assert(seq![' ', '/'][0] != right[0]);
        assert(seq!['\\', ' '][0] != right[0]);
        assert(seq!['-', '/'][0] != right[0]);
        assert(seq!['\\', '-'][0] != right[0]);
        assert(seq!['-', '-'][0] != right[0]);
        assert(seq!['_', '_'][0] != right[0]);
        assert(seq![' ', '_'][0] != right[0]);
        assert(seq!['_', ' '][0] != right[0]);
    }
    let f0: int = if neighbour_is(data, x, y, bg, 0) { 0 } else { 1 };
    let f1: int = if neighbour_is(data, x, y, bg, 1) { 0 } else { 1 };
    let f2: int = if neighbour_is(data, x, y, bg, 2) { 0 } else { 1 };
    let f3: int = if neighbour_is(data, x, y, bg, 3) { 0 } else { 1 };
    let f4: int = if neighbour_is(data, x, y, bg, 4) { 0 } else { 1 };
    let f5: int = if neighbour_is(data, x, y, bg, 5) { 0 } else { 1 };
    let f6: int = if neighbour_is(data, x, y, bg, 6) { 0 } else { 1 };
    let f7: int = if neighbour_is(data, x, y, bg, 7) { 0 } else { 1 };
    assert(v == 128 * f0 + 64 * f1 + 32 * f2 + 16 * f3 + 8 * f4 + 4 * f5 + 2 * f6 + f7);
    if o == Some(left) {
        assert(sur == 0b01101011 || sur == 0b01101111);
        assert(f0 == 0);
        assert(f1 == 1);
        assert(f2 == 1);
        assert(f3 == 0);
        assert(f4 == 1);
    }
    if o == Some(right) {
        assert(sur == 0b11010110 || sur == 0b11010111);
        assert(f0 == 1);
        assert(f1 == 1);
        assert(f2 == 0);
        assert(f3 == 1);
        assert(f4 == 0);
    }
    assert(neighbor_dx(0) == -1 && neighbor_dy(0) == -1 && neighbor_dx(2) == 1 && neighbor_dy(2) == -1);
    assert(neighbor_dx(3) == -1 && neighbor_dy(3) == 0 && neighbor_dx(4) == 1 && neighbor_dy(4) == 0);
}

fn pair_string(a: char, b: char) -> (s: String)
    ensures
        s@ == seq![a, b],
{
    let v = [a, b];
    let s = string_from_chars(&v);
    assert(v@ =~= seq![a, b]);
    s
}

/// The palette class of a model colour.
#[derive(PartialEq, Eq, Structural, Clone, Copy, Debug, Hash)]
pub enum PaletteType {
    Hair,
    Eyes,
    Skin,
    Highlight,
    Eyebags,
}

/// A colour's channels scaled to bytes.
#[derive(PartialEq, Eq, Structural, Clone, Copy, Debug)]
pub struct Rgb8 {
    pub r: u8,
    pub g: u8,
    pub b: u8,
}

fn chars_eq(a: &[char], b: &[char]) -> (r: bool)
    ensures
        r == (a@ == b@),
{
    if a.len() != b.len() {
        return false;
    }
    let n = a.len();
    let mut i: usize = 0;
    while i < n
        invariant
            n == a@.len() == b@.len(),
            i <= n,
            forall|j: int| 0 <= j < i ==> a@[j] == b@[j],
        decreases n - i,
    {
        if a[i] != b[i] {
            return false;
        }
        i = i + 1;
    }
    assert(a@ =~= b@);
    true
}

impl PaletteType {
    /// The class named `s`: `hair`, `eyes`, `skin`, `highlight` or
    /// `eyebags`.
    pub fn from_string(s: &str) -> (r: Option<Self>)
        ensures
            r == (if s@ == seq!['h', 'a', 'i', 'r'] {
                Some(PaletteType::Hair)
            } else if s@ == seq!['e', 'y', 'e', 's'] {
                Some(PaletteType::Eyes)
            } else if s@ == seq!['s', 'k', 'i', 'n'] {
                Some(PaletteType::Skin)
            } else if s@ == seq!['h', 'i', 'g', 'h', 'l', 'i', 'g', 'h', 't'] {
                Some(PaletteType::Highlight)
            } else if s@ == seq!['e', 'y', 'e', 'b', 'a', 'g', 's'] {
                Some(PaletteType::Eyebags)
            } else {
                None
            }),
    {
        let c = chars_of(s);
        let hair = ['h', 'a', 'i', 'r'];
        let eyes = ['e', 'y', 'e', 's'];
        let skin = ['s', 'k', 'i', 'n'];
        let highlight = ['h', 'i', 'g', 'h', 'l', 'i', 'g', 'h', 't'];
        let eyebags = ['e', 'y', 'e', 'b', 'a', 'g', 's'];
        assert(hair@ =~= seq!['h', 'a', 'i', 'r']);
        assert(eyes@ =~= seq!['e', 'y', 'e', 's']);
        assert(skin@ =~= seq!['s', 'k', 'i', 'n']);
        assert(highlight@ =~= seq!['h', 'i', 'g', 'h', 'l', 'i', 'g', 'h', 't']);
        assert(eyebags@ =~= seq!['e', 'y', 'e', 'b', 'a', 'g', 's']);
        if chars_eq(c.as_slice(), &hair) {
            Some(PaletteType::Hair)
        } else if chars_eq(c.as_slice(), &eyes) {
            Some(PaletteType::Eyes)
        } else if chars_eq(c.as_slice(), &skin) {
            Some(PaletteType::Skin)
        } else if chars_eq(c.as_slice(), &highlight) {
            Some(PaletteType::Highlight)
        } else if chars_eq(c.as_slice(), &eyebags) {
            Some(PaletteType::Eyebags)
        } else {
            None
        }
    }

    /// The class of a colour with byte channels `c`, by the ranges of the
    /// model's hair, highlight, eye (green-dominant), skin and eyebag
    /// colours, tested in that order.
    pub fn from_color(c: &Rgb8) -> (r: Option<Self>)
        ensures
            r == (if 186 <= c.r <= 188 && 176 <= c.g <= 178 && 189 <= c.b <= 191 {
                Some(PaletteType::Hair)
            } else if 158 <= c.r <= 162 && 148 <= c.g <= 152 && 159 <= c.b <= 162 {
                Some(PaletteType::Highlight)
            } else if c.g > c.r && c.g > c.b {
                Some(PaletteType::Eyes)
            } else if 242 <= c.r <= 246 && 238 <= c.g <= 242 && 234 <= c.b <= 238 {
                Some(PaletteType::Skin)
            } else if c.r == 182 && c.g == 142 && c.b == 139 {
                Some(PaletteType::Eyebags)
            } else {
                None
            }),
    {
        let r = c.r;
        let g = c.g;
        let b = c.b;
        if r >= 186 && r <= 188 && g >= 176 && g <= 178 && b >= 189 && b <= 191 {
            Some(PaletteType::Hair)
        } else if r >= 158 && r <= 162 && g >= 148 && g <= 152 && b >= 159 && b <= 162 {
            Some(PaletteType::Highlight)
        } else if g > r && g > b {
            Some(PaletteType::Eyes)
        } else if r >= 242 && r <= 246 && g >= 238 && g <= 242 && b >= 234 && b <= 238 {
            Some(PaletteType::Skin)
        } else if r == 182 && g == 142 && b == 139 {
            Some(PaletteType::Eyebags)
        } else {
            None
        }
    }
}

/// The colour and character layers of one palette class.
pub struct PaletteEntry {
    pub color: Layer<Color>,
    pub char: Layer<CharPair>,
}

/// The text-mode renderer's state: the colours read back from the model's
/// framebuffer, and the palette layers.
pub struct Terminal {
    pub base_color: Layer<Color>,
    pub palette: Vec<(PaletteType, PaletteEntry)>,
}

/// The text of one cell: blank without characters or on the black
/// background, else the outline for its neighbourhood where it is an edge,
/// else its two characters (a space for a missing second).
pub open spec fn cell_text_spec(sur: u8, color: Color, chars: Option<CharPair>) -> Seq<char> {
    match chars {
        None => seq![' ', ' '],
        Some(p) => if color == (Color { r: 0, g: 0, b: 0 }) {
            seq![' ', ' ']
        } else {
            match outline_for(sur) {
                Some(o) => o,
                None => seq![
                    p.first,
                    match p.second {
                        Some(c) => c,
                        None => ' ',
                    },
                ],
            }
        },
    }
}

/// Every cell shows exactly two characters, so each row of the avatar has
/// the same width whatever its cells hold.
pub proof fn law_cell_text_two_chars(sur: u8, color: Color, chars: Option<CharPair>)
    ensures
        cell_text_spec(sur, color, chars).len() == 2,
{
}

impl Terminal {
    pub open spec fn inv(&self) -> bool {
        self.base_color.inv()
    }

    /// A terminal with a black base layer and an empty palette.
    pub fn new() -> (t: Self)
        ensures
            t.inv(),
            t.base_color@ == Seq::new(CELLS as nat, |k: int| Color { r: 0, g: 0, b: 0 }),
            t.palette@.len() == 0,
    {
        Terminal { base_color: Layer::<Color>::new(), palette: Vec::new() }
    }

    /// Takes the colours read back from the model's framebuffer, row by row.
    pub fn update(&mut self, pixels: Vec<Color>)
        requires
            pixels@.len() == CELLS,
        ensures
            final(self).inv(),
            final(self).base_color@ == pixels@,
            final(self).palette == old(self).palette,
    {
        self.base_color.fill_from(pixels);
    }

    /// Puts text on the avatar; this renderer shows none, so nothing
    /// changes.
    pub fn fill_string(&mut self, s: &str)
        ensures
            *final(self) == *old(self),
    {
    }

    /// Handles a text message for the avatar: the Base64 field must decode
    /// to UTF-8 text (`None` otherwise), which `fill_string` then takes.
    pub fn handle_text(&mut self, text_b64: &str) -> (r: Option<()>)
        ensures
            r is Some <==> (base64_standard_decode(text_b64@) matches Some(b) && valid_utf8(b)),
            *final(self) == *old(self),
    {
        let bs = decode_base64(text_b64)?;
        let s = str_from_utf8(bs.as_slice())?;
        self.fill_string(s);
        Some(())
    }

    /// The outline characters at `pos`, where the model's silhouette around
    /// it (against black) has the shape of an edge.
    pub fn outline_pattern(&self, pos: Pos) -> (r: Option<String>)
        requires
            self.inv(),
            i32::MIN < pos.x < i32::MAX,
            i32::MIN < pos.y < i32::MAX,
        ensures
            match r {
                Some(s) => outline_for(
                    surround_bits(self.base_color@, pos.x as int, pos.y as int, Color { r: 0, g: 0, b: 0 }, 8)
                        as u8,
                ) == Some(s@),
                None => outline_for(
                    surround_bits(self.base_color@, pos.x as int, pos.y as int, Color { r: 0, g: 0, b: 0 }, 8)
                        as u8,
                ) is None,
            },
    {
        let sur = self.base_color.get_surrounding(pos, &Color::black());
        if sur == 0b01101011 || sur == 0b01101111 {
            Some(pair_string(' ', '|'))
        } else if sur == 0b11010110 || sur == 0b11010111 {
            Some(pair_string('|', ' '))
        } else if sur == 0b00101011 || sur == 0b00101111 || sur == 0b00101110 || sur == 0b00101100
            || sur == 0b00001011 {
            Some(pair_string(' ', '/'))
        } else if sur == 0b10010110 || sur == 0b10010111 || sur == 0b10010011 || sur == 0b10010001
            || sur == 0b00010110 {
            Some(pair_string('\\', ' '))
        } else if sur == 0b00111111 {
            Some(pair_string('-', '/'))
        } else if sur == 0b10011111 {
            Some(pair_string('\\', '-'))
        } else if sur == 0b00011111 {
            Some(pair_string('-', '-'))
        } else if sur == 0b00000111 {
            Some(pair_string('_', '_'))
        } else if sur == 0b00001111 {
            Some(pair_string(' ', '_'))
        } else if sur == 0b00010111 {
            Some(pair_string('_', ' '))
        } else {
            None
        }
    }

    /// The two characters that cell `pos` shows, given its colour and its
    /// character pair (if it has one).
    pub fn cell_text(&self, pos: Pos, color: Color, chars: Option<CharPair>) -> (s: String)
        requires
            self.inv(),
            i32::MIN < pos.x < i32::MAX,
            i32::MIN < pos.y < i32::MAX,
        ensures
            s@ == cell_text_spec(
                surround_bits(self.base_color@, pos.x as int, pos.y as int, Color { r: 0, g: 0, b: 0 }, 8)
                    as u8,
                color,
                chars,
            ),
    {
        match chars {
            None => pair_string(' ', ' '),
            Some(p) => {
                if color == Color::black() {
                    pair_string(' ', ' ')
                } else if let Some(pat) = self.outline_pattern(pos) {
                    pat
                } else {
                    pair_string(
                        p.first,
                        match p.second {
                            Some(snd) => snd,
                            None => ' ',
                        },
                    )
                }
            },
        }
    }
}


/// The decimal digits of `n`, without leading zeros.
pub open spec fn decimal(n: nat) -> Seq<char>
    decreases n,
{
    if n < 10 {
        seq![(n + 48) as char]
    } else {
        decimal(n / 10) + seq![((n % 10) + 48) as char]
    }
}

/// The escape sequence that sets a 24-bit foreground colour:
/// `ESC [ 38;2;r;g;b m`.
pub open spec fn fg_rgb_escape(c: Rgb8) -> Seq<char> {
    seq!['\x1b', '[', '3', '8', ';', '2', ';'] + decimal(c.r as nat) + seq![';'] + decimal(c.g as nat)
        + seq![';'] + decimal(c.b as nat) + seq!['m']
}

/// `termion::color::Fg(termion::color::Rgb(r, g, b))`, written out.
///
/// Trusted: termion writes the 24-bit foreground escape with the three
/// numbers in decimal, or nothing where its `NO_COLOR` check (on the
/// environment) disables colour; which of the two comes back is not
/// stated.
#[verifier::external_body]
fn fg_escape(c: Rgb8) -> (s: String)
    ensures
        s@ == fg_rgb_escape(c) || s@.len() == 0,
{
    format!("{}", termion::color::Fg(termion::color::Rgb(c.r, c.g, c.b)))
}

/// The foreground escape for each colour in turn (each empty where the
/// environment turns colour off).
pub fn tty_escapes(rgb: &Vec<Rgb8>) -> (v: Vec<String>)
    ensures
        v@.len() == rgb@.len(),
        forall|k: int| 0 <= k < rgb@.len() ==> (#[trigger] v@[k])@ == fg_rgb_escape(rgb@[k]) || v@[k]@.len() == 0,
{
    let mut v: Vec<String> = Vec::new();
    let mut k: usize = 0;
    while k < rgb.len()
        invariant
            k <= rgb@.len(),
            v@.len() == k,
            forall|j: int| 0 <= j < k ==> (#[trigger] v@[j])@ == fg_rgb_escape(rgb@[j]) || v@[j]@.len() == 0,
        decreases rgb@.len() - k,
    {
        v.push(fg_escape(rgb[k]));
        k = k + 1;
    }
    v
}

/// What a tty frame starts with: clear the screen, cursor to the top left.
pub open spec fn tty_clear() -> Seq<char> {
    seq!['\x1b', '[', '2', 'J', '\x1b', '[', '1', ';', '1', 'H']
}

/// The text of cell `k` of the avatar: its colour from `base`, its
/// characters from `chars`.
pub open spec fn tty_cell(base: Seq<Color>, chars: Seq<CharPair>, k: int) -> Seq<char> {
    cell_text_spec(
        surround_bits(base, k % (WIDTH as int), k / (WIDTH as int), Color { r: 0, g: 0, b: 0 }, 8) as u8,
        base[k],
        Some(chars[k]),
    )
}

/// The first `k` cells of a tty frame, each preceded by its colour escape,
/// with a line break after each row.
pub open spec fn tty_cells(esc: Seq<Seq<char>>, base: Seq<Color>, chars: Seq<CharPair>, k: nat) -> Seq<char>
    decreases k,
{
    if k == 0 {
        Seq::empty()
    } else {
        let j = k - 1;
        tty_cells(esc, base, chars, j as nat) + esc[j] + tty_cell(base, chars, j) + if (j + 1) % (WIDTH as int)
            == 0 {
            seq!['\r', '\n']
        } else {
            Seq::<char>::empty()
        }
    }
}

/// The first `k` cells of the avatar as text, row by row, with a line
/// break after each row.
pub open spec fn screen_cells(base: Seq<Color>, chars: Seq<CharPair>, k: nat) -> Seq<char>
    decreases k,
{
    if k == 0 {
        Seq::empty()
    } else {
        let j = k - 1;
        screen_cells(base, chars, j as nat) + tty_cell(base, chars, j) + if (j + 1) % (WIDTH as int) == 0 {
            seq!['\n']
        } else {
            Seq::<char>::empty()
        }
    }
}

impl Terminal {
    /// The frame that shows the avatar on a tty: the clear-screen prefix,
    /// then every cell, row by row, as its colour escape and its two
    /// characters, each row ending in a line break.
    pub fn tty_frame(&self, escapes: &Vec<String>, chars: &Layer<CharPair>) -> (s: String)
        requires
            self.inv(),
            chars.inv(),
            escapes@.len() == CELLS,
        ensures
            s@ == tty_clear() + tty_cells(escapes@.map_values(|e: String| e@), self.base_color@, chars@, CELLS as nat),
    {
        let ghost esc = escapes@.map_values(|e: String| e@);
        let mut s = String::new();
        s.append("\x1b[2J\x1b[1;1H");
        proof {
            reveal_strlit("\x1b[2J\x1b[1;1H");
            assert(s@ =~= tty_clear() + tty_cells(esc, self.base_color@, chars@, 0));
        }
        let mut k: usize = 0;
        while k < CELLS
            invariant
                self.inv(),
                chars.inv(),
                escapes@.len() == CELLS,
                esc == escapes@.map_values(|e: String| e@),
                k <= CELLS,
                s@ == tty_clear() + tty_cells(esc, self.base_color@, chars@, k as nat),
            decreases CELLS - k,
        {
            let x = (k % WIDTH) as i32;
            let y = (k / WIDTH) as i32;
            let color = self.base_color.data[k];
            let pair = chars.data[k];
            let text = self.cell_text(Pos::new(x, y), color, Some(pair));
            s.append(escapes[k].as_str());
            s.append(text.as_str());
            if (k + 1) % WIDTH == 0 {
                s.append("\r\n");
                proof {
                    reveal_strlit("\r\n");
                }
            }
            proof {
                assert(esc[k as int] == escapes@[k as int]@);
                assert(text@ == tty_cell(self.base_color@, chars@, k as int));
                assert(s@ =~= tty_clear() + tty_cells(esc, self.base_color@, chars@, (k + 1) as nat));
            }
            k = k + 1;
        }
        s
    }

    /// The avatar as text for the bitmap font: every cell's two characters,
    /// row by row, each row ending in a line break.
    pub fn screen_text(&self, chars: &Layer<CharPair>) -> (s: String)
        requires
            self.inv(),
            chars.inv(),
        ensures
            s@ == screen_cells(self.base_color@, chars@, CELLS as nat),
    {
        let mut s = String::new();
        let mut k: usize = 0;
        while k < CELLS
            invariant
                self.inv(),
                chars.inv(),
                k <= CELLS,
                s@ == screen_cells(self.base_color@, chars@, k as nat),
            decreases CELLS - k,
        {
            let x = (k % WIDTH) as i32;
            let y = (k / WIDTH) as i32;
            let color = self.base_color.data[k];
            let pair = chars.data[k];
            let text = self.cell_text(Pos::new(x, y), color, Some(pair));
            s.append(text.as_str());
            if (k + 1) % WIDTH == 0 {
                s.append("\n");
                proof {
                    reveal_strlit("\n");
                }
            }
            proof {
                assert(text@ == tty_cell(self.base_color@, chars@, k as int));
                assert(s@ =~= screen_cells(self.base_color@, chars@, (k + 1) as nat));
            }
            k = k + 1;
        }
        s
    }
}

} // verus!
