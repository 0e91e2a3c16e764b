//! The drawing overlay: a one-byte-per-pixel canvas at a quarter of the
//! screen's resolution, on which the mouse draws lines of plus-shaped
//! points while a key is held.
use vstd::prelude::*;
use crate::input::Command;

verus! {

/// Screen pixels per canvas pixel, in each direction.
pub const SCALE: usize = 4;

/// Canvas width (1920 / 4).
pub const WIDTH: usize = 480;

/// Canvas height (1080 / 4).
pub const HEIGHT: usize = 270;

/// Number of canvas pixels.
pub const PIXELS: usize = 129600;

/// Whether `(x, y)` lies on the canvas.
pub open spec fn on_canvas(x: int, y: int) -> bool {
    0 <= x < WIDTH && 0 <= y < HEIGHT
}

/// Whether the plus-shaped point centred on `(cx, cy)` covers `(x, y)`.
pub open spec fn plus_covers(cx: int, cy: int, x: int, y: int) -> bool {
    ||| x == cx && (y == cy - 1 || y == cy || y == cy + 1)
    ||| y == cy && (x == cx - 1 || x == cx + 1)
}

pub open spec fn abs(v: int) -> int {
    if v < 0 {
        -v
    } else {
        v
    }
}

/// One step from `a` towards `b`.
pub open spec fn toward(a: int, b: int) -> int {
    if a < b {
        1
    } else {
        -1
    }
}

/// The points that Bresenham's algorithm visits from `(x, y)` to
/// `(x1, y1)`, with `dx = |x1 - x0|`, `dy = -|y1 - y0|` for the line's
/// start `(x0, y0)`, and the running error `err`.
pub open spec fn bres_path(x: int, y: int, x1: int, y1: int, dx: int, dy: int, err: int) -> Seq<
    (int, int),
>
    decreases abs(x1 - x) + abs(y1 - y),
{
    let here = seq![(x, y)];
    let e2 = 2 * err;
    if dy > 0 || dx < 0 {
        here
    } else if e2 >= dy {
        if x == x1 {
            here
        } else if e2 <= dx {
            if y == y1 {
                here
            } else {
                here + bres_path(x + toward(x, x1), y + toward(y, y1), x1, y1, dx, dy, err + dy + dx)
            }
        } else {
            here + bres_path(x + toward(x, x1), y, x1, y1, dx, dy, err + dy)
        }
    } else if e2 <= dx {
        if y == y1 {
            here
        } else {
            here + bres_path(x, y + toward(y, y1), x1, y1, dx, dy, err + dx)
        }
    } else {
        here
    }
}

/// The points of the line from `(x0, y0)` to `(x1, y1)`.
pub open spec fn line_path(x0: int, y0: int, x1: int, y1: int) -> Seq<(int, int)> {
    let dx = abs(x1 - x0);
    let dy = -abs(y1 - y0);
    bres_path(x0, y0, x1, y1, dx, dy, dx + dy)
}

/// Whether some point of `path` covers `(x, y)`.
pub open spec fn path_covers(path: Seq<(int, int)>, x: int, y: int) -> bool {
    exists|i: int| 0 <= i < path.len() && plus_covers(path[i].0, path[i].1, x, y)
}

/// The canvas `px` after painting `val` wherever `path` covers.
pub open spec fn painted(px: Seq<u8>, path: Seq<(int, int)>, val: u8) -> Seq<u8> {
    Seq::new(
        px.len(),
        |k: int|
            if path_covers(path, k % (WIDTH as int), k / (WIDTH as int)) {
                val
            } else {
                px[k]
            },
    )
}

/// The state that Bresenham's walk keeps, relative to the target: `p` and
/// `q` steps are left in x and y, and the error is determined by them.
pub open spec fn walk_inv(x: int, y: int, x1: int, y1: int, dx: int, dy: int, err: int) -> bool {
    let p = abs(x1 - x);
    let q = abs(y1 - y);
    &&& dx >= 0
    &&& dy <= 0
    &&& p <= dx
    &&& q <= -dy
    &&& err == dx + dy - dy * p - dx * q
}

proof fn lemma_walk_step_x(x: int, y: int, x1: int, y1: int, dx: int, dy: int, err: int)
    requires
        walk_inv(x, y, x1, y1, dx, dy, err),
        x != x1,
    ensures
        walk_inv(x + toward(x, x1), y, x1, y1, dx, dy, err + dy),
{
    let p = abs(x1 - x);
    let q = abs(y1 - y);
    assert(abs(x1 - (x + toward(x, x1))) == p - 1);
    assert(dx + dy - dy * (p - 1) - dx * q == err + dy) by (nonlinear_arith)
        requires
            err == dx + dy - dy * p - dx * q,
    ;
}

proof fn lemma_walk_step_y(x: int, y: int, x1: int, y1: int, dx: int, dy: int, err: int)
    requires
        walk_inv(x, y, x1, y1, dx, dy, err),
        y != y1,
    ensures
        walk_inv(x, y + toward(y, y1), x1, y1, dx, dy, err + dx),
{
    let p = abs(x1 - x);
    let q = abs(y1 - y);
    assert(abs(y1 - (y + toward(y, y1))) == q - 1);
    assert(dx + dy - dy * p - dx * (q - 1) == err + dx) by (nonlinear_arith)
        requires
            err == dx + dy - dy * p - dx * q,
    ;
}

/// Where the walk stops, it stands on the target.
proof fn lemma_walk_stop(x: int, y: int, x1: int, y1: int, dx: int, dy: int, err: int)
    requires
        walk_inv(x, y, x1, y1, dx, dy, err),
    ensures
        (2 * err >= dy && x == x1) ==> y == y1,
        (2 * err >= dy && x != x1 && 2 * err <= dx) ==> y != y1,
        (2 * err < dy && 2 * err <= dx && y == y1) ==> x == x1,
        2 * err >= dy || 2 * err <= dx,
{
    let p = abs(x1 - x);
    let q = abs(y1 - y);
    let dyy = -dy;
    assert(err == dx - dyy + dyy * p - dx * q) by (nonlinear_arith)
        requires
            err == dx + dy - dy * p - dx * q,
            dyy == -dy,
    ;
    if 2 * err >= dy && x == x1 {
        assert(p == 0);
        if q >= 1 {
            assert(dx * q >= dx) by (nonlinear_arith)
                requires
                    q >= 1,
                    dx >= 0,
            ;
            assert(dyy * p == 0) by (nonlinear_arith)
                requires
                    p == 0,
            ;
        }
    }
    if 2 * err >= dy && x != x1 && 2 * err <= dx && y == y1 {
        assert(q == 0);
        assert(p >= 1);
        assert(dx * q == 0) by (nonlinear_arith)
            requires
                q == 0,
        ;
        assert(dyy * p >= dyy) by (nonlinear_arith)
            requires
                p >= 1,
                dyy >= 0,
        ;
    }
    if 2 * err < dy && 2 * err <= dx && y == y1 {
        assert(q == 0);
        assert(dx * q == 0) by (nonlinear_arith)
            requires
                q == 0,
        ;
        if p >= 1 {
            assert(dyy * p >= dyy) by (nonlinear_arith)
                requires
                    p >= 1,
                    dyy >= 0,
            ;
        }
    }
}

/// The walk ends on the target, every point lies between the current point
/// and the target, and each step moves at most one pixel in each direction.
proof fn lemma_bres_path(x: int, y: int, x1: int, y1: int, dx: int, dy: int, err: int)
    requires
        walk_inv(x, y, x1, y1, dx, dy, err),
    ensures
        bres_path(x, y, x1, y1, dx, dy, err).len() >= 1,
        bres_path(x, y, x1, y1, dx, dy, err)[0] == (x, y),
        bres_path(x, y, x1, y1, dx, dy, err).last() == (x1, y1),
        forall|i: int|
            0 <= i < bres_path(x, y, x1, y1, dx, dy, err).len() ==> {
                let pt = #[trigger] bres_path(x, y, x1, y1, dx, dy, err)[i];
                &&& abs(x1 - pt.0) <= abs(x1 - x)
                &&& abs(x - pt.0) <= abs(x1 - x)
                &&& abs(y1 - pt.1) <= abs(y1 - y)
                &&& abs(y - pt.1) <= abs(y1 - y)
            },
        forall|i: int|
            0 <= i < bres_path(x, y, x1, y1, dx, dy, err).len() - 1 ==> {
                let a = #[trigger] bres_path(x, y, x1, y1, dx, dy, err)[i];
                let b = bres_path(x, y, x1, y1, dx, dy, err)[i + 1];
                abs(b.0 - a.0) <= 1 && abs(b.1 - a.1) <= 1
            },
    decreases abs(x1 - x) + abs(y1 - y),
{
    let path = bres_path(x, y, x1, y1, dx, dy, err);
    let e2 = 2 * err;
    lemma_walk_stop(x, y, x1, y1, dx, dy, err);
    let here = seq![(x, y)];
    if e2 >= dy {
        if x == x1 {
        } else if e2 <= dx {
            if y == y1 {
            } else {
                let nx = x + toward(x, x1);
                let ny = y + toward(y, y1);
                lemma_walk_step_x(x, y, x1, y1, dx, dy, err);
                lemma_walk_step_y(nx, y, x1, y1, dx, dy, err + dy);
                lemma_bres_path(nx, ny, x1, y1, dx, dy, err + dy + dx);
                let rest = bres_path(nx, ny, x1, y1, dx, dy, err + dy + dx);
                assert(path == here + rest);
                assert forall|i: int| 0 <= i < path.len() - 1 implies {
                    let a = #[trigger] path[i];
                    let b = path[i + 1];
                    abs(b.0 - a.0) <= 1 && abs(b.1 - a.1) <= 1
                } by {
                    if i > 0 {
                        assert(path[i] == rest[i - 1]);
                        assert(path[i + 1] == rest[i]);
                    }
                }
                assert forall|i: int| 0 <= i < path.len() implies {
                    let pt = #[trigger] path[i];
                    &&& abs(x1 - pt.0) <= abs(x1 - x)
                    &&& abs(x - pt.0) <= abs(x1 - x)
                    &&& abs(y1 - pt.1) <= abs(y1 - y)
                    &&& abs(y - pt.1) <= abs(y1 - y)
                } by {
                    if i > 0 {
                        assert(path[i] == rest[i - 1]);
                    }
                }
            }
        } else {
            let nx = x + toward(x, x1);
            lemma_walk_step_x(x, y, x1, y1, dx, dy, err);
            lemma_bres_path(nx, y, x1, y1, dx, dy, err + dy);
            let rest = bres_path(nx, y, x1, y1, dx, dy, err + dy);
            assert(path == here + rest);
            assert forall|i: int| 0 <= i < path.len() - 1 implies {
                let a = #[trigger] path[i];
                let b = path[i + 1];
                abs(b.0 - a.0) <= 1 && abs(b.1 - a.1) <= 1
            } by {
                if i > 0 {
                    assert(path[i] == rest[i - 1]);
                    assert(path[i + 1] == rest[i]);
                }
            }
            assert forall|i: int| 0 <= i < path.len() implies {
                let pt = #[trigger] path[i];
                &&& abs(x1 - pt.0) <= abs(x1 - x)
                &&& abs(x - pt.0) <= abs(x1 - x)
                &&& abs(y1 - pt.1) <= abs(y1 - y)
                &&& abs(y - pt.1) <= abs(y1 - y)
            } by {
                if i > 0 {
                    assert(path[i] == rest[i - 1]);
                }
            }
        }
    } else if e2 <= dx {
        if y == y1 {
        } else {
            let ny = y + toward(y, y1);
            lemma_walk_step_y(x, y, x1, y1, dx, dy, err);
            lemma_bres_path(x, ny, x1, y1, dx, dy, err + dx);
            let rest = bres_path(x, ny, x1, y1, dx, dy, err + dx);
            assert(path == here + rest);
            assert forall|i: int| 0 <= i < path.len() - 1 implies {
                let a = #[trigger] path[i];
                let b = path[i + 1];
                abs(b.0 - a.0) <= 1 && abs(b.1 - a.1) <= 1
            } by {
                if i > 0 {
                    assert(path[i] == rest[i - 1]);
                    assert(path[i + 1] == rest[i]);
                }
            }
            assert forall|i: int| 0 <= i < path.len() implies {
                let pt = #[trigger] path[i];
                &&& abs(x1 - pt.0) <= abs(x1 - x)
                &&& abs(x - pt.0) <= abs(x1 - x)
                &&& abs(y1 - pt.1) <= abs(y1 - y)
                &&& abs(y - pt.1) <= abs(y1 - y)
            } by {
                if i > 0 {
                    assert(path[i] == rest[i - 1]);
                }
            }
        }
    }
}

/// The walk moves along its major axis at every step: where x is the major
/// axis (and the error has not gone below `dy / 2`), it takes one point per
/// column left; where y is (and the error stays at most `dx / 2`), one per
/// row left.
proof fn lemma_bres_len(x: int, y: int, x1: int, y1: int, dx: int, dy: int, err: int)
    requires
        walk_inv(x, y, x1, y1, dx, dy, err),
    ensures
        (dx >= -dy && 2 * err >= dy) ==> bres_path(x, y, x1, y1, dx, dy, err).len() == abs(x1 - x) + 1,
        (-dy >= dx && 2 * err <= dx) ==> bres_path(x, y, x1, y1, dx, dy, err).len() == abs(y1 - y) + 1,
    decreases abs(x1 - x) + abs(y1 - y),
{
    let e2 = 2 * err;
    lemma_walk_stop(x, y, x1, y1, dx, dy, err);
    if e2 >= dy {
        if x == x1 {
        } else if e2 <= dx {
            if y == y1 {
            } else {
                let nx = x + toward(x, x1);
                let ny = y + toward(y, y1);
                lemma_walk_step_x(x, y, x1, y1, dx, dy, err);
                lemma_walk_step_y(nx, y, x1, y1, dx, dy, err + dy);
                lemma_bres_len(nx, ny, x1, y1, dx, dy, err + dy + dx);
                assert(abs(x1 - nx) == abs(x1 - x) - 1);
                assert(abs(y1 - ny) == abs(y1 - y) - 1);
            }
        } else {
            let nx = x + toward(x, x1);
            lemma_walk_step_x(x, y, x1, y1, dx, dy, err);
            lemma_bres_len(nx, y, x1, y1, dx, dy, err + dy);
            assert(abs(x1 - nx) == abs(x1 - x) - 1);
        }
    } else if e2 <= dx {
        if y == y1 {
        } else {
            let ny = y + toward(y, y1);
            lemma_walk_step_y(x, y, x1, y1, dx, dy, err);
            lemma_bres_len(x, ny, x1, y1, dx, dy, err + dx);
            assert(abs(y1 - ny) == abs(y1 - y) - 1);
        }
    }
}

/// The line from `p0` to `p1` has one point per pixel along its longer
/// side, starts at `p0`, ends at `p1`, stays within the rectangle that they
/// span, and moves at most one pixel per step in each direction: a
/// connected run of pixels between its endpoints.
pub proof fn law_line_path(x0: int, y0: int, x1: int, y1: int)
    ensures
        line_path(x0, y0, x1, y1).len() == (if abs(x1 - x0) >= abs(y1 - y0) {
            abs(x1 - x0)
        } else {
            abs(y1 - y0)
        }) + 1,
        line_path(x0, y0, x1, y1).len() >= 1,
        line_path(x0, y0, x1, y1)[0] == (x0, y0),
        line_path(x0, y0, x1, y1).last() == (x1, y1),
        forall|i: int|
            0 <= i < line_path(x0, y0, x1, y1).len() ==> {
                let pt = #[trigger] line_path(x0, y0, x1, y1)[i];
                &&& abs(x1 - pt.0) <= abs(x1 - x0)
                &&& abs(x0 - pt.0) <= abs(x1 - x0)
                &&& abs(y1 - pt.1) <= abs(y1 - y0)
                &&& abs(y0 - pt.1) <= abs(y1 - y0)
            },
        forall|i: int|
            0 <= i < line_path(x0, y0, x1, y1).len() - 1 ==> {
                let a = #[trigger] line_path(x0, y0, x1, y1)[i];
                let b = line_path(x0, y0, x1, y1)[i + 1];
                abs(b.0 - a.0) <= 1 && abs(b.1 - a.1) <= 1
            },
{
    let dx = abs(x1 - x0);
    let dy = -abs(y1 - y0);
    // At the start the remaining distances are the full ones, so the
    // walk's error term is dx + dy.
    assert(dx + dy == dx + dy - dy * dx - dx * (-dy)) by (nonlinear_arith);
    lemma_bres_path(x0, y0, x1, y1, dx, dy, dx + dy);
    lemma_bres_len(x0, y0, x1, y1, dx, dy, dx + dy);
}

/// One step of the walk, unfolded.
proof fn lemma_bres_next(x: int, y: int, x1: int, y1: int, dx: int, dy: int, err: int)
    requires
        walk_inv(x, y, x1, y1, dx, dy, err),
    ensures
        ({
            let e2 = 2 * err;
            let here = seq![(x, y)];
            let path = bres_path(x, y, x1, y1, dx, dy, err);
            &&& (e2 >= dy && x == x1) ==> path == here
            &&& (e2 < dy && y == y1) ==> path == here
            &&& (e2 >= dy && e2 <= dx && x != x1) ==> y != y1 && path == here + bres_path(
                x + toward(x, x1),
                y + toward(y, y1),
                x1,
                y1,
                dx,
                dy,
                err + dy + dx,
            )
            &&& (e2 >= dy && e2 > dx && x != x1) ==> path == here + bres_path(
                x + toward(x, x1),
                y,
                x1,
                y1,
                dx,
                dy,
                err + dy,
            )
            &&& (e2 < dy && y != y1) ==> e2 <= dx && path == here + bres_path(
                x,
                y + toward(y, y1),
                x1,
                y1,
                dx,
                dy,
                err + dx,
            )
        }),
{
    lemma_walk_stop(x, y, x1, y1, dx, dy, err);
}

/// A point between `a` and `b` that steps toward `b` stays between them.
proof fn lemma_between_step(a: int, x: int, b: int)
    requires
        abs(b - x) + abs(a - x) == abs(b - a),
        x != b,
    ensures
        abs(b - (x + toward(x, b))) + abs(a - (x + toward(x, b))) == abs(b - a),
{
}

/// Painting `a` and then `b` paints `a + b`.
proof fn lemma_painted_concat(px: Seq<u8>, a: Seq<(int, int)>, b: Seq<(int, int)>, val: u8)
    ensures
        painted(painted(px, a, val), b, val) == painted(px, a + b, val),
{
    let ab = a + b;
    assert forall|k: int| 0 <= k < px.len() implies #[trigger] painted(painted(px, a, val), b, val)[k]
        == painted(px, ab, val)[k] by {
        let kx = k % (WIDTH as int);
        let ky = k / (WIDTH as int);
        if path_covers(ab, kx, ky) {
            let i = choose|i: int| 0 <= i < ab.len() && plus_covers(ab[i].0, ab[i].1, kx, ky);
            if i < a.len() {
                assert(ab[i] == a[i]);
            } else {
                assert(ab[i] == b[i - a.len()]);
            }
        } else {
            if path_covers(a, kx, ky) {
                let i = choose|i: int| 0 <= i < a.len() && plus_covers(a[i].0, a[i].1, kx, ky);
                assert(ab[i] == a[i]);
            }
            if path_covers(b, kx, ky) {
                let i = choose|i: int| 0 <= i < b.len() && plus_covers(b[i].0, b[i].1, kx, ky);
                assert(ab[a.len() + i] == b[i]);
            }
        }
    }
    assert(painted(painted(px, a, val), b, val) =~= painted(px, ab, val));
}

/// A line between neighbouring pixels paints just its two ends: the same
/// as painting a point at each (one point where the ends coincide).
pub proof fn law_adjacent_line_is_two_points(px: Seq<u8>, val: u8, x0: int, y0: int, x1: int, y1: int)
    requires
        abs(x1 - x0) <= 1,
        abs(y1 - y0) <= 1,
    ensures
        painted(px, line_path(x0, y0, x1, y1), val) == (if (x0, y0) == (x1, y1) {
            painted(px, seq![(x0, y0)], val)
        } else {
            painted(painted(px, seq![(x0, y0)], val), seq![(x1, y1)], val)
        }),
{
    law_line_path(x0, y0, x1, y1);
    let path = line_path(x0, y0, x1, y1);
    if (x0, y0) == (x1, y1) {
        assert(path =~= seq![(x0, y0)]);
    } else {
        assert(path.len() == 2);
        assert(path =~= seq![(x0, y0)] + seq![(x1, y1)]);
        lemma_painted_concat(px, seq![(x0, y0)], seq![(x1, y1)], val);
    }
}

/// A line from a point to itself is that one point.
pub proof fn law_line_to_self(x: int, y: int)
    ensures
        line_path(x, y, x, y) == seq![(x, y)],
{
}

/// What the drawing overlay holds.
pub struct OverlayView {
    pub pixels: Seq<u8>,
    pub last_point: Option<(i32, i32)>,
}

/// The drawing overlay's canvas and the last point that the mouse drew.
pub struct Overlay {
    pixels: Vec<u8>,
    last_point: Option<(i32, i32)>,
}

impl View for Overlay {
    type V = OverlayView;

    closed spec fn view(&self) -> OverlayView {
        OverlayView { pixels: self.pixels@, last_point: self.last_point }
    }
}

/// The canvas coordinate of screen coordinate `v`: `v / 4` rounded toward
/// zero, as integer division does.
pub open spec fn to_canvas(v: int) -> int {
    if v >= 0 {
        v / (SCALE as int)
    } else {
        -((-v) / (SCALE as int))
    }
}

/// A bound on mouse-derived coordinates that keeps all arithmetic in range.
pub open spec fn small(v: int) -> bool {
    -0x2000_0000 <= v <= 0x2000_0000
}

impl Overlay {
    pub open spec fn inv(&self) -> bool {
        &&& self@.pixels.len() == PIXELS
        &&& self@.last_point matches Some((x, y)) ==> small(x as int) && small(y as int)
    }

    /// A blank canvas with no last point.
    pub fn new() -> (r: Self)
        ensures
            r.inv(),
            r@.pixels == Seq::new(PIXELS as nat, |k: int| 0u8),
            r@.last_point is None,
    {
        let mut pixels: Vec<u8> = Vec::new();
        let mut k: usize = 0;
        while k < PIXELS
            invariant
                k <= PIXELS,
                pixels@ == Seq::new(k as nat, |i: int| 0u8),
            decreases PIXELS - k,
        {
            pixels.push(0);
            k = k + 1;
            assert(pixels@ =~= Seq::new(k as nat, |i: int| 0u8));
        }
        Overlay { pixels, last_point: None }
    }

    /// The canvas bytes, row by row.
    pub fn pixels(&self) -> (px: &[u8])
        ensures
            px@ == self@.pixels,
    {
        self.pixels.as_slice()
    }

    /// Index of pixel `(x, y)`, or `None` off the canvas.
    pub fn coord(&self, x: usize, y: usize) -> (r: Option<usize>)
        ensures
            match r {
                Some(i) => on_canvas(x as int, y as int) && i == x + y * WIDTH,
                None => !on_canvas(x as int, y as int),
            },
    {
        if x >= WIDTH || y >= HEIGHT {
            None
        } else {
            Some(x + y * WIDTH)
        }
    }

    /// Sets pixel `(x, y)` to `val`; nothing happens off the canvas.
    pub fn set(&mut self, val: u8, x: i32, y: i32)
        requires
            old(self).inv(),
        ensures
            final(self).inv(),
            final(self)@.last_point == old(self)@.last_point,
            final(self)@.pixels == (if on_canvas(x as int, y as int) {
                old(self)@.pixels.update(x + y * WIDTH, val)
            } else {
                old(self)@.pixels
            }),
    {
        if x < 0 || y < 0 {
            return;
        }
        if let Some(idx) = self.coord(x as usize, y as usize) {
            self.pixels.set(idx, val);
        }
    }

    /// Paints a plus-shaped point of `val` centred on `(x, y)`.
    pub fn point(&mut self, val: u8, x: i32, y: i32)
        requires
            old(self).inv(),
            i32::MIN < x < i32::MAX,
            i32::MIN < y < i32::MAX,
        ensures
            final(self).inv(),
            final(self)@.last_point == old(self)@.last_point,
            final(self)@.pixels == painted(old(self)@.pixels, seq![(x as int, y as int)], val),
    {
        let ghost px0 = self@.pixels;
        self.set(val, x, y - 1);
        self.set(val, x - 1, y);
        self.set(val, x, y);
        self.set(val, x + 1, y);
        self.set(val, x, y + 1);
        let ghost pt = seq![(x as int, y as int)];
        assert forall|k: int| 0 <= k < PIXELS implies #[trigger] self@.pixels[k] == painted(
            px0,
            pt,
            val,
        )[k] by {
            let kx = k % (WIDTH as int);
            let ky = k / (WIDTH as int);
            assert(k == kx + ky * WIDTH);
            assert(on_canvas(kx, ky));
            if plus_covers(x as int, y as int, kx, ky) {
                assert(path_covers(pt, kx, ky)) by {
                    assert(pt[0] == (x as int, y as int));
                }
            } else {
                assert(!path_covers(pt, kx, ky));
            }
        }
        assert(self@.pixels =~= painted(px0, pt, val));
    }

    /// Draws the line from `p0` to `p1` with Bresenham's algorithm, painting
    /// a plus-shaped point of `val` at each of its points.
    pub fn line(&mut self, val: u8, p0: (i32, i32), p1: (i32, i32))
        requires
            old(self).inv(),
            i32::MIN < p0.0 < i32::MAX,
            i32::MIN < p0.1 < i32::MAX,
            i32::MIN < p1.0 < i32::MAX,
            i32::MIN < p1.1 < i32::MAX,
        ensures
            final(self).inv(),
            final(self)@.last_point == old(self)@.last_point,
            final(self)@.pixels == painted(
                old(self)@.pixels,
                line_path(p0.0 as int, p0.1 as int, p1.0 as int, p1.1 as int),
                val,
            ),
    {
        let (mut x0, mut y0) = p0;
        let (x1, y1) = p1;
        let ghost whole = line_path(p0.0 as int, p0.1 as int, p1.0 as int, p1.1 as int);
        let ghost px0 = self@.pixels;
        let dx: i64 = if x1 as i64 >= x0 as i64 {
            x1 as i64 - x0 as i64
        } else {
            x0 as i64 - x1 as i64
        };
        let dy: i64 = if y1 as i64 >= y0 as i64 {
            y0 as i64 - y1 as i64
        } else {
            y1 as i64 - y0 as i64
        };
        let sx: i32 = if x0 < x1 {
            1
        } else {
            -1
        };
        let sy: i32 = if y0 < y1 {
            1
        } else {
            -1
        };
        let mut error: i64 = dx + dy;
        let ghost mut done: Seq<(int, int)> = Seq::empty();
        proof {
            // At the start the remaining distances are the full ones, so the
    // walk's error term is dx + dy.
    assert(dx + dy == dx + dy - dy * dx - dx * (-dy)) by (nonlinear_arith);
            lemma_bres_path(x0 as int, y0 as int, x1 as int, y1 as int, dx as int, dy as int, error as int);
        }
        loop
            invariant_except_break
                self.inv(),
                self@.last_point == old(self)@.last_point,
                i32::MIN < x0 < i32::MAX,
                i32::MIN < y0 < i32::MAX,
                i32::MIN < x1 < i32::MAX,
                i32::MIN < y1 < i32::MAX,
                dx == abs(p1.0 - p0.0),
                dy == -abs(p1.1 - p0.1),
                x0 != x1 ==> sx == toward(x0 as int, x1 as int),
                y0 != y1 ==> sy == toward(y0 as int, y1 as int),
                x1 == p1.0,
                y1 == p1.1,
                abs(x1 - x0) + abs(p0.0 - x0) == abs(p1.0 - p0.0),
                abs(y1 - y0) + abs(p0.1 - y0) == abs(p1.1 - p0.1),
                2 * dy <= error <= 2 * dx,
                walk_inv(x0 as int, y0 as int, x1 as int, y1 as int, dx as int, dy as int, error as int),
                whole == done + bres_path(
                    x0 as int,
                    y0 as int,
                    x1 as int,
                    y1 as int,
                    dx as int,
                    dy as int,
                    error as int,
                ),
                self@.pixels == painted(px0, done, val),
            ensures
                self.inv(),
                self@.last_point == old(self)@.last_point,
                self@.pixels == painted(px0, whole, val),
            decreases abs(x1 - x0) + abs(y1 - y0),
        {
            let ghost rest = bres_path(
                x0 as int,
                y0 as int,
                x1 as int,
                y1 as int,
                dx as int,
                dy as int,
                error as int,
            );
            proof {
                lemma_bres_next(x0 as int, y0 as int, x1 as int, y1 as int, dx as int, dy as int, error as int);
            }
            self.point(val, x0, y0);
            proof {
                lemma_painted_concat(px0, done, seq![(x0 as int, y0 as int)], val);
                done = done + seq![(x0 as int, y0 as int)];
            }
            let e2 = 2 * error;
            if e2 >= dy && e2 <= dx {
                if x0 == x1 {
                    assert(whole =~= done);
                    break;
                }
                if y0 == y1 {
                    assert(false);
                    break;
                }
                proof {
                    lemma_walk_step_x(x0 as int, y0 as int, x1 as int, y1 as int, dx as int, dy as int, error as int);
                    lemma_walk_step_y((x0 + sx) as int, y0 as int, x1 as int, y1 as int, dx as int, dy as int, (error + dy) as int);
                }
                assert(whole =~= done + bres_path(
                    (x0 + sx) as int,
                    (y0 + sy) as int,
                    x1 as int,
                    y1 as int,
                    dx as int,
                    dy as int,
                    (error + dy + dx) as int,
                ));
                proof {
                    lemma_between_step(p0.0 as int, x0 as int, x1 as int);
                    lemma_between_step(p0.1 as int, y0 as int, y1 as int);
                }
                error = error + dy + dx;
                x0 = x0 + sx;
                y0 = y0 + sy;
            } else if e2 >= dy {
                if x0 == x1 {
                    assert(whole =~= done);
                    break;
                }
                proof {
                    lemma_walk_step_x(x0 as int, y0 as int, x1 as int, y1 as int, dx as int, dy as int, error as int);
                }
                assert(whole =~= done + bres_path(
                    (x0 + sx) as int,
                    y0 as int,
                    x1 as int,
                    y1 as int,
                    dx as int,
                    dy as int,
                    (error + dy) as int,
                ));
                proof {
                    lemma_between_step(p0.0 as int, x0 as int, x1 as int);
                }
                error = error + dy;
                x0 = x0 + sx;
            } else {
                if y0 == y1 {
                    assert(whole =~= done);
                    break;
                }
                proof {
                    lemma_walk_step_y(x0 as int, y0 as int, x1 as int, y1 as int, dx as int, dy as int, error as int);
                }
                assert(whole =~= done + bres_path(
                    x0 as int,
                    (y0 + sy) as int,
                    x1 as int,
                    y1 as int,
                    dx as int,
                    dy as int,
                    (error + dx) as int,
                ));
                proof {
                    lemma_between_step(p0.1 as int, y0 as int, y1 as int);
                }
                error = error + dx;
                y0 = y0 + sy;
            }
        }
    }

    /// One frame of drawing with the mouse at screen position `mouse`:
    /// while drawing, a line joins the last point to the mouse's canvas
    /// point (or a lone point is painted) and that point becomes the last;
    /// erasing clears the canvas; either other command forgets the last
    /// point.
    pub fn update(&mut self, cmd: Command, mouse: (i32, i32))
        requires
            old(self).inv(),
        ensures
            final(self).inv(),
            ({
                let x = to_canvas(mouse.0 as int);
                let y = to_canvas(mouse.1 as int);
                match cmd {
                    Command::Drawing => {
                        &&& final(self)@.last_point == Some((x as i32, y as i32))
                        &&& final(self)@.pixels == match old(self)@.last_point {
                            Some((lx, ly)) => painted(
                                old(self)@.pixels,
                                line_path(lx as int, ly as int, x, y),
                                1,
                            ),
                            None => painted(old(self)@.pixels, seq![(x, y)], 1),
                        }
                    },
                    Command::EraseAll => {
                        &&& final(self)@.last_point is None
                        &&& final(self)@.pixels == Seq::new(PIXELS as nat, |k: int| 0u8)
                    },
                    Command::Nothing => {
                        &&& final(self)@.last_point is None
                        &&& final(self)@.pixels == old(self)@.pixels
                    },
                }
            }),
    {
        match cmd {
            Command::Drawing => {
                let x = mouse.0.checked_div(SCALE as i32).unwrap();
                let y = mouse.1.checked_div(SCALE as i32).unwrap();
                match self.last_point {
                    Some(last) => self.line(1, last, (x, y)),
                    None => self.point(1, x, y),
                }
                self.last_point = Some((x, y));
            },
            Command::EraseAll => {
                let mut k: usize = 0;
                while k < PIXELS
                    invariant
                        self.inv(),
                        k <= PIXELS,
                        forall|j: int| 0 <= j < k ==> self@.pixels[j] == 0u8,
                    decreases PIXELS - k,
                {
                    self.pixels.set(k, 0);
                    k = k + 1;
                }
                self.last_point = None;
                assert(self@.pixels =~= Seq::new(PIXELS as nat, |k: int| 0u8));
            },
            Command::Nothing => {
                self.last_point = None;
            },
        }
    }
}

} // verus!
