use newton::automata::Overlay;
use newton::cells::CellBuffer;
use newton::rle::Pattern;
use newton::terminal::{CharPair, Color, Layer, Pos, Terminal};

fn neighbour_values(g: &CellBuffer, x: i32, y: i32) -> Vec<u8> {
    g.neighbors(x, y).to_vec()
}

#[test]
fn steps_bring_no_new_colours() {
    let mut o = Overlay::new();
    let glider = Pattern::from_rle("x = 3, y = 3\nbo$2bo$3o!").unwrap();
    let blinker = Pattern::from_rle("x = 3, y = 1\n3o!").unwrap();
    o.spawn_colored(&glider, 10, 20, 30, 5, 5);
    o.spawn_colored(&blinker, 40, 50, 60, 7, 6);
    o.spawn_colored(&glider, 70, 80, 90, 126, 70);
    for _ in 0..40 {
        let before: Vec<Vec<u8>> = (0..72)
            .map(|y| (0..128).map(|x| o.current().get(x, y)).collect())
            .collect();
        let mut old = CellBuffer::new();
        for y in 0..72 {
            for x in 0..128 {
                old.set(x, y, before[y as usize][x as usize]);
            }
        }
        o.step();
        for y in 0..72 {
            for x in 0..128 {
                let v = o.current().get(x, y);
                assert!(
                    v == 0 || v == old.get(x, y) || neighbour_values(&old, x, y).contains(&v),
                    "cell ({}, {}) took a colour from nowhere",
                    x,
                    y
                );
            }
        }
    }
}

#[test]
fn grid_coordinates_wrap() {
    let mut g = CellBuffer::new();
    g.set(130, 75, 9);
    assert_eq!(g.get(2, 3), 9);
    assert_eq!(g.get(-126, -69), 9);
    g.set(-1, 0, 4);
    assert_eq!(g.get(127, 0), 4);
    assert_eq!(g.get(255, 72), 4);
}

#[test]
fn layer_reads_back_writes() {
    let mut l = Layer::<CharPair>::new();
    let x = CharPair { first: 'x', second: None };
    l.set(Pos::new(3, 4), x);
    assert_eq!(l.get(Pos::new(3, 4)), Some(&x));
    assert_eq!(l.get(Pos::new(4, 3)), Some(&CharPair { first: 'a', second: Some('b') }));
    l.set(Pos::new(64, 4), CharPair { first: 'y', second: None });
    assert_eq!(l.get(Pos::new(0, 5)), Some(&CharPair { first: 'a', second: Some('b') }));
    assert_eq!(l.get(Pos::new(64, 4)), None);
}

#[test]
fn every_cell_shows_two_characters() {
    let white = Color { r: 0x3f80_0000, g: 0x3f80_0000, b: 0x3f80_0000 };
    let mut t = Terminal::new();
    let mut px = vec![Color::black(); 4096];
    for k in 0..4096 {
        if (k / 64 + k % 64) % 3 == 0 {
            px[k] = white;
        }
    }
    t.update(px);
    let pairs = [None, Some(CharPair { first: 'q', second: None }), Some(CharPair { first: 'r', second: Some('s') })];
    for y in 0..64 {
        for x in 0..64 {
            for c in [white, Color::black()] {
                for p in pairs {
                    assert_eq!(t.cell_text(Pos::new(x, y), c, p).chars().count(), 2);
                }
            }
        }
    }
}

#[test]
fn line_to_itself_is_a_point() {
    let mut a = newton::drawing::Overlay::new();
    let mut b = newton::drawing::Overlay::new();
    a.line(7, (40, 30), (40, 30));
    b.point(7, 40, 30);
    assert_eq!(a.pixels(), b.pixels());
    assert_eq!(a.pixels().iter().filter(|&&p| p == 7).count(), 5);
}


fn cells_of(p: &Pattern) -> Vec<bool> {
    let mut v = Vec::new();
    for y in 0..p.height() as i32 {
        for x in 0..p.width() as i32 {
            v.push(p.get(x, y));
        }
    }
    v
}

#[test]
fn semicolons_and_line_breaks_parse_alike() {
    for text in ["#C glider\nx = 3, y = 3\nbo$2bo$\n3o!", "x = 2, y = 2\n#N name\n2o$\nbo!", "x = 0, y = 2\no!", "x = q\no!"] {
        let a = Pattern::from_rle(text);
        let b = Pattern::from_rle(&text.replace('\n', ";"));
        match (a, b) {
            (Some(a), Some(b)) => {
                assert_eq!((a.width(), a.height()), (b.width(), b.height()));
                assert_eq!(cells_of(&a), cells_of(&b));
            },
            (None, None) => {},
            _ => panic!("{:?} parses differently with semicolons", text),
        }
    }
}

#[test]
fn pattern_cells_repeat_with_the_size() {
    let mut p = Pattern::from_rle("x = 3, y = 2\n3b$3b!").unwrap();
    p.set(-1, 5);
    assert!(p.get(2, 1));
    assert!(p.get(-1 + 3 * 4, 5 - 2 * 7));
    assert!(p.get(-4, -1));
    let alive = cells_of(&p).iter().filter(|&&c| c).count();
    assert_eq!(alive, 1);
}

#[test]
fn adjacent_lines_paint_their_two_ends() {
    for &((x0, y0), (x1, y1)) in &[((5, 5), (6, 4)), ((5, 5), (5, 6)), ((5, 5), (4, 5)), ((7, 7), (7, 7))] {
        let mut a = newton::drawing::Overlay::new();
        let mut b = newton::drawing::Overlay::new();
        a.line(3, (x0, y0), (x1, y1));
        b.point(3, x0, y0);
        b.point(3, x1, y1);
        assert_eq!(a.pixels(), b.pixels());
    }
}

#[test]
fn countdown_after_many_frames() {
    for k in 0..7u32 {
        let mut c = newton::tcg::FrameCountdown::new(3);
        let mut taken = 0;
        for _ in 0..k {
            if c.take_frame() {
                taken += 1;
            }
        }
        assert_eq!(c.frames_left, 3 - k.min(3));
        assert_eq!(taken, k.min(3));
        assert_eq!(c.is_finished(), k >= 3);
    }
}
