use base64::Engine;
use newton::terminal::{tty_escapes, CharPair, Color, Layer, PaletteType, Pos, Rgb8, Terminal};

const WHITE: Color = Color { r: 0x3f80_0000, g: 0x3f80_0000, b: 0x3f80_0000 };

#[test]
fn layer_bounds() {
    let mut l = Layer::<CharPair>::new();
    assert_eq!(l.get(Pos::new(0, 0)), Some(&CharPair { first: 'a', second: Some('b') }));
    assert_eq!(l.get(Pos::new(64, 0)), None);
    assert_eq!(l.get(Pos::new(0, -1)), None);
    l.set(Pos::new(63, 63), CharPair { first: 'x', second: None });
    assert_eq!(l.get(Pos::new(63, 63)), Some(&CharPair { first: 'x', second: None }));
    l.set(Pos::new(-1, 5), CharPair { first: 'y', second: None });
    assert_eq!(l.get(Pos::new(0, 5)), Some(&CharPair { first: 'a', second: Some('b') }));
}

#[test]
fn from_str_repeats_the_text_in_pairs() {
    let mut l = Layer::<CharPair>::new();
    l.from_str("abc");
    assert_eq!(l.get(Pos::new(0, 0)), Some(&CharPair { first: 'a', second: Some('b') }));
    assert_eq!(l.get(Pos::new(1, 0)), Some(&CharPair { first: 'c', second: Some('a') }));
    assert_eq!(l.get(Pos::new(2, 0)), Some(&CharPair { first: 'b', second: Some('c') }));
    assert_eq!(l.get(Pos::new(0, 1)), Some(&CharPair { first: 'c', second: Some('a') }));
    let before = l.get(Pos::new(5, 5)).copied();
    l.from_str("");
    assert_eq!(l.get(Pos::new(5, 5)).copied(), before);
}

#[test]
fn surrounding_mask() {
    let mut l = Layer::<Color>::new();
    let black = Color::black();
    assert_eq!(l.get_surrounding(Pos::new(10, 10), &black), 0);
    assert_eq!(l.get_surrounding(Pos::new(0, 0), &black), 0b1111_0100);
    l.set(Pos::new(11, 10), WHITE);
    assert_eq!(l.get_surrounding(Pos::new(10, 10), &black), 0b0000_1000);
    assert_eq!(l.get_surrounding(Pos::new(100, 100), &black), 0xff);
}

#[test]
fn outlines_follow_the_silhouette() {
    let mut t = Terminal::new();
    let mut px = vec![Color::black(); 4096];
    for x in 0..64 {
        px[x + 11 * 64] = WHITE;
    }
    t.update(px);
    assert_eq!(t.outline_pattern(Pos::new(10, 10)), Some("__".to_string()));
    assert_eq!(t.outline_pattern(Pos::new(10, 5)), None);
    let pair = Some(CharPair { first: 'q', second: None });
    assert_eq!(t.cell_text(Pos::new(10, 10), WHITE, pair), "__");
    assert_eq!(t.cell_text(Pos::new(10, 5), WHITE, pair), "q ");
    assert_eq!(t.cell_text(Pos::new(10, 5), Color::black(), pair), "  ");
    assert_eq!(t.cell_text(Pos::new(10, 5), WHITE, None), "  ");
}

#[test]
fn text_messages_need_base64_utf8() {
    let mut t = Terminal::new();
    let enc = base64::engine::general_purpose::STANDARD.encode("hi");
    assert_eq!(t.handle_text(&enc), Some(()));
    let bad = base64::engine::general_purpose::STANDARD.encode([0xffu8]);
    assert_eq!(t.handle_text(&bad), None);
    assert_eq!(t.handle_text("***"), None);
}

#[test]
fn palette_names_and_colours() {
    assert_eq!(PaletteType::from_string("skin"), Some(PaletteType::Skin));
    assert_eq!(PaletteType::from_string("eyebags"), Some(PaletteType::Eyebags));
    assert_eq!(PaletteType::from_string("highlight"), Some(PaletteType::Highlight));
    assert_eq!(PaletteType::from_string("Skin"), None);
    assert_eq!(PaletteType::from_color(&Rgb8 { r: 187, g: 177, b: 190 }), Some(PaletteType::Hair));
    assert_eq!(PaletteType::from_color(&Rgb8 { r: 160, g: 150, b: 160 }), Some(PaletteType::Highlight));
    assert_eq!(PaletteType::from_color(&Rgb8 { r: 100, g: 200, b: 50 }), Some(PaletteType::Eyes));
    assert_eq!(PaletteType::from_color(&Rgb8 { r: 244, g: 240, b: 236 }), Some(PaletteType::Skin));
    assert_eq!(PaletteType::from_color(&Rgb8 { r: 182, g: 142, b: 139 }), Some(PaletteType::Eyebags));
    assert_eq!(PaletteType::from_color(&Rgb8 { r: 0, g: 0, b: 0 }), None);
}

#[test]
fn positions_add() {
    assert_eq!(Pos::new(3, -2).add(Pos::new(-1, 5)), Pos::new(2, 3));
}

#[test]
fn tty_frames() {
    let white = Color { r: 0x3f80_0000, g: 0x3f80_0000, b: 0x3f80_0000 };
    let mut t = Terminal::new();
    let chars = Layer::<CharPair>::new();
    let esc = vec!["E".to_string(); 4096];
    let row = format!("{}\r\n", "E  ".repeat(64));
    assert_eq!(t.tty_frame(&esc, &chars), format!("\x1b[2J\x1b[1;1H{}", row.repeat(64)));
    let mut px = vec![Color::black(); 4096];
    px[64 * 10 + 10] = white;
    t.update(px);
    let frame = t.tty_frame(&esc, &chars);
    let lines: Vec<&str> = frame.trim_start_matches("\x1b[2J\x1b[1;1H").split("\r\n").collect();
    assert_eq!(lines.len(), 65);
    assert_eq!(&lines[10][30..33], "Eab");
    assert_eq!(&lines[10][27..30], "E  ");
}

#[test]
fn colour_escapes() {
    let e = tty_escapes(&vec![Rgb8 { r: 1, g: 20, b: 255 }, Rgb8 { r: 0, g: 0, b: 0 }]);
    assert_eq!(e.len(), 2);
    assert!(e[0] == "\x1b[38;2;1;20;255m" || e[0].is_empty());
    assert!(e[1] == "\x1b[38;2;0;0;0m" || e[1].is_empty());
}

#[test]
fn screen_text_rows() {
    let mut t = Terminal::new();
    let mut chars = Layer::<CharPair>::new();
    chars.set(Pos::new(1, 0), CharPair { first: 'z', second: None });
    let blank_row = format!("{}\n", "  ".repeat(64));
    assert_eq!(t.screen_text(&chars), blank_row.repeat(64));
    let mut px = vec![Color::black(); 4096];
    px[1] = WHITE;
    t.update(px);
    let s = t.screen_text(&chars);
    let lines: Vec<&str> = s.split('\n').collect();
    assert_eq!(lines.len(), 65);
    assert_eq!(&lines[0][0..6], "  z   ");
    assert_eq!(lines[1], "  ".repeat(64));
}
