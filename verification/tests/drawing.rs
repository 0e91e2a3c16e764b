use newton::drawing::Overlay;
use newton::input::{get_command, Command};

fn px(o: &Overlay, x: usize, y: usize) -> u8 {
    o.pixels()[x + y * 480]
}

#[test]
fn bresenham_line_with_plus_points() {
    let mut o = Overlay::new();
    o.line(1, (0, 0), (4, 2));
    // Path: (0,0) (1,1) (2,1) (3,2) (4,2), each drawn as a plus.
    for &(x, y) in &[(0, 0), (1, 1), (2, 1), (3, 2), (4, 2)] {
        assert_eq!(px(&o, x, y), 1);
    }
    assert_eq!(px(&o, 5, 2), 1);
    assert_eq!(px(&o, 0, 1), 1);
    assert_eq!(px(&o, 3, 3), 1);
    assert_eq!(px(&o, 1, 2), 1);
    assert_eq!(px(&o, 6, 2), 0);
    assert_eq!(px(&o, 2, 3), 0);
    assert_eq!(px(&o, 4, 0), 0);
    let painted = o.pixels().iter().filter(|&&p| p == 1).count();
    assert_eq!(painted, 15);
}

#[test]
fn steep_and_reversed_lines_reach_both_ends() {
    let mut o = Overlay::new();
    o.line(2, (10, 20), (7, 9));
    assert_eq!(px(&o, 10, 20), 2);
    assert_eq!(px(&o, 7, 9), 2);
    for y in 9..=20 {
        assert!((5..=12).any(|x| px(&o, x, y) == 2));
    }
}

#[test]
fn coordinates_off_the_canvas_are_ignored() {
    let mut o = Overlay::new();
    assert_eq!(o.coord(479, 269), Some(479 + 269 * 480));
    assert_eq!(o.coord(480, 0), None);
    assert_eq!(o.coord(0, 270), None);
    o.set(5, -1, 0);
    o.set(5, 480, 3);
    assert!(o.pixels().iter().all(|&p| p == 0));
    o.point(3, 0, 0);
    assert_eq!(px(&o, 0, 0), 3);
    assert_eq!(px(&o, 1, 0), 3);
    assert_eq!(px(&o, 0, 1), 3);
    assert_eq!(o.pixels().iter().filter(|&&p| p == 3).count(), 3);
}

#[test]
fn drawing_with_the_mouse() {
    let mut o = Overlay::new();
    o.update(Command::Drawing, (20, 8));
    assert_eq!(px(&o, 5, 2), 1);
    // -3 / 4 rounds toward zero.
    o.update(Command::Drawing, (-3, 0));
    assert_eq!(px(&o, 0, 0), 1);
    assert_eq!(px(&o, 3, 1), 1);
    o.update(Command::Nothing, (400, 400));
    o.update(Command::Drawing, (400, 400));
    assert_eq!(px(&o, 100, 100), 1);
    assert_eq!(px(&o, 50, 50), 0);
    o.update(Command::EraseAll, (0, 0));
    assert!(o.pixels().iter().all(|&p| p == 0));
}

#[test]
fn meta_keys_select_the_command() {
    assert_eq!(get_command(true, true), Command::Drawing);
    assert_eq!(get_command(false, true), Command::EraseAll);
    assert_eq!(get_command(false, false), Command::Nothing);
}
