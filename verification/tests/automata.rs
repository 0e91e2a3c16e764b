use base64::Engine;
use newton::automata::Overlay;
use newton::cells::{most_common_value, CellBuffer};
use newton::rle::Pattern;

fn b64(s: &[u8]) -> String {
    base64::engine::general_purpose::STANDARD.encode(s)
}

fn live_cells(g: &CellBuffer) -> Vec<(i32, i32, u8)> {
    let mut v = Vec::new();
    for y in 0..72 {
        for x in 0..128 {
            let c = g.get(x, y);
            if c != 0 {
                v.push((x, y, c));
            }
        }
    }
    v
}

#[test]
fn glider_from_rle() {
    let p = Pattern::from_rle("x = 3, y = 3, rule = B3/S23\nbo$2bo$3o!").unwrap();
    assert_eq!(p.width(), 3);
    assert_eq!(p.height(), 3);
    let alive: Vec<(i32, i32)> = (0..3)
        .flat_map(|y| (0..3).map(move |x| (x, y)))
        .filter(|&(x, y)| p.get(x, y))
        .collect();
    assert_eq!(alive, vec![(1, 0), (2, 1), (0, 2), (1, 2), (2, 2)]);
}

#[test]
fn semicolons_separate_lines() {
    let p = Pattern::from_rle("#C a comment;x = 3, y = 3;bo$2bo$3o!").unwrap();
    assert!(p.get(1, 0) && p.get(2, 1) && p.get(0, 2) && p.get(1, 2) && p.get(2, 2));
    assert!(!p.get(0, 0) && !p.get(1, 1));
}

#[test]
fn rle_header_errors() {
    assert!(Pattern::from_rle("bo$2bo$3o!").is_none());
    assert!(Pattern::from_rle("x = a, y = 3\no!").is_none());
    assert!(Pattern::from_rle("x = 0, y = 3\no!").is_none());
    assert!(Pattern::from_rle("x = 129, y = 3\no!").is_none());
    assert!(Pattern::from_rle("x = 3, y = 73\no!").is_none());
    assert!(Pattern::from_rle("x=3, y=3\no!").is_none());
    assert!(Pattern::from_rle("x = 128, y = 72\no!").is_some());
}

#[test]
fn rle_runs_wrap_and_count() {
    // 5 cells on a 2-wide pattern wrap onto the next rows.
    let p = Pattern::from_rle("x = 2, y = 3\n5o!").unwrap();
    assert!(p.get(0, 0) && p.get(1, 0) && p.get(0, 1) && p.get(1, 1) && p.get(0, 2));
    assert!(!p.get(1, 2));
    // A `$` where the cursor already wrapped to a new row moves one row
    // fewer.
    let q = Pattern::from_rle("x = 2, y = 3\n2o2$o!").unwrap();
    assert!(q.get(0, 0) && q.get(1, 0) && q.get(0, 2));
    assert!(!q.get(0, 1) && !q.get(1, 1));
}

#[test]
fn pattern_coordinates_wrap() {
    let mut p = Pattern::from_rle("x = 3, y = 2\n!").unwrap();
    assert_eq!(p.idx(-1, -1), 1 * 3 + 2);
    p.set(4, 3);
    assert!(p.get(1, 1));
    assert_eq!(p.idx(1, 1), 4);
}

#[test]
fn cell_buffer_neighbours() {
    let mut g = CellBuffer::new();
    assert_eq!(CellBuffer::idx(-1, -1), 71 * 128 + 127);
    g.set(4, 4, 1);
    g.set(5, 4, 1);
    g.set(6, 4, 2);
    g.set(4, 5, 2);
    assert_eq!(g.neighbors(5, 5), [1, 1, 2, 2, 0, 0, 0, 0]);
    assert_eq!(g.count_neighbors(5, 5), 4);
    assert_eq!(g.most_common_neighbor(5, 5), 2);
    assert!(g.is_nonzero(6, 4));
    assert_eq!(g.count_cell(6, 4), 1);
    assert_eq!(g.count_cell(7, 4), 0);
}

#[test]
fn most_common_prefers_count_then_value() {
    assert_eq!(most_common_value(&[3, 1, 1, 0, 0, 0, 0, 0]), 1);
    assert_eq!(most_common_value(&[0; 8]), 0);
    assert_eq!(most_common_value(&[9, 4, 4, 9, 7, 7, 0, 0]), 9);
}

#[test]
fn blinker_oscillates() {
    let mut a = Overlay::new();
    let p = Pattern::from_rle("x = 3, y = 1\n3o!").unwrap();
    a.spawn(10, 10, 7, &p);
    assert_eq!(live_cells(a.current()), vec![(10, 10, 7), (11, 10, 7), (12, 10, 7)]);
    a.step();
    assert_eq!(live_cells(a.current()), vec![(11, 9, 7), (11, 10, 7), (11, 11, 7)]);
    a.step();
    assert_eq!(live_cells(a.current()), vec![(10, 10, 7), (11, 10, 7), (12, 10, 7)]);
}

#[test]
fn glider_moves_diagonally() {
    let mut a = Overlay::new();
    let p = Pattern::from_rle("x = 3, y = 3\nbo$2bo$3o!").unwrap();
    a.spawn(20, 30, 5, &p);
    let before = live_cells(a.current());
    for _ in 0..4 {
        a.step();
    }
    let after = live_cells(a.current());
    let moved: Vec<(i32, i32, u8)> = before.iter().map(|&(x, y, c)| (x + 1, y + 1, c)).collect();
    assert_eq!(after, moved);
}

#[test]
fn spawn_wraps_around_the_edges() {
    let mut a = Overlay::new();
    let p = Pattern::from_rle("x = 2, y = 2\n2o$2o!").unwrap();
    a.spawn(127, 71, 3, &p);
    assert_eq!(
        live_cells(a.current()),
        vec![(0, 0, 3), (127, 0, 3), (0, 71, 3), (127, 71, 3)]
    );
}

#[test]
fn empty_grid_stays_empty_and_block_is_still() {
    let mut a = Overlay::new();
    a.step();
    assert!(live_cells(a.current()).is_empty());
    let p = Pattern::from_rle("x = 2, y = 2\n2o$2o!").unwrap();
    a.spawn(40, 40, 9, &p);
    let before = live_cells(a.current());
    a.step();
    assert_eq!(live_cells(a.current()), before);
}

#[test]
fn update_steps_every_tenth_tick() {
    let mut a = Overlay::new();
    let p = Pattern::from_rle("x = 3, y = 1\n3o!").unwrap();
    a.spawn(10, 10, 7, &p);
    assert!(!a.update(7));
    assert_eq!(live_cells(a.current()).len(), 3);
    assert!(a.update(20));
    assert_eq!(live_cells(a.current()), vec![(11, 9, 7), (11, 10, 7), (11, 11, 7)]);
}

#[test]
fn texture_uses_rule_colours() {
    let mut a = Overlay::new();
    assert_eq!(a.rule(0), [0, 0, 0, 0]);
    assert_eq!(a.rule(1), [255, 255, 255, 255]);
    let p = Pattern::from_rle("x = 1, y = 1\no!").unwrap();
    a.spawn_colored(&p, 10, 20, 30, 2, 1);
    let px = a.upload_pixels();
    assert_eq!(px.len(), 128 * 72 * 4);
    let k = (1 * 128 + 2) * 4;
    assert_eq!(&px[k..k + 4], &[10, 20, 30, 255]);
    assert_eq!(&px[0..4], &[0, 0, 0, 0]);
    assert_eq!(a.next_rule(), 2);
    a.reset();
    assert!(live_cells(a.current()).is_empty());
}

#[test]
fn rules_cycle_skipping_zero() {
    let mut a = Overlay::new();
    let p = Pattern::from_rle("x = 1, y = 1\no!").unwrap();
    for i in 1..=255usize {
        assert_eq!(a.next_rule(), i);
        a.spawn_colored(&p, 1, 2, 3, 0, 0);
    }
    assert_eq!(a.next_rule(), 1);
}

#[test]
fn spawn_message_decodes_pattern_and_colour() {
    let mut a = Overlay::new();
    let r = a.handle_spawn(&b64(b"x = 1, y = 1\no!"), &b64(b" #ff8000\n"));
    assert_eq!(r, Some(()));
    assert_eq!(a.next_rule(), 2);
    assert_eq!(a.rule(1), [255, 128, 0, 255]);
    let cells = live_cells(a.current());
    assert_eq!(cells.len(), 1);
    let (x, y, c) = cells[0];
    assert!((0..128).contains(&x) && (0..72).contains(&y));
    assert_eq!(c, 1);
}

#[test]
fn spawn_message_errors() {
    let mut a = Overlay::new();
    // Not Base64.
    assert_eq!(a.handle_spawn("!!!", &b64(b"#ffffff")), None);
    // Colour without `#`.
    assert_eq!(a.handle_spawn(&b64(b"x = 1, y = 1\no!"), &b64(b"ffffff")), None);
    // Colour that is not hexadecimal.
    assert_eq!(a.handle_spawn(&b64(b"x = 1, y = 1\no!"), &b64(b"#zz")), None);
    // Pattern that is not UTF-8.
    assert_eq!(a.handle_spawn(&b64(&[0xff, 0xfe]), &b64(b"#ffffff")), None);
    assert_eq!(a.next_rule(), 1);
    // A valid message whose pattern is invalid spawns nothing.
    assert_eq!(a.handle_spawn(&b64(b"x = 0, y = 1\no!"), &b64(b"#ffffff")), Some(()));
    assert_eq!(a.next_rule(), 1);
    assert!(live_cells(a.current()).is_empty());
}
