use newton::tcg::{body_lines, faction_stamp, inventory_key, Card, CardError, Faction, Marquee};

const MSG: &str = "o\toid\tname\tty\tsubj\tel\t#ff0010\tnate\t#0a0B0c\t5\tboost\trare\t3\tbody\timg\tset\t2024\tflags";

fn with_field(i: usize, v: &str) -> String {
    let mut f: Vec<&str> = MSG.split('\t').collect();
    f[i] = v;
    f.join("\t")
}

#[test]
fn card_message_parses() {
    let c = Card::parse(MSG.as_bytes()).unwrap();
    assert_eq!(c.frames, 20);
    assert_eq!(c.encoded, MSG);
    assert_eq!(c.owner, "o");
    assert_eq!(c.owner_id, "oid");
    assert_eq!((c.color.r, c.color.g, c.color.b), (255, 0, 16));
    assert_eq!(c.faction, "nate");
    assert_eq!((c.faction_color.r, c.faction_color.g, c.faction_color.b), (10, 11, 12));
    assert_eq!(c.equity, 5);
    assert_eq!(c.rarity_level, 3);
    assert_eq!(c.body_text, "body");
    assert_eq!(c.minted_date, "2024");
    assert_eq!(c.flags, "flags");
}

#[test]
fn card_message_errors() {
    assert_eq!(Card::parse(b"a\tb").err(), Some(CardError::NotEnoughFields));
    assert_eq!(Card::parse(&[0xff]).err(), Some(CardError::Utf8));
    assert_eq!(Card::parse(with_field(6, "#gg0000").as_bytes()).err(), Some(CardError::BadNumber));
    assert_eq!(Card::parse(with_field(9, "five").as_bytes()).err(), Some(CardError::BadNumber));
    assert_eq!(Card::parse(with_field(12, "").as_bytes()).err(), Some(CardError::BadNumber));
    let short: Vec<&str> = MSG.split('\t').take(17).collect();
    assert_eq!(Card::parse(short.join("\t").as_bytes()).err(), Some(CardError::NotEnoughFields));
    // A signed component parses as from_str_radix does.
    let c = Card::parse(with_field(6, "#-f0000").as_bytes()).unwrap();
    assert_eq!(c.color.r, -15);
}

#[test]
fn colour_fields_that_cannot_be_sliced() {
    assert!(Card::parse_panics(with_field(6, "#ff").as_bytes()));
    assert!(Card::parse_panics(with_field(8, "#aé00").as_bytes()));
    assert!(!Card::parse_panics(MSG.as_bytes()));
    assert!(!Card::parse_panics(with_field(6, "#zz").as_bytes()));
}

#[test]
fn marquee_spaces_cards() {
    let card = Card::parse(MSG.as_bytes()).unwrap();
    let mut m = Marquee::new();
    assert_eq!(m.add(1000, card.clone()), Some(0));
    assert_eq!(m.add(1100, card.clone()), None);
    assert_eq!(m.schedule(1200), None);
    assert_eq!(m.schedule(1301), Some(1));
    assert_eq!(m.schedule(1700), None);
    assert!(!m.slot(0).height_offset);
    assert!(m.slot(1).height_offset);
    m.expire(4001);
    assert_eq!(m.slot(0).active, None);
    assert_eq!(m.slot(1).active, Some(1301));
    assert!(m.slot(0).card.is_some());
    assert_eq!(m.add(4100, card), Some(0));
}

#[test]
fn card_text_helpers() {
    let t: String = (0..60).map(|i| char::from(b'a' + (i % 26) as u8)).collect();
    let lines = body_lines(&t);
    assert_eq!(lines.len(), 3);
    assert_eq!(lines[0], t[0..25]);
    assert_eq!(lines[2], t[50..60]);
    assert!(body_lines("").is_empty());
    assert_eq!(body_lines("é").len(), 1);
    assert_eq!(faction_stamp("lever"), Some(Faction::Lever));
    assert_eq!(faction_stamp("tony"), Some(Faction::Tony));
    assert_eq!(faction_stamp("Nate"), None);
    assert_eq!(inventory_key("42"), "tcg-inventory:42");
}

#[test]
fn frame_countdown() {
    let mut c = newton::tcg::FrameCountdown::new(2);
    assert!(!c.is_finished());
    assert!(c.take_frame());
    assert_eq!(c.frames_left, 1);
    assert!(c.take_frame());
    assert!(c.is_finished());
    assert!(!c.take_frame());
    assert_eq!((c.frames, c.frames_left), (2, 0));
    assert!(newton::tcg::FrameCountdown::new(0).is_finished());
}
