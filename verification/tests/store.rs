use newton::store::{card_record, record_with_id, StoreError};
use newton::tcg::Card;

const MSG: &str = "o\toid\tname\tty\tsubj\tel\t#ff0010\tnate\t#0a0B0c\t5\tboost\trare\t3\tbody\timg\tset\t2024\tflags";

fn tiny_png() -> Vec<u8> {
    let mut out = Vec::new();
    {
        let mut enc = png::Encoder::new(&mut out, 1, 1);
        enc.set_color(png::ColorType::Rgba);
        enc.set_depth(png::BitDepth::Eight);
        let mut w = enc.write_header().unwrap();
        w.write_image_data(&[1, 2, 3, 4]).unwrap();
        w.finish().unwrap();
    }
    out
}

fn find(hay: &[u8], needle: &[u8]) -> Option<usize> {
    hay.windows(needle.len()).position(|w| w == needle)
}

#[test]
fn finished_cards_carry_their_message() {
    let card = Card::parse(MSG.as_bytes()).unwrap();
    let png = tiny_png();
    let rec = match record_with_id(&png, &card, "card-1".to_string()) {
        Ok(r) => r,
        Err(e) => panic!("{:?}", e),
    };
    assert_eq!(rec.id, "card-1");
    assert_eq!(rec.inventory_key, "tcg-inventory:oid");
    assert_ne!(rec.image, png);
    let mut chunk = b"tEXtlcolonqtcg\0".to_vec();
    chunk.extend_from_slice(MSG.as_bytes());
    let at = find(&rec.image, &chunk).expect("text chunk missing");
    assert!(at < find(&rec.image, b"IEND").unwrap());
    assert_eq!(&rec.image[..8], &png[..8]);
}

#[test]
fn images_that_are_not_png_are_refused() {
    let card = Card::parse(MSG.as_bytes()).unwrap();
    assert_eq!(record_with_id(b"not a png", &card, "x".to_string()).err(), Some(StoreError::Image));
    assert_eq!(card_record(b"", &card).err(), Some(StoreError::Image));
}

#[test]
fn fresh_ids_are_random_uuids() {
    let card = Card::parse(MSG.as_bytes()).unwrap();
    let png = tiny_png();
    let a = card_record(&png, &card).ok().unwrap();
    let b = card_record(&png, &card).ok().unwrap();
    for id in [&a.id, &b.id] {
        let cs: Vec<char> = id.chars().collect();
        assert_eq!(cs.len(), 36);
        for (i, c) in cs.iter().enumerate() {
            if [8, 13, 18, 23].contains(&i) {
                assert_eq!(*c, '-');
            } else {
                assert!(c.is_ascii_digit() || ('a'..='f').contains(c));
            }
        }
        assert_eq!(cs[14], '4');
        assert!("89ab".contains(cs[19]));
    }
    assert_ne!(a.id, b.id);
    assert_eq!(a.image, b.image);
}
