use base64::Engine;
use newton::background::{fits, Frame};
use newton::bus::{classify, credits_line, subscriptions, topic, BusEvent, Info};
use newton::irish::Overlay as Quotes;
use newton::shader::{ThrowShade, Visualizer};
use newton::toggle::{Toggle, Toggles};

fn b64(s: &[u8]) -> String {
    base64::engine::general_purpose::STANDARD.encode(s)
}

#[test]
fn toggles_flip_and_set() {
    let mut t = Toggles::new();
    assert_eq!(t.get("shaderclarity"), None);
    t.handle(5, b"shaderclarity");
    assert_eq!(t.get("shaderclarity"), Some(Toggle { val: true, set_time: 5 }));
    t.handle(9, b"shaderclarity");
    assert_eq!(t.get("shaderclarity"), Some(Toggle { val: false, set_time: 9 }));
    t.handle_set(12, b"adblock", true);
    t.handle_set(13, b"adblock", true);
    assert_eq!(t.get("adblock"), Some(Toggle { val: true, set_time: 13 }));
    t.handle(14, &[0xff, 0xfe]);
    t.handle_set(14, &[0xff], false);
    assert_eq!(t.get("adblock"), Some(Toggle { val: true, set_time: 13 }));
    t.set(20, "adblock", false);
    assert_eq!(t.get("adblock"), Some(Toggle { val: false, set_time: 20 }));
    assert_eq!(t.get("shaderclarity"), Some(Toggle { val: false, set_time: 9 }));
    t.reset();
    assert_eq!(t.get("adblock"), None);
}

#[test]
fn background_frames() {
    let mut d = vec![3, 0, 0, 0, b'a', b'b', b'c', 2, 0, 0, 0, 1, 0, 0, 0];
    d.extend_from_slice(&[1, 2, 3, 4, 5, 6, 7, 8]);
    assert!(fits(&d));
    let f = Frame::parse(&d).unwrap();
    assert_eq!(f.tag(), b"abc");
    assert_eq!(f.width(), 2);
    assert_eq!(f.height(), 1);
    assert_eq!(f.pixels(), &[1, 2, 3, 4, 5, 6, 7, 8]);
    let big = [0x01, 0x01, 0, 0, 9, 9, 9, 9, 9, 9, 9, 9];
    assert!(Frame::parse(&[3, 0, 0, 0, b'a', b'b', b'c', 2, 0]).is_none());
    assert!(Frame::parse(&[1, 0]).is_none());
    assert!(!fits(&[255, 0, 0, 0, 1]));
    assert!(!fits(&big));
    assert!(fits(&[1, 0]));
}

#[test]
fn topics_classify() {
    assert_eq!(classify(b"overlay toggle set"), Some(BusEvent::ToggleSet));
    assert_eq!(classify(b"overlay toggle"), Some(BusEvent::Toggle));
    assert_eq!(classify(b"overlay info credits music clear"), Some(BusEvent::InfoCreditsMusicClear));
    assert_eq!(classify(b"overlay toggles"), None);
    assert_eq!(topic(BusEvent::Chat), "overlay chat");
    let subs = subscriptions();
    assert_eq!(subs.len(), 16);
    for e in subs {
        assert_eq!(classify(topic(e).as_bytes()), Some(e));
    }
}

#[test]
fn info_updates() {
    let mut i = Info::new();
    assert!(i.handle_emacs(&[0xff, 0xff, 0xff, 0xff]));
    assert_eq!(i.emacs_heartrate, -1);
    assert!(i.handle_emacs(&[72, 0, 0, 0, 99]));
    assert_eq!(i.emacs_heartrate, 72);
    assert!(!i.handle_emacs(&[1, 0, 0]));
    assert_eq!(i.emacs_heartrate, 72);
    assert!(i.handle_credits_music("DJ é".as_bytes()));
    assert_eq!(i.muzak_author.as_deref(), Some("DJ é"));
    assert!(!i.handle_credits_music(&[0xc3]));
    assert_eq!(i.muzak_author.as_deref(), Some("DJ é"));
    i.clear_credits_music();
    assert_eq!(i.muzak_author, None);
}

#[test]
fn credit_line() {
    assert_eq!(credits_line(Some("a"), Some("b")), "shader by a, music by b");
    assert_eq!(credits_line(Some("a"), None), "shader by a");
    assert_eq!(credits_line(None, Some("b")), "music by b");
    assert_eq!(credits_line(None, None), "");
}

#[test]
fn quotes_start_update_reset() {
    let mut q = Quotes::new();
    assert_eq!(q.handle_update(&b64(b"ignored")), Some(()));
    assert!(q.quote.is_none());
    assert_eq!(q.handle_start(7, &b64(b"hello")), Some(()));
    assert_eq!(q.quote.as_ref().map(|q| (q.text.as_str(), q.start_time)), Some(("hello", 7)));
    assert_eq!(q.handle_update(&b64(b"bye")), Some(()));
    assert_eq!(q.quote.as_ref().map(|q| (q.text.as_str(), q.start_time)), Some(("bye", 7)));
    assert_eq!(q.handle_update("!!!"), None);
    assert_eq!(q.quote.as_ref().map(|q| q.text.as_str()), Some("bye"));
    assert_eq!(q.handle_start(9, &b64(&[b'h', 0xff])), Some(()));
    assert_eq!(q.quote.as_ref().map(|q| q.text.as_str()), Some("h\u{FFFD}"));
    assert_eq!(Quotes::save_path(&b64(b"/tmp/q.png")), Some("/tmp/q.png".to_string()));
    q.reset();
    assert!(q.quote.is_none());
}

#[test]
fn shader_source() {
    let mut v = Visualizer::new();
    assert_eq!(v.set(100, "F", "S"), "F\nS\n");
    assert_eq!(v.tickset, 100);
    assert_eq!(v.elapsed(160), 60);
}

#[test]
fn shader_page_source() {
    let mut t = ThrowShade::new();
    assert_eq!(t.tickset, 0);
    assert_eq!(t.set(42, "void main() {}", "x"), "void main() {}\nx\n");
    assert_eq!(t.tickset, 42);
}
