use newton::hub::{Action, Shared};

#[test]
fn switches_follow_their_messages() {
    let mut s = Shared::new();
    assert_eq!(s.handle(5, b"overlay toggle", b"adblock"), Action::Handled);
    let t = s.toggles.get("adblock").unwrap();
    assert!(t.val);
    assert_eq!(t.set_time, 5);
    assert_eq!(s.handle(9, b"overlay toggle", b"adblock"), Action::Handled);
    assert!(!s.toggles.get("adblock").unwrap().val);
    assert_eq!(s.handle(11, b"overlay toggle unset", b"clarity"), Action::Handled);
    assert!(!s.toggles.get("clarity").unwrap().val);
    assert_eq!(s.handle(12, b"overlay toggle set", b"clarity"), Action::Handled);
    let c = s.toggles.get("clarity").unwrap();
    assert!(c.val);
    assert_eq!(c.set_time, 12);
    assert_eq!(s.handle(13, b"overlay toggle set", &[0xff, 0xfe]), Action::Malformed);
    assert_eq!(s.handle(14, b"overlay reset", b""), Action::Reset);
    assert!(s.toggles.get("clarity").is_none());
    assert!(s.toggles.get("adblock").is_none());
}

#[test]
fn information_messages() {
    let mut s = Shared::new();
    assert_eq!(s.handle(1, b"overlay info emacs", &72i32.to_le_bytes()), Action::Handled);
    assert_eq!(s.info.emacs_heartrate, 72);
    assert_eq!(s.handle(1, b"overlay info emacs", &[1, 2, 3]), Action::Malformed);
    assert_eq!(s.info.emacs_heartrate, 72);
    assert_eq!(s.handle(2, b"overlay info credits music", "Ana Ñ".as_bytes()), Action::Handled);
    assert_eq!(s.info.muzak_author.as_deref(), Some("Ana Ñ"));
    assert_eq!(s.handle(3, b"overlay info credits music", &[0xc3]), Action::Malformed);
    assert_eq!(s.info.muzak_author.as_deref(), Some("Ana Ñ"));
    assert_eq!(s.handle(4, b"overlay info credits music clear", b""), Action::Handled);
    assert_eq!(s.info.muzak_author, None);
    assert_eq!(s.handle(5, b"overlay reset", b""), Action::Reset);
    assert_eq!(s.info.emacs_heartrate, 72);
}

#[test]
fn renderer_actions_and_other_topics() {
    let mut s = Shared::new();
    assert_eq!(s.handle(0, b"overlay tracking", b""), Action::Tracking);
    assert_eq!(s.handle(0, b"overlay background frame", b""), Action::BackgroundFrame);
    assert_eq!(s.handle(0, b"overlay info emacs cursor", b""), Action::EmacsCursor);
    assert_eq!(s.handle(0, b"overlay chat", b""), Action::Chat);
    assert_eq!(s.handle(0, b"overlay shader", b"x"), Action::Pass);
    assert_eq!(s.handle(0, b"overlay tcg generate", b"x"), Action::Pass);
    assert_eq!(s.handle(0, b"overlay toggles", b"x"), Action::Pass);
    assert_eq!(s.handle(0, b"", b""), Action::Pass);
    assert!(s.toggles.get("x").is_none());
}
