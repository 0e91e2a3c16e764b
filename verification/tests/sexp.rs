use newton::sexp::{bus_message, is_event, item, string_field, LineError, Sexp};

#[test]
fn bus_lines_split_into_event_and_data() {
    let (event, data) = bus_message("((avatar text) \"aGk=\" \"x\")\n").unwrap();
    assert!(is_event(&event, &["avatar", "text"]));
    assert!(!is_event(&event, &["avatar"]));
    assert!(!is_event(&event, &["avatar", "text", "more"]));
    assert!(!is_event(&event, &["avatar", "toggle"]));
    assert_eq!(string_field(&data, 0), Some("aGk=".to_string()));
    assert_eq!(string_field(&data, 1), Some("x".to_string()));
    assert_eq!(string_field(&data, 2), None);
}

#[test]
fn bus_line_errors() {
    assert_eq!(bus_message("((avatar text)").err(), Some(LineError::Unreadable));
    assert_eq!(bus_message("42").err(), Some(LineError::NotPair));
    assert_eq!(bus_message("()").err(), Some(LineError::NotPair));
}

#[test]
fn fields_of_every_kind() {
    let (event, data) = bus_message("(e 1 -2 3.5 sym \"s\" #(\"v0\" \"v1\") (\"in\"))").unwrap();
    assert_eq!(event, Sexp::Sym("e".to_string()));
    assert_eq!(item(&data, 0), Some(&Sexp::PosInt(1)));
    assert_eq!(item(&data, 1), Some(&Sexp::NegInt(-2)));
    assert_eq!(item(&data, 2), Some(&Sexp::Float));
    assert_eq!(item(&data, 3), Some(&Sexp::Sym("sym".to_string())));
    assert_eq!(string_field(&data, 3), None);
    assert_eq!(string_field(&data, 4), Some("s".to_string()));
    let v = item(&data, 5).unwrap();
    assert_eq!(string_field(v, 1), Some("v1".to_string()));
    assert_eq!(string_field(v, 2), None);
    let inner = item(&data, 6).unwrap();
    assert_eq!(string_field(inner, 0), Some("in".to_string()));
    assert_eq!(item(&data, 7), None);
    let (_, dotted) = bus_message("(e \"a\" . \"b\")").unwrap();
    assert_eq!(string_field(&dotted, 0), Some("a".to_string()));
    assert_eq!(string_field(&dotted, 1), None);
}
