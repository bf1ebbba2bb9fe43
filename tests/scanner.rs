use mudstuck::scanner::{skip_ws, Scanner};

#[test]
fn scanner_walks_characters() {
    let mut s = Scanner::new("aü");
    assert_eq!(s.current(), Some('a'));
    s.next();
    assert_eq!(s.current(), Some('ü'));
    s.next();
    assert_eq!(s.current(), None);
    s.next();
    assert_eq!(s.current(), None);
}

#[test]
fn scanner_on_empty_text_is_at_end() {
    let s = Scanner::new("");
    assert_eq!(s.current(), None);
}

#[test]
fn skip_ws_stops_at_other_characters() {
    let mut s = Scanner::new(" \t\r\nx y");
    skip_ws(&mut s);
    assert_eq!(s.current(), Some('x'));
    skip_ws(&mut s);
    assert_eq!(s.current(), Some('x'));
    let mut e = Scanner::new("   ");
    skip_ws(&mut e);
    assert_eq!(e.current(), None);
}
