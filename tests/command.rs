use mudstuck::command::{parse, parse_words, Connector, Verb};
use mudstuck::error::Error;

fn message(r: Result<mudstuck::command::Command, Error>) -> &'static str {
    match r {
        Err(Error::CommandParse(m)) => m,
        other => panic!("unexpected result {:?}", other.map(|c| c.verb)),
    }
}

#[test]
fn verb_alone() {
    let c = parse("eat").unwrap();
    assert_eq!(c.verb, Verb::Eat);
    assert!(c.direct_object.is_none());
    assert!(c.indirect_object.is_none());
}

#[test]
fn verb_and_object() {
    let c = parse("get lamp").unwrap();
    assert_eq!(c.verb, Verb::Get);
    assert_eq!(c.direct_object.unwrap(), vec!["lamp"]);
    assert!(c.indirect_object.is_none());
}

#[test]
fn verb_object_connector_object() {
    let c = parse("put the  coin into a purse").unwrap();
    assert_eq!(c.verb, Verb::Put);
    assert_eq!(c.direct_object.unwrap(), vec!["coin"]);
    let (conn, obj) = c.indirect_object.unwrap();
    assert_eq!(conn, Connector::Into);
    assert_eq!(obj, vec!["purse"]);
}

#[test]
fn words_are_lowered() {
    let c = parse("TAKE Brass Lamp").unwrap();
    assert_eq!(c.verb, Verb::Get);
    assert_eq!(c.direct_object.unwrap(), vec!["brass", "lamp"]);
}

#[test]
fn direction_is_a_move() {
    let c = parse("north").unwrap();
    assert_eq!(c.verb, Verb::Move);
    assert_eq!(c.direct_object.unwrap(), vec!["north"]);
}

#[test]
fn empty_command_is_refused() {
    assert_eq!(message(parse("   ")), "command expected");
}

#[test]
fn unknown_verb_is_refused() {
    assert_eq!(message(parse("dance wildly")), "not a valid verb");
}

#[test]
fn connector_needs_an_object() {
    assert_eq!(message(parse("put coin into the")), "indirect object required after connector");
}

#[test]
fn words_are_taken_as_given() {
    let ws = vec!["give".to_string(), "coin".to_string(), "to".to_string(), "troll".to_string(), "with".to_string(), "care".to_string()];
    let c = parse_words(&ws).unwrap();
    assert_eq!(c.verb, Verb::Put);
    assert_eq!(c.direct_object.unwrap(), vec!["coin"]);
    let (conn, obj) = c.indirect_object.unwrap();
    assert_eq!(conn, Connector::To);
    assert_eq!(obj, vec!["troll", "with", "care"]);
}
