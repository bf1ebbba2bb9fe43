use mudstuck::eval::{render, EvalError, Function, RenderError, Value};
use mudstuck::template::{parse, Ast, Context, ParseError};
use mudstuck::types::{Attribute, Entity, World};
use mudstuck::world::make_example_world;

const DOOR: u128 = 7;
const ROOM: u128 = 11;

fn entity(id: u128, name: &[&str], attributes: Vec<Attribute>) -> Entity {
    Entity {
        id,
        name: name.iter().map(|w| w.to_string()).collect(),
        alias: None,
        short_description: String::new(),
        long_description: String::new(),
        attributes,
    }
}

fn door_world(closed: bool) -> World {
    let door = entity(
        DOOR,
        &["rusty", "metal", "door"],
        vec![Attribute::Closable(closed), Attribute::Lockable(false)],
    );
    let room = entity(ROOM, &["small", "rock", "room"], vec![]);
    World::new("test".to_string(), vec![door, room], ROOM).unwrap()
}

#[test]
fn it_works() {}

#[test]
fn plain_text_renders_unchanged() {
    let w = door_world(true);
    assert_eq!(render("plain text", &w).unwrap(), "plain text");
}

#[test]
fn plain_text_with_punctuation_and_umlauts_renders_unchanged() {
    let w = door_world(false);
    let text = "Eine verbeulte, rostige Tür (aus \"Metall\").\n\tEnde";
    assert_eq!(render(text, &w).unwrap(), text);
}

#[test]
fn empty_template_renders_empty() {
    let w = door_world(true);
    assert_eq!(render("", &w).unwrap(), "");
}

#[test]
fn closed_door_selects_first_branch() {
    let w = door_world(true);
    let t = "#(if (closed rusty.metal.door) \"closed\" \"open\")";
    assert_eq!(render(t, &w).unwrap(), "closed");
}

#[test]
fn open_door_selects_second_branch() {
    let w = door_world(false);
    let t = "#(if (closed rusty.metal.door) \"closed\" \"open\")";
    assert_eq!(render(t, &w).unwrap(), "open");
}

#[test]
fn text_around_expressions_is_kept() {
    let w = door_world(true);
    let t = "The door is #(if (closed rusty.metal.door) 'shut' 'ajar')#(if (locked rusty.metal.door) ' and locked' '').";
    assert_eq!(render(t, &w).unwrap(), "The door is shut.");
}

#[test]
fn boolean_result_is_invalid_value() {
    let w = door_world(true);
    let r = render("#(locked rusty.metal.door)", &w);
    assert!(matches!(r, Err(RenderError::Eval(EvalError::InvalidValue))));
}

#[test]
fn undefined_identifier_is_reported() {
    let w = door_world(true);
    match render("#(closed no.such.entity)", &w) {
        Err(RenderError::Eval(EvalError::UndefinedIdentifier(s))) => {
            assert_eq!(s, "no.such.entity")
        }
        other => panic!("unexpected result {:?}", other),
    }
}

#[test]
fn if_with_two_arguments_violates_arity() {
    let w = door_world(true);
    let r = render("#(if (closed rusty.metal.door) \"x\")", &w);
    assert!(matches!(
        r,
        Err(RenderError::Eval(EvalError::TooFewArguments(Function::If, 3, 2)))
    ));
}

#[test]
fn too_many_arguments_name_the_upper_bound() {
    let w = door_world(true);
    let r = render("#(closed rusty.metal.door rusty.metal.door)", &w);
    assert!(matches!(
        r,
        Err(RenderError::Eval(EvalError::TooManyArguments(Function::Closed, 1, 2)))
    ));
}

#[test]
fn unselected_branch_is_never_evaluated() {
    let w = door_world(true);
    let t = "#(if (closed rusty.metal.door) \"yes\" (no.such.entity))";
    assert_eq!(render(t, &w).unwrap(), "yes");
}

#[test]
fn unselected_branch_may_violate_arity() {
    let w = door_world(false);
    let t = "#(if (closed rusty.metal.door) (if 'a') 'no')";
    assert_eq!(render(t, &w).unwrap(), "no");
}

#[test]
fn selected_branch_failure_is_reported() {
    let w = door_world(false);
    let t = "#(if (closed rusty.metal.door) \"yes\" (no.such.entity))";
    match render(t, &w) {
        Err(RenderError::Eval(EvalError::UndefinedIdentifier(s))) => {
            assert_eq!(s, "no.such.entity")
        }
        other => panic!("unexpected result {:?}", other),
    }
}

#[test]
fn rendering_twice_gives_the_same_text() {
    let w = door_world(true);
    let t = "Door: #(if (closed rusty.metal.door) \"closed\" \"open\")";
    let a = render(t, &w).unwrap();
    let b = render(t, &w).unwrap();
    assert_eq!(a, b);
    assert_eq!(a, "Door: closed");
}

#[test]
fn concatenating_two_booleans_fails() {
    let w = door_world(true);
    let r = render("#(closed rusty.metal.door)#(locked rusty.metal.door)", &w);
    assert!(matches!(r, Err(RenderError::Eval(EvalError::InvalidConcatenation))));
}

#[test]
fn concatenating_two_non_strings_fails() {
    let w = door_world(true);
    let ast = Ast::Sequence(
        Box::new(Ast::Id("rusty.metal.door".to_string())),
        Box::new(Ast::Id("if".to_string())),
    );
    assert!(matches!(w.eval(&ast), Err(EvalError::InvalidConcatenation)));
}

#[test]
fn non_boolean_condition_fails() {
    let w = door_world(true);
    let r = render("#(if 'a' 'b' 'c')", &w);
    assert!(matches!(r, Err(RenderError::Eval(EvalError::NonBooleanCondition))));
}

#[test]
fn calling_an_entity_fails() {
    let w = door_world(true);
    let r = render("#(rusty.metal.door)", &w);
    assert!(matches!(r, Err(RenderError::Eval(EvalError::NonFunction))));
}

#[test]
fn closed_needs_an_entity() {
    let w = door_world(true);
    let r = render("#(closed 'door')", &w);
    assert!(matches!(
        r,
        Err(RenderError::Eval(EvalError::NotAnEntity(Function::Closed)))
    ));
}

#[test]
fn missing_attribute_reads_false() {
    let w = door_world(true);
    let t = "#(if (closed small.rock.room) 'closed' 'open')";
    assert_eq!(render(t, &w).unwrap(), "open");
}

#[test]
fn first_entity_with_a_name_wins() {
    let a = entity(1, &["twin"], vec![Attribute::Closable(true)]);
    let b = entity(2, &["twin"], vec![Attribute::Closable(false)]);
    let w = World::new("twins".to_string(), vec![a, b], 1).unwrap();
    let t = "#(if (closed twin) 'first' 'second')";
    assert_eq!(render(t, &w).unwrap(), "first");
}

#[test]
fn duplicate_ids_make_no_world() {
    let a = entity(5, &["a"], vec![]);
    let b = entity(5, &["b"], vec![]);
    assert!(World::new("dup".to_string(), vec![a, b], 5).is_none());
}

#[test]
fn world_maps_ids_to_positions() {
    let w = door_world(true);
    assert_eq!(w.entity_map.get(&DOOR), Some(&0));
    assert_eq!(w.entity_map.get(&ROOM), Some(&1));
    assert_eq!(w.entity(&ROOM).unwrap().id, ROOM);
    assert!(w.entity(&99).is_none());
}

#[test]
fn builtins_evaluate_to_functions() {
    let w = door_world(true);
    let v = w.eval(&Ast::Id("if".to_string())).unwrap();
    assert!(matches!(v, Value::Fun(Function::If, "if", true, 3, 3)));
    let v = w.eval(&Ast::Id("locked".to_string())).unwrap();
    assert!(matches!(v, Value::Fun(Function::Locked, "locked", false, 1, 1)));
}

#[test]
fn identifier_resolves_to_reference() {
    let w = door_world(true);
    let v = w.eval(&Ast::Id("small.rock.room".to_string())).unwrap();
    assert!(matches!(v, Value::Reference(ROOM)));
}

#[test]
fn single_character_evaluates_to_text() {
    let w = door_world(true);
    match w.eval(&Ast::Chr('ß')).unwrap() {
        Value::Str(s) => assert_eq!(s, "ß"),
        other => panic!("unexpected value {:?}", other),
    }
}

#[test]
fn names_split_at_dots() {
    let w = door_world(true);
    assert_eq!(w.from_script_name("a..b"), vec!["a", "", "b"]);
    assert_eq!(w.from_script_name("door"), vec!["door"]);
}

#[test]
fn parse_errors_are_reported() {
    let w = door_world(true);
    assert!(matches!(
        render("#", &w),
        Err(RenderError::Parse(ParseError::UnexpectedEnd(Context::Expression)))
    ));
    assert!(matches!(
        render("#\"abc", &w),
        Err(RenderError::Parse(ParseError::UnexpectedEnd(Context::StringLiteral)))
    ));
    assert!(matches!(
        render("#(closed x", &w),
        Err(RenderError::Parse(ParseError::UnexpectedEnd(Context::Call)))
    ));
    assert!(matches!(
        render("#)", &w),
        Err(RenderError::Parse(ParseError::UnexpectedCharacter(')')))
    ));
    assert!(matches!(
        render("#( 'a')", &w),
        Err(RenderError::Parse(ParseError::IdentifierExpected))
    ));
}

#[test]
fn parse_builds_a_left_nested_sequence() {
    match parse("ab#x#y").unwrap() {
        Ast::Sequence(l, r) => {
            assert!(matches!(*r, Ast::Id(ref s) if s == "y"));
            match *l {
                Ast::Sequence(t, x) => {
                    assert!(matches!(*t, Ast::Str(ref s) if s == "ab"));
                    assert!(matches!(*x, Ast::Id(ref s) if s == "x"));
                }
                other => panic!("unexpected tree {:?}", other),
            }
        }
        other => panic!("unexpected tree {:?}", other),
    }
}

#[test]
fn parse_of_empty_and_single_segments() {
    assert!(matches!(parse("").unwrap(), Ast::Empty));
    assert!(matches!(parse("just text").unwrap(), Ast::Str(ref s) if s == "just text"));
    assert!(matches!(parse("#(locked d)").unwrap(), Ast::Call(_, ref a) if a.len() == 1));
}

#[test]
fn parse_reads_nested_calls() {
    match parse("#(if (closed d) 'a' \"b\")").unwrap() {
        Ast::Call(f, args) => {
            assert!(matches!(*f, Ast::Id(ref s) if s == "if"));
            assert_eq!(args.len(), 3);
            assert!(matches!(args[0], Ast::Call(_, ref inner) if inner.len() == 1));
            assert!(matches!(args[1], Ast::Str(ref s) if s == "a"));
            assert!(matches!(args[2], Ast::Str(ref s) if s == "b"));
        }
        other => panic!("unexpected tree {:?}", other),
    }
}

#[test]
fn example_world_describes_its_door() {
    let w = make_example_world().unwrap();
    assert_eq!(w.entities.len(), 3);
    let door = &w.entities[0];
    assert_eq!(
        render(&door.long_description, &w).unwrap(),
        "Eine verbeulte, rostige Tür aus Metall. Die Tür ist geschlossen."
    );
    let room = &w.entities[1];
    let text = render(&room.long_description, &w).unwrap();
    assert!(text.ends_with("gegenüber ist eine geschlossene Metalltür eingelassen."));
}

#[test]
fn reference_missing_from_the_id_map_is_reported() {
    let door = entity(DOOR, &["door"], vec![Attribute::Closable(true)]);
    let w = World {
        name: "inconsistent".to_string(),
        entities: vec![door],
        entity_map: std::collections::BTreeMap::new(),
        start_location: DOOR,
    };
    let r = render("#(if (closed door) 'a' 'b')", &w);
    assert!(matches!(
        r,
        Err(RenderError::Eval(EvalError::UnknownEntity(DOOR)))
    ));
}
