use mudstuck::types::PlayerState;
use mudstuck::world::make_example_world;

#[test]
fn look_renders_the_start_location() {
    let w = make_example_world().unwrap();
    let ps = PlayerState { world: &w, location: w.start_location };
    let (short, long) = ps.look().unwrap();
    assert_eq!(short.unwrap(), "Ein kleiner Raum mit Wänden aus rohem Fels");
    assert!(long.unwrap().contains("geschlossene Metalltür"));
}

#[test]
fn look_at_unknown_location_is_none() {
    let w = make_example_world().unwrap();
    let unknown = w.entities.iter().map(|e| e.id).max().unwrap().wrapping_add(1);
    let ps = PlayerState { world: &w, location: unknown };
    assert!(ps.look().is_none());
}

#[test]
fn describe_renders_a_named_entity() {
    let w = make_example_world().unwrap();
    let ps = PlayerState { world: &w, location: w.start_location };
    let (short, long) = ps.describe("rusty.metal.door").unwrap();
    assert_eq!(short.unwrap(), "Metalltür");
    assert_eq!(long.unwrap(), "Eine verbeulte, rostige Tür aus Metall. Die Tür ist geschlossen.");
    assert!(ps.describe("no.such.thing").is_none());
}
