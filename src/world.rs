//! The example world, and what a player sees in it.

use vstd::prelude::*;
use crate::eval::{attribute_flag, outcome, render_of, Function, RenderError};
use crate::types::{
    first_named, lemma_first_named_from, name_path, split_on, Attribute, Connection, Entity, InternalName,
    PlayerState, Room, World,
};

verus! {

/// Relies on uuid's `Uuid::new_v4` and `Uuid::as_u128`: a random
/// identifier, as an integer.
#[verifier::external_body]
fn fresh_id() -> (r: InternalName) {
    uuid::Uuid::new_v4().as_u128()
}

/// The example world: a closed, unlocked metal door between a small rock
/// room, where play starts, and a cramped rock tunnel.  Its ids are drawn
/// at random; `None` in the unlikely case that two of them coincide.
pub fn make_example_world() -> (r: Option<World>)
    ensures
        r matches Some(w) ==> {
            &&& w.wf()
            &&& w.entities.len() == 3
            &&& name_path(w.entities@[0]) == seq!["rusty"@, "metal"@, "door"@]
            &&& name_path(w.entities@[1]) == seq!["small"@, "rock"@, "room"@]
            &&& name_path(w.entities@[2]) == seq!["cramped"@, "rock"@, "tunnel"@]
            &&& attribute_flag(w.entities@[0].attributes@, Function::Closed)
            &&& !attribute_flag(w.entities@[0].attributes@, Function::Locked)
            &&& w.start_location == w.entities@[1].id
        },
{
    let r1_name = fresh_id();
    let r2_name = fresh_id();
    let d1_name = fresh_id();
    let d1 = Entity {
        id: d1_name,
        name: vec![String::from_str("rusty"), String::from_str("metal"), String::from_str("door")],
        alias: Some(String::from_str("metal_door_1")),
        short_description: String::from_str("Metalltür"),
        long_description: String::from_str(
            "Eine verbeulte, rostige Tür aus Metall.#(if (closed rusty.metal.door) \" Die Tür ist geschlossen.\" \"\")",
        ),
        attributes: vec![
            Attribute::Doorlike(Connection { endpoints: (r1_name, r2_name) }),
            Attribute::Closable(true),
            Attribute::Lockable(false),
        ],
    };
    let r1 = Entity {
        id: r1_name,
        name: vec![String::from_str("small"), String::from_str("rock"), String::from_str("room")],
        alias: None,
        short_description: String::from_str("Ein kleiner Raum mit Wänden aus rohem Fels"),
        long_description: String::from_str(
            "Der Raum hat eine Größe von etwa sechs Quadratmetern. Der Boden, die Decke und die Wände bestehen aus roh behauenem Fels. Der Boden ist mit Schutt bedeckt.  In einer der Wände befindet sich eine zugemauerte Türöffnung, gegenüber ist eine #(if (closed rusty.metal.door) \"geschlossene\" \"geöffnete\")#(if (locked rusty.metal.door) \" verriegelte\" \"\") Metalltür eingelassen.",
        ),
        attributes: vec![Attribute::Roomlike(Room { entities: vec![d1_name] })],
    };
    let r2 = Entity {
        id: r2_name,
        name: vec![String::from_str("cramped"), String::from_str("rock"), String::from_str("tunnel")],
        alias: None,
        short_description: String::from_str("Ein niedriger Felstunnel"),
        long_description: String::from_str(
            "Ein schmaler, niedriger Tunnel, etwa 1,70 Meter hoch und einen Meter breit. Der Tunnel führt leicht bergab und hat an beiden Enden Metalltüren",
        ),
        attributes: vec![Attribute::Roomlike(Room { entities: vec![d1_name] })],
    };
    let entities = vec![d1, r1, r2];
    let r = World::new(String::from_str("Example World"), entities, r1_name);
    proof {
        if r is Some {
            let w = r->Some_0;
            reveal_with_fuel(attribute_flag, 3);
            assert(name_path(w.entities@[0]) =~= seq!["rusty"@, "metal"@, "door"@]);
            assert(name_path(w.entities@[1]) =~= seq!["small"@, "rock"@, "room"@]);
            assert(name_path(w.entities@[2]) =~= seq!["cramped"@, "rock"@, "tunnel"@]);
            assert(w.entities@[0].attributes@[1] == Attribute::Closable(true));
        }
    }
    r
}

/// The short and the long description of an entity, each rendered.
pub type Descriptions = (Result<String, RenderError>, Result<String, RenderError>);

/// `d` holds the rendered descriptions of the entity at index `i`.
pub open spec fn describes(w: &World, i: int, d: Descriptions) -> bool {
    &&& outcome(d.0) == render_of(w, w.entities@[i].short_description@)
    &&& outcome(d.1) == render_of(w, w.entities@[i].long_description@)
}

impl<'a> PlayerState<'a> {
    fn descriptions(w: &World, ent: &Entity) -> (r: Descriptions)
        ensures
            outcome(r.0) == render_of(w, ent.short_description@),
            outcome(r.1) == render_of(w, ent.long_description@),
    {
        (w.eval_str(ent.short_description.as_str()), w.eval_str(ent.long_description.as_str()))
    }

    /// The rendered descriptions of the player's location; `None` where
    /// the world holds no entity with that id.
    pub fn look(&self) -> (r: Option<Descriptions>)
        ensures
            match self.world.index_of(self.location) {
                Some(i) => r matches Some(d) && describes(self.world, i, d),
                None => r is None,
            },
    {
        let w = self.world;
        match w.entity(&self.location) {
            Some(loc) => Some(Self::descriptions(w, loc)),
            None => None,
        }
    }

    /// The rendered descriptions of the first entity whose name path is
    /// the dotted `name`; `None` where no entity has that name (or, in a
    /// world whose id map is inconsistent, where its id leads nowhere).
    pub fn describe(&self, name: &str) -> (r: Option<Descriptions>)
        ensures
            match first_named(self.world.entities@, split_on(name@, '.')) {
                Some(i) => match self.world.index_of(self.world.entities@[i].id) {
                    Some(k) => r matches Some(d) && describes(self.world, k, d),
                    None => r is None,
                },
                None => r is None,
            },
            self.world.wf() ==> match first_named(self.world.entities@, split_on(name@, '.')) {
                Some(i) => r matches Some(d) && describes(self.world, i, d),
                None => r is None,
            },
    {
        let w = self.world;
        match w.get_by_name(&w.from_script_name(name)) {
            None => None,
            Some(n) => {
                proof {
                    lemma_first_named_from(w.entities@, split_on(name@, '.'), 0);
                    let i = first_named(w.entities@, split_on(name@, '.'))->Some_0;
                    if w.wf() {
                        assert(w.entity_map@.contains_key(w.entities@[i].id));
                    }
                }
                match w.entity(&n) {
                    Some(ent) => Some(Self::descriptions(w, ent)),
                    None => None,
                }
            },
        }
    }
}

} // verus!
