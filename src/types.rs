//! The world model: entities, their attributes, and the world that holds
//! them.

use vstd::prelude::*;
use std::collections::BTreeMap;
use crate::text::{push_char, same_text};

verus! {

broadcast use vstd::std_specs::btree::group_btree_axioms;

/// The unique, opaque identifier of an entity.
pub type InternalName = u128;

/// A name path: the words by which templates refer to an entity.
pub type Name = Vec<String>;

pub struct PlayerState<'a> {
    pub world: &'a World,
    pub location: InternalName,
}

pub struct World {
    pub name: String,
    pub entities: Vec<Entity>,
    pub entity_map: BTreeMap<InternalName, usize>,
    pub start_location: InternalName,
}

pub struct Entity {
    pub id: InternalName,
    pub name: Name,
    pub alias: Option<String>,
    pub short_description: String,
    pub long_description: String,
    pub attributes: Vec<Attribute>,
}

pub enum Attribute {
    Lockable(bool),
    Closable(bool),
    Doorlike(Connection),
    Roomlike(Room),
    Characterlike(Character),
}

pub struct Connection {
    pub endpoints: (InternalName, InternalName),
}

pub struct Room {
    pub entities: Vec<InternalName>,
}

pub struct Character {
    pub inventory: Vec<InternalName>,
}

/// String to be used as a verb.
pub struct Verb(String);

/// String to be used as a connector word.
pub struct Connector(String);

/// The words of a name, as character sequences.
pub open spec fn words_of(name: Seq<String>) -> Seq<Seq<char>> {
    name.map_values(|w: String| w@)
}

/// The name path of an entity.
pub open spec fn name_path(e: Entity) -> Seq<Seq<char>> {
    words_of(e.name@)
}

/// No two entities share an id.
pub open spec fn ids_distinct(es: Seq<Entity>) -> bool {
    forall|i: int, j: int| 0 <= i < j < es.len() ==> es[i].id != es[j].id
}

/// The index of the first entity at or after `i` whose name path is `path`.
pub open spec fn first_named_from(es: Seq<Entity>, path: Seq<Seq<char>>, i: int) -> Option<int>
    decreases es.len() - i,
{
    if i < 0 || i >= es.len() {
        None
    } else if name_path(es[i]) == path {
        Some(i)
    } else {
        first_named_from(es, path, i + 1)
    }
}

pub proof fn lemma_first_named_from(es: Seq<Entity>, path: Seq<Seq<char>>, i: int)
    ensures
        first_named_from(es, path, i) matches Some(j) ==> 0 <= i <= j < es.len() && name_path(
            es[j],
        ) == path,
    decreases es.len() - i,
{
    if 0 <= i < es.len() && name_path(es[i]) != path {
        lemma_first_named_from(es, path, i + 1);
    }
}

/// The index of the first entity whose name path is `path`.
pub open spec fn first_named(es: Seq<Entity>, path: Seq<Seq<char>>) -> Option<int> {
    first_named_from(es, path, 0)
}

/// The pieces of `t` between occurrences of `sep`, empty ones included.
pub open spec fn split_on(t: Seq<char>, sep: char) -> Seq<Seq<char>>
    decreases t.len(),
{
    if t.len() == 0 {
        seq![Seq::empty()]
    } else {
        let rest = split_on(t.drop_last(), sep);
        if t.last() == sep {
            rest.push(Seq::empty())
        } else {
            rest.update(rest.len() - 1, rest.last().push(t.last()))
        }
    }
}

impl World {
    /// The id map and the entity list agree: each entity's id leads to its
    /// own position, and each key of the map to an entity with that id.
    pub open spec fn wf(&self) -> bool {
        &&& forall|i: int|
            0 <= i < self.entities.len() ==> #[trigger] self.entity_map@.contains_key(
                self.entities@[i].id,
            ) && self.entity_map@[self.entities@[i].id] == i
        &&& forall|k: InternalName| #[trigger]
            self.entity_map@.contains_key(k) ==> self.entity_map@[k] < self.entities.len()
                && self.entities@[self.entity_map@[k] as int].id == k
    }

    /// The position of the entity with id `id`, as the id map gives it.
    pub open spec fn index_of(&self, id: InternalName) -> Option<int> {
        if self.entity_map@.contains_key(id) && self.entity_map@[id] < self.entities.len() {
            Some(self.entity_map@[id] as int)
        } else {
            None
        }
    }

    /// Build a world from its entities; `None` where two of them share an id.
    pub fn new(name: String, entities: Vec<Entity>, start_location: InternalName) -> (r: Option<
        World,
    >)
        ensures
            r is Some <==> ids_distinct(entities@),
            r matches Some(w) ==> w.wf() && w.name == name && w.entities@ == entities@
                && w.start_location == start_location,
    {
        let mut map: BTreeMap<InternalName, usize> = BTreeMap::new();
        let mut i: usize = 0;
        while i < entities.len()
            invariant
                i <= entities.len(),
                ids_distinct(entities@.subrange(0, i as int)),
                forall|j: int|
                    0 <= j < i ==> #[trigger] map@.contains_key(entities@[j].id) && map@[entities@[j].id] == j,
                forall|k: InternalName| #[trigger]
                    map@.contains_key(k) ==> map@[k] < i && entities@[map@[k] as int].id == k,
            decreases entities.len() - i,
        {
            let id = entities[i].id;
            match map.insert(id, i) {
                Some(_) => {
                    let ghost j = map@[id] as int;
                    assert(!ids_distinct(entities@)) by {
                        assert(entities@[j].id == entities@[i as int].id);
                    }
                    return None;
                },
                None => {},
            }
            proof {
                let pre = entities@.subrange(0, i + 1);
                assert forall|a: int, b: int| 0 <= a < b < pre.len() implies #[trigger] pre[a].id
                    != #[trigger] pre[b].id by {
                    if b < i {
                        assert(entities@.subrange(0, i as int)[a] == entities@[a]);
                        assert(entities@.subrange(0, i as int)[b] == entities@[b]);
                    } else {
                        assert(map@.contains_key(entities@[a].id));
                    }
                }
            }
            i = i + 1;
        }
        assert(entities@.subrange(0, i as int) =~= entities@);
        Some(World { name, entities, entity_map: map, start_location })
    }

    /// The entity with the given id, if the world holds one.
    pub fn entity(&self, name: &InternalName) -> (r: Option<&Entity>)
        ensures
            r == (match self.index_of(*name) {
                Some(i) => Some(&self.entities@[i]),
                None => None::<&Entity>,
            }),
    {
        match self.entity_map.get(name) {
            Some(idx) => {
                if *idx < self.entities.len() {
                    Some(&self.entities[*idx])
                } else {
                    None
                }
            },
            None => None,
        }
    }

    /// The id of the first entity, in the world's order, whose name path is
    /// `name`.
    pub fn get_by_name(&self, name: &Name) -> (r: Option<InternalName>)
        ensures
            r == (match first_named(self.entities@, words_of(name@)) {
                Some(i) => Some(self.entities@[i].id),
                None => None::<InternalName>,
            }),
    {
        let mut i: usize = 0;
        while i < self.entities.len()
            invariant
                i <= self.entities.len(),
                first_named(self.entities@, words_of(name@)) == first_named_from(
                    self.entities@,
                    words_of(name@),
                    i as int,
                ),
            decreases self.entities.len() - i,
        {
            if same_path(&self.entities[i].name, name) {
                return Some(self.entities[i].id);
            }
            i = i + 1;
        }
        None
    }

    /// Split a dotted name as it stands in a template into its words.
    pub fn from_script_name(&self, s: &str) -> (r: Name)
        ensures
            words_of(r@) == split_on(s@, '.'),
    {
        split_text(s, '.')
    }
}

/// Split `s` at each occurrence of `sep`, keeping empty pieces.
pub fn split_text(s: &str, sep: char) -> (r: Vec<String>)
    ensures
        words_of(r@) == split_on(s@, sep),
{
    let n = s.unicode_len();
    let mut res: Vec<String> = Vec::new();
    let mut cur = String::new();
    let mut i: usize = 0;
    while i < n
        invariant
            n == s@.len(),
            i <= n,
            words_of(res@).push(cur@) == split_on(s@.subrange(0, i as int), sep),
        decreases n - i,
    {
        let c = s.get_char(i);
        let ghost before = words_of(res@).push(cur@);
        assert(s@.subrange(0, i + 1).drop_last() =~= s@.subrange(0, i as int));
        if c == sep {
            res.push(cur);
            cur = String::new();
            assert(words_of(res@).push(cur@) =~= before.push(Seq::empty()));
        } else {
            push_char(&mut cur, c);
            assert(words_of(res@).push(cur@) =~= before.update(
                before.len() - 1,
                before.last().push(c),
            ));
        }
        i = i + 1;
    }
    res.push(cur);
    assert(s@.subrange(0, n as int) =~= s@);
    assert(words_of(res@) =~= split_on(s@, sep));
    res
}

/// Whether two names have the same words in the same order.
pub fn same_path(a: &Name, b: &Name) -> (r: bool)
    ensures
        r == (words_of(a@) == words_of(b@)),
{
    if a.len() != b.len() {
        assert(words_of(a@).len() != words_of(b@).len());
        return false;
    }
    let mut i: usize = 0;
    while i < a.len()
        invariant
            a.len() == b.len(),
            i <= a.len(),
            forall|j: int| 0 <= j < i ==> a@[j]@ == b@[j]@,
        decreases a.len() - i,
    {
        if !same_text(a[i].as_str(), b[i].as_str()) {
            assert(words_of(a@)[i as int] != words_of(b@)[i as int]);
            return false;
        }
        i = i + 1;
    }
    assert(words_of(a@) =~= words_of(b@));
    true
}

} // verus!
