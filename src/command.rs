//! Player commands.  Commands are simple sentences of the form VERB
//! [OBJECT] [CONNECTOR OBJECT], where the first object as well as the
//! connector word and the second object are optional.  Objects are named
//! by one or more words, none of which may be a connector.
//!
//! For example, these commands are well formed:
//!
//! ```text
//! eat
//! get lamp
//! put coin into purse
//! ```

use vstd::prelude::*;
use crate::error::{command_parse_message, Error};
use crate::text::same_text;
use crate::types::{split_on, split_text, words_of, Name};

verus! {

#[derive(Debug)]
pub struct Command {
    pub verb: Verb,
    pub direct_object: Option<Name>,
    pub indirect_object: Option<(Connector, Name)>,
}

#[derive(Debug, Clone, Copy, PartialEq, Eq, Structural)]
pub enum Verb {
    Get,
    Put,
    Use,
    Move,
    Buy,
    Drink,
    Eat,
    Sleep,
}

#[derive(Debug, Clone, Copy, PartialEq, Eq, Structural)]
pub enum Connector {
    Into,
    Onto,
    Under,
    Beside,
    To,
    From,
    With,
}

#[derive(Debug, Clone, Copy, PartialEq, Eq, Structural)]
pub enum Direction {
    North,
    East,
    South,
    West,
}

/// What a command says, with words as character sequences.
pub struct CommandView {
    pub verb: Verb,
    pub direct_object: Option<Seq<Seq<char>>>,
    pub indirect_object: Option<(Connector, Seq<Seq<char>>)>,
}

impl View for Command {
    type V = CommandView;

    open spec fn view(&self) -> CommandView {
        CommandView {
            verb: self.verb,
            direct_object: match self.direct_object {
                Some(n) => Some(words_of(n@)),
                None => None,
            },
            indirect_object: match self.indirect_object {
                Some((c, n)) => Some((c, words_of(n@))),
                None => None,
            },
        }
    }
}

pub open spec fn verb_of(w: Seq<char>) -> Option<Verb> {
    if w == "get"@ || w == "take"@ || w == "acquire"@ {
        Some(Verb::Get)
    } else if w == "put"@ || w == "give"@ || w == "toss"@ || w == "drop"@ {
        Some(Verb::Put)
    } else if w == "use"@ {
        Some(Verb::Use)
    } else if w == "move"@ || w == "go"@ {
        Some(Verb::Move)
    } else if w == "buy"@ {
        Some(Verb::Buy)
    } else if w == "drink"@ {
        Some(Verb::Drink)
    } else if w == "eat"@ {
        Some(Verb::Eat)
    } else if w == "sleep"@ {
        Some(Verb::Sleep)
    } else {
        None
    }
}

pub open spec fn connector_of(w: Seq<char>) -> Option<Connector> {
    if w == "in"@ || w == "into"@ {
        Some(Connector::Into)
    } else if w == "on"@ || w == "onto"@ {
        Some(Connector::Onto)
    } else if w == "under"@ {
        Some(Connector::Under)
    } else if w == "to"@ {
        Some(Connector::To)
    } else if w == "from"@ {
        Some(Connector::From)
    } else if w == "with"@ {
        Some(Connector::With)
    } else {
        None
    }
}

pub open spec fn direction_of(w: Seq<char>) -> Option<Direction> {
    if w == "north"@ {
        Some(Direction::North)
    } else if w == "east"@ {
        Some(Direction::East)
    } else if w == "south"@ {
        Some(Direction::South)
    } else if w == "west"@ {
        Some(Direction::West)
    } else {
        None
    }
}

/// Articles, which commands skip.
pub open spec fn ignored(w: Seq<char>) -> bool {
    w == "a"@ || w == "an"@ || w == "the"@
}

/// The words of `ws` that are not skipped, in order.
pub open spec fn kept(ws: Seq<Seq<char>>) -> Seq<Seq<char>>
    decreases ws.len(),
{
    if ws.len() == 0 {
        Seq::empty()
    } else if ignored(ws.last()) {
        kept(ws.drop_last())
    } else {
        kept(ws.drop_last()).push(ws.last())
    }
}

/// The index of the first connector word at or after `i`, else the length.
pub open spec fn object_end(ws: Seq<Seq<char>>, i: int) -> int
    decreases ws.len() - i,
{
    if 0 <= i < ws.len() && connector_of(ws[i]) is None {
        object_end(ws, i + 1)
    } else {
        i
    }
}

/// The non-empty pieces of `ws`, in order.
pub open spec fn nonempty(ws: Seq<Seq<char>>) -> Seq<Seq<char>>
    decreases ws.len(),
{
    if ws.len() == 0 {
        Seq::empty()
    } else if ws.last().len() == 0 {
        nonempty(ws.drop_last())
    } else {
        nonempty(ws.drop_last()).push(ws.last())
    }
}

/// The command that a list of lower-case words spells, or the message of
/// why it spells none.
pub open spec fn command_of(ws: Seq<Seq<char>>) -> Result<CommandView, Seq<char>> {
    if ws.len() == 0 {
        Err("command expected"@)
    } else {
        let first = ws[0];
        let verb = if direction_of(first) is Some {
            Some(Verb::Move)
        } else {
            verb_of(first)
        };
        let lead = if direction_of(first) is Some {
            seq![first]
        } else {
            Seq::empty()
        };
        match verb {
            None => Err("not a valid verb"@),
            Some(v) => {
                let e = object_end(ws, 1);
                let direct = lead + kept(ws.subrange(1, e));
                let indirect = if e < ws.len() {
                    kept(ws.subrange(e + 1, ws.len() as int))
                } else {
                    Seq::empty()
                };
                if e < ws.len() && indirect.len() == 0 {
                    Err("indirect object required after connector"@)
                } else {
                    Ok(
                        CommandView {
                            verb: v,
                            direct_object: if direct.len() > 0 {
                                Some(direct)
                            } else {
                                None
                            },
                            indirect_object: if indirect.len() > 0 {
                                Some((connector_of(ws[e])->Some_0, indirect))
                            } else {
                                None
                            },
                        },
                    )
                }
            },
        }
    }
}

/// `r` is what `expected` describes.
pub open spec fn command_agrees(r: Result<Command, Error>, expected: Result<CommandView, Seq<char>>) -> bool {
    match r {
        Ok(c) => expected == Ok::<CommandView, Seq<char>>(c@),
        Err(e) => expected is Err && command_parse_message(e) == Some(expected->Err_0),
    }
}

pub uninterp spec fn lower_of(s: Seq<char>) -> Seq<char>;

/// Relies on `str::to_lowercase`: the result depends on the characters alone.
#[verifier::external_body]
fn lowercase(s: &str) -> (r: String)
    ensures
        r@ == lower_of(s@),
{
    s.to_lowercase()
}

/// Return true if the given word should be ignored in commands.
fn is_ignored(s: &str) -> (r: bool)
    ensures
        r == ignored(s@),
{
    same_text(s, "a") || same_text(s, "an") || same_text(s, "the")
}

/// Find the connector matching `s`, if any.
fn find_connector(s: &str) -> (r: Option<Connector>)
    ensures
        r == connector_of(s@),
{
    if same_text(s, "in") || same_text(s, "into") {
        Some(Connector::Into)
    } else if same_text(s, "on") || same_text(s, "onto") {
        Some(Connector::Onto)
    } else if same_text(s, "under") {
        Some(Connector::Under)
    } else if same_text(s, "to") {
        Some(Connector::To)
    } else if same_text(s, "from") {
        Some(Connector::From)
    } else if same_text(s, "with") {
        Some(Connector::With)
    } else {
        None
    }
}

/// Find the verb matching `s`, if any.
fn find_verb(s: &str) -> (r: Option<Verb>)
    ensures
        r == verb_of(s@),
{
    if same_text(s, "get") || same_text(s, "take") || same_text(s, "acquire") {
        Some(Verb::Get)
    } else if same_text(s, "put") || same_text(s, "give") || same_text(s, "toss") || same_text(
        s,
        "drop",
    ) {
        Some(Verb::Put)
    } else if same_text(s, "use") {
        Some(Verb::Use)
    } else if same_text(s, "move") || same_text(s, "go") {
        Some(Verb::Move)
    } else if same_text(s, "buy") {
        Some(Verb::Buy)
    } else if same_text(s, "drink") {
        Some(Verb::Drink)
    } else if same_text(s, "eat") {
        Some(Verb::Eat)
    } else if same_text(s, "sleep") {
        Some(Verb::Sleep)
    } else {
        None
    }
}

/// Find the direction matching `s`, if any.
fn find_direction(s: &str) -> (r: Option<Direction>)
    ensures
        r == direction_of(s@),
{
    if same_text(s, "north") {
        Some(Direction::North)
    } else if same_text(s, "east") {
        Some(Direction::East)
    } else if same_text(s, "south") {
        Some(Direction::South)
    } else if same_text(s, "west") {
        Some(Direction::West)
    } else {
        None
    }
}

/// Interpret a list of lower-case words as a command.
pub fn parse_words(words: &Vec<String>) -> (r: Result<Command, Error>)
    ensures
        command_agrees(r, command_of(words_of(words@))),
{
    let ghost ws = words_of(words@);
    if words.len() == 0 {
        return Err(Error::CommandParse("command expected"));
    }
    let mut direct_object: Vec<String> = Vec::new();
    let verb_str = &words[0];
    let verb = if find_direction(verb_str.as_str()).is_some() {
        direct_object.push(verb_str.clone());
        Verb::Move
    } else {
        match find_verb(verb_str.as_str()) {
            Some(v) => v,
            None => {
                return Err(Error::CommandParse("not a valid verb"));
            },
        }
    };
    let ghost lead = words_of(direct_object@);
    assert(lead == (if direction_of(ws[0]) is Some {
        seq![ws[0]]
    } else {
        Seq::<Seq<char>>::empty()
    })) by {
        if direction_of(ws[0]) is Some {
            assert(lead =~= seq![ws[0]]);
        } else {
            assert(lead =~= Seq::<Seq<char>>::empty());
        }
    }
    // The direct object: the words up to a connector, articles skipped.
    let mut i: usize = 1;
    assert(ws.subrange(1, 1) =~= Seq::<Seq<char>>::empty());
    assert(lead + kept(ws.subrange(1, 1)) =~= lead);
    loop
        invariant
            ws == words_of(words@),
            1 <= i <= words.len(),
            object_end(ws, 1) == object_end(ws, i as int),
            forall|j: int| 1 <= j < i ==> connector_of(#[trigger] ws[j]) is None,
            words_of(direct_object@) == lead + kept(ws.subrange(1, i as int)),
        ensures
            1 <= i <= words.len(),
            object_end(ws, 1) == i,
            i < words.len() ==> connector_of(ws[i as int]) is Some,
            words_of(direct_object@) == lead + kept(ws.subrange(1, i as int)),
        decreases words.len() - i,
    {
        if i >= words.len() {
            break;
        }
        if find_connector(words[i].as_str()).is_some() {
            break;
        }
        let ghost before = words_of(direct_object@);
        assert(ws.subrange(1, i + 1).drop_last() =~= ws.subrange(1, i as int));
        if !is_ignored(words[i].as_str()) {
            direct_object.push(words[i].clone());
            assert(words_of(direct_object@) =~= before.push(ws[i as int]));
            assert(lead + kept(ws.subrange(1, i + 1)) =~= (lead + kept(ws.subrange(1, i as int))).push(ws[i as int]));
        }
        i = i + 1;
    }
    let e = i;
    // The connector, then the indirect object: every remaining word but
    // the articles.
    let mut connector: Option<Connector> = None;
    let mut indirect_object: Vec<String> = Vec::new();
    if e < words.len() {
        connector = find_connector(words[e].as_str());
        i = e + 1;
        assert(ws.subrange(e + 1, e + 1) =~= Seq::<Seq<char>>::empty());
        while i < words.len()
            invariant
                ws == words_of(words@),
                e < i <= words.len(),
                words_of(indirect_object@) == kept(ws.subrange(e + 1, i as int)),
            decreases words.len() - i,
        {
            let ghost before = words_of(indirect_object@);
            assert(ws.subrange(e + 1, i + 1).drop_last() =~= ws.subrange(e + 1, i as int));
            if !is_ignored(words[i].as_str()) {
                indirect_object.push(words[i].clone());
                assert(words_of(indirect_object@) =~= before.push(ws[i as int]));
            }
            i = i + 1;
        }
        assert(ws.subrange(e + 1, i as int) =~= ws.subrange(e + 1, ws.len() as int));
    } else {
        assert(words_of(indirect_object@) =~= Seq::<Seq<char>>::empty());
    }
    assert(e < words.len() ==> connector == connector_of(ws[e as int]));
    assert(words_of(indirect_object@).len() == indirect_object.len());
    assert(words_of(direct_object@).len() == direct_object.len());
    if connector.is_some() && indirect_object.len() == 0 {
        return Err(Error::CommandParse("indirect object required after connector"));
    }
    let cmd = Command {
        verb: verb,
        direct_object: if direct_object.len() > 0 {
            Some(direct_object)
        } else {
            None
        },
        indirect_object: if indirect_object.len() > 0 {
            match connector {
                Some(c) => Some((c, indirect_object)),
                None => None,
            }
        } else {
            None
        },
    };
    Ok(cmd)
}

/// Parse a string as a command: split it at spaces into non-empty words,
/// bring each word to lower case, and interpret the words.
pub fn parse(s: &str) -> (r: Result<Command, Error>)
    ensures
        command_agrees(r, command_of(nonempty(split_on(s@, ' ')).map_values(|w: Seq<char>| lower_of(w)))),
{
    let pieces = split_text(s, ' ');
    let ghost ps = words_of(pieces@);
    let mut words: Vec<String> = Vec::new();
    let mut i: usize = 0;
    assert(ps.subrange(0, 0) =~= Seq::<Seq<char>>::empty());
    assert(words_of(words@) =~= Seq::<Seq<char>>::empty());
    while i < pieces.len()
        invariant
            ps == words_of(pieces@),
            i <= pieces.len(),
            words_of(words@) == nonempty(ps.subrange(0, i as int)).map_values(|w: Seq<char>| lower_of(w)),
        decreases pieces.len() - i,
    {
        let ghost before = nonempty(ps.subrange(0, i as int));
        assert(ps.subrange(0, i + 1).drop_last() =~= ps.subrange(0, i as int));
        if pieces[i].as_str().unicode_len() > 0 {
            let w = lowercase(pieces[i].as_str());
            let ghost prev = words_of(words@);
            let ghost wv = w@;
            assert(wv == lower_of(ps[i as int]));
            words.push(w);
            assert(nonempty(ps.subrange(0, i + 1)) == before.push(ps[i as int]));
            assert(words_of(words@) =~= prev.push(wv));
            assert(before.push(ps[i as int]).map_values(|w: Seq<char>| lower_of(w)) =~= before.map_values(|w: Seq<char>| lower_of(w)).push(wv));
        } else {
            assert(nonempty(ps.subrange(0, i + 1)) == before);
        }
        i = i + 1;
    }
    assert(ps.subrange(0, i as int) =~= ps);
    parse_words(&words)
}

} // verus!
