//! Death transitions, dispatched by a closed tag rather than a stored
//! callback.

use vstd::prelude::*;
use vstd::string::StringExecFns;
use crate::color::Color;
use crate::messages::Messages;
use crate::object::{Object, ObjectView};

verus! {

/// Which death handling a fighter gets when its hit points reach zero.
#[derive(Clone, Copy, Debug, PartialEq, Eq, Structural)]
pub enum DeathCallback {
    Player,
    Monster,
}

/// The player's corpse: glyph and color change to the death marker, the
/// entity otherwise stays intact in its slot.
pub open spec fn spec_player_death(o: ObjectView) -> ObjectView {
    ObjectView { glyph: '%', color: Color::DarkRed, ..o }
}

/// A monster's remains: walkable, stripped of combat and AI capabilities,
/// renamed, drawn as the death marker.
pub open spec fn spec_monster_death(o: ObjectView) -> ObjectView {
    ObjectView {
        glyph: '%',
        color: Color::DarkRed,
        blocks: false,
        fighter: None,
        ai: None,
        name: "remains of "@ + o.name,
        ..o
    }
}

/// The transition a tag selects.
pub open spec fn spec_death(tag: DeathCallback, o: ObjectView) -> ObjectView {
    match tag {
        DeathCallback::Player => spec_player_death(o),
        DeathCallback::Monster => spec_monster_death(o),
    }
}

/// The log line a tag's transition appends.
pub open spec fn spec_death_message(tag: DeathCallback, name: Seq<char>) -> (Seq<char>, Color) {
    match tag {
        DeathCallback::Player => ("You died!"@, Color::Red),
        DeathCallback::Monster => (name + " died!"@, Color::Orange),
    }
}

pub fn player_death(player: &mut Object, messages: &mut Messages)
    ensures
        final(player)@ == spec_player_death(old(player)@),
        final(messages)@ == old(messages)@.push(spec_death_message(
            DeathCallback::Player,
            old(player)@.name,
        )),
{
    messages.add("You died!".to_owned(), Color::Red);

    player.glyph = '%';
    player.color = Color::DarkRed;
}

pub fn monster_death(monster: &mut Object, messages: &mut Messages)
    ensures
        final(monster)@ == spec_monster_death(old(monster)@),
        final(messages)@ == old(messages)@.push(spec_death_message(
            DeathCallback::Monster,
            old(monster)@.name,
        )),
{
    let mut line = monster.name.clone();
    line.append(" died!");
    messages.add(line, Color::Orange);

    monster.glyph = '%';
    monster.color = Color::DarkRed;
    monster.blocks = false;
    monster.fighter = None;
    monster.ai = None;

    let mut renamed = "remains of ".to_owned();
    renamed.append(monster.name.as_str());
    monster.name = renamed;
}

impl DeathCallback {
    /// Apply the death transition this tag selects to `object`, logging the
    /// matching message.
    pub fn callback(self, object: &mut Object, messages: &mut Messages)
        ensures
            final(object)@ == spec_death(self, old(object)@),
            final(messages)@ == old(messages)@.push(spec_death_message(self, old(object)@.name)),
    {
        match self {
            DeathCallback::Player => player_death(object, messages),
            DeathCallback::Monster => monster_death(object, messages),
        }
    }
}

} // verus!
