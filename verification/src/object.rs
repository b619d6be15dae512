//! Entities: positioned actors and items with optional capability
//! attachments.

use vstd::prelude::*;
use crate::color::Color;
use crate::death::DeathCallback;
use crate::fighter::Fighter;

verus! {

/// The AI capability. One variant today; an open tag so that further
/// behaviors can be added later.
#[derive(Clone, Copy, Debug, PartialEq, Eq, Structural)]
pub enum Ai {
    Basic,
}

/// The item capability: what using the entity from the inventory does.
#[derive(Clone, Copy, Debug, PartialEq, Eq, Structural)]
pub enum Item {
    Heal,
}

/// A positioned actor or item. Identity is the index in the owning
/// collection; an entity has no identity beyond its slot. The optional
/// attachments switch combat, AI and item behavior on only where present.
#[derive(Debug)]
pub struct Object {
    pub x: i32,
    pub y: i32,
    pub glyph: char,
    pub color: Color,
    pub name: String,
    pub blocks: bool,
    pub alive: bool,
    pub fighter: Option<(Fighter, DeathCallback)>,
    pub ai: Option<Ai>,
    pub item: Option<Item>,
}

/// The mathematical value of an [`Object`].
#[verifier::ext_equal]
pub ghost struct ObjectView {
    pub x: int,
    pub y: int,
    pub glyph: char,
    pub color: Color,
    pub name: Seq<char>,
    pub blocks: bool,
    pub alive: bool,
    pub fighter: Option<(Fighter, DeathCallback)>,
    pub ai: Option<Ai>,
    pub item: Option<Item>,
}

impl View for Object {
    type V = ObjectView;

    open spec fn view(&self) -> ObjectView {
        ObjectView {
            x: self.x as int,
            y: self.y as int,
            glyph: self.glyph,
            color: self.color,
            name: self.name@,
            blocks: self.blocks,
            alive: self.alive,
            fighter: self.fighter,
            ai: self.ai,
            item: self.item,
        }
    }
}

/// What `take_damage` leaves behind: hit points lowered and clamped at
/// zero, the alive flag dropped when they reach zero, everything else kept.
pub open spec fn spec_after_damage(o: ObjectView, damage: int) -> ObjectView {
    match o.fighter {
        Some((f, tag)) => {
            let new_hp = if f.hp - damage < 0 {
                0int
            } else {
                f.hp - damage
            };
            ObjectView {
                fighter: Some((Fighter { hp: new_hp as i32, ..f }, tag)),
                alive: if new_hp > 0 {
                    o.alive
                } else {
                    false
                },
                ..o
            }
        },
        None => o,
    }
}

/// Whether the entity still stands after `take_damage`: true when it has no
/// combat capability at all, or when hit points stay positive.
pub open spec fn spec_damage_alive(o: ObjectView, damage: int) -> bool {
    match o.fighter {
        Some((f, _)) => f.hp - damage > 0,
        None => true,
    }
}

impl Object {
    pub fn new(x: i32, y: i32, glyph: char, color: Color, name: &str, blocks: bool) -> (o: Object)
        ensures
            o@ == (ObjectView {
                x: x as int,
                y: y as int,
                glyph,
                color,
                name: name@,
                blocks,
                alive: false,
                fighter: None,
                ai: None,
                item: None,
            }),
    {
        Object {
            x,
            y,
            glyph,
            color,
            name: name.to_owned(),
            blocks,
            alive: false,
            fighter: None,
            ai: None,
            item: None,
        }
    }

    pub fn set_pos(&mut self, x: i32, y: i32)
        ensures
            final(self)@ == (ObjectView { x: x as int, y: y as int, ..old(self)@ }),
    {
        self.x = x;
        self.y = y;
    }

    pub fn pos(&self) -> (p: (i32, i32))
        ensures
            p.0 == self.x && p.1 == self.y,
    {
        (self.x, self.y)
    }

    /// Apply `damage` to the combat capability, if any: hit points are
    /// clamped at zero and the entity is marked dead when they reach it.
    /// Returns whether the entity still stands.
    pub fn take_damage(&mut self, damage: i32) -> (alive: bool)
        requires
            old(self)@.fighter matches Some((f, _)) ==> i32::MIN <= f.hp - damage <= i32::MAX,
        ensures
            final(self)@ == spec_after_damage(old(self)@, damage as int),
            alive == spec_damage_alive(old(self)@, damage as int),
    {
        if self.fighter.is_some() {
            let (mut f, tag) = self.fighter.unwrap();
            let still = f.take_damage(damage);
            self.fighter = Some((f, tag));

            if !still {
                self.alive = false;
            }
            still
        } else {
            true
        }
    }
}

} // verus!
