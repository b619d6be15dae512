//! Combat capability: hit points, attack power and defense.

use vstd::prelude::*;

verus! {

/// The combat attachment of an entity. Well-formed values keep
/// `0 <= hp <= max_hp` and non-negative power and defense.
#[derive(Clone, Copy, Debug, PartialEq, Eq, Structural)]
pub struct Fighter {
    pub max_hp: i32,
    pub hp: i32,
    pub defense: i32,
    pub power: i32,
}

impl Fighter {
    /// Hit points stay within `0 ..= max_hp` and the combat stats are
    /// non-negative, which keeps every damage computation free of overflow.
    pub open spec fn wf(self) -> bool {
        0 <= self.hp <= self.max_hp && 0 <= self.power && 0 <= self.defense
    }

    /// Subtract `damage` hit points, clamped at zero; report whether the
    /// fighter is still standing.
    pub fn take_damage(&mut self, damage: i32) -> (alive: bool)
        requires
            i32::MIN <= old(self).hp - damage <= i32::MAX,
        ensures
            final(self).hp == if old(self).hp - damage < 0 {
                0int
            } else {
                old(self).hp - damage
            },
            final(self).max_hp == old(self).max_hp,
            final(self).defense == old(self).defense,
            final(self).power == old(self).power,
            alive == (final(self).hp > 0),
            old(self).wf() && damage >= 0 ==> final(self).wf(),
    {
        let hp = self.hp - damage;
        self.hp = if hp < 0 {
            0
        } else {
            hp
        };

        self.hp > 0
    }
}

} // verus!
