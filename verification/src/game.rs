//! The turn engine: owns the map, the entity collection, the inventory and
//! the message log, and resolves movement, combat, pickups, item use and
//! the AI pass.

use vstd::prelude::*;
use vstd::string::StringExecFns;
use crate::color::Color;
use crate::config::Config;
use crate::death::{spec_death, spec_death_message, DeathCallback};
use crate::decimal::{dec_string, spec_dec};
use crate::fighter::Fighter;
use crate::map::{room_interior, rooms_connected, GameMap, MapView};
use crate::map::lemma_center_in_room;
use crate::messages::Messages;
use crate::object::{spec_after_damage, spec_damage_alive, Ai, Item, Object, ObjectView};
use crate::rng::rng_range;
use crate::vis::{VisView, Visibility};

verus! {

/// The entity collection slot reserved for the player. It is never
/// reassigned or removed while the game runs.
pub const PLAYER: usize = 0;

/// The whole engine state. Entities live in `objects`, identified by their
/// index; dead monsters stay in their slot as walkable remains, so indices
/// stay stable except across `pick_item_up`, which swap-removes.
pub struct Game {
    pub map: GameMap,
    pub objects: Vec<Object>,
    pub inventory: Vec<Object>,
    pub messages: Messages,
}

/// The mathematical value of a [`Game`].
#[verifier::ext_equal]
pub ghost struct GameView {
    pub map: MapView,
    pub objects: Seq<ObjectView>,
    pub inventory: Seq<ObjectView>,
    pub messages: Seq<(Seq<char>, Color)>,
}

impl View for Game {
    type V = GameView;

    open spec fn view(&self) -> GameView {
        GameView {
            map: self.map@,
            objects: Seq::new(self.objects@.len() as nat, |i: int| self.objects@[i]@),
            inventory: Seq::new(self.inventory@.len() as nat, |i: int| self.inventory@[i]@),
            messages: self.messages@,
        }
    }
}

/// An entity in the world stands on an in-bounds, walkable cell, and its
/// combat capability, if any, is well-formed.
pub open spec fn obj_ok(m: MapView, o: ObjectView) -> bool {
    &&& m.in_bounds(o.x, o.y)
    &&& !m.tile_at(o.x, o.y).blocked
    &&& (o.fighter matches Some(p) ==> p.0.wf())
}

/// The engine invariant: a well-formed map, the player slot occupied, and
/// every world entity on a walkable cell with a well-formed fighter.
pub open spec fn wf_game(g: GameView) -> bool {
    &&& g.map.wf()
    &&& 1 <= g.objects.len()
    &&& forall|i: int| 0 <= i < g.objects.len() ==> obj_ok(g.map, #[trigger] g.objects[i])
}

/// Movement into `(x, y)` is barred, by terrain or by a blocking entity.
pub open spec fn spec_blocked_at(g: GameView, x: int, y: int) -> bool {
    g.map.tile_at(x, y).blocked || exists|k: int|
        0 <= k < g.objects.len() && (#[trigger] g.objects[k]).blocks && g.objects[k].x == x
            && g.objects[k].y == y
}

/// What `move_by` does: step the entity unless the destination is barred;
/// a barred move is silently absorbed.
pub open spec fn spec_move_by(g: GameView, id: int, dx: int, dy: int) -> GameView {
    let o = g.objects[id];
    if !spec_blocked_at(g, o.x + dx, o.y + dy) {
        GameView { objects: g.objects.update(id, ObjectView { x: o.x + dx, y: o.y + dy, ..o }), ..g }
    } else {
        g
    }
}

/// The log line for a landed hit: "A attacks B for N hit points".
pub open spec fn attack_hit_message(an: Seq<char>, dn: Seq<char>, dmg: int) -> Seq<char> {
    an + " attacks "@ + dn + " for "@ + spec_dec(dmg) + " hit points"@
}

/// The log line for a blow that bounced off: "A attacks B but it has no
/// effect".
pub open spec fn attack_no_effect_message(an: Seq<char>, dn: Seq<char>) -> Seq<char> {
    an + " attacks "@ + dn + " but it has no effect"@
}

/// What `attack` does. Damage is attacker power minus defender defense.
/// Non-positive damage changes nothing and logs a no-effect line. Positive
/// damage logs a hit line and lowers the defender's hit points, clamped at
/// zero; when they reach zero the defender is marked dead and its death
/// transition runs, appending its own line. The attacker is untouched.
pub open spec fn spec_attack(g: GameView, id: int, other: int) -> GameView {
    match (g.objects[id].fighter, g.objects[other].fighter) {
        (Some((af, _)), Some((df, dtag))) => {
            let a = g.objects[id];
            let d = g.objects[other];
            let dmg = af.power - df.defense;
            if dmg > 0 {
                let g1 = GameView {
                    messages: g.messages.push(
                        (attack_hit_message(a.name, d.name, dmg), Color::White),
                    ),
                    ..g
                };
                let d1 = spec_after_damage(d, dmg);
                let g2 = GameView { objects: g1.objects.update(other, d1), ..g1 };
                if spec_damage_alive(d, dmg) {
                    g2
                } else {
                    GameView {
                        objects: g2.objects.update(other, spec_death(dtag, d1)),
                        messages: g2.messages.push(spec_death_message(dtag, d1.name)),
                        ..g2
                    }
                }
            } else {
                GameView {
                    messages: g.messages.push(
                        (attack_no_effect_message(a.name, d.name), Color::White),
                    ),
                    ..g
                }
            }
        },
        _ => g,
    }
}

/// The first entity standing on `(x, y)` that carries a combat capability,
/// scanning from slot `k` upward.
pub open spec fn spec_find_target(objs: Seq<ObjectView>, x: int, y: int, k: int) -> Option<int>
    decreases objs.len() - k,
{
    if k < 0 || k >= objs.len() {
        None
    } else if objs[k].x == x && objs[k].y == y && objs[k].fighter is Some {
        Some(k)
    } else {
        spec_find_target(objs, x, y, k + 1)
    }
}

/// A found target really stands on the queried cell and can fight.
proof fn lemma_find_target_some(objs: Seq<ObjectView>, x: int, y: int, k: int, t: int)
    requires
        spec_find_target(objs, x, y, k) == Some(t),
    ensures
        0 <= t < objs.len(),
        objs[t].x == x,
        objs[t].y == y,
        objs[t].fighter is Some,
    decreases objs.len() - k,
{
    if k < 0 || k >= objs.len() {
    } else if objs[k].x == x && objs[k].y == y && objs[k].fighter is Some {
    } else {
        lemma_find_target_some(objs, x, y, k + 1, t);
    }
}

/// What `player_move_or_attack` does: exactly one of attack or move. If
/// the destination cell holds an entity with a combat capability, the
/// player attacks it; otherwise the player moves (a blocked cell absorbs
/// the move silently).
pub open spec fn spec_player_move_or_attack(g: GameView, dx: int, dy: int) -> GameView {
    let px = g.objects[0].x;
    let py = g.objects[0].y;
    match spec_find_target(g.objects, px + dx, py + dy, 0) {
        Some(t) => spec_attack(g, 0, t),
        None => spec_move_by(g, 0, dx, dy),
    }
}

/// What `pick_item_up` does. A full inventory (26 slots) refuses with a
/// log line and changes nothing else. Otherwise the entity is swap-removed
/// from the world (the last entity fills its slot, so world indices are
/// not stable across a pickup) and appended to the inventory.
pub open spec fn spec_pick_item_up(g: GameView, id: int) -> GameView {
    if g.inventory.len() >= 26 {
        GameView {
            messages: g.messages.push(
                ("Cannot pick up "@ + g.objects[id].name + ". Inventory is full."@, Color::Red),
            ),
            ..g
        }
    } else {
        let item = g.objects[id];
        GameView {
            objects: g.objects.update(id, g.objects.last()).drop_last(),
            inventory: g.inventory.push(item),
            messages: g.messages.push(("You picked up a "@ + item.name + "!"@, Color::Green)),
            ..g
        }
    }
}

/// What `cast_heal` does, with the flag saying whether the charge was
/// spent. At full health the cast is refused with a log line; otherwise
/// the player's hit points return to the maximum.
pub open spec fn spec_cast_heal(g: GameView) -> (GameView, bool) {
    match g.objects[0].fighter {
        Some((f, tag)) => {
            if f.hp == f.max_hp {
                (
                    GameView {
                        messages: g.messages.push(
                            ("You are already at full health."@, Color::Red),
                        ),
                        ..g
                    },
                    false,
                )
            } else {
                let healed = ObjectView {
                    fighter: Some((Fighter { hp: f.max_hp, ..f }, tag)),
                    ..g.objects[0]
                };
                (
                    GameView {
                        objects: g.objects.update(0, healed),
                        messages: g.messages.push(
                            ("Your wounds start to feel better!"@, Color::LightViolet),
                        ),
                        ..g
                    },
                    true,
                )
            }
        },
        None => (g, false),
    }
}

/// What `use_item` does. A Heal item heals the player and is consumed only
/// if it had an effect; a cancelled use keeps it and logs "Cancelled". An
/// entity without an item capability only logs that it cannot be used.
pub open spec fn spec_use_item(g: GameView, idx: int) -> GameView {
    match g.inventory[idx].item {
        Some(Item::Heal) => {
            let r = spec_cast_heal(g);
            if r.1 {
                GameView { inventory: r.0.inventory.remove(idx), ..r.0 }
            } else {
                GameView { messages: r.0.messages.push(("Cancelled"@, Color::White)), ..r.0 }
            }
        },
        None => GameView {
            messages: g.messages.push(
                ("The "@ + g.inventory[idx].name + " cannot be used."@, Color::White),
            ),
            ..g
        },
    }
}

/// One axis of the step a chasing monster takes: the normalized direction
/// component `a / sqrt(a*a + b*b)` rounded to the nearest of -1, 0, 1.
/// Rounding up happens exactly when `|a| / sqrt(a*a + b*b) > 1/2`, that is
/// when `3*a*a > b*b`; the boundary `3*a*a == b*b` has no solution in
/// non-zero integers, so the comparison is exact. Both axes can round to a
/// unit at once, which yields diagonal steps.
pub open spec fn spec_step(a: int, b: int) -> int {
    if 3 * (a * a) > b * b {
        if a > 0 {
            1int
        } else {
            -1int
        }
    } else {
        0int
    }
}

/// What `move_towards` does: step `id` one cell along the rounded
/// direction toward `target`, through the same blocking check as any other
/// movement (so a monster can stall against obstacles).
pub open spec fn spec_move_towards(g: GameView, id: int, target: int) -> GameView {
    let dx = g.objects[target].x - g.objects[id].x;
    let dy = g.objects[target].y - g.objects[id].y;
    spec_move_by(g, id, spec_step(dx, dy), spec_step(dy, dx))
}

/// What one AI invocation does. A monster outside the player's view
/// sleeps. A visible one approaches while the squared distance to the
/// player is at least 4 (Euclidean distance at least 2); adjacent — even
/// diagonally — it attacks instead, provided it can fight and the player
/// is alive with positive hit points. Exactly one of {move, attack,
/// nothing} per invocation.
pub open spec fn spec_ai_turn(g: GameView, id: int, vis: VisView) -> GameView {
    let o = g.objects[id];
    if vis.at(o.x, o.y) {
        let p = g.objects[0];
        let dx = p.x - o.x;
        let dy = p.y - o.y;
        if dx * dx + dy * dy >= 4 {
            spec_move_towards(g, id, 0)
        } else if o.fighter is Some && (p.fighter matches Some(pf) && pf.0.hp > 0) {
            spec_attack(g, id, 0)
        } else {
            g
        }
    } else {
        g
    }
}

/// One slot of the AI pass: non-player entities that are alive and carry
/// an AI capability get their turn; every other slot is skipped.
pub open spec fn spec_ai_step(g: GameView, id: int, vis: VisView) -> GameView {
    if id != 0 && g.objects[id].alive && g.objects[id].ai is Some {
        spec_ai_turn(g, id, vis)
    } else {
        g
    }
}

/// `n` AI slots resolved in order, starting at slot `k`.
pub open spec fn spec_update_count(g: GameView, vis: VisView, k: int, n: nat) -> GameView
    decreases n,
{
    if n == 0 {
        g
    } else {
        spec_update_count(spec_ai_step(g, k, vis), vis, k + 1, (n - 1) as nat)
    }
}

/// What `update_objects` does: every slot gets its AI step, in index
/// order, player slot skipped — the fixed deterministic order the engine
/// promises.
pub open spec fn spec_update_objects(g: GameView, vis: VisView) -> GameView {
    spec_update_count(g, vis, 0, g.objects.len())
}

/// Unrolling a fold of AI steps from its tail: doing `n + 1` steps is
/// doing `n` and then one more.
proof fn lemma_update_snoc(g: GameView, vis: VisView, k: int, n: nat)
    ensures
        spec_update_count(g, vis, k, (n + 1) as nat) == spec_ai_step(
            spec_update_count(g, vis, k, n),
            k + n,
            vis,
        ),
    decreases n,
{
    if n == 0 {
        assert(spec_update_count(g, vis, k, 0) == g);
        assert(spec_update_count(spec_ai_step(g, k, vis), vis, k + 1, 0) == spec_ai_step(
            g,
            k,
            vis,
        ));
        assert(spec_update_count(g, vis, k, 1nat) == spec_ai_step(g, k, vis));
    } else {
        lemma_update_snoc(spec_ai_step(g, k, vis), vis, k + 1, (n - 1) as nat);
        assert(spec_update_count(g, vis, k, (n + 1) as nat) == spec_update_count(
            spec_ai_step(g, k, vis),
            vis,
            k + 1,
            n,
        ));
        assert(spec_update_count(g, vis, k, n) == spec_update_count(
            spec_ai_step(g, k, vis),
            vis,
            k + 1,
            (n - 1) as nat,
        ));
    }
}

/// An AI slot leaves the map, the inventory and the entity count alone.
proof fn lemma_step_frame(g: GameView, id: int, vis: VisView)
    requires
        1 <= g.objects.len(),
        0 <= id < g.objects.len(),
    ensures
        spec_ai_step(g, id, vis).map == g.map,
        spec_ai_step(g, id, vis).inventory == g.inventory,
        spec_ai_step(g, id, vis).objects.len() == g.objects.len(),
{
    if id != 0 && g.objects[id].alive && g.objects[id].ai is Some {
        let o = g.objects[id];
        let p = g.objects[0];
        if vis.at(o.x, o.y) {
            let dx = p.x - o.x;
            let dy = p.y - o.y;
            if dx * dx + dy * dy >= 4 {
                assert(spec_ai_turn(g, id, vis) == spec_move_towards(g, id, 0));
            } else if o.fighter is Some && (p.fighter matches Some(pf) && pf.0.hp > 0) {
                assert(spec_ai_turn(g, id, vis) == spec_attack(g, id, 0));
                assert(spec_attack(g, id, 0).objects.len() == g.objects.len());
            }
        }
    }
}

/// The rounded unit step along one axis, exactly as [`spec_step`] states.
fn step_of(a: i32, b: i32) -> (r: i32)
    requires
        -2048 <= a <= 2048,
        -2048 <= b <= 2048,
    ensures
        r as int == spec_step(a as int, b as int),
        -1 <= r <= 1,
{
    proof {
        let ai = a as int;
        let bi = b as int;
        assert(0 <= ai * ai <= 4194304 && 0 <= bi * bi <= 4194304) by (nonlinear_arith)
            requires
                -2048 <= ai <= 2048,
                -2048 <= bi <= 2048,
        ;
    }
    let aa = a * a;
    let bb = b * b;
    if 3 * aa > bb {
        if a > 0 {
            1
        } else {
            -1
        }
    } else {
        0
    }
}

/// The combat stats of an entity known to carry them.
pub open spec fn fighter_of(o: ObjectView) -> Fighter {
    match o.fighter {
        Some((f, _)) => f,
        None => Fighter { max_hp: 0, hp: 0, defense: 0, power: 0 },
    }
}

/// The death tag of an entity known to carry a combat capability.
pub open spec fn death_tag_of(o: ObjectView) -> DeathCallback {
    match o.fighter {
        Some((_, tag)) => tag,
        None => DeathCallback::Monster,
    }
}

/// Law: an attack whose power does not exceed the defender's defense
/// changes no entity at all; it only appends the no-effect line.
pub proof fn lemma_attack_no_effect(g: GameView, id: int, other: int)
    requires
        0 <= id < g.objects.len(),
        0 <= other < g.objects.len(),
        id != other,
        g.objects[id].fighter is Some,
        g.objects[other].fighter is Some,
        fighter_of(g.objects[id]).power <= fighter_of(g.objects[other]).defense,
    ensures
        spec_attack(g, id, other).objects == g.objects,
        spec_attack(g, id, other).inventory == g.inventory,
        spec_attack(g, id, other).map == g.map,
        spec_attack(g, id, other).messages == g.messages.push(
            (attack_no_effect_message(g.objects[id].name, g.objects[other].name), Color::White),
        ),
{
}

/// Law: an attack with strictly greater power lowers the defender's hit
/// points by exactly power minus defense. While the defender survives,
/// that is the only change to any entity, and the hit line is appended.
pub proof fn lemma_attack_hit(g: GameView, id: int, other: int)
    requires
        0 <= id < g.objects.len(),
        0 <= other < g.objects.len(),
        id != other,
        g.objects[id].fighter is Some,
        g.objects[other].fighter is Some,
        fighter_of(g.objects[id]).power > fighter_of(g.objects[other]).defense,
        fighter_of(g.objects[other]).hp > fighter_of(g.objects[id]).power - fighter_of(
            g.objects[other],
        ).defense,
    ensures
        spec_attack(g, id, other).objects == g.objects.update(
            other,
            spec_after_damage(
                g.objects[other],
                fighter_of(g.objects[id]).power - fighter_of(g.objects[other]).defense,
            ),
        ),
        fighter_of(spec_attack(g, id, other).objects[other]).hp == fighter_of(g.objects[other]).hp
            - (fighter_of(g.objects[id]).power - fighter_of(g.objects[other]).defense),
        spec_attack(g, id, other).objects[other].alive == g.objects[other].alive,
        spec_attack(g, id, other).objects[id] == g.objects[id],
        spec_attack(g, id, other).inventory == g.inventory,
        spec_attack(g, id, other).map == g.map,
        spec_attack(g, id, other).messages == g.messages.push(
            (
                attack_hit_message(
                    g.objects[id].name,
                    g.objects[other].name,
                    fighter_of(g.objects[id]).power - fighter_of(g.objects[other]).defense,
                ),
                Color::White,
            ),
        ),
{
}

/// Law: an attack that brings the defender's hit points to zero marks it
/// dead and applies exactly the death transition its tag selects, once. A
/// dead monster loses its combat and AI capabilities, stops blocking and
/// is renamed; a dead player keeps a combat capability pinned at zero hit
/// points. The attacker is untouched, and exactly the hit line and the
/// death line are appended.
pub proof fn lemma_attack_kill(g: GameView, id: int, other: int)
    requires
        0 <= id < g.objects.len(),
        0 <= other < g.objects.len(),
        id != other,
        g.objects[id].fighter is Some,
        g.objects[other].fighter is Some,
        fighter_of(g.objects[id]).power > fighter_of(g.objects[other]).defense,
        fighter_of(g.objects[other]).hp <= fighter_of(g.objects[id]).power - fighter_of(
            g.objects[other],
        ).defense,
    ensures
        spec_attack(g, id, other).objects[other] == spec_death(
            death_tag_of(g.objects[other]),
            spec_after_damage(
                g.objects[other],
                fighter_of(g.objects[id]).power - fighter_of(g.objects[other]).defense,
            ),
        ),
        !spec_attack(g, id, other).objects[other].alive,
        death_tag_of(g.objects[other]) == DeathCallback::Player ==> spec_attack(
            g,
            id,
            other,
        ).objects[other].fighter == Some(
            (
                Fighter { hp: 0, ..fighter_of(g.objects[other]) },
                DeathCallback::Player,
            ),
        ),
        death_tag_of(g.objects[other]) == DeathCallback::Monster ==> {
            &&& spec_attack(g, id, other).objects[other].fighter is None
            &&& spec_attack(g, id, other).objects[other].ai is None
            &&& !spec_attack(g, id, other).objects[other].blocks
            &&& spec_attack(g, id, other).objects[other].name == "remains of "@ + g.objects[
                other
            ].name
        },
        spec_attack(g, id, other).objects[id] == g.objects[id],
        spec_attack(g, id, other).objects.len() == g.objects.len(),
        spec_attack(g, id, other).messages == g.messages.push(
            (
                attack_hit_message(
                    g.objects[id].name,
                    g.objects[other].name,
                    fighter_of(g.objects[id]).power - fighter_of(g.objects[other]).defense,
                ),
                Color::White,
            ),
        ).push(
            spec_death_message(death_tag_of(g.objects[other]), g.objects[other].name),
        ),
{
}

/// Law: with the inventory at its 26-slot cap, a pickup changes neither
/// the world collection nor the inventory; only the refusal is logged.
pub proof fn lemma_pick_up_full(g: GameView, id: int)
    requires
        0 <= id < g.objects.len(),
        g.inventory.len() >= 26,
    ensures
        spec_pick_item_up(g, id).objects == g.objects,
        spec_pick_item_up(g, id).inventory == g.inventory,
        spec_pick_item_up(g, id).messages == g.messages.push(
            ("Cannot pick up "@ + g.objects[id].name + ". Inventory is full."@, Color::Red),
        ),
{
}

/// Law: with room left in the inventory, a pickup moves exactly the
/// target entity from the world to the inventory: the world count drops
/// by one and the entity arrives at the end of the inventory.
pub proof fn lemma_pick_up_moves(g: GameView, id: int)
    requires
        0 <= id < g.objects.len(),
        g.inventory.len() < 26,
    ensures
        spec_pick_item_up(g, id).objects.len() == g.objects.len() - 1,
        spec_pick_item_up(g, id).inventory == g.inventory.push(g.objects[id]),
        spec_pick_item_up(g, id).messages == g.messages.push(
            ("You picked up a "@ + g.objects[id].name + "!"@, Color::Green),
        ),
{
}

/// Law: using a Heal item with the player already at full health changes
/// neither the inventory nor any entity; the log shows the refusal and
/// the cancellation.
pub proof fn lemma_use_heal_at_full(g: GameView, idx: int)
    requires
        1 <= g.objects.len(),
        0 <= idx < g.inventory.len(),
        g.inventory[idx].item == Some(Item::Heal),
        g.objects[0].fighter is Some,
        fighter_of(g.objects[0]).hp == fighter_of(g.objects[0]).max_hp,
    ensures
        spec_use_item(g, idx).objects == g.objects,
        spec_use_item(g, idx).inventory == g.inventory,
        spec_use_item(g, idx).messages == g.messages.push(
            ("You are already at full health."@, Color::Red),
        ).push(("Cancelled"@, Color::White)),
{
}

/// Law: using a Heal item with the player below full health restores the
/// player to full hit points and consumes the item: the inventory count
/// drops by one.
pub proof fn lemma_use_heal_heals(g: GameView, idx: int)
    requires
        1 <= g.objects.len(),
        0 <= idx < g.inventory.len(),
        g.inventory[idx].item == Some(Item::Heal),
        g.objects[0].fighter is Some,
        fighter_of(g.objects[0]).hp < fighter_of(g.objects[0]).max_hp,
    ensures
        fighter_of(spec_use_item(g, idx).objects[0]).hp == fighter_of(g.objects[0]).max_hp,
        spec_use_item(g, idx).inventory == g.inventory.remove(idx),
        spec_use_item(g, idx).inventory.len() == g.inventory.len() - 1,
        spec_use_item(g, idx).messages == g.messages.push(
            ("Your wounds start to feel better!"@, Color::LightViolet),
        ),
{
}

/// The squared Euclidean distance from entity `id` to the player.
pub open spec fn player_dist_squared(g: GameView, id: int) -> int {
    let dx = g.objects[0].x - g.objects[id].x;
    let dy = g.objects[0].y - g.objects[id].y;
    dx * dx + dy * dy
}

/// Law: a visible monster at squared distance at least 4 (Euclidean
/// distance at least 2) approaches: its turn is exactly one rounded step
/// toward the player.
pub proof fn lemma_ai_visible_far_approaches(g: GameView, id: int, vis: VisView)
    requires
        0 <= id < g.objects.len(),
        1 <= g.objects.len(),
        vis.at(g.objects[id].x, g.objects[id].y),
        player_dist_squared(g, id) >= 4,
    ensures
        spec_ai_turn(g, id, vis) == spec_move_towards(g, id, 0),
{
}

/// Law: a visible monster adjacent to the player (squared distance under
/// 4, diagonals included) attacks instead of moving, provided it can
/// fight and the player stands with positive hit points.
pub proof fn lemma_ai_adjacent_attacks(g: GameView, id: int, vis: VisView)
    requires
        0 <= id < g.objects.len(),
        1 <= g.objects.len(),
        vis.at(g.objects[id].x, g.objects[id].y),
        player_dist_squared(g, id) < 4,
        g.objects[id].fighter is Some,
        g.objects[0].fighter is Some,
        fighter_of(g.objects[0]).hp > 0,
    ensures
        spec_ai_turn(g, id, vis) == spec_attack(g, id, 0),
{
}

/// An orc as generation spawns it at `(x, y)`.
pub open spec fn spec_orc(x: int, y: int) -> ObjectView {
    ObjectView {
        x,
        y,
        glyph: 'o',
        color: Color::DesaturatedGreen,
        name: "orc"@,
        blocks: true,
        alive: true,
        fighter: Some(
            (Fighter { max_hp: 10, hp: 10, defense: 0, power: 3 }, DeathCallback::Monster),
        ),
        ai: Some(Ai::Basic),
        item: None,
    }
}

/// A troll as generation spawns it at `(x, y)`.
pub open spec fn spec_troll(x: int, y: int) -> ObjectView {
    ObjectView {
        x,
        y,
        glyph: 'T',
        color: Color::DarkerGreen,
        name: "troll"@,
        blocks: true,
        alive: true,
        fighter: Some(
            (Fighter { max_hp: 16, hp: 16, defense: 1, power: 4 }, DeathCallback::Monster),
        ),
        ai: Some(Ai::Basic),
        item: None,
    }
}

/// A healing potion as generation drops it at `(x, y)`.
pub open spec fn spec_potion(x: int, y: int) -> ObjectView {
    ObjectView {
        x,
        y,
        glyph: '!',
        color: Color::Violet,
        name: "healing potion"@,
        blocks: false,
        alive: false,
        fighter: None,
        ai: None,
        item: Some(Item::Heal),
    }
}

/// Whatever the random draws were, generation spawns nothing but orcs,
/// trolls and healing potions, each with exactly its standard stats.
pub open spec fn spec_spawned(o: ObjectView) -> bool {
    ||| o == spec_orc(o.x, o.y)
    ||| o == spec_troll(o.x, o.y)
    ||| o == spec_potion(o.x, o.y)
}

/// The player entity as a fresh game places it: the center of the first
/// carved room, full health, ready to act.
pub open spec fn spec_player_start(m: MapView) -> ObjectView {
    ObjectView {
        x: m.rooms[0].spec_center().0,
        y: m.rooms[0].spec_center().1,
        glyph: '@',
        color: Color::White,
        name: "player"@,
        blocks: true,
        alive: true,
        fighter: Some(
            (Fighter { max_hp: 30, hp: 30, defense: 2, power: 5 }, DeathCallback::Player),
        ),
        ai: None,
        item: None,
    }
}

impl Game {
    /// Start a game: generate the dungeon, put the player in the center
    /// of the first room, then populate every room with a random handful
    /// of monsters (mostly orcs, the rest trolls) and healing potions,
    /// skipping any sampled cell that is already occupied.
    pub fn new(cfg: &Config, rng: &mut rand::rngs::StdRng) -> (game: Game)
        requires
            cfg.wf(),
        ensures
            wf_game(game@),
            rooms_connected(game@.map),
            game@.map.width == cfg.map_width as int,
            game@.map.height == cfg.map_height as int,
            1 <= game@.map.rooms.len(),
            game@.objects[0] == spec_player_start(game@.map),
            forall|i: int| 1 <= i < game@.objects.len() ==> spec_spawned(#[trigger] game@.objects[i]),
            game@.inventory.len() == 0,
            game@.messages.len() == 0,
    {
        let map = GameMap::new(cfg, rng);
        let mut game = Game {
            map,
            objects: Vec::new(),
            inventory: Vec::new(),
            messages: Messages::new(),
        };
        let ghost gm = game@.map;

        let room0 = game.map.rooms[0];
        proof {
            assert(game@.map.rooms[0] == game.map.rooms@[0]);
            assert(gm.room_in_bounds(room0));
            lemma_center_in_room(room0);
        }
        let (cx, cy) = room0.center();
        let mut player = Object::new(cx, cy, '@', Color::White, "player", true);
        player.alive = true;
        player.fighter = Some(
            (Fighter { max_hp: 30, hp: 30, defense: 2, power: 5 }, DeathCallback::Player),
        );
        game.objects.push(player);
        proof {
            assert(room_interior(room0, cx as int, cy as int));
            assert(!gm.tile_at(cx as int, cy as int).blocked);
            assert forall|i: int| 0 <= i < game@.objects.len() implies obj_ok(
                gm,
                #[trigger] game@.objects[i],
            ) by {
                assert(game@.objects[i] == game.objects@[i]@);
            }
            assert(wf_game(game@));
            assert(game@.objects[0] == game.objects@[0]@);
            assert(game@.objects[0] =~~= spec_player_start(gm));
        }

        let mut r: usize = 0;
        while r < game.map.rooms.len()
            invariant
                cfg.wf(),
                wf_game(game@),
                game@.map == gm,
                game@.map.rooms.len() == game.map.rooms@.len(),
                r <= game@.map.rooms.len(),
                1 <= game@.objects.len(),
                game@.objects[0] == spec_player_start(gm),
                forall|i: int| 1 <= i < game@.objects.len() ==> spec_spawned(
                    #[trigger] game@.objects[i],
                ),
                game@.inventory.len() == 0,
                game@.messages.len() == 0,
            decreases game@.map.rooms.len() - r,
        {
            let room = game.map.rooms[r];
            proof {
                assert(game@.map.rooms[r as int] == game.map.rooms@[r as int]);
                assert(gm.room_in_bounds(room));
            }

            let num_monsters = rng_range(rng, 0, cfg.max_room_monsters + 1);
            let mut mc: i32 = 0;
            while mc < num_monsters
                invariant
                    cfg.wf(),
                    wf_game(game@),
                    game@.map == gm,
                    gm.room_in_bounds(room),
                    0 <= mc <= num_monsters,
                    1 <= game@.objects.len(),
                    game@.objects[0] == spec_player_start(gm),
                    forall|i: int| 1 <= i < game@.objects.len() ==> spec_spawned(
                        #[trigger] game@.objects[i],
                    ),
                    game@.inventory.len() == 0,
                    game@.messages.len() == 0,
                decreases num_monsters - mc,
            {
                let mx = rng_range(rng, room.x1 + 1, room.x2);
                let my = rng_range(rng, room.y1 + 1, room.y2);

                if !game.is_blocked(mx, my) {
                    let roll = rng_range(rng, 0, 100);
                    let mut monster: Object;
                    if roll < 80 {
                        monster = Object::new(mx, my, 'o', Color::DesaturatedGreen, "orc", true);
                        monster.fighter = Some(
                            (
                                Fighter { max_hp: 10, hp: 10, defense: 0, power: 3 },
                                DeathCallback::Monster,
                            ),
                        );
                    } else {
                        monster = Object::new(mx, my, 'T', Color::DarkerGreen, "troll", true);
                        monster.fighter = Some(
                            (
                                Fighter { max_hp: 16, hp: 16, defense: 1, power: 4 },
                                DeathCallback::Monster,
                            ),
                        );
                    }
                    monster.ai = Some(Ai::Basic);
                    monster.alive = true;

                    let ghost pre = game@;
                    game.objects.push(monster);
                    proof {
                        assert(!gm.tile_at(mx as int, my as int).blocked);
                        assert forall|i: int| 0 <= i < game@.objects.len() implies obj_ok(
                            gm,
                            #[trigger] game@.objects[i],
                        ) by {
                            assert(game@.objects[i] == game.objects@[i]@);
                            if i < pre.objects.len() {
                                assert(pre.objects[i] == game.objects@[i]@);
                                assert(obj_ok(gm, pre.objects[i]));
                            }
                        }
                        assert(game@.objects[0] == game.objects@[0]@);
                        assert(game@.objects[0] == pre.objects[0]);
                        assert forall|i: int|
                            1 <= i < game@.objects.len() implies spec_spawned(
                            #[trigger] game@.objects[i],
                        ) by {
                            assert(game@.objects[i] == game.objects@[i]@);
                            if i < pre.objects.len() {
                                assert(pre.objects[i] == game.objects@[i]@);
                                assert(spec_spawned(pre.objects[i]));
                            } else {
                                assert(game@.objects[i] =~~= (if roll < 80 {
                                    spec_orc(mx as int, my as int)
                                } else {
                                    spec_troll(mx as int, my as int)
                                }));
                            }
                        }
                    }
                }
                mc += 1;
            }

            let num_items = rng_range(rng, 0, cfg.max_room_items + 1);
            let mut ic: i32 = 0;
            while ic < num_items
                invariant
                    cfg.wf(),
                    wf_game(game@),
                    game@.map == gm,
                    gm.room_in_bounds(room),
                    0 <= ic <= num_items,
                    1 <= game@.objects.len(),
                    game@.objects[0] == spec_player_start(gm),
                    forall|i: int| 1 <= i < game@.objects.len() ==> spec_spawned(
                        #[trigger] game@.objects[i],
                    ),
                    game@.inventory.len() == 0,
                    game@.messages.len() == 0,
                decreases num_items - ic,
            {
                let ix = rng_range(rng, room.x1 + 1, room.x2);
                let iy = rng_range(rng, room.y1 + 1, room.y2);

                if !game.is_blocked(ix, iy) {
                    let mut potion = Object::new(
                        ix,
                        iy,
                        '!',
                        Color::Violet,
                        "healing potion",
                        false,
                    );
                    potion.item = Some(Item::Heal);

                    let ghost pre = game@;
                    game.objects.push(potion);
                    proof {
                        assert(!gm.tile_at(ix as int, iy as int).blocked);
                        assert forall|i: int| 0 <= i < game@.objects.len() implies obj_ok(
                            gm,
                            #[trigger] game@.objects[i],
                        ) by {
                            assert(game@.objects[i] == game.objects@[i]@);
                            if i < pre.objects.len() {
                                assert(pre.objects[i] == game.objects@[i]@);
                                assert(obj_ok(gm, pre.objects[i]));
                            }
                        }
                        assert(game@.objects[0] == game.objects@[0]@);
                        assert(game@.objects[0] == pre.objects[0]);
                        assert forall|i: int|
                            1 <= i < game@.objects.len() implies spec_spawned(
                            #[trigger] game@.objects[i],
                        ) by {
                            assert(game@.objects[i] == game.objects@[i]@);
                            if i < pre.objects.len() {
                                assert(pre.objects[i] == game.objects@[i]@);
                                assert(spec_spawned(pre.objects[i]));
                            } else {
                                assert(game@.objects[i] =~~= spec_potion(ix as int, iy as int));
                            }
                        }
                    }
                }
                ic += 1;
            }

            r += 1;
        }

        game
    }

    /// The single source of truth for movement and placement: the cell's
    /// terrain blocks, or some blocking entity stands there.
    pub fn is_blocked(&self, x: i32, y: i32) -> (r: bool)
        requires
            wf_game(self@),
            self@.map.in_bounds(x as int, y as int),
        ensures
            r == spec_blocked_at(self@, x as int, y as int),
    {
        let t = self.map.get_tile(x, y);
        if t.blocked {
            return true;
        }
        let mut k: usize = 0;
        let mut found = false;
        while k < self.objects.len()
            invariant
                k <= self@.objects.len(),
                self@.objects.len() == self.objects@.len(),
                found <==> exists|j: int|
                    0 <= j < k as int && (#[trigger] self@.objects[j]).blocks && self@.objects[j].x
                        == x as int && self@.objects[j].y == y as int,
            decreases self@.objects.len() - k,
        {
            let ob = &self.objects[k];
            if ob.blocks && ob.x == x && ob.y == y {
                proof {
                    assert(self@.objects[k as int] == self.objects@[k as int]@);
                }
                found = true;
            }
            proof {
                assert(self@.objects[k as int] == self.objects@[k as int]@);
            }
            k += 1;
        }
        found
    }

    /// Step entity `id` by one cell in each axis; a blocked destination is
    /// silently absorbed.
    pub fn move_by(&mut self, id: usize, dx: i32, dy: i32)
        requires
            wf_game(old(self)@),
            id < old(self)@.objects.len(),
            -1 <= dx <= 1,
            -1 <= dy <= 1,
        ensures
            final(self)@ == spec_move_by(old(self)@, id as int, dx as int, dy as int),
            wf_game(final(self)@),
    {
        proof {
            assert(self@.objects[id as int] == self.objects@[id as int]@);
            assert(obj_ok(self@.map, self@.objects[id as int]));
        }
        let x = self.objects[id].x;
        let y = self.objects[id].y;
        proof {
            let m = self@.map;
            if x == 0 || y == 0 || x as int == m.width - 1 || y as int == m.height - 1 {
                assert(m.tile_at(x as int, y as int).blocked);
            }
            assert(m.in_bounds(x as int + dx as int, y as int + dy as int));
        }
        if !self.is_blocked(x + dx, y + dy) {
            self.objects[id].set_pos(x + dx, y + dy);
            proof {
                assert forall|i: int| 0 <= i < self@.objects.len() implies #[trigger] self@.objects[i]
                    =~~= spec_move_by(old(self)@, id as int, dx as int, dy as int).objects[i] by {
                    assert(self@.objects[i] == self.objects@[i]@);
                    assert(old(self)@.objects[i] == old(self).objects@[i]@);
                }
                assert(self@ =~~= spec_move_by(old(self)@, id as int, dx as int, dy as int));
                assert forall|i: int| 0 <= i < self@.objects.len() implies obj_ok(
                    self@.map,
                    #[trigger] self@.objects[i],
                ) by {
                    assert(obj_ok(old(self)@.map, old(self)@.objects[i]));
                }
            }
        } else {
            proof {
                assert(self@ =~~= spec_move_by(old(self)@, id as int, dx as int, dy as int));
            }
        }
    }

    /// Translate one unit of player input into exactly one of {attack,
    /// move}: attack the first combat-capable entity on the destination
    /// cell, or step there.
    pub fn player_move_or_attack(&mut self, dx: i32, dy: i32)
        requires
            wf_game(old(self)@),
            -1 <= dx <= 1,
            -1 <= dy <= 1,
            !(dx == 0 && dy == 0),
            old(self)@.objects[0].fighter is Some,
        ensures
            final(self)@ == spec_player_move_or_attack(old(self)@, dx as int, dy as int),
            wf_game(final(self)@),
    {
        proof {
            assert(self@.objects[0] == self.objects@[0]@);
            assert(obj_ok(self@.map, self@.objects[0]));
        }
        let px = self.objects[PLAYER].x;
        let py = self.objects[PLAYER].y;
        let x = px + dx;
        let y = py + dy;

        let mut k: usize = 0;
        let mut target_id: usize = 0;
        let mut found = false;
        while k < self.objects.len()
            invariant
                k <= self@.objects.len(),
                self@.objects.len() == self.objects@.len(),
                found ==> spec_find_target(self@.objects, x as int, y as int, 0) == Some(
                    target_id as int,
                ),
                found ==> target_id < k,
                !found ==> spec_find_target(self@.objects, x as int, y as int, 0)
                    == spec_find_target(self@.objects, x as int, y as int, k as int),
            decreases self@.objects.len() - k,
        {
            proof {
                assert(self@.objects[k as int] == self.objects@[k as int]@);
            }
            let ob = &self.objects[k];
            if !found && ob.x == x && ob.y == y && ob.fighter.is_some() {
                found = true;
                target_id = k;
            }
            k += 1;
        }

        if found {
            proof {
                let t = target_id as int;
                lemma_find_target_some(self@.objects, x as int, y as int, 0, t);
                assert(self@.objects[t].x == x as int && self@.objects[t].y == y as int);
                assert(self@.objects[0].x == px as int && self@.objects[0].y == py as int);
                assert(t != 0);
            }
            self.attack(PLAYER, target_id);
        } else {
            self.move_by(PLAYER, dx, dy);
        }
    }

    /// Move the entity in slot `object_id` from the world into the
    /// inventory, unless the inventory already holds its 26-slot cap, in
    /// which case only a refusal is logged. The removal swap-removes, so
    /// world indices are not stable across a pickup.
    pub fn pick_item_up(&mut self, object_id: usize)
        requires
            wf_game(old(self)@),
            object_id < old(self)@.objects.len(),
            object_id != 0,
        ensures
            final(self)@ == spec_pick_item_up(old(self)@, object_id as int),
            wf_game(final(self)@),
    {
        proof {
            assert(self@.objects[object_id as int] == self.objects@[object_id as int]@);
        }
        if self.inventory.len() >= 26 {
            let mut line = "Cannot pick up ".to_owned();
            line.append(self.objects[object_id].name.as_str());
            line.append(". Inventory is full.");
            self.messages.add(line, Color::Red);
            proof {
                assert(self@ =~~= spec_pick_item_up(old(self)@, object_id as int));
            }
        } else {
            proof {
                assert(self@.objects.last() == self.objects@[self.objects@.len() - 1]@);
            }
            let item = self.objects.swap_remove(object_id);
            let mut line = "You picked up a ".to_owned();
            line.append(item.name.as_str());
            line.append("!");
            self.messages.add(line, Color::Green);
            self.inventory.push(item);
            proof {
                let gs = spec_pick_item_up(old(self)@, object_id as int);
                assert forall|i: int| 0 <= i < self@.objects.len() implies #[trigger] self@.objects[i]
                    =~~= gs.objects[i] by {
                    assert(self@.objects[i] == self.objects@[i]@);
                    assert(old(self)@.objects[i] == old(self).objects@[i]@);
                    if i != object_id as int {
                        assert(old(self).objects@[i]@ == old(self)@.objects[i]);
                    }
                }
                assert forall|i: int|
                    0 <= i < self@.inventory.len() implies #[trigger] self@.inventory[i]
                    =~~= gs.inventory[i] by {
                    assert(self@.inventory[i] == self.inventory@[i]@);
                    if i < old(self)@.inventory.len() {
                        assert(old(self)@.inventory[i] == old(self).inventory@[i]@);
                    }
                }
                assert(self@ =~~= gs);
                assert forall|i: int| 0 <= i < self@.objects.len() implies obj_ok(
                    self@.map,
                    #[trigger] self@.objects[i],
                ) by {
                    if i != object_id as int {
                        assert(obj_ok(old(self)@.map, old(self)@.objects[i]));
                    } else {
                        assert(obj_ok(
                            old(self)@.map,
                            old(self)@.objects[old(self)@.objects.len() - 1],
                        ));
                    }
                }
            }
        }
    }

    /// The Heal effect: restore the player to full hit points, unless
    /// already full, in which case the cast is refused. Returns whether
    /// the charge was spent.
    fn cast_heal(&mut self) -> (used: bool)
        requires
            wf_game(old(self)@),
        ensures
            final(self)@ == spec_cast_heal(old(self)@).0,
            used == spec_cast_heal(old(self)@).1,
            wf_game(final(self)@),
            final(self)@.inventory == old(self)@.inventory,
    {
        proof {
            assert(self@.objects[0] == self.objects@[0]@);
            assert(obj_ok(self@.map, self@.objects[0]));
        }
        if self.objects[PLAYER].fighter.is_some() {
            let (f, tag) = self.objects[PLAYER].fighter.unwrap();
            if f.hp == f.max_hp {
                self.messages.add("You are already at full health.".to_owned(), Color::Red);
                proof {
                    assert(self@ =~~= spec_cast_heal(old(self)@).0);
                }
                return false;
            }
            self.messages.add("Your wounds start to feel better!".to_owned(), Color::LightViolet);
            self.objects[PLAYER].fighter = Some(
                (Fighter { max_hp: f.max_hp, hp: f.max_hp, defense: f.defense, power: f.power }, tag),
            );
            proof {
                assert forall|i: int| 0 <= i < self@.objects.len() implies #[trigger] self@.objects[i]
                    =~~= spec_cast_heal(old(self)@).0.objects[i] by {
                    assert(self@.objects[i] == self.objects@[i]@);
                    assert(old(self)@.objects[i] == old(self).objects@[i]@);
                }
                assert(self@ =~~= spec_cast_heal(old(self)@).0);
                assert forall|i: int| 0 <= i < self@.objects.len() implies obj_ok(
                    self@.map,
                    #[trigger] self@.objects[i],
                ) by {
                    assert(obj_ok(old(self)@.map, old(self)@.objects[i]));
                }
            }
            return true;
        }
        proof {
            assert(self@ =~~= spec_cast_heal(old(self)@).0);
        }
        false
    }

    /// Use the item in inventory slot `inventory_id`: dispatch on its
    /// kind. A cancelled use leaves the item in the inventory.
    pub fn use_item(&mut self, inventory_id: usize)
        requires
            wf_game(old(self)@),
            inventory_id < old(self)@.inventory.len(),
        ensures
            final(self)@ == spec_use_item(old(self)@, inventory_id as int),
            wf_game(final(self)@),
    {
        proof {
            assert(self@.inventory[inventory_id as int] == self.inventory@[inventory_id as int]@);
        }
        if self.inventory[inventory_id].item.is_some() {
            let used = self.cast_heal();
            if used {
                let _ = self.inventory.remove(inventory_id);
                proof {
                    let gs = spec_use_item(old(self)@, inventory_id as int);
                    assert forall|i: int|
                        0 <= i < self@.inventory.len() implies #[trigger] self@.inventory[i]
                        =~~= gs.inventory[i] by {
                        assert(self@.inventory[i] == self.inventory@[i]@);
                        if i < inventory_id as int {
                            assert(old(self)@.inventory[i] == old(self).inventory@[i]@);
                        } else {
                            assert(old(self)@.inventory[i + 1] == old(self).inventory@[i + 1]@);
                        }
                    }
                    assert(self@ =~~= gs);
                }
            } else {
                self.messages.add("Cancelled".to_owned(), Color::White);
                proof {
                    assert(self@ =~~= spec_use_item(old(self)@, inventory_id as int));
                }
            }
        } else {
            let mut line = "The ".to_owned();
            line.append(self.inventory[inventory_id].name.as_str());
            line.append(" cannot be used.");
            self.messages.add(line, Color::White);
            proof {
                assert(self@ =~~= spec_use_item(old(self)@, inventory_id as int));
            }
        }
    }

    /// Resolve one attack of entity `id` against entity `other_id`. The
    /// two must be distinct slots and both must carry a combat capability;
    /// violating that is a programmer error, not a game outcome.
    pub fn attack(&mut self, id: usize, other_id: usize)
        requires
            wf_game(old(self)@),
            id != other_id,
            id < old(self)@.objects.len(),
            other_id < old(self)@.objects.len(),
            old(self)@.objects[id as int].fighter is Some,
            old(self)@.objects[other_id as int].fighter is Some,
        ensures
            final(self)@ == spec_attack(old(self)@, id as int, other_id as int),
            wf_game(final(self)@),
            final(self)@.objects.len() == old(self)@.objects.len(),
    {
        proof {
            assert(self@.objects[id as int] == self.objects@[id as int]@);
            assert(self@.objects[other_id as int] == self.objects@[other_id as int]@);
            assert(obj_ok(self@.map, self@.objects[id as int]));
            assert(obj_ok(self@.map, self@.objects[other_id as int]));
        }
        let (af, _atag) = self.objects[id].fighter.unwrap();
        let (df, dtag) = self.objects[other_id].fighter.unwrap();
        let damage = af.power - df.defense;

        if damage > 0 {
            let mut line = self.objects[id].name.clone();
            line.append(" attacks ");
            line.append(self.objects[other_id].name.as_str());
            line.append(" for ");
            let num = dec_string(damage as u32);
            line.append(num.as_str());
            line.append(" hit points");
            self.messages.add(line, Color::White);

            let still_alive = self.objects[other_id].take_damage(damage);
            if !still_alive {
                dtag.callback(&mut self.objects[other_id], &mut self.messages);
            }
        } else {
            let mut line = self.objects[id].name.clone();
            line.append(" attacks ");
            line.append(self.objects[other_id].name.as_str());
            line.append(" but it has no effect");
            self.messages.add(line, Color::White);
        }
        proof {
            assert forall|i: int| 0 <= i < self@.objects.len() implies #[trigger] self@.objects[i]
                =~~= spec_attack(old(self)@, id as int, other_id as int).objects[i] by {
                assert(self@.objects[i] == self.objects@[i]@);
                assert(old(self)@.objects[i] == old(self).objects@[i]@);
            }
            assert(self@ =~~= spec_attack(old(self)@, id as int, other_id as int));
            assert forall|i: int| 0 <= i < self@.objects.len() implies obj_ok(
                self@.map,
                #[trigger] self@.objects[i],
            ) by {
                assert(obj_ok(old(self)@.map, old(self)@.objects[i]));
            }
        }
    }

    /// Step entity `id` one cell along the rounded direction toward
    /// `other_id`, through the usual blocking check.
    fn move_towards(&mut self, id: usize, other_id: usize)
        requires
            wf_game(old(self)@),
            id < old(self)@.objects.len(),
            other_id < old(self)@.objects.len(),
        ensures
            final(self)@ == spec_move_towards(old(self)@, id as int, other_id as int),
            wf_game(final(self)@),
    {
        proof {
            assert(self@.objects[id as int] == self.objects@[id as int]@);
            assert(self@.objects[other_id as int] == self.objects@[other_id as int]@);
            assert(obj_ok(self@.map, self@.objects[id as int]));
            assert(obj_ok(self@.map, self@.objects[other_id as int]));
        }
        let tx = self.objects[other_id].x;
        let ty = self.objects[other_id].y;
        let sx = self.objects[id].x;
        let sy = self.objects[id].y;
        let dx = tx - sx;
        let dy = ty - sy;
        let nx = step_of(dx, dy);
        let ny = step_of(dy, dx);
        self.move_by(id, nx, ny);
    }

    /// One monster's invocation: sleep while unseen; otherwise approach
    /// the player, or strike when adjacent and the player still stands.
    pub fn ai_turn(&mut self, id: usize, vis: &Visibility)
        requires
            wf_game(old(self)@),
            0 < id < old(self)@.objects.len(),
            vis@.dims_ok(),
            vis@.width == old(self)@.map.width,
            vis@.height == old(self)@.map.height,
        ensures
            final(self)@ == spec_ai_turn(old(self)@, id as int, vis@),
            wf_game(final(self)@),
    {
        proof {
            assert(self@.objects[id as int] == self.objects@[id as int]@);
            assert(self@.objects[0] == self.objects@[0]@);
            assert(obj_ok(self@.map, self@.objects[id as int]));
            assert(obj_ok(self@.map, self@.objects[0]));
        }
        let ax = self.objects[id].x;
        let ay = self.objects[id].y;
        if vis.get(ax, ay) {
            let px = self.objects[PLAYER].x;
            let py = self.objects[PLAYER].y;
            let dx = px - ax;
            let dy = py - ay;
            proof {
                let dxi = dx as int;
                let dyi = dy as int;
                assert(0 <= dxi * dxi <= 4194304 && 0 <= dyi * dyi <= 4194304)
                    by (nonlinear_arith)
                    requires
                        -2048 <= dxi <= 2048,
                        -2048 <= dyi <= 2048,
                ;
            }
            let d2 = dx * dx + dy * dy;
            if d2 >= 4 {
                self.move_towards(id, PLAYER);
            } else {
                let has_f = self.objects[id].fighter.is_some();
                let player_up = match self.objects[PLAYER].fighter {
                    Some(p) => p.0.hp > 0,
                    None => false,
                };
                if has_f && player_up {
                    self.attack(id, PLAYER);
                }
            }
        }
    }

    /// The AI pass, run once per player turn that consumed game time:
    /// every alive, AI-capable, non-player entity acts once, in slot
    /// order — the fixed deterministic order the engine promises.
    pub fn update_objects(&mut self, vis: &Visibility)
        requires
            wf_game(old(self)@),
            vis@.dims_ok(),
            vis@.width == old(self)@.map.width,
            vis@.height == old(self)@.map.height,
        ensures
            final(self)@ == spec_update_objects(old(self)@, vis@),
            wf_game(final(self)@),
    {
        let mut id: usize = 0;
        while id < self.objects.len()
            invariant
                wf_game(self@),
                vis@.dims_ok(),
                vis@.width == self@.map.width,
                vis@.height == self@.map.height,
                id <= self@.objects.len(),
                self@.objects.len() == old(self)@.objects.len(),
                self@ == spec_update_count(old(self)@, vis@, 0, id as nat),
            decreases self@.objects.len() - id,
        {
            let ghost pre = self@;
            if id != 0 {
                proof {
                    assert(self@.objects[id as int] == self.objects@[id as int]@);
                }
                let alive = self.objects[id].alive;
                let has_ai = self.objects[id].ai.is_some();
                if alive && has_ai {
                    self.ai_turn(id, vis);
                }
            }
            proof {
                assert(self@ == spec_ai_step(pre, id as int, vis@));
                lemma_update_snoc(old(self)@, vis@, 0, id as nat);
                lemma_step_frame(pre, id as int, vis@);
                assert(self@ == spec_update_count(old(self)@, vis@, 0, (id + 1) as nat));
            }
            id += 1;
        }
        proof {
            assert(self@ == spec_update_objects(old(self)@, vis@));
        }
    }
}

} // verus!
