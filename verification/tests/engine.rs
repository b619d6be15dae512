use rand::SeedableRng;
use rogue_core::color::Color;
use rogue_core::config::Config;
use rogue_core::death::DeathCallback;
use rogue_core::decimal::dec_string;
use rogue_core::fighter::Fighter;
use rogue_core::game::Game;
use rogue_core::map::GameMap;
use rogue_core::messages::Messages;
use rogue_core::object::{Ai, Item, Object};
use rogue_core::tile::Tile;
use rogue_core::vis::Visibility;

/// An open arena: wall ring, empty floor inside, no rooms.
fn arena(w: i32, h: i32) -> GameMap {
    let mut tiles = Vec::new();
    for x in 0..w {
        let mut col = Vec::new();
        for y in 0..h {
            if x == 0 || y == 0 || x == w - 1 || y == h - 1 {
                col.push(Tile::wall());
            } else {
                col.push(Tile::empty());
            }
        }
        tiles.push(col);
    }
    GameMap { tiles, rooms: vec![], width: w, height: h }
}

fn player_at(x: i32, y: i32) -> Object {
    let mut p = Object::new(x, y, '@', Color::White, "player", true);
    p.alive = true;
    p.fighter = Some((
        Fighter { max_hp: 30, hp: 30, defense: 2, power: 5 },
        DeathCallback::Player,
    ));
    p
}

fn orc_at(x: i32, y: i32, hp: i32, defense: i32, power: i32) -> Object {
    let mut m = Object::new(x, y, 'o', Color::DesaturatedGreen, "orc", true);
    m.alive = true;
    m.fighter = Some((
        Fighter { max_hp: hp, hp, defense, power },
        DeathCallback::Monster,
    ));
    m.ai = Some(Ai::Basic);
    m
}

fn potion_at(x: i32, y: i32) -> Object {
    let mut o = Object::new(x, y, '!', Color::Violet, "healing potion", false);
    o.item = Some(Item::Heal);
    o
}

fn game_with(objects: Vec<Object>) -> Game {
    Game { map: arena(20, 20), objects, inventory: vec![], messages: Messages::new() }
}

fn all_visible(w: i32, h: i32) -> Visibility {
    Visibility { width: w, height: h, cells: vec![vec![true; h as usize]; w as usize] }
}

fn last_message(game: &Game) -> (String, Color) {
    let n = game.messages.len();
    let e = game.messages.get(n - 1);
    (e.0.clone(), e.1)
}

#[test]
fn decimal_rendering() {
    assert_eq!(dec_string(0), "0");
    assert_eq!(dec_string(5), "5");
    assert_eq!(dec_string(10), "10");
    assert_eq!(dec_string(42), "42");
    assert_eq!(dec_string(12345), "12345");
}

#[test]
fn fighter_damage_clamps_at_zero() {
    let mut f = Fighter { max_hp: 10, hp: 4, defense: 0, power: 1 };
    assert!(f.take_damage(3));
    assert_eq!(f.hp, 1);
    assert!(!f.take_damage(5));
    assert_eq!(f.hp, 0);
}

#[test]
fn messages_append_in_order() {
    let mut log = Messages::new();
    assert_eq!(log.len(), 0);
    log.add("first".to_string(), Color::White);
    log.add("second".to_string(), Color::Red);
    assert_eq!(log.len(), 2);
    assert_eq!(log.get(0).0, "first");
    assert_eq!(log.get(1).0, "second");
    assert_eq!(log.get(1).1, Color::Red);
}

#[test]
fn object_take_damage_marks_death() {
    let mut o = orc_at(3, 3, 6, 0, 2);
    assert!(o.take_damage(5));
    assert!(o.alive);
    assert!(!o.take_damage(5));
    assert!(!o.alive);
    assert_eq!(o.fighter.unwrap().0.hp, 0);
}

#[test]
fn is_blocked_by_wall_and_entity() {
    let game = game_with(vec![player_at(5, 5), orc_at(6, 5, 10, 0, 3)]);
    assert!(game.is_blocked(0, 0));
    assert!(game.is_blocked(6, 5));
    assert!(game.is_blocked(5, 5));
    assert!(!game.is_blocked(7, 5));
}

#[test]
fn items_do_not_block() {
    let game = game_with(vec![player_at(5, 5), potion_at(6, 5)]);
    assert!(!game.is_blocked(6, 5));
}

#[test]
fn move_by_steps_and_absorbs_blocked() {
    let mut game = game_with(vec![player_at(1, 1)]);
    game.move_by(0, -1, 0);
    assert_eq!(game.objects[0].pos(), (1, 1));
    game.move_by(0, 1, 1);
    assert_eq!(game.objects[0].pos(), (2, 2));
}

#[test]
fn attack_with_low_power_has_no_effect() {
    let mut game = game_with(vec![player_at(5, 5), orc_at(6, 5, 10, 5, 1)]);
    game.attack(0, 1);
    assert_eq!(game.objects[1].fighter.unwrap().0.hp, 10);
    assert!(game.objects[1].alive);
    let (text, _) = last_message(&game);
    assert_eq!(text, "player attacks orc but it has no effect");
}

#[test]
fn attack_reduces_hp_by_power_minus_defense() {
    let mut game = game_with(vec![player_at(5, 5), orc_at(6, 5, 10, 1, 1)]);
    game.attack(0, 1);
    assert_eq!(game.objects[1].fighter.unwrap().0.hp, 6);
    let (text, _) = last_message(&game);
    assert_eq!(text, "player attacks orc for 4 hit points");
}

#[test]
fn killing_a_monster_applies_monster_death_once() {
    let mut game = game_with(vec![player_at(5, 5), orc_at(6, 5, 3, 0, 1)]);
    game.attack(0, 1);
    let corpse = &game.objects[1];
    assert!(!corpse.alive);
    assert!(corpse.fighter.is_none());
    assert!(corpse.ai.is_none());
    assert!(!corpse.blocks);
    assert_eq!(corpse.glyph, '%');
    assert_eq!(corpse.color, Color::DarkRed);
    assert_eq!(corpse.name, "remains of orc");
    let n = game.messages.len();
    assert_eq!(game.messages.get(n - 2).0, "player attacks orc for 5 hit points");
    assert_eq!(game.messages.get(n - 1).0, "orc died!");
    assert_eq!(game.messages.get(n - 1).1, Color::Orange);
}

#[test]
fn killing_the_player_keeps_fighter_at_zero_hp() {
    let mut game = game_with(vec![player_at(5, 5), orc_at(6, 5, 10, 0, 40)]);
    game.attack(1, 0);
    let dead = &game.objects[0];
    assert!(!dead.alive);
    assert_eq!(dead.glyph, '%');
    assert_eq!(dead.color, Color::DarkRed);
    assert_eq!(dead.name, "player");
    let f = dead.fighter.unwrap().0;
    assert_eq!(f.hp, 0);
    let (text, color) = last_message(&game);
    assert_eq!(text, "You died!");
    assert_eq!(color, Color::Red);
}

#[test]
fn player_move_or_attack_is_exactly_one_action() {
    let mut game = game_with(vec![player_at(5, 5), orc_at(6, 5, 10, 0, 3)]);
    game.player_move_or_attack(1, 0);
    assert_eq!(game.objects[0].pos(), (5, 5));
    assert_eq!(game.objects[1].fighter.unwrap().0.hp, 5);

    game.player_move_or_attack(0, 1);
    assert_eq!(game.objects[0].pos(), (5, 6));
    assert_eq!(game.objects[1].fighter.unwrap().0.hp, 5);
}

#[test]
fn adjacent_combat_end_to_end() {
    let mut game = game_with(vec![player_at(5, 5), orc_at(6, 5, 10, 0, 3)]);

    game.player_move_or_attack(1, 0);
    let f = game.objects[1].fighter.unwrap().0;
    assert_eq!(f.hp, 5);
    assert_eq!(f.max_hp, 10);
    let (text, _) = last_message(&game);
    assert_eq!(text, "player attacks orc for 5 hit points");

    game.player_move_or_attack(1, 0);
    let corpse = &game.objects[1];
    assert!(!corpse.alive);
    assert_eq!(corpse.glyph, '%');
    assert!(!corpse.blocks);
    assert_eq!(corpse.name, "remains of orc");
}

#[test]
fn pick_up_refused_at_26_items() {
    let mut inventory = Vec::new();
    for _ in 0..26 {
        inventory.push(potion_at(0, 0));
    }
    let mut game = game_with(vec![player_at(5, 5), potion_at(5, 5)]);
    game.inventory = inventory;
    let world_before = game.objects.len();

    game.pick_item_up(1);

    assert_eq!(game.objects.len(), world_before);
    assert_eq!(game.inventory.len(), 26);
    let (text, color) = last_message(&game);
    assert_eq!(text, "Cannot pick up healing potion. Inventory is full.");
    assert_eq!(color, Color::Red);
}

#[test]
fn pick_up_moves_entity_into_inventory() {
    let mut game = game_with(vec![player_at(5, 5), potion_at(5, 5)]);
    game.pick_item_up(1);
    assert_eq!(game.objects.len(), 1);
    assert_eq!(game.inventory.len(), 1);
    assert_eq!(game.inventory[0].name, "healing potion");
    let (text, color) = last_message(&game);
    assert_eq!(text, "You picked up a healing potion!");
    assert_eq!(color, Color::Green);
}

#[test]
fn use_heal_at_full_health_is_cancelled() {
    let mut game = game_with(vec![player_at(5, 5)]);
    game.inventory = vec![potion_at(0, 0)];

    game.use_item(0);

    assert_eq!(game.inventory.len(), 1);
    assert_eq!(game.objects[0].fighter.unwrap().0.hp, 30);
    let n = game.messages.len();
    assert_eq!(game.messages.get(n - 2).0, "You are already at full health.");
    assert_eq!(game.messages.get(n - 1).0, "Cancelled");
}

#[test]
fn use_heal_restores_full_health_and_consumes() {
    let mut game = game_with(vec![player_at(5, 5)]);
    if let Some((f, _)) = game.objects[0].fighter.as_mut() {
        f.hp = 12;
    }
    game.inventory = vec![potion_at(0, 0)];

    game.use_item(0);

    assert_eq!(game.objects[0].fighter.unwrap().0.hp, 30);
    assert_eq!(game.inventory.len(), 0);
    let (text, color) = last_message(&game);
    assert_eq!(text, "Your wounds start to feel better!");
    assert_eq!(color, Color::LightViolet);
}

#[test]
fn use_item_without_item_capability() {
    let mut game = game_with(vec![player_at(5, 5)]);
    game.inventory = vec![Object::new(0, 0, '-', Color::LightGrey, "stick", false)];

    game.use_item(0);

    assert_eq!(game.inventory.len(), 1);
    let (text, _) = last_message(&game);
    assert_eq!(text, "The stick cannot be used.");
}

#[test]
fn visible_monster_at_distance_three_steps_closer() {
    let mut game = game_with(vec![player_at(5, 5), orc_at(8, 5, 10, 0, 3)]);
    let vis = all_visible(20, 20);

    game.update_objects(&vis);

    assert_eq!(game.objects[1].pos(), (7, 5));
}

#[test]
fn visible_monster_steps_diagonally() {
    let mut game = game_with(vec![player_at(5, 5), orc_at(8, 8, 10, 0, 3)]);
    let vis = all_visible(20, 20);

    game.update_objects(&vis);

    assert_eq!(game.objects[1].pos(), (7, 7));
}

#[test]
fn adjacent_monster_attacks_instead_of_moving() {
    let mut game = game_with(vec![player_at(5, 5), orc_at(6, 5, 10, 0, 3)]);
    let vis = all_visible(20, 20);

    game.update_objects(&vis);

    assert_eq!(game.objects[1].pos(), (6, 5));
    assert_eq!(game.objects[0].fighter.unwrap().0.hp, 29);
    let (text, _) = last_message(&game);
    assert_eq!(text, "orc attacks player for 1 hit points");
}

#[test]
fn unseen_monster_sleeps() {
    let mut game = game_with(vec![player_at(5, 5), orc_at(8, 5, 10, 0, 3)]);
    let vis = Visibility::new(20, 20);

    game.update_objects(&vis);

    assert_eq!(game.objects[1].pos(), (8, 5));
    assert_eq!(game.messages.len(), 0);
}

#[test]
fn ai_pass_runs_in_slot_order_and_is_deterministic() {
    let build = || {
        game_with(vec![
            player_at(5, 5),
            orc_at(8, 5, 10, 0, 3),
            orc_at(5, 9, 10, 0, 3),
        ])
    };
    let vis = all_visible(20, 20);

    let mut a = build();
    let mut b = build();
    a.update_objects(&vis);
    b.update_objects(&vis);

    for i in 0..a.objects.len() {
        assert_eq!(a.objects[i].pos(), b.objects[i].pos());
    }
    assert_eq!(a.objects[1].pos(), (7, 5));
    assert_eq!(a.objects[2].pos(), (5, 8));
}

#[test]
fn dead_or_mindless_entities_do_not_act() {
    let mut corpse = orc_at(8, 5, 10, 0, 3);
    corpse.alive = false;
    let mut game = game_with(vec![player_at(5, 5), corpse, potion_at(9, 9)]);
    let vis = all_visible(20, 20);

    game.update_objects(&vis);

    assert_eq!(game.objects[1].pos(), (8, 5));
    assert_eq!(game.objects[2].pos(), (9, 9));
}

#[test]
fn new_game_places_player_in_first_room_center() {
    let cfg = Config::standard();
    let mut rng = rand::rngs::StdRng::seed_from_u64(21);
    let game = Game::new(&cfg, &mut rng);

    let c = game.map.rooms[0].center();
    assert_eq!(game.objects[0].pos(), c);
    assert_eq!(game.objects[0].name, "player");
    assert!(game.objects[0].alive);
    let (f, tag) = game.objects[0].fighter.unwrap();
    assert_eq!((f.max_hp, f.hp, f.defense, f.power), (30, 30, 2, 5));
    assert_eq!(tag, DeathCallback::Player);
    assert!(game.inventory.is_empty());
    assert_eq!(game.messages.len(), 0);
    for o in &game.objects {
        assert!(!game.map.tiles[o.x as usize][o.y as usize].blocked);
    }
}

#[test]
fn pick_up_swap_remove_shifts_last_entity() {
    let mut game = game_with(vec![player_at(5, 5), potion_at(5, 5), orc_at(9, 9, 10, 0, 3)]);
    game.pick_item_up(1);
    assert_eq!(game.objects.len(), 2);
    assert_eq!(game.objects[1].name, "orc");
    assert_eq!(game.inventory[0].name, "healing potion");
}

#[test]
fn corpse_cell_is_walkable() {
    let mut game = game_with(vec![player_at(5, 5), orc_at(6, 5, 3, 0, 1)]);
    game.player_move_or_attack(1, 0);
    assert!(!game.objects[1].alive);
    game.player_move_or_attack(1, 0);
    assert_eq!(game.objects[0].pos(), (6, 5));
}

#[test]
fn monster_stalls_against_a_wall() {
    let mut map = arena(20, 20);
    for x in 0..20usize {
        map.tiles[x][4] = Tile::wall();
    }
    let mut game = Game {
        map,
        objects: vec![player_at(5, 7), orc_at(5, 2, 10, 0, 3)],
        inventory: vec![],
        messages: Messages::new(),
    };
    let vis = all_visible(20, 20);

    game.update_objects(&vis);
    assert_eq!(game.objects[1].pos(), (5, 3));
    game.update_objects(&vis);
    assert_eq!(game.objects[1].pos(), (5, 3));
}

#[test]
fn generation_spawns_only_known_shapes() {
    let cfg = Config::standard();
    let mut rng = rand::rngs::StdRng::seed_from_u64(8);
    let game = Game::new(&cfg, &mut rng);

    for o in game.objects.iter().skip(1) {
        match o.name.as_str() {
            "orc" => {
                let (f, tag) = o.fighter.unwrap();
                assert_eq!((f.max_hp, f.hp, f.defense, f.power), (10, 10, 0, 3));
                assert_eq!(tag, DeathCallback::Monster);
                assert_eq!(o.glyph, 'o');
                assert!(o.blocks);
                assert!(o.alive);
                assert!(o.ai.is_some());
            }
            "troll" => {
                let (f, tag) = o.fighter.unwrap();
                assert_eq!((f.max_hp, f.hp, f.defense, f.power), (16, 16, 1, 4));
                assert_eq!(tag, DeathCallback::Monster);
                assert_eq!(o.glyph, 'T');
                assert!(o.blocks);
                assert!(o.alive);
                assert!(o.ai.is_some());
            }
            "healing potion" => {
                assert_eq!(o.glyph, '!');
                assert!(!o.blocks);
                assert!(o.fighter.is_none());
                assert!(o.ai.is_none());
                assert_eq!(o.item, Some(Item::Heal));
            }
            other => panic!("unexpected spawn: {other}"),
        }
    }
}

#[test]
fn visibility_grid_set_and_get() {
    let mut vis = Visibility::new(10, 10);
    assert!(!vis.get(3, 4));
    vis.set(3, 4, true);
    assert!(vis.get(3, 4));
    assert!(!vis.get(4, 3));
    vis.set(3, 4, false);
    assert!(!vis.get(3, 4));
}
