use rand::SeedableRng;
use rogue_core::config::Config;
use rogue_core::map::GameMap;
use rogue_core::rect::Rect;
use rogue_core::tile::Tile;

fn seeded(seed: u64) -> rand::rngs::StdRng {
    rand::rngs::StdRng::seed_from_u64(seed)
}

#[test]
fn tile_empty_is_walkable_and_clear() {
    let t = Tile::empty();
    assert!(!t.blocked);
    assert!(!t.block_sight);
    assert!(!t.explored);
}

#[test]
fn tile_wall_blocks_movement_and_sight() {
    let t = Tile::wall();
    assert!(t.blocked);
    assert!(t.block_sight);
    assert!(!t.explored);
}

#[test]
fn rect_center_is_integer_midpoint() {
    let r = Rect::new(0, 0, 6, 6);
    assert_eq!(r.center(), (3, 3));
    let r2 = Rect::new(10, 20, 5, 7);
    assert_eq!(r2.center(), ((10 + 15) / 2, (20 + 27) / 2));
}

#[test]
fn rect_intersection_is_edge_inclusive() {
    let a = Rect::new(0, 0, 4, 4);
    let touching = Rect::new(4, 4, 3, 3);
    let apart = Rect::new(6, 6, 2, 2);
    assert!(a.intersects_with(&touching));
    assert!(touching.intersects_with(&a));
    assert!(!a.intersects_with(&apart));
}

#[test]
fn standard_config_values() {
    let c = Config::standard();
    assert_eq!(c.map_width, 80);
    assert_eq!(c.map_height, 45);
    assert_eq!(c.max_rooms, 30);
    assert_eq!(c.room_min_size, 6);
    assert_eq!(c.room_max_size, 10);
    assert_eq!(c.max_room_monsters, 3);
    assert_eq!(c.max_room_items, 2);
}

#[test]
fn generated_rooms_are_carved_and_disjoint() {
    for seed in [1u64, 7, 42, 1234] {
        let cfg = Config::standard();
        let mut rng = seeded(seed);
        let map = GameMap::new(&cfg, &mut rng);

        for room in &map.rooms {
            for x in (room.x1 + 1)..room.x2 {
                for y in (room.y1 + 1)..room.y2 {
                    let t = map.tiles[x as usize][y as usize];
                    assert!(!t.blocked, "seed {seed}: interior cell ({x},{y}) blocked");
                    assert!(!t.block_sight, "seed {seed}: interior cell ({x},{y}) blocks sight");
                }
            }
        }
        for i in 0..map.rooms.len() {
            for j in (i + 1)..map.rooms.len() {
                assert!(
                    !map.rooms[i].intersects_with(&map.rooms[j]),
                    "seed {seed}: rooms {i} and {j} overlap"
                );
            }
        }
    }
}

#[test]
fn generated_map_is_never_roomless_and_sized() {
    for seed in 0u64..8 {
        let cfg = Config::standard();
        let mut rng = seeded(seed);
        let map = GameMap::new(&cfg, &mut rng);
        assert!(map.rooms.len() >= 1);
        assert_eq!(map.width, 80);
        assert_eq!(map.height, 45);
        assert_eq!(map.tiles.len(), 80);
        for col in &map.tiles {
            assert_eq!(col.len(), 45);
        }
    }
}

#[test]
fn generated_border_stays_wall() {
    let cfg = Config::standard();
    let mut rng = seeded(99);
    let map = GameMap::new(&cfg, &mut rng);
    for x in 0..map.width {
        assert!(map.tiles[x as usize][0].blocked);
        assert!(map.tiles[x as usize][(map.height - 1) as usize].blocked);
    }
    for y in 0..map.height {
        assert!(map.tiles[0][y as usize].blocked);
        assert!(map.tiles[(map.width - 1) as usize][y as usize].blocked);
    }
}

#[test]
fn successive_room_centers_are_connected() {
    for seed in [3u64, 11, 2024] {
        let cfg = Config::standard();
        let mut rng = seeded(seed);
        let map = GameMap::new(&cfg, &mut rng);

        for i in 1..map.rooms.len() {
            let from = map.rooms[i - 1].center();
            let to = map.rooms[i].center();
            assert!(
                bfs_reaches(&map, from, to),
                "seed {seed}: no unblocked path from room {} to room {}",
                i - 1,
                i
            );
        }
    }
}

fn bfs_reaches(map: &GameMap, from: (i32, i32), to: (i32, i32)) -> bool {
    let w = map.width as usize;
    let h = map.height as usize;
    let mut seen = vec![vec![false; h]; w];
    let mut queue = std::collections::VecDeque::new();
    if map.tiles[from.0 as usize][from.1 as usize].blocked {
        return false;
    }
    seen[from.0 as usize][from.1 as usize] = true;
    queue.push_back(from);
    while let Some((x, y)) = queue.pop_front() {
        if (x, y) == to {
            return true;
        }
        for (dx, dy) in [(1, 0), (-1, 0), (0, 1), (0, -1)] {
            let nx = x + dx;
            let ny = y + dy;
            if nx < 0 || ny < 0 || nx >= map.width || ny >= map.height {
                continue;
            }
            if seen[nx as usize][ny as usize] || map.tiles[nx as usize][ny as usize].blocked {
                continue;
            }
            seen[nx as usize][ny as usize] = true;
            queue.push_back((nx, ny));
        }
    }
    false
}

#[test]
fn same_seed_generates_same_map() {
    let cfg = Config::standard();
    let mut rng1 = seeded(7777);
    let mut rng2 = seeded(7777);
    let a = GameMap::new(&cfg, &mut rng1);
    let b = GameMap::new(&cfg, &mut rng2);
    assert_eq!(a.rooms, b.rooms);
    for x in 0..a.width as usize {
        for y in 0..a.height as usize {
            assert_eq!(a.tiles[x][y], b.tiles[x][y]);
        }
    }
}

#[test]
fn set_explored_is_monotone_and_local() {
    let cfg = Config::standard();
    let mut rng = seeded(5);
    let mut map = GameMap::new(&cfg, &mut rng);
    let before = map.tiles[10][10];
    let neighbor_before = map.tiles[11][10];
    map.set_explored(10, 10);
    let after = map.tiles[10][10];
    assert!(after.explored);
    assert_eq!(after.blocked, before.blocked);
    assert_eq!(after.block_sight, before.block_sight);
    assert_eq!(map.tiles[11][10], neighbor_before);
    map.set_explored(10, 10);
    assert!(map.tiles[10][10].explored);
}
