//! Engine configuration, threaded explicitly into the generator and the
//! engine so that several games with different parameters can coexist.

use vstd::prelude::*;

verus! {

/// Generation and spawning parameters.
#[derive(Clone, Copy, Debug, PartialEq, Eq, Structural)]
pub struct Config {
    pub map_width: i32,
    pub map_height: i32,
    pub max_rooms: u32,
    pub room_min_size: i32,
    pub room_max_size: i32,
    pub max_room_monsters: i32,
    pub max_room_items: i32,
}

impl Config {
    /// Sane parameters: a map that fits machine arithmetic comfortably and
    /// rooms that fit the map with at least one walkable interior cell.
    pub open spec fn wf(self) -> bool {
        &&& 3 <= self.map_width <= 1024
        &&& 3 <= self.map_height <= 1024
        &&& 2 <= self.room_min_size <= self.room_max_size
        &&& self.room_max_size < self.map_width
        &&& self.room_max_size < self.map_height
        &&& 0 <= self.max_room_monsters <= 1024
        &&& 0 <= self.max_room_items <= 1024
    }

    /// The classic parameter set.
    pub fn standard() -> (c: Config)
        ensures
            c == (Config {
                map_width: 80,
                map_height: 45,
                max_rooms: 30,
                room_min_size: 6,
                room_max_size: 10,
                max_room_monsters: 3,
                max_room_items: 2,
            }),
            c.wf(),
    {
        Config {
            map_width: 80,
            map_height: 45,
            max_rooms: 30,
            room_min_size: 6,
            room_max_size: 10,
            max_room_monsters: 3,
            max_room_items: 2,
        }
    }
}

} // verus!
