//! Map dimensions and per-map tile classification. The world is a ring
//! street plus rectangular rooms, stations and trains.
use vstd::prelude::*;

use crate::doors::{room_door_position, spec_street_door_side, street_door_side, RoomSide};
use crate::monorail::{is_station_door, spec_is_station_door, STATION_DOOR_Y_BOTTOM, STATION_DOOR_Y_TOP};

verus! {

pub const STREET_HEIGHT: i32 = 16;

pub const ROOM_WIDTH: i32 = 32;

pub const ROOM_HEIGHT: i32 = 16;

/// Length of the street ring; x coordinates are compared modulo this.
pub const STREET_CIRCUMFERENCE_TILES: i64 = 4096;

pub const STATION_WIDTH: i32 = 32;

pub const STATION_HEIGHT: i32 = 16;

pub const TRAIN_WIDTH: i32 = 32;

pub const TRAIN_HEIGHT: i32 = 16;

#[derive(Debug, Clone, Copy, PartialEq, Eq, Structural)]
pub enum Tile {
    Wall,
    Door,
    StationDoor,
    Customizer,
    Floor,
}

/// A place in the world: a map identifier and a tile on that map.
#[derive(Debug)]
pub struct Position {
    pub map_id: String,
    pub x: i32,
    pub y: i32,
}

impl Clone for Position {
    fn clone(&self) -> (res: Self)
        ensures
            res == *self,
    {
        Position { map_id: self.map_id.clone(), x: self.x, y: self.y }
    }
}

/// Tile at street coordinates `(x, y)`; rows outside `0..STREET_HEIGHT`
/// are the callers' concern and read as floor.
pub open spec fn spec_street_tile(x: int, y: int) -> Tile {
    if spec_is_station_door(x, y) {
        Tile::StationDoor
    } else if y == 0 || y == STREET_HEIGHT - 1 {
        if spec_street_door_side(x, y) is Some {
            Tile::Door
        } else {
            Tile::Wall
        }
    } else {
        Tile::Floor
    }
}

pub fn street_tile(x: i32, y: i32) -> (r: Tile)
    ensures
        r == spec_street_tile(x as int, y as int),
{
    if is_station_door(x, y) {
        return Tile::StationDoor;
    }
    if y == 0 || y == STREET_HEIGHT - 1 {
        if street_door_side(x, y).is_some() {
            Tile::Door
        } else {
            Tile::Wall
        }
    } else {
        Tile::Floor
    }
}

/// The single non-walkable furnishing tile inside every room.
pub open spec fn spec_room_customizer_position() -> (int, int) {
    (1, 1)
}

pub fn room_customizer_position() -> (r: (i32, i32))
    ensures
        (r.0 as int, r.1 as int) == spec_room_customizer_position(),
{
    (1, 1)
}

/// Tile at room coordinates `(x, y)` for a room whose door faces `side`.
pub open spec fn spec_room_tile(x: int, y: int, side: RoomSide) -> Tile {
    if (x, y) == spec_room_customizer_position() {
        Tile::Customizer
    } else if x == 0 || x == ROOM_WIDTH - 1 || y == 0 || y == ROOM_HEIGHT - 1 {
        if (x, y) == crate::doors::spec_room_door_position(side) {
            Tile::Door
        } else {
            Tile::Wall
        }
    } else {
        Tile::Floor
    }
}

pub fn room_tile(x: i32, y: i32, side: RoomSide) -> (r: Tile)
    ensures
        r == spec_room_tile(x as int, y as int, side),
{
    if x == 1 && y == 1 {
        return Tile::Customizer;
    }
    if x == 0 || x == ROOM_WIDTH - 1 || y == 0 || y == ROOM_HEIGHT - 1 {
        let (door_x, door_y) = room_door_position(side);
        if x == door_x && y == door_y {
            Tile::Door
        } else {
            Tile::Wall
        }
    } else {
        Tile::Floor
    }
}

/// Tile at station coordinates `(x, y)`: a walled box with one door in
/// the middle of the top row and one in the middle of the bottom row.
pub open spec fn spec_station_tile(x: int, y: int) -> Tile {
    if x == 0 || x == STATION_WIDTH - 1 || y == 0 || y == STATION_HEIGHT - 1 {
        if x == STATION_WIDTH / 2 && (y == 0 || y == STATION_HEIGHT - 1) {
            Tile::Door
        } else {
            Tile::Wall
        }
    } else {
        Tile::Floor
    }
}

pub fn station_tile(x: i32, y: i32) -> (r: Tile)
    ensures
        r == spec_station_tile(x as int, y as int),
{
    if x == 0 || x == STATION_WIDTH - 1 || y == 0 || y == STATION_HEIGHT - 1 {
        let door_x = STATION_WIDTH / 2;
        if x == door_x && (y == 0 || y == STATION_HEIGHT - 1) {
            Tile::Door
        } else {
            Tile::Wall
        }
    } else {
        Tile::Floor
    }
}

/// Where a walker stands after entering a station from the street.
pub open spec fn spec_station_entry_position() -> (int, int) {
    (STATION_WIDTH / 2, STATION_HEIGHT - 2)
}

pub fn station_entry_position() -> (r: (i32, i32))
    ensures
        (r.0 as int, r.1 as int) == spec_station_entry_position(),
{
    (STATION_WIDTH / 2, STATION_HEIGHT - 2)
}

/// Station tile to stand on when arriving from the street row
/// `street_y`: next to the top door for the upper row, next to the
/// bottom door otherwise.
pub open spec fn spec_station_entry_position_for_street_y(street_y: int) -> (int, int) {
    if street_y == STATION_DOOR_Y_TOP {
        (STATION_WIDTH / 2, 1)
    } else {
        (STATION_WIDTH / 2, STATION_HEIGHT - 2)
    }
}

pub fn station_entry_position_for_street_y(street_y: i32) -> (r: (i32, i32))
    ensures
        (r.0 as int, r.1 as int) == spec_station_entry_position_for_street_y(street_y as int),
{
    let door_x = STATION_WIDTH / 2;
    let door_y = if street_y == STATION_DOOR_Y_TOP {
        1
    } else if street_y == STATION_DOOR_Y_BOTTOM {
        STATION_HEIGHT - 2
    } else {
        STATION_HEIGHT - 2
    };
    (door_x, door_y)
}

/// Tile at train-car coordinates `(x, y)`: walls around, floor inside.
pub open spec fn spec_train_tile(x: int, y: int) -> Tile {
    if x == 0 || x == TRAIN_WIDTH - 1 || y == 0 || y == TRAIN_HEIGHT - 1 {
        Tile::Wall
    } else {
        Tile::Floor
    }
}

pub fn train_tile(x: i32, y: i32) -> (r: Tile)
    ensures
        r == spec_train_tile(x as int, y as int),
{
    if x == 0 || x == TRAIN_WIDTH - 1 || y == 0 || y == TRAIN_HEIGHT - 1 {
        Tile::Wall
    } else {
        Tile::Floor
    }
}

} // verus!
