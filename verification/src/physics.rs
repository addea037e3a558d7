//! The movement engine: one-tile steps, checked against the tile grid
//! of the map the walker stands on, with transitions through doors.
use vstd::prelude::*;

use crate::doors::{
    parse_room_map_id, room_entry_position, room_map_id, room_id_for_door, room_map_id_ok,
    spec_room_entry_position, spec_room_id, spec_room_map_id, spec_side_str,
    spec_street_entry_position, street_door_side, street_entry_position, RoomSide,
};
use crate::map::{
    room_tile, spec_room_tile, spec_station_tile, spec_street_tile, spec_train_tile, station_tile,
    street_tile, train_tile, Position, Tile, ROOM_HEIGHT, ROOM_WIDTH, STATION_HEIGHT,
    STATION_WIDTH, STREET_HEIGHT, TRAIN_HEIGHT, TRAIN_WIDTH,
};
use crate::monorail::{
    parse_station_map_id, parse_train_map_id, spec_parse_station_map_id, spec_parse_train_map_id,
    spec_station_map_id, spec_wrap_circ, station_map_id, station_x_for_coord,
    STATION_DOOR_Y_BOTTOM, STATION_DOOR_Y_TOP,
};
use crate::text::str_eq;

verus! {

#[derive(Debug, Clone, Copy, PartialEq, Eq, Hash, Structural)]
pub enum Direction {
    Up,
    Down,
    Left,
    Right,
}

/// What a step attempt came to: a plain move within the map, a
/// transition onto another map, or nothing.
#[derive(Debug, Clone)]
pub enum MoveOutcome {
    Moved(Position),
    Transition(Position),
    Blocked,
}

/// Ghost image of a movement outcome: the variant with the target map
/// identifier and tile.
pub enum MoveView {
    Moved(Seq<char>, int, int),
    Transition(Seq<char>, int, int),
    Blocked,
}

/// Ghost image of an executable outcome.
pub open spec fn outcome_view(m: MoveOutcome) -> MoveView {
    match m {
        MoveOutcome::Moved(p) => MoveView::Moved(p.map_id@, p.x as int, p.y as int),
        MoveOutcome::Transition(p) => MoveView::Transition(p.map_id@, p.x as int, p.y as int),
        MoveOutcome::Blocked => MoveView::Blocked,
    }
}

/// Coordinates one tile away in direction `dir` (y grows downward).
pub open spec fn spec_step(x: int, y: int, dir: Direction) -> (int, int) {
    match dir {
        Direction::Up => (x, y - 1),
        Direction::Down => (x, y + 1),
        Direction::Left => (x - 1, y),
        Direction::Right => (x + 1, y),
    }
}

pub fn step(x: i32, y: i32, dir: Direction) -> (r: (i32, i32))
    requires
        i32::MIN < x < i32::MAX,
        i32::MIN < y < i32::MAX,
    ensures
        (r.0 as int, r.1 as int) == spec_step(x as int, y as int, dir),
{
    match dir {
        Direction::Up => (x, y - 1),
        Direction::Down => (x, y + 1),
        Direction::Left => (x - 1, y),
        Direction::Right => (x + 1, y),
    }
}

/// Result of a step attempt on the street.
pub open spec fn spec_move_on_street(m: Seq<char>, x: int, y: int, dir: Direction) -> MoveView {
    let (nx, ny) = spec_step(x, y, dir);
    if ny < 0 || ny >= STREET_HEIGHT as int {
        MoveView::Blocked
    } else {
        match spec_street_tile(nx, ny) {
            Tile::Wall => MoveView::Blocked,
            Tile::Customizer => MoveView::Blocked,
            Tile::Door => match crate::doors::spec_street_door_side(nx, ny) {
                Some(side) => {
                    let (rx, ry) = spec_room_entry_position(side);
                    MoveView::Transition(spec_room_map_id(spec_room_id(side, nx)), rx, ry)
                },
                None => MoveView::Blocked,
            },
            Tile::StationDoor => {
                let sx = spec_wrap_circ(nx);
                let (ex, ey) = crate::map::spec_station_entry_position();
                MoveView::Transition(spec_station_map_id(sx), ex, ey)
            },
            Tile::Floor => MoveView::Moved(m, nx, ny),
        }
    }
}

/// Result of a step attempt inside the room `side:street_x`.
pub open spec fn spec_move_in_room(
    m: Seq<char>,
    x: int,
    y: int,
    dir: Direction,
    side: RoomSide,
    street_x: int,
) -> MoveView {
    let (nx, ny) = spec_step(x, y, dir);
    if nx < 0 || nx >= ROOM_WIDTH as int || ny < 0 || ny >= ROOM_HEIGHT as int {
        MoveView::Blocked
    } else {
        match spec_room_tile(nx, ny, side) {
            Tile::Wall => MoveView::Blocked,
            Tile::Customizer => MoveView::Blocked,
            Tile::Door => {
                let (sx, sy) = spec_street_entry_position(side, street_x);
                MoveView::Transition("street"@, sx, sy)
            },
            _ => MoveView::Moved(m, nx, ny),
        }
    }
}

/// Result of a step attempt inside the station at column `station_x`.
pub open spec fn spec_move_in_station(
    m: Seq<char>,
    x: int,
    y: int,
    dir: Direction,
    station_x: int,
) -> MoveView {
    let (nx, ny) = spec_step(x, y, dir);
    if nx < 0 || nx >= STATION_WIDTH as int || ny < 0 || ny >= STATION_HEIGHT as int {
        MoveView::Blocked
    } else {
        match spec_station_tile(nx, ny) {
            Tile::Wall => MoveView::Blocked,
            Tile::Customizer => MoveView::Blocked,
            Tile::Door => {
                if i32::MIN <= station_x <= i32::MAX {
                    let sy = if ny == 0 {
                        STATION_DOOR_Y_TOP as int
                    } else {
                        STATION_DOOR_Y_BOTTOM as int
                    };
                    MoveView::Transition("street"@, station_x, sy)
                } else {
                    MoveView::Blocked
                }
            },
            _ => MoveView::Moved(m, nx, ny),
        }
    }
}

/// Result of a step attempt inside a train car: riders can walk around
/// but never out; they leave only by disembarking.
pub open spec fn spec_move_in_train(m: Seq<char>, x: int, y: int, dir: Direction) -> MoveView {
    let (nx, ny) = spec_step(x, y, dir);
    if nx < 0 || nx >= TRAIN_WIDTH as int || ny < 0 || ny >= TRAIN_HEIGHT as int {
        MoveView::Blocked
    } else {
        match spec_train_tile(nx, ny) {
            Tile::Wall => MoveView::Blocked,
            _ => MoveView::Moved(m, nx, ny),
        }
    }
}

/// Result of a step attempt from `(x, y)` on map `m`. An identifier that
/// names no known map blocks every move.
pub open spec fn spec_try_move(m: Seq<char>, x: int, y: int, dir: Direction) -> MoveView {
    if m == "street"@ {
        spec_move_on_street(m, x, y, dir)
    } else if exists|side: RoomSide, sx: int| room_map_id_ok(m, side, sx) {
        let (side, sx) = choose|side: RoomSide, sx: int| room_map_id_ok(m, side, sx);
        spec_move_in_room(m, x, y, dir, side, sx)
    } else if spec_parse_station_map_id(m) is Some && i64::MIN <= spec_parse_station_map_id(
        m,
    )->0 <= i64::MAX {
        spec_move_in_station(m, x, y, dir, spec_parse_station_map_id(m)->0)
    } else if spec_parse_train_map_id(m) is Some && 0 <= spec_parse_train_map_id(m)->0
        <= u32::MAX {
        spec_move_in_train(m, x, y, dir)
    } else {
        MoveView::Blocked
    }
}

/// A well-formed room map identifier names exactly one room.
pub proof fn lemma_room_map_id_unique(s: Seq<char>, a: RoomSide, xa: int, b: RoomSide, xb: int)
    requires
        room_map_id_ok(s, a, xa),
        room_map_id_ok(s, b, xb),
    ensures
        a == b,
        xa == xb,
{
    let t = s.skip("room/"@.len() as int);
    let ba = choose|bb: Seq<char>|
        #![auto]
        t == spec_side_str(a) + seq![':'] + bb && crate::text::count_char(bb, ':') == 0
            && crate::text::spec_parse_sint(bb) == Some(xa);
    let bbb = choose|bb: Seq<char>|
        #![auto]
        t == spec_side_str(b) + seq![':'] + bb && crate::text::count_char(bb, ':') == 0
            && crate::text::spec_parse_sint(bb) == Some(xb);
    reveal_strlit("north");
    reveal_strlit("south");
    assert(spec_side_str(a).len() == 5 && spec_side_str(b).len() == 5);
    assert forall|j: int| 0 <= j < 5 implies spec_side_str(a)[j] == spec_side_str(b)[j] by {
        assert(spec_side_str(a)[j] == (spec_side_str(a) + seq![':'] + ba)[j]);
        assert(spec_side_str(b)[j] == (spec_side_str(b) + seq![':'] + bbb)[j]);
        assert(t[j] == (spec_side_str(a) + seq![':'] + ba)[j]);
        assert(t[j] == (spec_side_str(b) + seq![':'] + bbb)[j]);
    }
    assert(spec_side_str(a) =~= spec_side_str(b));
    if a != b {
        assert(spec_side_str(a)[0] == 'n' || spec_side_str(a)[0] == 's');
        assert("north"@[0] == 'n' && "south"@[0] == 's');
        assert(false);
    }
    assert(t.len() == (spec_side_str(a) + seq![':'] + ba).len());
    assert((spec_side_str(a) + seq![':'] + ba).len() == 6 + ba.len());
    assert(t.len() == (spec_side_str(b) + seq![':'] + bbb).len());
    assert((spec_side_str(b) + seq![':'] + bbb).len() == 6 + bbb.len());
    assert(ba.len() == bbb.len());
    assert forall|j: int| 0 <= j < ba.len() implies ba[j] == bbb[j] by {
        assert(ba[j] == (spec_side_str(a) + seq![':'] + ba)[j + 6]);
        assert(bbb[j] == (spec_side_str(b) + seq![':'] + bbb)[j + 6]);
        assert(t[j + 6] == (spec_side_str(a) + seq![':'] + ba)[j + 6]);
        assert(t[j + 6] == (spec_side_str(b) + seq![':'] + bbb)[j + 6]);
    }
    assert(ba =~= bbb);
}

/// Attempt a single-tile move from `position`; the caller keeps the
/// position unchanged when the result is `Blocked`.
pub fn try_move(position: &Position, dir: Direction) -> (r: MoveOutcome)
    requires
        i32::MIN < position.x < i32::MAX,
        i32::MIN < position.y < i32::MAX,
    ensures
        outcome_view(r) == spec_try_move(
            position.map_id@,
            position.x as int,
            position.y as int,
            dir,
        ),
{
    let ghost m = position.map_id@;
    if str_eq(position.map_id.as_str(), "street") {
        move_on_street(position, dir)
    } else if let Some((side, street_x)) = parse_room_map_id(position.map_id.as_str()) {
        proof {
            let (cside, csx) = choose|cside: RoomSide, csx: int| room_map_id_ok(m, cside, csx);
            lemma_room_map_id_unique(m, side, street_x as int, cside, csx);
        }
        move_in_room(position, dir, side, street_x)
    } else if let Some(station_x) = parse_station_map_id(position.map_id.as_str()) {
        move_in_station(position, dir, station_x)
    } else if parse_train_map_id(position.map_id.as_str()).is_some() {
        move_in_train(position, dir)
    } else {
        MoveOutcome::Blocked
    }
}

fn move_on_street(position: &Position, dir: Direction) -> (r: MoveOutcome)
    requires
        i32::MIN < position.x < i32::MAX,
        i32::MIN < position.y < i32::MAX,
        position.map_id@ == "street"@,
    ensures
        outcome_view(r) == spec_move_on_street(
            position.map_id@,
            position.x as int,
            position.y as int,
            dir,
        ),
{
    let (nx, ny) = step(position.x, position.y, dir);
    if ny < 0 || ny >= STREET_HEIGHT {
        return MoveOutcome::Blocked;
    }
    match street_tile(nx, ny) {
        Tile::Wall | Tile::Customizer => MoveOutcome::Blocked,
        Tile::Door => {
            if let Some(side) = street_door_side(nx, ny) {
                let room_id = room_id_for_door(side, nx);
                let map_id = room_map_id(room_id.as_str());
                let (rx, ry) = room_entry_position(side);
                MoveOutcome::Transition(Position { map_id, x: rx, y: ry })
            } else {
                MoveOutcome::Blocked
            }
        },
        Tile::StationDoor => {
            let station_x = match station_x_for_coord(nx) {
                Some(value) => value,
                None => {
                    return MoveOutcome::Blocked;
                },
            };
            let map_id = station_map_id(station_x);
            let (sx, sy) = crate::map::station_entry_position();
            MoveOutcome::Transition(Position { map_id, x: sx, y: sy })
        },
        Tile::Floor => MoveOutcome::Moved(
            Position { map_id: position.map_id.clone(), x: nx, y: ny },
        ),
    }
}

fn move_in_room(position: &Position, dir: Direction, side: RoomSide, street_x: i32) -> (r:
    MoveOutcome)
    requires
        i32::MIN < position.x < i32::MAX,
        i32::MIN < position.y < i32::MAX,
    ensures
        outcome_view(r) == spec_move_in_room(
            position.map_id@,
            position.x as int,
            position.y as int,
            dir,
            side,
            street_x as int,
        ),
{
    let (nx, ny) = step(position.x, position.y, dir);
    if nx < 0 || nx >= ROOM_WIDTH || ny < 0 || ny >= ROOM_HEIGHT {
        return MoveOutcome::Blocked;
    }
    match room_tile(nx, ny, side) {
        Tile::Wall | Tile::Customizer => MoveOutcome::Blocked,
        Tile::Door => {
            let (sx, sy) = street_entry_position(side, street_x);
            MoveOutcome::Transition(Position { map_id: String::from_str("street"), x: sx, y: sy })
        },
        Tile::Floor | Tile::StationDoor => MoveOutcome::Moved(
            Position { map_id: position.map_id.clone(), x: nx, y: ny },
        ),
    }
}

fn move_in_station(position: &Position, dir: Direction, station_x: i64) -> (r: MoveOutcome)
    requires
        i32::MIN < position.x < i32::MAX,
        i32::MIN < position.y < i32::MAX,
    ensures
        outcome_view(r) == spec_move_in_station(
            position.map_id@,
            position.x as int,
            position.y as int,
            dir,
            station_x as int,
        ),
{
    let (nx, ny) = step(position.x, position.y, dir);
    if nx < 0 || nx >= STATION_WIDTH || ny < 0 || ny >= STATION_HEIGHT {
        return MoveOutcome::Blocked;
    }
    match station_tile(nx, ny) {
        Tile::Wall | Tile::Customizer => MoveOutcome::Blocked,
        Tile::Door => {
            if -2147483648i64 <= station_x && station_x <= 2147483647i64 {
                let sy = if ny == 0 {
                    STATION_DOOR_Y_TOP
                } else {
                    STATION_DOOR_Y_BOTTOM
                };
                MoveOutcome::Transition(
                    Position { map_id: String::from_str("street"), x: station_x as i32, y: sy },
                )
            } else {
                MoveOutcome::Blocked
            }
        },
        Tile::Floor | Tile::StationDoor => MoveOutcome::Moved(
            Position { map_id: position.map_id.clone(), x: nx, y: ny },
        ),
    }
}

fn move_in_train(position: &Position, dir: Direction) -> (r: MoveOutcome)
    requires
        i32::MIN < position.x < i32::MAX,
        i32::MIN < position.y < i32::MAX,
    ensures
        outcome_view(r) == spec_move_in_train(
            position.map_id@,
            position.x as int,
            position.y as int,
            dir,
        ),
{
    let (nx, ny) = step(position.x, position.y, dir);
    if nx < 0 || nx >= TRAIN_WIDTH || ny < 0 || ny >= TRAIN_HEIGHT {
        return MoveOutcome::Blocked;
    }
    match train_tile(nx, ny) {
        Tile::Wall => MoveOutcome::Blocked,
        _ => MoveOutcome::Moved(Position { map_id: position.map_id.clone(), x: nx, y: ny }),
    }
}

} // verus!
