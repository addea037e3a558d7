//! Street doors and the rooms behind them. Doors repeat every
//! `DOOR_SPACING` columns: north-side doors where `x = 0 (mod 6)` on the
//! top row, south-side doors where `x = 3 (mod 6)` on the bottom row.
use vstd::prelude::*;

use crate::map::{ROOM_HEIGHT, ROOM_WIDTH, STREET_HEIGHT};
use crate::num::emod_i32;
use crate::text::{
    count_char, find_char, i32_to_string, lemma_count_char_zero, parse_i32_str, spec_parse_sint,
    str_eq,
};

verus! {

pub const DOOR_SPACING: i32 = 6;

pub const DOOR_OFFSET: i32 = 3;

/// Which side of the street a room opens onto.
#[derive(Debug, Clone, Copy, PartialEq, Eq, Structural)]
pub enum RoomSide {
    North,
    South,
}

/// Lowercase name of a street side.
pub open spec fn spec_side_str(side: RoomSide) -> Seq<char> {
    match side {
        RoomSide::North => "north"@,
        RoomSide::South => "south"@,
    }
}

impl RoomSide {
    pub fn as_str(&self) -> (r: &'static str)
        ensures
            r@ == spec_side_str(*self),
    {
        match self {
            RoomSide::North => "north",
            RoomSide::South => "south",
        }
    }
}

/// The side of the door at street tile `(x, y)`, if there is one.
pub open spec fn spec_street_door_side(x: int, y: int) -> Option<RoomSide> {
    let offset = x % (DOOR_SPACING as int);
    if y == 0 && offset == 0 {
        Some(RoomSide::North)
    } else if y == STREET_HEIGHT - 1 && offset == DOOR_OFFSET {
        Some(RoomSide::South)
    } else {
        None
    }
}

pub fn street_door_side(x: i32, y: i32) -> (r: Option<RoomSide>)
    ensures
        r == spec_street_door_side(x as int, y as int),
{
    let offset = emod_i32(x, DOOR_SPACING);
    if y == 0 && offset == 0 {
        Some(RoomSide::North)
    } else if y == STREET_HEIGHT - 1 && offset == DOOR_OFFSET {
        Some(RoomSide::South)
    } else {
        None
    }
}

pub open spec fn spec_min(a: int, b: int) -> int {
    if a <= b {
        a
    } else {
        b
    }
}

pub open spec fn spec_abs(a: int) -> int {
    if a >= 0 {
        a
    } else {
        -a
    }
}

/// Horizontal distance from column `x` to the closest door column on
/// either street side.
pub open spec fn spec_distance_to_nearest_door(x: int) -> int {
    let offset = x % (DOOR_SPACING as int);
    let dist_to_zero = spec_min(offset, DOOR_SPACING - offset);
    let d3 = spec_abs(offset - DOOR_OFFSET);
    let dist_to_offset = spec_min(d3, DOOR_SPACING - d3);
    spec_min(dist_to_zero, dist_to_offset)
}

pub fn distance_to_nearest_door(x: i32) -> (r: i32)
    ensures
        r as int == spec_distance_to_nearest_door(x as int),
{
    let offset = emod_i32(x, DOOR_SPACING);
    let dist_to_zero = if offset <= DOOR_SPACING - offset {
        offset
    } else {
        DOOR_SPACING - offset
    };
    let d3 = if offset >= DOOR_OFFSET {
        offset - DOOR_OFFSET
    } else {
        DOOR_OFFSET - offset
    };
    let dist_to_offset = if d3 <= DOOR_SPACING - d3 {
        d3
    } else {
        DOOR_SPACING - d3
    };
    if dist_to_zero <= dist_to_offset {
        dist_to_zero
    } else {
        dist_to_offset
    }
}

/// Room identifier text: the side name, a colon, and the street column.
pub open spec fn spec_room_id(side: RoomSide, x: int) -> Seq<char> {
    spec_side_str(side) + seq![':'] + crate::text::dec_int(x)
}

pub fn room_id_for_door(side: RoomSide, street_x: i32) -> (r: String)
    ensures
        r@ == spec_room_id(side, street_x as int),
{
    let mut r = String::from_str(side.as_str());
    r.append(":");
    let digits = i32_to_string(street_x);
    r.append(digits.as_str());
    proof {
        reveal_strlit(":");
        assert(":"@ =~= seq![':']);
        assert(r@ =~= spec_room_id(side, street_x as int));
    }
    r
}

/// Map identifier of the room named `room_id`.
pub open spec fn spec_room_map_id(room_id: Seq<char>) -> Seq<char> {
    "room/"@ + room_id
}

pub fn room_map_id(room_id: &str) -> (r: String)
    ensures
        r@ == spec_room_map_id(room_id@),
{
    let mut r = String::from_str("room/");
    r.append(room_id);
    r
}

/// `s` is a well-formed room identifier for side `side` and street
/// column `x`: the side name, one colon, then a column number that fits
/// an `i32`.
pub open spec fn room_id_ok(s: Seq<char>, side: RoomSide, x: int) -> bool {
    &&& i32::MIN <= x <= i32::MAX
    &&& exists|b: Seq<char>|
        #![auto]
        s == spec_side_str(side) + seq![':'] + b && count_char(b, ':') == 0 && spec_parse_sint(b)
            == Some(x)
}

proof fn lemma_side_str_has_no_colon(side: RoomSide)
    ensures
        spec_side_str(side).len() == 5,
        forall|j: int| 0 <= j < 5 ==> spec_side_str(side)[j] != ':',
{
    reveal_strlit("north");
    reveal_strlit("south");
    match side {
        RoomSide::North => {
            assert(spec_side_str(side) =~= seq!['n', 'o', 'r', 't', 'h']);
        },
        RoomSide::South => {
            assert(spec_side_str(side) =~= seq!['s', 'o', 'u', 't', 'h']);
        },
    }
}

/// In a well-formed room identifier the first colon stands right after
/// the side name, and nowhere else.
proof fn lemma_room_id_colon(s: Seq<char>, side: RoomSide, b: Seq<char>)
    requires
        s == spec_side_str(side) + seq![':'] + b,
        count_char(b, ':') == 0,
    ensures
        s.len() == 6 + b.len(),
        s[5] == ':',
        forall|j: int| 0 <= j < s.len() && j != 5 ==> s[j] != ':',
        b =~= s.skip(6),
{
    lemma_side_str_has_no_colon(side);
    lemma_count_char_zero(b, ':');
    assert(forall|j: int| 0 <= j < 5 ==> s[j] == spec_side_str(side)[j]);
    assert(forall|j: int| 6 <= j < s.len() ==> s[j] == b[j - 6]);
}

pub fn parse_room_id(room_id: &str) -> (r: Option<(RoomSide, i32)>)
    ensures
        match r {
            Some(p) => room_id_ok(room_id@, p.0, p.1 as int),
            None => forall|side: RoomSide, x: int| !room_id_ok(room_id@, side, x),
        },
{
    let ghost s = room_id@;
    let l = room_id.unicode_len();
    let i = match find_char(room_id, ':') {
        Some(i) => i,
        None => {
            proof {
                assert forall|side: RoomSide, x: int| !room_id_ok(s, side, x) by {
                    if room_id_ok(s, side, x) {
                        let b = choose|b: Seq<char>|
                            #![auto]
                            s == spec_side_str(side) + seq![':'] + b && count_char(b, ':') == 0
                                && spec_parse_sint(b) == Some(x);
                        lemma_room_id_colon(s, side, b);
                    }
                }
            }
            return None;
        },
    };
    let head = room_id.substring_char(0, i);
    let rest = room_id.substring_char(i + 1, l);
    let is_north = str_eq(head, "north");
    let is_south = str_eq(head, "south");
    if !(is_north || is_south) {
        proof {
            assert forall|side: RoomSide, x: int| !room_id_ok(s, side, x) by {
                if room_id_ok(s, side, x) {
                    let b = choose|b: Seq<char>|
                        #![auto]
                        s == spec_side_str(side) + seq![':'] + b && count_char(b, ':') == 0
                            && spec_parse_sint(b) == Some(x);
                    lemma_room_id_colon(s, side, b);
                    assert(head@ =~= spec_side_str(side));
                }
            }
        }
        return None;
    }
    if find_char(rest, ':').is_some() {
        proof {
            assert forall|side: RoomSide, x: int| !room_id_ok(s, side, x) by {
                if room_id_ok(s, side, x) {
                    let b = choose|b: Seq<char>|
                        #![auto]
                        s == spec_side_str(side) + seq![':'] + b && count_char(b, ':') == 0
                            && spec_parse_sint(b) == Some(x);
                    lemma_room_id_colon(s, side, b);
                    lemma_count_char_zero(b, ':');
                    assert(rest@ =~= b);
                }
            }
        }
        return None;
    }
    let side = if is_north {
        RoomSide::North
    } else {
        RoomSide::South
    };
    match parse_i32_str(rest) {
        Some(x) => {
            proof {
                lemma_count_char_zero(rest@, ':');
                assert(s =~= spec_side_str(side) + seq![':'] + rest@);
            }
            Some((side, x))
        },
        None => {
            proof {
                assert forall|sd: RoomSide, x: int| !room_id_ok(s, sd, x) by {
                    if room_id_ok(s, sd, x) {
                        let b = choose|b: Seq<char>|
                            #![auto]
                            s == spec_side_str(sd) + seq![':'] + b && count_char(b, ':') == 0
                                && spec_parse_sint(b) == Some(x);
                        lemma_room_id_colon(s, sd, b);
                        assert(rest@ =~= b);
                    }
                }
            }
            None
        },
    }
}

/// `s` is a well-formed room map identifier for `side` and column `x`.
pub open spec fn room_map_id_ok(s: Seq<char>, side: RoomSide, x: int) -> bool {
    let p = "room/"@;
    s.len() >= p.len() && s.subrange(0, p.len() as int) == p && room_id_ok(
        s.skip(p.len() as int),
        side,
        x,
    )
}

pub fn parse_room_map_id(map_id: &str) -> (r: Option<(RoomSide, i32)>)
    ensures
        match r {
            Some(p) => room_map_id_ok(map_id@, p.0, p.1 as int),
            None => forall|side: RoomSide, x: int| !room_map_id_ok(map_id@, side, x),
        },
{
    match crate::text::strip_prefix_str(map_id, "room/") {
        Some(rest) => {
            proof {
                assert(map_id@.subrange(0, "room/"@.len() as int) =~= "room/"@);
                assert(map_id@.skip("room/"@.len() as int) =~= rest@);
            }
            parse_room_id(rest)
        },
        None => None,
    }
}

/// Door tile inside a room: middle column, on the wall facing the street.
pub open spec fn spec_room_door_position(side: RoomSide) -> (int, int) {
    match side {
        RoomSide::North => (ROOM_WIDTH as int / 2, ROOM_HEIGHT as int - 1),
        RoomSide::South => (ROOM_WIDTH as int / 2, 0int),
    }
}

pub fn room_door_position(side: RoomSide) -> (r: (i32, i32))
    ensures
        (r.0 as int, r.1 as int) == spec_room_door_position(side),
{
    let door_x = ROOM_WIDTH / 2;
    let door_y = match side {
        RoomSide::North => ROOM_HEIGHT - 1,
        RoomSide::South => 0,
    };
    (door_x, door_y)
}

/// Tile to stand on just inside a room's door.
pub open spec fn spec_room_entry_position(side: RoomSide) -> (int, int) {
    match side {
        RoomSide::North => (ROOM_WIDTH as int / 2, ROOM_HEIGHT as int - 2),
        RoomSide::South => (ROOM_WIDTH as int / 2, 1int),
    }
}

pub fn room_entry_position(side: RoomSide) -> (r: (i32, i32))
    ensures
        (r.0 as int, r.1 as int) == spec_room_entry_position(side),
{
    let door_x = ROOM_WIDTH / 2;
    let door_y = match side {
        RoomSide::North => ROOM_HEIGHT - 2,
        RoomSide::South => 1,
    };
    (door_x, door_y)
}

/// Street tile to stand on after stepping out of a room on `side` at
/// street column `street_x`.
pub open spec fn spec_street_entry_position(side: RoomSide, street_x: int) -> (int, int) {
    match side {
        RoomSide::North => (street_x, 1int),
        RoomSide::South => (street_x, STREET_HEIGHT as int - 2),
    }
}

pub fn street_entry_position(side: RoomSide, street_x: i32) -> (r: (i32, i32))
    ensures
        (r.0 as int, r.1 as int) == spec_street_entry_position(side, street_x as int),
{
    let y = match side {
        RoomSide::North => 1,
        RoomSide::South => STREET_HEIGHT - 2,
    };
    (street_x, y)
}

} // verus!
