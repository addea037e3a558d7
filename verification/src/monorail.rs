//! The circular track: track rows on the street, the four stations on
//! the ring, and the station/train map identifiers.
use vstd::prelude::*;

use crate::map::STREET_CIRCUMFERENCE_TILES;
use crate::num::emod_i64;
use crate::text::{
    ascii_eq_ci, dec_digits, dec_int, i64_to_string, parse_i64_str, parse_u32_str,
    spec_parse_sint, spec_parse_uint, str_eq_ignore_ascii_case, strip_prefix_str, u64_to_string,
};

verus! {

/// Upper of the two track rows on the street.
pub const TRACK_ROW_TOP: i32 = 7;

/// Lower of the two track rows on the street.
pub const TRACK_ROW_BOTTOM: i32 = 8;

/// Street row of the doors above the track.
pub const STATION_DOOR_Y_TOP: i32 = 6;

/// Street row of the doors below the track.
pub const STATION_DOOR_Y_BOTTOM: i32 = 9;

/// Ring x coordinate, wrapped into `0..STREET_CIRCUMFERENCE_TILES`.
pub open spec fn spec_wrap_circ(x: int) -> int {
    x % (STREET_CIRCUMFERENCE_TILES as int)
}

/// `x` is one of the four station columns (after wrapping it is one of
/// the four quarter points of the ring).
pub open spec fn spec_is_station_pos(x: int) -> bool {
    let quarter = STREET_CIRCUMFERENCE_TILES as int / 4;
    x == 0 || x == quarter || x == quarter * 2 || x == quarter * 3
}

/// The four station columns, in ring order starting at zero.
pub fn station_positions() -> (r: [i64; 4])
    ensures
        r@ =~= seq![0i64, 1024i64, 2048i64, 3072i64],
        STREET_CIRCUMFERENCE_TILES as int / 4 == 1024,
{
    let quarter: i64 = STREET_CIRCUMFERENCE_TILES / 4;
    [0, quarter, quarter * 2, quarter * 3]
}

/// Compass label of a station column, if it is one.
pub open spec fn spec_station_label(x: int) -> Option<Seq<char>> {
    let quarter = STREET_CIRCUMFERENCE_TILES as int / 4;
    if x == 0 {
        Some("north"@)
    } else if x == quarter {
        Some("east"@)
    } else if x == quarter * 2 {
        Some("south"@)
    } else if x == quarter * 3 {
        Some("west"@)
    } else {
        None
    }
}

pub fn station_label_for_x(station_x: i64) -> (r: Option<&'static str>)
    ensures
        match r {
            Some(l) => spec_station_label(station_x as int) == Some(l@),
            None => spec_station_label(station_x as int) is None,
        },
{
    let quarter: i64 = STREET_CIRCUMFERENCE_TILES / 4;
    if station_x == 0 {
        Some("north")
    } else if station_x == quarter {
        Some("east")
    } else if station_x == quarter * 2 {
        Some("south")
    } else if station_x == quarter * 3 {
        Some("west")
    } else {
        None
    }
}

/// Station column for a compass label, compared without ASCII case.
pub open spec fn spec_station_x_for_label(l: Seq<char>) -> Option<int> {
    let quarter = STREET_CIRCUMFERENCE_TILES as int / 4;
    if ascii_eq_ci(l, "north"@) {
        Some(0)
    } else if ascii_eq_ci(l, "east"@) {
        Some(quarter)
    } else if ascii_eq_ci(l, "south"@) {
        Some(quarter * 2)
    } else if ascii_eq_ci(l, "west"@) {
        Some(quarter * 3)
    } else {
        None
    }
}

pub fn station_x_for_label(label: &str) -> (r: Option<i64>)
    ensures
        match r {
            Some(v) => spec_station_x_for_label(label@) == Some(v as int),
            None => spec_station_x_for_label(label@) is None,
        },
{
    let quarter: i64 = STREET_CIRCUMFERENCE_TILES / 4;
    if str_eq_ignore_ascii_case(label, "north") {
        Some(0)
    } else if str_eq_ignore_ascii_case(label, "east") {
        Some(quarter)
    } else if str_eq_ignore_ascii_case(label, "south") {
        Some(quarter * 2)
    } else if str_eq_ignore_ascii_case(label, "west") {
        Some(quarter * 3)
    } else {
        None
    }
}

pub fn is_track_row(y: i32) -> (r: bool)
    ensures
        r == (y == TRACK_ROW_TOP || y == TRACK_ROW_BOTTOM),
{
    y == TRACK_ROW_TOP || y == TRACK_ROW_BOTTOM
}

pub fn is_station_x(x: i32) -> (r: bool)
    ensures
        r == spec_is_station_pos(spec_wrap_circ(x as int)),
{
    let wrapped: i64 = emod_i64(x as i64, STREET_CIRCUMFERENCE_TILES);
    let quarter: i64 = STREET_CIRCUMFERENCE_TILES / 4;
    wrapped == 0 || wrapped == quarter || wrapped == quarter * 2 || wrapped == quarter * 3
}

pub fn station_x_for_coord(x: i32) -> (r: Option<i64>)
    ensures
        match r {
            Some(v) => spec_is_station_pos(spec_wrap_circ(x as int)) && v as int == spec_wrap_circ(
                x as int,
            ),
            None => !spec_is_station_pos(spec_wrap_circ(x as int)),
        },
{
    if !is_station_x(x) {
        return None;
    }
    let wrapped: i64 = emod_i64(x as i64, STREET_CIRCUMFERENCE_TILES);
    Some(wrapped)
}

/// A station door sits on one of the two door rows, at a station column.
pub open spec fn spec_is_station_door(x: int, y: int) -> bool {
    (y == STATION_DOOR_Y_TOP || y == STATION_DOOR_Y_BOTTOM) && spec_is_station_pos(
        spec_wrap_circ(x),
    )
}

pub fn is_station_door(x: i32, y: i32) -> (r: bool)
    ensures
        r == spec_is_station_door(x as int, y as int),
{
    (y == STATION_DOOR_Y_TOP || y == STATION_DOOR_Y_BOTTOM) && is_station_x(x)
}

/// Map identifier of the station at ring column `x`.
pub open spec fn spec_station_map_id(x: int) -> Seq<char> {
    "station/"@ + dec_int(x)
}

pub fn station_map_id(station_x: i64) -> (r: String)
    ensures
        r@ == spec_station_map_id(station_x as int),
{
    let mut r = String::from_str("station/");
    let digits = i64_to_string(station_x);
    r.append(digits.as_str());
    r
}

/// Station column named by a station map identifier, before any range
/// check; `None` when the identifier has another shape.
pub open spec fn spec_parse_station_map_id(s: Seq<char>) -> Option<int> {
    let p = "station/"@;
    if s.len() >= p.len() && s.subrange(0, p.len() as int) == p {
        spec_parse_sint(s.skip(p.len() as int))
    } else {
        None
    }
}

pub fn parse_station_map_id(map_id: &str) -> (r: Option<i64>)
    ensures
        match r {
            Some(v) => spec_parse_station_map_id(map_id@) == Some(v as int),
            None => !(spec_parse_station_map_id(map_id@) matches Some(v) && i64::MIN <= v
                <= i64::MAX),
        },
{
    match strip_prefix_str(map_id, "station/") {
        Some(rest) => {
            proof {
                assert(map_id@.subrange(0, "station/"@.len() as int) =~= "station/"@);
                assert(map_id@.skip("station/"@.len() as int) =~= rest@);
            }
            parse_i64_str(rest)
        },
        None => None,
    }
}

/// Map identifier of a train car.
pub open spec fn spec_train_map_id(id: int) -> Seq<char> {
    "train/"@ + dec_digits(id)
}

pub fn train_map_id(train_id: u32) -> (r: String)
    ensures
        r@ == spec_train_map_id(train_id as int),
{
    let mut r = String::from_str("train/");
    let digits = u64_to_string(train_id as u64);
    r.append(digits.as_str());
    r
}

/// Train id named by a train map identifier, before any range check.
pub open spec fn spec_parse_train_map_id(s: Seq<char>) -> Option<int> {
    let p = "train/"@;
    if s.len() >= p.len() && s.subrange(0, p.len() as int) == p {
        spec_parse_uint(s.skip(p.len() as int))
    } else {
        None
    }
}

pub fn parse_train_map_id(map_id: &str) -> (r: Option<u32>)
    ensures
        match r {
            Some(v) => spec_parse_train_map_id(map_id@) == Some(v as int),
            None => !(spec_parse_train_map_id(map_id@) matches Some(v) && 0 <= v <= u32::MAX),
        },
{
    match strip_prefix_str(map_id, "train/") {
        Some(rest) => {
            proof {
                assert(map_id@.subrange(0, "train/"@.len() as int) =~= "train/"@);
                assert(map_id@.skip("train/"@.len() as int) =~= rest@);
            }
            parse_u32_str(rest)
        },
        None => None,
    }
}

} // verus!
