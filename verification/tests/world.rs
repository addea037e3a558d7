use street_relay::doors::{
    distance_to_nearest_door, parse_room_id, parse_room_map_id, room_entry_position,
    room_id_for_door, room_map_id, street_door_side, RoomSide,
};
use street_relay::map::{room_tile, station_tile, street_tile, train_tile, Position, Tile};
use street_relay::monorail::{
    is_station_door, is_station_x, parse_station_map_id, parse_train_map_id, station_label_for_x,
    station_map_id, station_x_for_label, train_map_id,
};
use street_relay::physics::{step, try_move, Direction, MoveOutcome};
use street_relay::trains::station_passed;

#[test]
fn street_tiles_follow_the_ring_rules() {
    assert_eq!(street_tile(0, 0), Tile::Door);
    assert_eq!(street_tile(6, 0), Tile::Door);
    assert_eq!(street_tile(1, 0), Tile::Wall);
    assert_eq!(street_tile(3, 15), Tile::Door);
    assert_eq!(street_tile(4, 15), Tile::Wall);
    assert_eq!(street_tile(5, 5), Tile::Floor);
    assert_eq!(street_tile(0, 6), Tile::StationDoor);
    assert_eq!(street_tile(0, 9), Tile::StationDoor);
    assert_eq!(street_tile(1024, 6), Tile::StationDoor);
    assert_eq!(street_tile(1, 6), Tile::Floor);
}

#[test]
fn room_tiles_have_walls_door_and_customizer() {
    assert_eq!(room_tile(1, 1, RoomSide::North), Tile::Customizer);
    assert_eq!(room_tile(16, 15, RoomSide::North), Tile::Door);
    assert_eq!(room_tile(16, 0, RoomSide::South), Tile::Door);
    assert_eq!(room_tile(0, 5, RoomSide::North), Tile::Wall);
    assert_eq!(room_tile(10, 10, RoomSide::North), Tile::Floor);
}

#[test]
fn station_tiles_have_two_doors() {
    assert_eq!(station_tile(16, 0), Tile::Door);
    assert_eq!(station_tile(16, 15), Tile::Door);
    assert_eq!(station_tile(0, 0), Tile::Wall);
    assert_eq!(station_tile(8, 8), Tile::Floor);
    assert_eq!(train_tile(0, 0), Tile::Wall);
    assert_eq!(train_tile(8, 8), Tile::Floor);
}

#[test]
fn door_spacing_and_distance() {
    assert!(street_door_side(0, 0).is_some());
    assert!(street_door_side(12, 0).is_some());
    assert!(street_door_side(3, 15).is_some());
    assert!(street_door_side(-6, 0).is_some());
    assert!(street_door_side(1, 0).is_none());
    assert_eq!(distance_to_nearest_door(0), 0);
    assert_eq!(distance_to_nearest_door(1), 1);
    assert_eq!(distance_to_nearest_door(4), 1);
}

#[test]
fn map_id_round_trips() {
    let rid = room_id_for_door(RoomSide::North, 0);
    assert_eq!(rid, "north:0");
    assert_eq!(room_map_id(&rid), "room/north:0");
    assert_eq!(parse_room_id("north:0"), Some((RoomSide::North, 0)));
    assert_eq!(parse_room_id("south:-6"), Some((RoomSide::South, -6)));
    assert_eq!(parse_room_id("east:0"), None);
    assert_eq!(parse_room_id("north:0:1"), None);
    assert_eq!(parse_room_map_id("room/north:12"), Some((RoomSide::North, 12)));
    assert_eq!(parse_room_map_id("street"), None);
    assert_eq!(station_map_id(1024), "station/1024");
    assert_eq!(parse_station_map_id("station/1024"), Some(1024));
    assert_eq!(train_map_id(2), "train/2");
    assert_eq!(parse_train_map_id("train/2"), Some(2));
    assert_eq!(parse_train_map_id("train/x"), None);
}

#[test]
fn station_labels_name_the_quarter_points() {
    assert_eq!(station_label_for_x(0), Some("north"));
    assert_eq!(station_label_for_x(1024), Some("east"));
    assert_eq!(station_label_for_x(2048), Some("south"));
    assert_eq!(station_label_for_x(3072), Some("west"));
    assert_eq!(station_label_for_x(5), None);
    assert_eq!(station_x_for_label("EAST"), Some(1024));
    assert_eq!(station_x_for_label("noRTH"), Some(0));
    assert_eq!(station_x_for_label("up"), None);
    assert!(is_station_x(0));
    assert!(is_station_x(4096));
    assert!(!is_station_x(7));
    assert!(is_station_door(0, 6));
    assert!(is_station_door(2048, 9));
    assert!(!is_station_door(0, 5));
}

#[test]
fn step_moves_one_tile() {
    assert_eq!(step(3, 4, Direction::Up), (3, 3));
    assert_eq!(step(3, 4, Direction::Down), (3, 5));
    assert_eq!(step(3, 4, Direction::Left), (2, 4));
    assert_eq!(step(3, 4, Direction::Right), (4, 4));
}

fn pos(map: &str, x: i32, y: i32) -> Position {
    Position { map_id: map.to_string(), x, y }
}

#[test]
fn street_door_up_transitions_into_the_room() {
    // on the street at x=0, y=1, a step up enters room north:0 at (16, 14)
    let outcome = try_move(&pos("street", 0, 1), Direction::Up);
    match outcome {
        MoveOutcome::Transition(p) => {
            assert_eq!(p.map_id, "room/north:0");
            assert_eq!((p.x, p.y), (16, 14));
        },
        other => panic!("expected a transition, got {:?}", other),
    }
}

#[test]
fn wall_blocks_and_floor_moves() {
    match try_move(&pos("street", 1, 1), Direction::Up) {
        MoveOutcome::Blocked => {},
        other => panic!("expected blocked, got {:?}", other),
    }
    match try_move(&pos("street", 5, 5), Direction::Down) {
        MoveOutcome::Moved(p) => assert_eq!((p.x, p.y), (5, 6)),
        other => panic!("expected a move, got {:?}", other),
    }
}

#[test]
fn room_door_leads_back_to_the_street() {
    match try_move(&pos("room/north:0", 16, 14), Direction::Down) {
        MoveOutcome::Transition(p) => {
            assert_eq!(p.map_id, "street");
            assert_eq!((p.x, p.y), (0, 1));
        },
        other => panic!("expected a transition, got {:?}", other),
    }
}

#[test]
fn station_doors_lead_to_their_street_rows() {
    match try_move(&pos("station/1024", 16, 14), Direction::Down) {
        MoveOutcome::Transition(p) => {
            assert_eq!(p.map_id, "street");
            assert_eq!((p.x, p.y), (1024, 9));
        },
        other => panic!("expected a transition, got {:?}", other),
    }
    match try_move(&pos("station/1024", 16, 1), Direction::Up) {
        MoveOutcome::Transition(p) => {
            assert_eq!(p.map_id, "street");
            assert_eq!((p.x, p.y), (1024, 6));
        },
        other => panic!("expected a transition, got {:?}", other),
    }
}

#[test]
fn trains_keep_their_riders_inside() {
    match try_move(&pos("train/0", 1, 1), Direction::Up) {
        MoveOutcome::Blocked => {},
        other => panic!("expected blocked, got {:?}", other),
    }
    match try_move(&pos("train/0", 5, 5), Direction::Right) {
        MoveOutcome::Moved(p) => assert_eq!((p.x, p.y), (6, 5)),
        other => panic!("expected a move, got {:?}", other),
    }
    match try_move(&pos("nowhere", 5, 5), Direction::Right) {
        MoveOutcome::Blocked => {},
        other => panic!("expected blocked, got {:?}", other),
    }
}

#[test]
fn the_pass_window_covers_the_station_and_wraps() {
    let circ = 4_096_000;
    // a clockwise window [10, 50] covers 30 but not 60
    assert!(station_passed(10, 50, 30, circ, true));
    assert!(!station_passed(10, 50, 60, circ, true));
    // a window that wrapped past the ring's end covers both arcs
    assert!(station_passed(4_095_000, 500, 100, circ, true));
    assert!(station_passed(4_095_000, 500, 4_095_500, circ, true));
    assert!(!station_passed(4_095_000, 500, 2_000_000, circ, true));
    // a window that did not move covers nothing
    assert!(!station_passed(70, 70, 70, circ, true));
    // the window read backwards in the other direction is the same
    assert_eq!(
        station_passed(10, 50, 30, circ, true),
        station_passed(50, 10, 30, circ, false)
    );
    assert_eq!(
        station_passed(4_095_000, 500, 100, circ, true),
        station_passed(500, 4_095_000, 100, circ, false)
    );
    assert_eq!(
        station_passed(10, 50, 60, circ, true),
        station_passed(50, 10, 60, circ, false)
    );
}
