pub mod broadcast;
pub mod chat;
pub mod codec;
pub mod commands;
pub mod config;
pub mod doors;
pub mod map;
pub mod messages;
pub mod money;
pub mod monorail;
pub mod movement;
pub mod num;
pub mod peer;
pub mod physics;
pub mod session;
pub mod state;
pub mod text;
pub mod trains;
pub mod wallet;

use vstd::prelude::*;

verus! {

/// True when `(bx, by)` lies inside the `width x height` box centered on
/// `(ax, ay)` (the box is anchored so that its center cell is `(ax, ay)`).
pub open spec fn spec_in_box(ax: int, ay: int, bx: int, by: int, width: int, height: int) -> bool {
    let min_x = ax - width / 2;
    let min_y = ay - height / 2;
    min_x <= bx <= min_x + width - 1 && min_y <= by <= min_y + height - 1
}

/// Proximity test used for street chat, `who` filtering and whispers.
pub fn in_box(ax: i32, ay: i32, bx: i32, by: i32, width: i32, height: i32) -> (r: bool)
    requires
        0 <= width,
        0 <= height,
    ensures
        r == spec_in_box(ax as int, ay as int, bx as int, by as int, width as int, height as int),
{
    let half_w: i64 = (width as i64) / 2;
    let half_h: i64 = (height as i64) / 2;
    let min_x: i64 = (ax as i64) - half_w;
    let max_x: i64 = min_x + (width as i64) - 1;
    let min_y: i64 = (ay as i64) - half_h;
    let max_y: i64 = min_y + (height as i64) - 1;
    (bx as i64) >= min_x && (bx as i64) <= max_x && (by as i64) >= min_y && (by as i64) <= max_y
}

} // verus!
