//! Geometry shared by every display backend.
use vstd::prelude::*;

verus! {

/// Whether a position lies on a canvas of the given size.
pub fn point_inside_canvas(w: i32, h: i32, x: i32, y: i32) -> (b: bool)
    ensures
        b == (x >= 0 && y >= 0 && x < w && y < h),
{
    x >= 0 && y >= 0 && x < w && y < h
}

/// The rows at the bottom of the terminal kept for messages.
pub const MESSAGE_WINDOW_HEIGHT: i32 = 5;

/// Half of `v`, rounded toward zero as integer division does.
pub open spec fn half(v: int) -> int {
    if v >= 0 {
        v / 2
    } else {
        -((-v) / 2)
    }
}

/// The screen position of a world position, with the camera centered on the
/// part of the screen above the message window.
pub fn translate_pos(
    width: i32,
    height: i32,
    camera_x: i32,
    camera_y: i32,
    world_x: i32,
    world_y: i32,
) -> (p: (i32, i32))
    requires
        height >= i32::MIN + MESSAGE_WINDOW_HEIGHT,
        i32::MIN <= world_x - camera_x <= i32::MAX,
        i32::MIN <= world_y - camera_y <= i32::MAX,
        i32::MIN <= world_x - camera_x + half(width as int) <= i32::MAX,
        i32::MIN <= world_y - camera_y + half(height - MESSAGE_WINDOW_HEIGHT) <= i32::MAX,
    ensures
        p.0 == world_x - camera_x + half(width as int),
        p.1 == world_y - camera_y + half(height - MESSAGE_WINDOW_HEIGHT),
{
    let w = width;
    let h = height - MESSAGE_WINDOW_HEIGHT;
    (world_x - camera_x + (w / 2), world_y - camera_y + (h / 2))
}

} // verus!
