//! Where the taskbar widget goes on a monitor, and what its menu entry says.
use vstd::prelude::*;

verus! {

/// A rectangle in physical pixels.
#[derive(Clone, Copy, Debug, PartialEq, Eq, Structural)]
pub struct Rect {
    pub left: i32,
    pub top: i32,
    pub right: i32,
    pub bottom: i32,
}

/// The height of the taskbar: the part of the monitor below the work area, or above it.
pub open spec fn taskbar_height(monitor: Rect, work: Rect) -> int {
    if work.bottom < monitor.bottom {
        monitor.bottom - work.bottom
    } else if work.top > monitor.top {
        work.top - monitor.top
    } else {
        0
    }
}

/// Half the room the taskbar leaves around a widget of height `height`.
pub open spec fn centering(monitor: Rect, work: Rect, height: int) -> int {
    let room = taskbar_height(monitor, work) - height;
    if room > 0 {
        room / 2
    } else {
        0
    }
}

/// The widget's top-left corner, before the user's offsets: at the left of the work area;
/// centred in a bottom or top taskbar (twelve pixels up or down), or twelve pixels above
/// the bottom of the work area where there is no taskbar.
pub open spec fn widget_corner(monitor: Rect, work: Rect, height: int) -> (int, int) {
    let y = if work.bottom < monitor.bottom {
        work.bottom + centering(monitor, work, height) - 12
    } else if work.top > monitor.top {
        monitor.top + centering(monitor, work, height) + 12
    } else {
        work.bottom - height - 12
    };
    (work.left as int, y)
}

pub open spec fn fits_i32(v: int) -> bool {
    i32::MIN <= v <= i32::MAX
}

/// Whether every step of placing the widget stays within `i32`.
pub open spec fn position_fits(monitor: Rect, work: Rect, height: i32, x_offset: i32, y_offset: i32) -> bool {
    let c = widget_corner(monitor, work, height as int);
    &&& fits_i32(taskbar_height(monitor, work))
    &&& fits_i32(taskbar_height(monitor, work) - height)
    &&& fits_i32(work.bottom + centering(monitor, work, height as int))
    &&& fits_i32(work.bottom - height)
    &&& fits_i32(monitor.top + centering(monitor, work, height as int))
    &&& fits_i32(c.1)
    &&& fits_i32(c.0 + x_offset)
    &&& fits_i32(c.1 + y_offset)
}

/// Whether the widget can be placed without leaving `i32`.
pub fn position_in_range(monitor: Rect, work: Rect, height: i32, x_offset: i32, y_offset: i32) -> (r: bool)
    ensures
        r == position_fits(monitor, work, height, x_offset, y_offset),
{
    let tb: i128 = if work.bottom < monitor.bottom {
        monitor.bottom as i128 - work.bottom as i128
    } else if work.top > monitor.top {
        work.top as i128 - monitor.top as i128
    } else {
        0
    };
    let room: i128 = tb - height as i128;
    let half: i128 = if room > 0 {
        room / 2
    } else {
        0
    };
    let y: i128 = if work.bottom < monitor.bottom {
        work.bottom as i128 + half - 12
    } else if work.top > monitor.top {
        monitor.top as i128 + half + 12
    } else {
        work.bottom as i128 - height as i128 - 12
    };
    let lo = i32::MIN as i128;
    let hi = i32::MAX as i128;
    let ok = |v: i128| -> (b: bool)
        ensures
            b == (lo <= v <= hi),
        { lo <= v && v <= hi };
    ok(tb) && ok(room) && ok(work.bottom as i128 + half) && ok(work.bottom as i128 - height as i128)
        && ok(monitor.top as i128 + half) && ok(y) && ok(work.left as i128 + x_offset as i128) && ok(
        y + y_offset as i128,
    )
}

/// The widget's position on a monitor whose full area is `monitor` and whose work area
/// (without the taskbar) is `work`, for a widget `height` pixels high moved by the user's
/// offsets.
pub fn widget_position(monitor: Rect, work: Rect, height: i32, x_offset: i32, y_offset: i32) -> (r: (
    i32,
    i32,
))
    requires
        position_fits(monitor, work, height, x_offset, y_offset),
    ensures
        r.0 == widget_corner(monitor, work, height as int).0 + x_offset,
        r.1 == widget_corner(monitor, work, height as int).1 + y_offset,
{
    let bottom_taskbar = work.bottom < monitor.bottom;
    let top_taskbar = work.top > monitor.top;
    let taskbar: i32 = if bottom_taskbar {
        monitor.bottom - work.bottom
    } else if top_taskbar {
        work.top - monitor.top
    } else {
        0
    };
    let room: i32 = taskbar - height;
    let half: i32 = if room > 0 {
        room / 2
    } else {
        0
    };
    let x = work.left + x_offset;
    let vertical_offset: i32 = 12;
    let y: i32 = if bottom_taskbar {
        work.bottom + half - vertical_offset
    } else if top_taskbar {
        monitor.top + half + vertical_offset
    } else {
        work.bottom - height - vertical_offset
    };
    (x, y + y_offset)
}

/// The tray menu entry that toggles the widget: to close it while it shows, to show it
/// while it does not.
pub fn widget_menu_label(visible: bool) -> (r: &'static str)
    ensures
        r@ == (if visible {
            "关闭悬浮窗"@
        } else {
            "显示悬浮窗"@
        }),
{
    if visible {
        "关闭悬浮窗"
    } else {
        "显示悬浮窗"
    }
}

} // verus!
