//! Where the detail popup goes relative to the main widget.
use vstd::prelude::*;

verus! {

/// The usable rectangle of a monitor (the taskbar excluded), in physical pixels.
#[derive(Clone, Copy, Debug, PartialEq, Eq, Structural)]
pub struct WorkArea {
    pub x: i32,
    pub y: i32,
    pub width: i32,
    pub height: i32,
}

/// Side length of the stand-in work area used when the monitor is unknown.
pub const FALLBACK_EXTENT: i32 = 1048576;

pub open spec fn fits_i32(v: int) -> bool {
    i32::MIN <= v <= i32::MAX
}

pub open spec fn clamp_int(v: int, lo: int, hi: int) -> int {
    if v < lo {
        lo
    } else if v > hi {
        hi
    } else {
        v
    }
}

pub open spec fn max_int(a: int, b: int) -> int {
    if a >= b {
        a
    } else {
        b
    }
}

pub open spec fn area_right(area: WorkArea) -> int {
    area.x + area.width
}

pub open spec fn area_bottom(area: WorkArea) -> int {
    area.y + area.height
}

/// Room between the widget's bottom edge (plus the gap) and the bottom of the work area.
pub open spec fn space_below(main_y: int, main_h: int, gap: int, area: WorkArea) -> int {
    area_bottom(area) - (main_y + main_h) - gap
}

/// Room between the top of the work area and the widget's top edge (minus the gap).
pub open spec fn space_above(main_y: int, gap: int, area: WorkArea) -> int {
    main_y - area.y - gap
}

/// The popup opens below when it fits there, else above when it fits there,
/// else on whichever side has more room (below on a tie).
pub open spec fn opens_below(main_y: int, main_h: int, gap: int, area: WorkArea, panel_h: int) -> bool {
    let below = space_below(main_y, main_h, gap, area);
    let above = space_above(main_y, gap, area);
    if panel_h <= below {
        true
    } else if panel_h <= above {
        false
    } else {
        below >= above
    }
}

/// The popup's top edge before it is pulled into the work area.
pub open spec fn unclamped_y(main_y: int, main_h: int, gap: int, area: WorkArea, panel_h: int) -> int {
    if opens_below(main_y, main_h, gap, area, panel_h) {
        main_y + main_h + gap
    } else {
        main_y - panel_h - gap
    }
}

/// The popup's top edge.
pub open spec fn panel_y(main_y: int, main_h: int, gap: int, area: WorkArea, panel_h: int) -> int {
    clamp_int(
        unclamped_y(main_y, main_h, gap, area, panel_h),
        area.y as int,
        max_int(area_bottom(area) - panel_h, area.y as int),
    )
}

/// The popup's left edge: aligned with the widget, pulled back when it spills
/// past the right edge, then kept inside the work area.
pub open spec fn panel_x(main_x: int, area: WorkArea, panel_w: int) -> int {
    let right = area_right(area);
    let x0 = if main_x + panel_w > right {
        right - panel_w
    } else {
        main_x
    };
    clamp_int(x0, area.x as int, max_int(right - panel_w, area.x as int))
}

/// Every intermediate value of the placement, as the computation meets it in
/// 32-bit arithmetic, is a 32-bit value.
pub open spec fn placement_in_range(
    main_x: int,
    main_y: int,
    main_h: int,
    gap: int,
    area: WorkArea,
    panel_w: int,
    panel_h: int,
) -> bool {
    let below = opens_below(main_y, main_h, gap, area, panel_h);
    &&& fits_i32(area_right(area))
    &&& fits_i32(area_bottom(area))
    &&& fits_i32(main_y + main_h)
    &&& fits_i32(area_bottom(area) - (main_y + main_h))
    &&& fits_i32(space_below(main_y, main_h, gap, area))
    &&& fits_i32(main_y - area.y)
    &&& fits_i32(space_above(main_y, gap, area))
    &&& (below ==> fits_i32(main_y + main_h + gap))
    &&& (!below ==> fits_i32(main_y - panel_h) && fits_i32(main_y - panel_h - gap))
    &&& fits_i32(area_bottom(area) - panel_h)
    &&& fits_i32(main_x + panel_w)
    &&& fits_i32(area_right(area) - panel_w)
}

fn fits(v: i64) -> (r: bool)
    ensures
        r == fits_i32(v as int),
{
    -2147483648i64 <= v && v <= 2147483647i64
}

fn clamp_i64(v: i64, lo: i64, hi: i64) -> (r: i64)
    requires
        lo <= hi,
    ensures
        r == clamp_int(v as int, lo as int, hi as int),
{
    if v < lo {
        lo
    } else if v > hi {
        hi
    } else {
        v
    }
}

fn max_i64(a: i64, b: i64) -> (r: i64)
    ensures
        r == max_int(a as int, b as int),
{
    if a >= b {
        a
    } else {
        b
    }
}

/// The work area of the widget's monitor, or, when that is unknown, a generous
/// square of side `FALLBACK_EXTENT` whose corner is the widget's position.
pub fn work_area_or_fallback(monitor_area: Option<WorkArea>, main_x: i32, main_y: i32) -> (r: WorkArea)
    ensures
        r == (match monitor_area {
            Some(a) => a,
            None => WorkArea { x: main_x, y: main_y, width: FALLBACK_EXTENT, height: FALLBACK_EXTENT },
        }),
{
    match monitor_area {
        Some(a) => a,
        None => WorkArea { x: main_x, y: main_y, width: FALLBACK_EXTENT, height: FALLBACK_EXTENT },
    }
}

/// Position `(x, y)` of the detail popup of size `panel_w` x `panel_h` next to
/// the main widget whose top-left corner is `(main_x, main_y)` and whose
/// height is `main_h`, `gap` pixels away from it. `None` exactly when a step
/// of the computation leaves the 32-bit range.
pub fn detail_position(
    main_x: i32,
    main_y: i32,
    main_h: i32,
    gap: i32,
    area: WorkArea,
    panel_w: i32,
    panel_h: i32,
) -> (r: Option<(i32, i32)>)
    ensures
        r is Some <==> placement_in_range(
            main_x as int,
            main_y as int,
            main_h as int,
            gap as int,
            area,
            panel_w as int,
            panel_h as int,
        ),
        r matches Some(p) ==> p.0 == panel_x(main_x as int, area, panel_w as int) && p.1 == panel_y(
            main_y as int,
            main_h as int,
            gap as int,
            area,
            panel_h as int,
        ),
        // The popup's corner never leaves the work area's clamping range.
        r matches Some(p) ==> area.x <= p.0 <= max_int(area_right(area) - panel_w, area.x as int)
            && area.y <= p.1 <= max_int(area_bottom(area) - panel_h, area.y as int),
        // A popup no larger than the work area is shown fully inside it.
        r matches Some(p) ==> (panel_w <= area.width && panel_h <= area.height) ==> (area.x <= p.0
            && p.0 + panel_w <= area_right(area) && area.y <= p.1 && p.1 + panel_h <= area_bottom(
            area,
        )),
        // It opens right below the widget when it fits there.
        r matches Some(p) ==> (panel_h <= space_below(main_y as int, main_h as int, gap as int, area)
            && area.y <= main_y + main_h + gap) ==> p.1 == main_y + main_h + gap,
        // Its left edge is the widget's when that keeps it inside the work area.
        r matches Some(p) ==> (area.x <= main_x && main_x + panel_w <= area_right(area)) ==> p.0
            == main_x,
{
    let mx = main_x as i64;
    let my = main_y as i64;
    let mh = main_h as i64;
    let g = gap as i64;
    let wx = area.x as i64;
    let wy = area.y as i64;
    let pw = panel_w as i64;
    let ph = panel_h as i64;
    let work_right = wx + area.width as i64;
    let work_bottom = wy + area.height as i64;
    let main_bottom = my + mh;
    let below_partial = work_bottom - main_bottom;
    let space_below = below_partial - g;
    let above_partial = my - wy;
    let space_above = above_partial - g;
    let open_below = if ph <= space_below {
        true
    } else if ph <= space_above {
        false
    } else {
        space_below >= space_above
    };
    let below_y = main_bottom + g;
    let above_partial_y = my - ph;
    let above_y = above_partial_y - g;
    let y_limit = work_bottom - ph;
    let x_reach = mx + pw;
    let x_limit = work_right - pw;
    let in_range = fits(work_right) && fits(work_bottom) && fits(main_bottom) && fits(below_partial)
        && fits(space_below) && fits(above_partial) && fits(space_above) && (if open_below {
        fits(below_y)
    } else {
        fits(above_partial_y) && fits(above_y)
    }) && fits(y_limit) && fits(x_reach) && fits(x_limit);
    if !in_range {
        return None;
    }
    let y0 = if open_below {
        below_y
    } else {
        above_y
    };
    let y = clamp_i64(y0, wy, max_i64(y_limit, wy));
    let x0 = if x_reach > work_right {
        x_limit
    } else {
        mx
    };
    let x = clamp_i64(x0, wx, max_i64(x_limit, wx));
    Some((x as i32, y as i32))
}

/// Any monitor coordinates work: whenever every coordinate and size is at
/// most 2^28 in size, whatever its sign (monitors left of or above the
/// primary one have negative coordinates), no step of the placement leaves
/// the 32-bit range, so `detail_position` places the popup.
pub proof fn lemma_moderate_geometry_is_placed(
    main_x: int,
    main_y: int,
    main_h: int,
    gap: int,
    area: WorkArea,
    panel_w: int,
    panel_h: int,
)
    requires
        -0x1000_0000 <= main_x <= 0x1000_0000,
        -0x1000_0000 <= main_y <= 0x1000_0000,
        -0x1000_0000 <= main_h <= 0x1000_0000,
        -0x1000_0000 <= gap <= 0x1000_0000,
        -0x1000_0000 <= area.x <= 0x1000_0000,
        -0x1000_0000 <= area.y <= 0x1000_0000,
        -0x1000_0000 <= area.width <= 0x1000_0000,
        -0x1000_0000 <= area.height <= 0x1000_0000,
        -0x1000_0000 <= panel_w <= 0x1000_0000,
        -0x1000_0000 <= panel_h <= 0x1000_0000,
    ensures
        placement_in_range(main_x, main_y, main_h, gap, area, panel_w, panel_h),
{
}

} // verus!
