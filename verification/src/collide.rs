//! Axis-aligned bounding-box overlap testing with contact-edge
//! classification.
//!
//! Both rectangles are given by their integer center and full size.  Every
//! comparison is made between doubled coordinates, so half-sizes never lose
//! a remainder.  When the boxes overlap, the struck edge is the axis and
//! sign of least penetration — equivalently, the side the moving box's
//! center lies on — except in the degenerate case where the moving box's
//! center already sits strictly inside the static box, which is classified
//! `Inside` so that the caller applies no direction change.

use vstd::prelude::*;

verus! {

/// Which edge of the static rectangle the moving one struck.
#[derive(Clone, Copy, Debug, PartialEq, Eq, Structural)]
pub enum Edge {
    /// Struck the static box's left edge (the mover lies to its left).
    Left,
    /// Struck the static box's right edge.
    Right,
    /// Struck the static box's top edge.
    Top,
    /// Struck the static box's bottom edge.
    Bottom,
    /// The mover's center is already strictly inside the static box.
    Inside,
}

/// Strict extent overlap on both axes, on doubled coordinates.
pub open spec fn spec_overlap(
    ax: int, ay: int, aw: int, ah: int,
    bx: int, by: int, bw: int, bh: int,
) -> bool {
    &&& 2 * ax - aw < 2 * bx + bw
    &&& 2 * ax + aw > 2 * bx - bw
    &&& 2 * ay - ah < 2 * by + bh
    &&& 2 * ay + ah > 2 * by - bh
}

/// The full collision test: `None` when the extents do not overlap,
/// `Some(edge)` otherwise, with the edge classified as described above.
/// Ties in penetration depth resolve to the vertical axis, and within one
/// axis to the lesser side, so the outcome is always deterministic.
pub open spec fn spec_collide(
    ax: int, ay: int, aw: int, ah: int,
    bx: int, by: int, bw: int, bh: int,
) -> Option<Edge> {
    if !spec_overlap(ax, ay, aw, ah, bx, by, bw, bh) {
        None
    } else if 2 * bx - bw < 2 * ax < 2 * bx + bw && 2 * by - bh < 2 * ay < 2 * by + bh {
        Some(Edge::Inside)
    } else {
        let pen_left = (2 * ax + aw) - (2 * bx - bw);
        let pen_right = (2 * bx + bw) - (2 * ax - aw);
        let pen_bottom = (2 * ay + ah) - (2 * by - bh);
        let pen_top = (2 * by + bh) - (2 * ay - ah);
        let pen_x = if pen_left <= pen_right { pen_left } else { pen_right };
        let pen_y = if pen_bottom <= pen_top { pen_bottom } else { pen_top };
        if pen_x < pen_y {
            if pen_left <= pen_right {
                Some(Edge::Left)
            } else {
                Some(Edge::Right)
            }
        } else {
            if pen_bottom <= pen_top {
                Some(Edge::Bottom)
            } else {
                Some(Edge::Top)
            }
        }
    }
}

/// Executable form of the collision test.
pub fn collide(
    ax: i64, ay: i64, aw: i64, ah: i64,
    bx: i64, by: i64, bw: i64, bh: i64,
) -> (r: Option<Edge>)
    requires
        -2_000_000_000_000 <= ax <= 2_000_000_000_000,
        -2_000_000_000_000 <= ay <= 2_000_000_000_000,
        -2_000_000_000_000 <= bx <= 2_000_000_000_000,
        -2_000_000_000_000 <= by <= 2_000_000_000_000,
        0 <= aw <= 2_000_000,
        0 <= ah <= 2_000_000,
        0 <= bw <= 2_000_000,
        0 <= bh <= 2_000_000,
    ensures
        r == spec_collide(
            ax as int, ay as int, aw as int, ah as int,
            bx as int, by as int, bw as int, bh as int,
        ),
{
    let overlap = 2 * ax - aw < 2 * bx + bw && 2 * ax + aw > 2 * bx - bw
        && 2 * ay - ah < 2 * by + bh && 2 * ay + ah > 2 * by - bh;
    if !overlap {
        None
    } else if 2 * bx - bw < 2 * ax && 2 * ax < 2 * bx + bw
        && 2 * by - bh < 2 * ay && 2 * ay < 2 * by + bh {
        Some(Edge::Inside)
    } else {
        let pen_left: i64 = (2 * ax + aw) - (2 * bx - bw);
        let pen_right: i64 = (2 * bx + bw) - (2 * ax - aw);
        let pen_bottom: i64 = (2 * ay + ah) - (2 * by - bh);
        let pen_top: i64 = (2 * by + bh) - (2 * ay - ah);
        let pen_x: i64 = if pen_left <= pen_right { pen_left } else { pen_right };
        let pen_y: i64 = if pen_bottom <= pen_top { pen_bottom } else { pen_top };
        if pen_x < pen_y {
            if pen_left <= pen_right {
                Some(Edge::Left)
            } else {
                Some(Edge::Right)
            }
        } else {
            if pen_bottom <= pen_top {
                Some(Edge::Bottom)
            } else {
                Some(Edge::Top)
            }
        }
    }
}

} // verus!
