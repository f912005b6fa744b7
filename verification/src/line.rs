//! Line scan conversion by the integer midpoint algorithm.
//!
//! The plotted points form a monotone lattice path: they start at one
//! endpoint, end at the other, and every step moves by at most one
//! pixel per axis, never away from the target.  The proof carries the
//! algorithm's exact accumulated-error equation through the loop, which
//! also shows that the two defensive early exits inside the loop can
//! never fire: the path always terminates exactly on the far endpoint.

use vstd::prelude::*;

verus! {

/// Magnitude of a value.
pub open spec fn abs_sp(a: int) -> int {
    if a >= 0 {
        a
    } else {
        -a
    }
}

/// The unit step from `a` toward `t`: zero once `a` has arrived.
pub open spec fn toward(a: int, t: int) -> int {
    if a < t {
        1
    } else if a > t {
        -1
    } else {
        0
    }
}

/// One legal move of the plotted path: at most one pixel per axis, each
/// axis only toward the target, and not standing still.
pub open spec fn lattice_step(p: (i32, i32), q: (i32, i32), tx: int, ty: int) -> bool {
    &&& (q.0 == p.0 || q.0 as int == p.0 as int + toward(p.0 as int, tx))
    &&& (q.1 == p.1 || q.1 as int == p.1 as int + toward(p.1 as int, ty))
    &&& !(q.0 == p.0 && q.1 == p.1)
}

/// The pixels of the line segment from `(x0, y0)` to `(x1, y1)`,
/// inclusive, in drawing order.
pub fn plot_line(x0: i32, y0: i32, x1: i32, y1: i32) -> (pts: Vec<(i32, i32)>)
    requires
        -0x2000_0000 <= x0 <= 0x2000_0000,
        -0x2000_0000 <= y0 <= 0x2000_0000,
        -0x2000_0000 <= x1 <= 0x2000_0000,
        -0x2000_0000 <= y1 <= 0x2000_0000,
    ensures
        1 <= pts@.len() <= 1 + abs_sp(x1 - x0) + abs_sp(y1 - y0),
        pts@[0] == (x0, y0),
        pts@.last() == (x1, y1),
        forall|i: int|
            0 <= i < pts@.len() - 1 ==> lattice_step(#[trigger] pts@[i], pts@[i + 1], x1 as int, y1 as int),
{
    let dx: i64 = if x1 >= x0 {
        x1 as i64 - x0 as i64
    } else {
        x0 as i64 - x1 as i64
    };
    let dy: i64 = if y1 >= y0 {
        y0 as i64 - y1 as i64
    } else {
        y1 as i64 - y0 as i64
    };
    let sx: i32 = if x0 < x1 {
        1
    } else {
        -1
    };
    let sy: i32 = if y0 < y1 {
        1
    } else {
        -1
    };
    let mut error: i64 = dx + dy;
    let mut x: i32 = x0;
    let mut y: i32 = y0;
    let mut pts: Vec<(i32, i32)> = Vec::new();
    pts.push((x0, y0));
    if x0 == x1 && y0 == y1 {
        return pts;
    }
    loop
        invariant_except_break
            -0x2000_0000 <= x0 <= 0x2000_0000,
            -0x2000_0000 <= y0 <= 0x2000_0000,
            -0x2000_0000 <= x1 <= 0x2000_0000,
            -0x2000_0000 <= y1 <= 0x2000_0000,
            dx == abs_sp(x1 as int - x0 as int),
            dy == -abs_sp(y1 as int - y0 as int),
            sx as int == (if x0 < x1 { 1int } else { -1int }),
            sy as int == (if y0 < y1 { 1int } else { -1int }),
            abs_sp(x as int - x0 as int) + abs_sp(x1 as int - x as int) == dx,
            abs_sp(y as int - y0 as int) + abs_sp(y1 as int - y as int) == -dy,
            error == dx * (1 + abs_sp(y as int - y0 as int)) + dy * (1 + abs_sp(
                x as int - x0 as int,
            )),
            !(x == x1 && y == y1),
            pts@.len() >= 1,
            pts@.len() <= 1 + abs_sp(x as int - x0 as int) + abs_sp(y as int - y0 as int),
            pts@[0] == (x0, y0),
            pts@.last() == (x, y),
            forall|i: int|
                0 <= i < pts@.len() - 1 ==> lattice_step(
                    #[trigger] pts@[i],
                    pts@[i + 1],
                    x1 as int,
                    y1 as int,
                ),
        ensures
            x == x1 && y == y1,
            pts@.len() >= 1,
            pts@.len() <= 1 + abs_sp(x as int - x0 as int) + abs_sp(y as int - y0 as int),
            pts@[0] == (x0, y0),
            pts@.last() == (x, y),
            forall|i: int|
                0 <= i < pts@.len() - 1 ==> lattice_step(
                    #[trigger] pts@[i],
                    pts@[i + 1],
                    x1 as int,
                    y1 as int,
                ),
        decreases abs_sp(x1 as int - x as int) + abs_sp(y1 as int - y as int),
    {
        proof {
            assert(-0x2000_0000_0000_0000 <= error <= 0x2000_0000_0000_0000) by (nonlinear_arith)
                requires
                    error == dx * (1 + abs_sp(y as int - y0 as int)) + dy * (1 + abs_sp(
                        x as int - x0 as int,
                    )),
                    0 <= dx <= 0x4000_0000,
                    -0x4000_0000 <= dy <= 0,
                    0 <= abs_sp(y as int - y0 as int) <= -dy,
                    0 <= abs_sp(x as int - x0 as int) <= dx;
        }
        let e2: i64 = 2 * error;
        let ghost prev: (i32, i32) = (x, y);
        let ghost old_error: int = error as int;
        let ghost old_pts: Seq<(i32, i32)> = pts@;
        if e2 >= dy {
            if x == x1 {
                proof {
                    assert(abs_sp(y as int - y0 as int) <= -dy - 1);
                    assert(false) by (nonlinear_arith)
                        requires
                            dx >= 0,
                            dy <= -1,
                            0 <= abs_sp(y as int - y0 as int) <= -dy - 1,
                            old_error == dx * (1 + abs_sp(y as int - y0 as int)) + dy * (1 + dx),
                            2 * old_error >= dy;
                }
                break;
            }
            proof {
                assert(dy * (1 + abs_sp(prev.0 as int - x0 as int)) + dy == dy * (1 + (abs_sp(
                    prev.0 as int - x0 as int,
                ) + 1))) by (nonlinear_arith);
            }
            error = error + dy;
            x = x + sx;
        }
        if e2 <= dx {
            if y == y1 {
                proof {
                    assert(abs_sp(prev.1 as int - y0 as int) == -dy);
                    assert(abs_sp(prev.0 as int - x0 as int) <= dx - 1);
                    assert(false) by (nonlinear_arith)
                        requires
                            dx >= 1,
                            dy <= 0,
                            0 <= abs_sp(prev.0 as int - x0 as int) <= dx - 1,
                            old_error == dx * (1 + (-dy)) + dy * (1 + abs_sp(
                                prev.0 as int - x0 as int,
                            )),
                            2 * old_error <= dx;
                }
                break;
            }
            proof {
                assert(dx * (1 + abs_sp(prev.1 as int - y0 as int)) + dx == dx * (1 + (abs_sp(
                    prev.1 as int - y0 as int,
                ) + 1))) by (nonlinear_arith);
            }
            error = error + dx;
            y = y + sy;
        }
        pts.push((x, y));
        proof {
            assert(lattice_step(prev, (x, y), x1 as int, y1 as int));
            assert forall|i: int|
                0 <= i < pts@.len() - 1 implies lattice_step(
                #[trigger] pts@[i],
                pts@[i + 1],
                x1 as int,
                y1 as int,
            ) by {
                if i < old_pts.len() - 1 {
                    assert(pts@[i] == old_pts[i]);
                    assert(pts@[i + 1] == old_pts[i + 1]);
                } else {
                    assert(pts@[i] == old_pts.last());
                    assert(pts@[i + 1] == (x, y));
                }
            }
        }
        if x == x1 && y == y1 {
            break;
        }
    }
    pts
}

} // verus!
