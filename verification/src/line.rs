use vstd::prelude::*;
use vstd::arithmetic::div_mod::lemma_fundamental_div_mod;
use vstd::arithmetic::div_mod::lemma_fundamental_div_mod_converse;
use vstd::arithmetic::div_mod::lemma_mod_bound;

verus! {

/// Absolute value of an integer.
pub open spec fn abs_int(v: int) -> int {
    if v < 0 {
        -v
    } else {
        v
    }
}

/// The coordinate reached after `off` unit steps from `from` in the
/// direction of `to` (a walk of length zero stays at `from`).
pub open spec fn walk(from: int, to: int, off: int) -> int {
    if from < to {
        from + off
    } else {
        from - off
    }
}

/// Offset along the minor axis after `k` unit steps along the major axis:
/// the ideal offset `k * minor / major` rounded to the nearest integer,
/// halves rounding up.
pub open spec fn minor_offset(k: int, major: int, minor: int) -> int {
    if major == 0 {
        0
    } else {
        (2 * k * minor + major) / (2 * major)
    }
}

/// Unsigned offsets `(along x, along y)` of the `k`-th pixel of a line whose
/// extents are `dx` and `dy`: the major axis advances one pixel per step,
/// the minor axis follows the ideal line rounded to the nearest pixel.
pub open spec fn line_offsets(dx: int, dy: int, k: int) -> (int, int) {
    if dx >= dy {
        (k, minor_offset(k, dx, dy))
    } else {
        (minor_offset(k, dy, dx), k)
    }
}

/// The `k`-th pixel of the line from `(x0, y0)` to `(x1, y1)`.
pub open spec fn line_point(x0: int, y0: int, x1: int, y1: int, k: int) -> (int, int) {
    let offs = line_offsets(abs_int(x1 - x0), abs_int(y1 - y0), k);
    (walk(x0, x1, offs.0), walk(y0, y1, offs.1))
}

/// The larger of the two extents of the line: its number of steps.
pub open spec fn line_steps(x0: int, y0: int, x1: int, y1: int) -> int {
    let dx = abs_int(x1 - x0);
    let dy = abs_int(y1 - y0);
    if dx >= dy {
        dx
    } else {
        dy
    }
}

/// Number of pixels on the line from `(x0, y0)` to `(x1, y1)`.
pub open spec fn line_len(x0: int, y0: int, x1: int, y1: int) -> int {
    line_steps(x0, y0, x1, y1) + 1
}

fn abs_diff(a: i32, b: i32) -> (r: i64)
    ensures
        r == abs_int(b - a),
{
    let d = b as i64 - a as i64;
    if d < 0 {
        -d
    } else {
        d
    }
}

/// If `n*q <= x < n*(q+1)` then `x / n == q`.
proof fn lemma_div_from_bounds(x: int, n: int, q: int)
    requires
        n > 0,
        n * q <= x < n * q + n,
    ensures
        x / n == q,
{
    assert(x == q * n + (x - n * q)) by (nonlinear_arith);
    lemma_fundamental_div_mod_converse(x, n, q, x - n * q);
}

/// The minor offset after `k` steps lies within half a step of the ideal
/// line: `-major <= 2 * (k * minor - offset * major) < major`.
proof fn lemma_minor_offset_bounds(k: int, major: int, minor: int)
    requires
        major > 0,
        0 <= minor <= major,
        0 <= k,
    ensures
        -major <= 2 * (k * minor - minor_offset(k, major, minor) * major) < major,
        0 <= minor_offset(k, major, minor) <= k,
{
    let x = 2 * k * minor + major;
    let n = 2 * major;
    let q = x / n;
    lemma_fundamental_div_mod(x, n);
    lemma_mod_bound(x, n);
    let r = x % n;
    assert(x == n * q + r);
    assert(2 * (k * minor - q * major) == r - major) by (nonlinear_arith)
        requires
            x == n * q + r,
            x == 2 * k * minor + major,
            n == 2 * major,
    ;
    assert(0 <= q) by (nonlinear_arith)
        requires
            x == n * q + r,
            0 <= r < n,
            x >= 0,
            n > 0,
    ;
    assert(q <= k) by (nonlinear_arith)
        requires
            x == n * q + r,
            0 <= r < n,
            x == 2 * k * minor + major,
            n == 2 * major,
            0 <= minor <= major,
            0 <= k,
    ;
}

/// Within the extent of the major axis, the minor offset stays within the
/// extent of the minor axis.
proof fn lemma_minor_offset_within(k: int, major: int, minor: int)
    requires
        major > 0,
        0 <= minor <= major,
        0 <= k <= major,
    ensures
        0 <= minor_offset(k, major, minor) <= minor,
{
    lemma_minor_offset_bounds(k, major, minor);
    let off = minor_offset(k, major, minor);
    assert(off <= minor) by (nonlinear_arith)
        requires
            -major <= 2 * (k * minor - off * major),
            0 <= k <= major,
            0 <= minor,
            major > 0,
    ;
}

/// An offset within half a step of the ideal line is the minor offset.
proof fn lemma_minor_offset_from_bounds(k: int, major: int, minor: int, off: int)
    requires
        major > 0,
        -major <= 2 * (k * minor - off * major) < major,
    ensures
        off == minor_offset(k, major, minor),
{
    let x = 2 * k * minor + major;
    let n = 2 * major;
    assert(n * off <= x < n * off + n) by (nonlinear_arith)
        requires
            -major <= 2 * (k * minor - off * major) < major,
            x == 2 * k * minor + major,
            n == 2 * major,
    ;
    lemma_div_from_bounds(x, n, off);
}

/// Adding at most `n` to a non-negative dividend raises the quotient by at most one.
proof fn lemma_div_step(x: int, d: int, n: int)
    requires
        n > 0,
        0 <= d <= n,
        0 <= x,
    ensures
        x / n <= (x + d) / n <= x / n + 1,
{
    let q = x / n;
    lemma_fundamental_div_mod(x, n);
    lemma_mod_bound(x, n);
    let r = x % n;
    if r + d < n {
        assert(x + d == q * n + (r + d)) by (nonlinear_arith)
            requires
                x == n * q + r,
        ;
        lemma_fundamental_div_mod_converse(x + d, n, q, r + d);
    } else {
        assert(x + d == (q + 1) * n + (r + d - n)) by (nonlinear_arith)
            requires
                x == n * q + r,
        ;
        lemma_fundamental_div_mod_converse(x + d, n, q + 1, r + d - n);
    }
}

/// Successive minor offsets differ by zero or one.
proof fn lemma_minor_offset_step(k: int, major: int, minor: int)
    requires
        major > 0,
        0 <= minor <= major,
        0 <= k,
    ensures
        minor_offset(k, major, minor) <= minor_offset(k + 1, major, minor) <= minor_offset(
            k,
            major,
            minor,
        ) + 1,
{
    let x = 2 * k * minor + major;
    assert(2 * (k + 1) * minor + major == x + 2 * minor) by (nonlinear_arith)
        requires
            x == 2 * k * minor + major,
    ;
    assert(x >= 0) by (nonlinear_arith)
        requires
            x == 2 * k * minor + major,
            0 <= minor,
            0 <= k,
            major > 0,
    ;
    lemma_div_step(x, 2 * minor, 2 * major);
}

/// The pixels of the straight line from `(x0, y0)` to `(x1, y1)`, start and end
/// included, in walking order: one pixel per step along the longer axis, the
/// other coordinate rounded to the nearest pixel of the ideal line (halves
/// rounding up). This is the integer error-accumulating walk that the
/// wireframe renderer uses.
pub fn line(x0: i32, y0: i32, x1: i32, y1: i32) -> (points: Vec<(i32, i32)>)
    ensures
        points@.len() == line_len(x0 as int, y0 as int, x1 as int, y1 as int),
        forall|k: int|
            0 <= k < points@.len() ==> {
                let p = #[trigger] points@[k];
                let q = line_point(x0 as int, y0 as int, x1 as int, y1 as int, k);
                p.0 as int == q.0 && p.1 as int == q.1
            },
{
    let dx: i64 = abs_diff(x0, x1);
    let dy: i64 = -abs_diff(y0, y1);
    let sx: i64 = if x0 < x1 {
        1
    } else {
        -1
    };
    let sy: i64 = if y0 < y1 {
        1
    } else {
        -1
    };
    let ghost big_x: int = dx as int;
    let ghost big_y: int = -(dy as int);
    let ghost m: int = line_steps(x0 as int, y0 as int, x1 as int, y1 as int);
    let mut x: i64 = x0 as i64;
    let mut y: i64 = y0 as i64;
    let mut err: i64 = dx + dy;
    let mut points: Vec<(i32, i32)> = Vec::new();
    let ghost mut a: int = 0;
    let ghost mut b: int = 0;
    assert(0 * big_y == 0 && 0 * big_x == 0) by (nonlinear_arith);
    loop
        invariant_except_break
            big_x == abs_int(x1 - x0),
            big_y == abs_int(y1 - y0),
            dx == big_x,
            dy == -big_y,
            sx == (if x0 < x1 { 1int } else { -1int }),
            sy == (if y0 < y1 { 1int } else { -1int }),
            m == line_steps(x0 as int, y0 as int, x1 as int, y1 as int),
            0 <= a <= big_x,
            0 <= b <= big_y,
            x == walk(x0 as int, x1 as int, a),
            y == walk(y0 as int, y1 as int, b),
            err == (b * big_x - a * big_y) + big_x - big_y,
            points@.len() <= m,
            big_x >= big_y ==> a == points@.len() && ((big_x == 0 && b == 0) || (-big_x <= 2 * (
            points@.len() * big_y - b * big_x) < big_x)),
            big_x < big_y ==> b == points@.len() && -big_y <= 2 * (points@.len() * big_x - a
                * big_y) < big_y,
            forall|k: int|
                0 <= k < points@.len() ==> {
                    let p = #[trigger] points@[k];
                    let q = line_point(x0 as int, y0 as int, x1 as int, y1 as int, k);
                    p.0 as int == q.0 && p.1 as int == q.1
                },
        ensures
            points@.len() == m + 1,
            forall|k: int|
                0 <= k < points@.len() ==> {
                    let p = #[trigger] points@[k];
                    let q = line_point(x0 as int, y0 as int, x1 as int, y1 as int, k);
                    p.0 as int == q.0 && p.1 as int == q.1
                },
        decreases m - points@.len(),
    {
        let ghost k: int = points@.len() as int;
        proof {
            if big_x >= big_y {
                if big_x > 0 {
                    lemma_minor_offset_from_bounds(k, big_x, big_y, b);
                } else {
                    assert(minor_offset(k, big_x, big_y) == 0);
                }
                assert(line_offsets(big_x, big_y, k) == (a, b));
            } else {
                lemma_minor_offset_from_bounds(k, big_y, big_x, a);
                assert(line_offsets(big_x, big_y, k) == (a, b));
            }
        }
        points.push((x as i32, y as i32));
        if x == x1 as i64 && y == y1 as i64 {
            proof {
                if big_x >= big_y {
                    assert(a == big_x);
                } else {
                    assert(b == big_y);
                }
            }
            break ;
        }
        // Not at the end yet, so fewer than `m` steps have been taken.

        proof {
            if big_x >= big_y {
                if k == m {
                    assert(a == big_x);
                    assert(b == big_y) by (nonlinear_arith)
                        requires
                            a == big_x,
                            a == k,
                            big_x > 0,
                            -big_x <= 2 * (k * big_y - b * big_x) < big_x,
                            0 <= b <= big_y,
                    ;
                    assert(false);
                }
            } else {
                if k == m {
                    assert(b == big_y);
                    assert(a == big_x) by (nonlinear_arith)
                        requires
                            b == big_y,
                            b == k,
                            big_y > 0,
                            -big_y <= 2 * (k * big_x - a * big_y) < big_y,
                            0 <= a <= big_x,
                    ;
                    assert(false);
                }
            }
        }
        let ghost d: int = b * big_x - a * big_y;
        let e2 = 2 * err;
        let ghost step_x: bool = e2 >= dy;
        let ghost step_y: bool = e2 <= dx;
        proof {
            if big_x >= big_y {
                // Along the major axis every iteration steps.
                assert(step_x);
                if step_y {
                    assert(b < big_y) by (nonlinear_arith)
                        requires
                            2 * d <= 2 * big_y - big_x,
                            d == b * big_x - a * big_y,
                            a < big_x,
                            0 <= a,
                            0 <= b <= big_y,
                            big_x > 0,
                    ;
                }
            } else {
                assert(step_y);
                if step_x {
                    assert(a < big_x) by (nonlinear_arith)
                        requires
                            2 * d >= big_y - 2 * big_x,
                            d == b * big_x - a * big_y,
                            b < big_y,
                            0 <= b,
                            0 <= a <= big_x,
                            big_y > 0,
                    ;
                }
            }
        }
        if e2 >= dy {
            err = err + dy;
            x = x + sx;
            proof {
                a = a + 1;
            }
        }
        if e2 <= dx {
            err = err + dx;
            y = y + sy;
            proof {
                b = b + 1;
            }
        }
        proof {
            let nd = b * big_x - a * big_y;
            let ob = if step_y { b - 1 } else { b };
            let oa = if step_x { a - 1 } else { a };
            assert(nd == d + (if step_y { big_x } else { 0 }) - (if step_x { big_y } else { 0 }))
                by (nonlinear_arith)
                requires
                    nd == b * big_x - a * big_y,
                    d == ob * big_x - oa * big_y,
                    ob == (if step_y { b - 1 } else { b }),
                    oa == (if step_x { a - 1 } else { a }),
            ;
            let nk = k + 1;
            if big_x >= big_y {
                assert(nk * big_y - b * big_x == k * big_y - ob * big_x + big_y - (if step_y {
                    big_x
                } else {
                    0
                })) by (nonlinear_arith)
                    requires
                        nk == k + 1,
                        ob == (if step_y { b - 1 } else { b }),
                ;
            } else {
                assert(nk * big_x - a * big_y == k * big_x - oa * big_y + big_x - (if step_x {
                    big_y
                } else {
                    0
                })) by (nonlinear_arith)
                    requires
                        nk == k + 1,
                        oa == (if step_x { a - 1 } else { a }),
                ;
            }
        }
    }
    points
}

/// A line starts at its start point.
pub proof fn lemma_line_starts_at_start(x0: int, y0: int, x1: int, y1: int)
    ensures
        line_point(x0, y0, x1, y1, 0) == (x0, y0),
{
    let dx = abs_int(x1 - x0);
    let dy = abs_int(y1 - y0);
    if dx >= dy && dx > 0 {
        lemma_minor_offset_bounds(0, dx, dy);
    } else if dx < dy {
        lemma_minor_offset_bounds(0, dy, dx);
    }
}

/// A line ends at its end point: its last pixel, after `line_steps` steps,
/// is `(x1, y1)`.
pub proof fn lemma_line_ends_at_end(x0: int, y0: int, x1: int, y1: int)
    ensures
        line_point(x0, y0, x1, y1, line_steps(x0, y0, x1, y1)) == (x1, y1),
{
    let dx = abs_int(x1 - x0);
    let dy = abs_int(y1 - y0);
    if dx >= dy {
        if dx > 0 {
            lemma_minor_offset_from_bounds(dx, dx, dy, dy);
        }
    } else {
        lemma_minor_offset_from_bounds(dy, dy, dx, dx);
    }
}

/// Consecutive pixels of a line are 8-connected neighbours: they differ, each
/// coordinate changes by at most one, and neither coordinate ever moves away
/// from the end point.
pub proof fn lemma_line_steps_are_adjacent(x0: int, y0: int, x1: int, y1: int, k: int)
    requires
        0 <= k < line_steps(x0, y0, x1, y1),
    ensures
        ({
            let p = line_point(x0, y0, x1, y1, k);
            let q = line_point(x0, y0, x1, y1, k + 1);
            &&& p != q
            &&& abs_int(q.0 - p.0) <= 1
            &&& abs_int(q.1 - p.1) <= 1
            &&& abs_int(x1 - q.0) <= abs_int(x1 - p.0)
            &&& abs_int(y1 - q.1) <= abs_int(y1 - p.1)
        }),
{
    let dx = abs_int(x1 - x0);
    let dy = abs_int(y1 - y0);
    if dx >= dy {
        lemma_minor_offset_step(k, dx, dy);
        lemma_minor_offset_within(k + 1, dx, dy);
    } else {
        lemma_minor_offset_step(k, dy, dx);
        lemma_minor_offset_within(k + 1, dy, dx);
    }
}

/// No pixel appears twice on a line.
pub proof fn lemma_line_points_distinct(x0: int, y0: int, x1: int, y1: int, i: int, j: int)
    requires
        0 <= i < j <= line_steps(x0, y0, x1, y1),
    ensures
        line_point(x0, y0, x1, y1, i) != line_point(x0, y0, x1, y1, j),
{
}

/// Every pixel of a line lies within half a pixel of the ideal line: twice
/// the cross product of `(p - start)` and `(end - start)` is at most the
/// number of steps in magnitude.
pub proof fn lemma_line_hugs_ideal(x0: int, y0: int, x1: int, y1: int, k: int)
    requires
        0 <= k <= line_steps(x0, y0, x1, y1),
    ensures
        ({
            let p = line_point(x0, y0, x1, y1, k);
            2 * abs_int((p.0 - x0) * (y1 - y0) - (p.1 - y0) * (x1 - x0)) <= line_steps(
                x0,
                y0,
                x1,
                y1,
            )
        }),
{
    let dx = abs_int(x1 - x0);
    let dy = abs_int(y1 - y0);
    let offs = line_offsets(dx, dy, k);
    let a = offs.0;
    let b = offs.1;
    let p = line_point(x0, y0, x1, y1, k);
    let ex = x1 - x0;
    let ey = y1 - y0;
    let px = p.0 - x0;
    let py = p.1 - y0;
    assert(px == (if x0 < x1 { a } else { -a }));
    assert(py == (if y0 < y1 { b } else { -b }));
    assert(ex == (if x0 < x1 { dx } else { -dx }));
    assert(ey == (if y0 < y1 { dy } else { -dy }));
    assert(abs_int(px * ey - py * ex) == abs_int(a * dy - b * dx)) by (nonlinear_arith)
        requires
            px == (if x0 < x1 { a } else { -a }),
            py == (if y0 < y1 { b } else { -b }),
            ex == (if x0 < x1 { dx } else { -dx }),
            ey == (if y0 < y1 { dy } else { -dy }),
    ;
    if dx >= dy {
        if dx > 0 {
            lemma_minor_offset_bounds(k, dx, dy);
        } else {
            assert(a * dy - b * dx == 0) by (nonlinear_arith)
                requires
                    dx == 0,
                    dy == 0,
            ;
        }
    } else {
        lemma_minor_offset_bounds(k, dy, dx);
    }
}

/// Each pixel of a line, characterized without the rounding formula: with
/// `dx`, `dy` the extents, `a`, `b` the distances of the `k`-th pixel from the
/// start along x and y, and the pixel lying on the end point's side of the
/// start, the longer axis has advanced exactly `k` and the other coordinate
/// is the nearest to the ideal line, a tie going to the pixel farther from the
/// start: `-major <= 2 * (k * minor - offset * major) < major`.
pub proof fn lemma_line_point_characterized(x0: int, y0: int, x1: int, y1: int, k: int)
    requires
        0 <= k <= line_steps(x0, y0, x1, y1),
    ensures
        ({
            let p = line_point(x0, y0, x1, y1, k);
            let dx = abs_int(x1 - x0);
            let dy = abs_int(y1 - y0);
            let a = abs_int(p.0 - x0);
            let b = abs_int(p.1 - y0);
            &&& (x0 < x1 ==> p.0 >= x0) && (x0 >= x1 ==> p.0 <= x0)
            &&& (y0 < y1 ==> p.1 >= y0) && (y0 >= y1 ==> p.1 <= y0)
            &&& dx >= dy ==> a == k && (dx == 0 || -dx <= 2 * (k * dy - b * dx) < dx)
            &&& dx < dy ==> b == k && -dy <= 2 * (k * dx - a * dy) < dy
        }),
{
    let dx = abs_int(x1 - x0);
    let dy = abs_int(y1 - y0);
    if dx >= dy {
        if dx > 0 {
            lemma_minor_offset_within(k, dx, dy);
            lemma_minor_offset_bounds(k, dx, dy);
        } else {
            assert(dy == 0);
        }
    } else {
        lemma_minor_offset_within(k, dy, dx);
        lemma_minor_offset_bounds(k, dy, dx);
    }
}

} // verus!
