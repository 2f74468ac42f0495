//! Outline of a circle on a pixel grid.

use vstd::prelude::*;

verus! {

/// How far the pixel `(x, y)` misses the circle of radius `r` about the
/// origin: the square of its distance from the origin less the square of `r`.
pub open spec fn miss(r: int, x: int, y: int) -> int {
    x * x + y * y - r * r
}

/// The column of the pixel drawn in row `y` of the first octant.
///
/// Row 0 has column `r`. Each further row keeps the column of the row below
/// or moves one column inwards, whichever pixel misses the circle by less;
/// where both miss by as much, it keeps the column.
pub open spec fn abscissa(r: int, y: nat) -> int
    decreases y,
{
    if y == 0 {
        r
    } else {
        let x = abscissa(r, (y - 1) as nat);
        if miss(r, x, y as int) + miss(r, x - 1, y as int) > 0 {
            x - 1
        } else {
            x
        }
    }
}

/// The first octant has `n` rows: in each of them the column is at least the
/// row, and in the next it is not.
pub open spec fn is_row_count(r: int, n: nat) -> bool {
    &&& forall|k: nat| k < n ==> #[trigger] abscissa(r, k) >= k
    &&& abscissa(r, n) < n
}

/// The pixel `(x, y)` of the first octant and its seven mirror images, moved
/// to the centre `(cx, cy)`.
pub open spec fn octants(cx: int, cy: int, x: int, y: int) -> Seq<(i32, i32)> {
    seq![
        ((cx + x) as i32, (cy + y) as i32),
        ((cx + y) as i32, (cy + x) as i32),
        ((cx - x) as i32, (cy + y) as i32),
        ((cx - y) as i32, (cy + x) as i32),
        ((cx - x) as i32, (cy - y) as i32),
        ((cx - y) as i32, (cy - x) as i32),
        ((cx + x) as i32, (cy - y) as i32),
        ((cx + y) as i32, (cy - x) as i32),
    ]
}

/// The pixels of the first `n` rows of the first octant, each with its mirror
/// images, row by row.
pub open spec fn circle_points(cx: int, cy: int, r: int, n: nat) -> Seq<(i32, i32)>
    decreases n,
{
    if n == 0 {
        Seq::empty()
    } else {
        circle_points(cx, cy, r, (n - 1) as nat) + octants(
            cx,
            cy,
            abscissa(r, (n - 1) as nat),
            n - 1,
        )
    }
}

/// One row up: where the pixel `(x, y)` of the first octant misses the circle
/// by at most `x`, so does the pixel drawn in the next row, as long as that
/// row belongs to the octant.
pub proof fn lemma_step_near(r: int, x: int, y: int)
    requires
        0 <= y <= x,
        -x <= miss(r, x, y) <= x,
    ensures
        ({
            let up = if miss(r, x, y + 1) + miss(r, x - 1, y + 1) > 0 {
                x - 1
            } else {
                x
            };
            up >= y + 1 ==> -up <= miss(r, up, y + 1) <= up
        }),
{
    assert(miss(r, x, y + 1) == miss(r, x, y) + 2 * y + 1) by (nonlinear_arith);
    assert(miss(r, x - 1, y + 1) == miss(r, x, y + 1) + 1 - 2 * x) by (nonlinear_arith);
}

/// Every pixel drawn in the first octant misses the circle by at most its
/// column, which puts it within half a pixel of the circle.
pub proof fn lemma_abscissa_near(r: int, y: nat)
    requires
        0 <= r,
        forall|k: nat| k <= y ==> #[trigger] abscissa(r, k) >= k,
    ensures
        -abscissa(r, y) <= miss(r, abscissa(r, y), y as int) <= abscissa(r, y),
    decreases y,
{
    if y == 0 {
        assert(miss(r, r, 0) == 0) by (nonlinear_arith);
    } else {
        let below = (y - 1) as nat;
        assert(abscissa(r, below) >= below);
        assert(abscissa(r, y) >= abscissa(r, below) - 1);
        lemma_abscissa_near(r, below);
        lemma_step_near(r, abscissa(r, below), below as int);
    }
}

/// Draws outlines for a canvas to plot.
pub struct Renderer {}

impl Renderer {
    /// The pixels of the outline of the circle of the given radius about the
    /// given centre, in the order in which they are to be plotted: row by row
    /// of the first octant, each pixel followed by its seven mirror images.
    /// A negative radius has no pixels.
    pub fn draw_circle(center_x: i32, center_y: i32, radius: i32) -> (points: Vec<(i32, i32)>)
        requires
            0 <= radius ==> {
                &&& i32::MIN <= center_x - radius
                &&& center_x + radius <= i32::MAX
                &&& i32::MIN <= center_y - radius
                &&& center_y + radius <= i32::MAX
            },
        ensures
            radius < 0 ==> points@.len() == 0,
            0 <= radius ==> exists|n: nat|
                #[trigger] is_row_count(radius as int, n) && points@ == circle_points(
                    center_x as int,
                    center_y as int,
                    radius as int,
                    n,
                ),
    {
        let mut points: Vec<(i32, i32)> = Vec::new();
        if radius < 0 {
            return points;
        }
        let mut x: i32 = radius;
        let mut y: i32 = 0;
        let mut re: i64 = 0;
        proof {
            assert(miss(radius as int, radius as int, 0) == 0) by (nonlinear_arith);
        }
        while x >= y
            invariant
                0 <= y,
                0 <= radius,
                -1 <= x <= radius,
                y <= x + 2,
                i32::MIN <= center_x - radius,
                center_x + radius <= i32::MAX,
                i32::MIN <= center_y - radius,
                center_y + radius <= i32::MAX,
                x == abscissa(radius as int, y as nat),
                re == miss(radius as int, x as int, y as int),
                x >= y ==> -x <= re <= x,
                forall|k: nat| k < y ==> #[trigger] abscissa(radius as int, k) >= k,
                points@ == circle_points(center_x as int, center_y as int, radius as int, y as nat),
            decreases x - y + 2,
        {
            points.push((center_x + x, center_y + y));
            points.push((center_x + y, center_y + x));
            points.push((center_x - x, center_y + y));
            points.push((center_x - y, center_y + x));
            points.push((center_x - x, center_y - y));
            points.push((center_x - y, center_y - x));
            points.push((center_x + x, center_y - y));
            points.push((center_x + y, center_y - x));
            proof {
                assert(points@ =~= circle_points(
                    center_x as int,
                    center_y as int,
                    radius as int,
                    y as nat,
                ) + octants(center_x as int, center_y as int, x as int, y as int));
                lemma_step_near(radius as int, x as int, y as int);
                assert(miss(radius as int, x as int, y + 1) == re + 2 * y + 1) by (nonlinear_arith)
                    requires
                        re == miss(radius as int, x as int, y as int),
                ;
                assert(miss(radius as int, x - 1, y + 1) == re + 2 * y + 1 + 1 - 2 * x)
                    by (nonlinear_arith)
                    requires
                        re == miss(radius as int, x as int, y as int),
                ;
            }
            if 2 * (re + 2 * (y as i64) + 1) + 1 - 2 * (x as i64) > 0 {
                re = re + 1 - 2 * (x as i64);
                x = x - 1;
            }
            re = re + 2 * (y as i64) + 1;
            y = y + 1;
        }
        proof {
            assert(is_row_count(radius as int, y as nat));
        }
        points
    }
}

} // verus!
