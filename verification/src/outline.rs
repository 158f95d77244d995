//! Outlines of convex polygons, by their corners on the whole-number grid.
use crate::solver::GridPoint;
use vstd::prelude::*;

verus! {

/// Twice the area of the triangle `a`, `b`, `c`, with a sign: positive if
/// `c` lies on the left of the way from `a` to `b`, negative if it lies on
/// the right, and zero if the three lie on one line.
pub open spec fn side(a: GridPoint, b: GridPoint, c: GridPoint) -> int {
    (b.x - a.x) * (c.y - a.y) - (b.y - a.y) * (c.x - a.x)
}

/// The corner that follows corner `i`, around the outline.
pub open spec fn following(points: Seq<GridPoint>, i: int) -> GridPoint {
    if i + 1 == points.len() {
        points[0]
    } else {
        points[i + 1]
    }
}

/// Whether no corner lies on the right of the side that leaves corner `i`.
pub open spec fn side_holds_all(points: Seq<GridPoint>, i: int) -> bool {
    forall|j: int| 0 <= j < points.len() ==> side(points[i], following(points, i), #[trigger] points[j]) >= 0
}

/// Whether some corner lies strictly on the left of some side.
pub open spec fn encloses_area(points: Seq<GridPoint>) -> bool {
    exists|i: int, j: int|
        0 <= i < points.len() && 0 <= j < points.len() && #[trigger] side(
            points[i],
            following(points, i),
            points[j],
        ) > 0
}

/// Whether the points are the corners of a convex polygon, once around and
/// counter-clockwise: there are at least three, no two coincide, none lies
/// on the right of any side, and not all lie on one line.
pub open spec fn convex_outline(points: Seq<GridPoint>) -> bool {
    &&& points.len() >= 3
    &&& forall|i: int, j: int| 0 <= i < j < points.len() ==> points[i] != points[j]
    &&& forall|i: int| 0 <= i < points.len() ==> #[trigger] side_holds_all(points, i)
    &&& encloses_area(points)
}

/// On which side of the way from `a` to `b` the point `c` lies.
pub fn which_side(a: GridPoint, b: GridPoint, c: GridPoint) -> (r: i64)
    ensures
        r == side(a, b, c),
{
    let abx: i64 = b.x as i64 - a.x as i64;
    let aby: i64 = b.y as i64 - a.y as i64;
    let acx: i64 = c.x as i64 - a.x as i64;
    let acy: i64 = c.y as i64 - a.y as i64;
    assert(-0x1_0000_0000 <= abx * acy <= 0x1_0000_0000 && -0x1_0000_0000 <= aby * acx <= 0x1_0000_0000)
        by (nonlinear_arith)
        requires
            -0xffff <= abx <= 0xffff,
            -0xffff <= aby <= 0xffff,
            -0xffff <= acx <= 0xffff,
            -0xffff <= acy <= 0xffff,
    ;
    abx * acy - aby * acx
}

/// Whether no two of the points coincide.
fn all_apart(points: &Vec<GridPoint>) -> (r: bool)
    ensures
        r == (forall|i: int, j: int| 0 <= i < j < points@.len() ==> points@[i] != points@[j]),
{
    let n = points.len();
    let mut j: usize = 0;
    while j < n
        invariant
            j <= n,
            n == points@.len(),
            forall|a: int, b: int| 0 <= a < b < j ==> points@[a] != points@[b],
        decreases n - j,
    {
        let mut i: usize = 0;
        while i < j
            invariant
                i <= j < n,
                n == points@.len(),
                forall|a: int| 0 <= a < i ==> points@[a] != points@[j as int],
            decreases j - i,
        {
            if points[i] == points[j] {
                return false;
            }
            i = i + 1;
        }
        j = j + 1;
    }
    true
}

/// Whether the points are the corners of a convex polygon, once around and
/// counter-clockwise.
pub fn is_convex_outline(points: &Vec<GridPoint>) -> (r: bool)
    ensures
        r == convex_outline(points@),
{
    let n = points.len();
    if n < 3 || !all_apart(points) {
        return false;
    }
    let mut found_area = false;
    let ghost mut witness: (int, int) = (0, 0);
    let mut i: usize = 0;
    while i < n
        invariant
            i <= n,
            n == points@.len(),
            n >= 3,
            forall|k: int| 0 <= k < i ==> #[trigger] side_holds_all(points@, k),
            found_area ==> 0 <= witness.0 < n && 0 <= witness.1 < n && side(
                points@[witness.0],
                following(points@, witness.0),
                points@[witness.1],
            ) > 0,
            !found_area ==> forall|k: int, j: int|
                0 <= k < i && 0 <= j < n ==> #[trigger] side(points@[k], following(points@, k), points@[j]) <= 0,
        decreases n - i,
    {
        let a = points[i];
        let b = if i + 1 == n {
            points[0]
        } else {
            points[i + 1]
        };
        assert(b == following(points@, i as int));
        let mut j: usize = 0;
        while j < n
            invariant
                i < n,
                j <= n,
                n == points@.len(),
                a == points@[i as int],
                b == following(points@, i as int),
                forall|k: int| 0 <= k < j ==> side(a, b, #[trigger] points@[k]) >= 0,
                forall|k: int| 0 <= k < i ==> #[trigger] side_holds_all(points@, k),
                found_area ==> 0 <= witness.0 < n && 0 <= witness.1 < n && side(
                    points@[witness.0],
                    following(points@, witness.0),
                    points@[witness.1],
                ) > 0,
                !found_area ==> forall|k: int| 0 <= k < j ==> side(a, b, #[trigger] points@[k]) <= 0,
                !found_area ==> forall|k: int, j: int|
                    0 <= k < i && 0 <= j < n ==> #[trigger] side(points@[k], following(points@, k), points@[j])
                        <= 0,
            decreases n - j,
        {
            let s = which_side(a, b, points[j]);
            if s < 0 {
                assert(!side_holds_all(points@, i as int));
                return false;
            }
            if s > 0 {
                found_area = true;
                proof {
                    witness = (i as int, j as int);
                }
            }
            j = j + 1;
        }
        assert(side_holds_all(points@, i as int));
        proof {
            if !found_area {
                assert forall|k: int, j: int| 0 <= k < i + 1 && 0 <= j < n implies #[trigger] side(
                    points@[k],
                    following(points@, k),
                    points@[j],
                ) <= 0 by {
                    if k == i {
                        assert(side(a, b, points@[j]) <= 0);
                    }
                }
            }
        }
        i = i + 1;
    }
    proof {
        if found_area {
            assert(side(points@[witness.0], following(points@, witness.0), points@[witness.1]) > 0);
        }
    }
    found_area
}

} // verus!
