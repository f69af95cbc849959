//! Pure geometry: distance-based decimation of strokes and the orthographic
//! projection of the overlay surface.

use vstd::prelude::*;

verus! {

/// Sub-pixel units per pixel: surface coordinates are 24.8 fixed point.
pub const UNITS_PER_PIXEL: i32 = 256;

/// One recorded pointer sample: surface-local position in 1/256 pixel and
/// milliseconds since the engine started.
#[derive(Clone, Copy, PartialEq, Eq, Structural, Debug)]
pub struct Point {
    pub x: i32,
    pub y: i32,
    pub t: u64,
}

/// Squared Euclidean distance of two points in the plane; time is ignored.
pub open spec fn dist2(p: Point, q: Point) -> int {
    (p.x - q.x) * (p.x - q.x) + (p.y - q.y) * (p.y - q.y)
}

/// `p` is at least `d` away from `q`.
pub open spec fn far_enough(p: Point, q: Point, d: int) -> bool {
    dist2(p, q) >= d * d
}

/// Points of `pts[0..n]` kept by the greedy forward scan: the first is kept,
/// and each later one is kept when it is at least `d` away from the last
/// point kept before it.
pub open spec fn kept(pts: Seq<Point>, d: int, n: int) -> Seq<Point>
    decreases n,
{
    if n <= 0 {
        Seq::empty()
    } else if n == 1 {
        seq![pts[0]]
    } else {
        let k = kept(pts, d, n - 1);
        if far_enough(pts[n - 1], k.last(), d) {
            k.push(pts[n - 1])
        } else {
            k
        }
    }
}

/// The decimated stroke: unchanged below two points; otherwise the points
/// kept by the scan of all but the last point, followed by the last point,
/// which is always kept.
pub open spec fn smoothed(pts: Seq<Point>, d: int) -> Seq<Point> {
    if pts.len() < 2 {
        pts
    } else {
        kept(pts, d, pts.len() - 1).push(pts.last())
    }
}

/// Squared distance of two points, computed without overflow.
fn distance_squared(p: Point, q: Point) -> (r: i128)
    ensures
        r == dist2(p, q),
{
    let dx: i128 = p.x as i128 - q.x as i128;
    let dy: i128 = p.y as i128 - q.y as i128;
    assert(dx * dx <= 0x1_0000_0000_0000_0000) by (nonlinear_arith)
        requires
            -0x1_0000_0000 <= dx <= 0x1_0000_0000,
    ;
    assert(dy * dy <= 0x1_0000_0000_0000_0000) by (nonlinear_arith)
        requires
            -0x1_0000_0000 <= dy <= 0x1_0000_0000,
    ;
    assert(dx * dx >= 0 && dy * dy >= 0) by (nonlinear_arith);
    dx * dx + dy * dy
}

proof fn lemma_kept_basics(pts: Seq<Point>, d: int, n: int)
    requires
        1 <= n <= pts.len(),
    ensures
        1 <= kept(pts, d, n).len() <= n,
        kept(pts, d, n)[0] == pts[0],
        kept(pts, d, n).last() != pts[n - 1] ==> kept(pts, d, n).len() <= n - 1,
    decreases n,
{
    if n > 1 {
        lemma_kept_basics(pts, d, n - 1);
    }
}

proof fn lemma_kept_spacing(pts: Seq<Point>, d: int, n: int)
    requires
        1 <= n <= pts.len(),
    ensures
        forall|i: int|
            0 <= i < kept(pts, d, n).len() - 1 ==> far_enough(
                #[trigger] kept(pts, d, n)[i + 1],
                kept(pts, d, n)[i],
                d,
            ),
    decreases n,
{
    if n > 1 {
        lemma_kept_spacing(pts, d, n - 1);
        lemma_kept_basics(pts, d, n - 1);
        let k = kept(pts, d, n - 1);
        assert forall|i: int| 0 <= i < kept(pts, d, n).len() - 1 implies far_enough(
            #[trigger] kept(pts, d, n)[i + 1],
            kept(pts, d, n)[i],
            d,
        ) by {
            if i < k.len() - 1 {
                assert(far_enough(k[i + 1], k[i], d));
            }
        }
    }
}

/// Whether the last point stands in a decimated stroke only because the
/// endpoint is always kept: the scan alone would have dropped it.
pub open spec fn endpoint_forced(pts: Seq<Point>, d: int) -> bool {
    pts.len() >= 2 && !far_enough(pts.last(), kept(pts, d, pts.len() - 1).last(), d)
}

/// Decimating a stroke of two or more points keeps its first and its last
/// point.
pub proof fn lemma_smooth_endpoints(pts: Seq<Point>, d: int)
    requires
        pts.len() >= 2,
    ensures
        smoothed(pts, d).len() >= 1,
        smoothed(pts, d)[0] == pts[0],
        smoothed(pts, d).last() == pts.last(),
{
    lemma_kept_basics(pts, d, pts.len() - 1);
}

/// Any two consecutive points of a decimated stroke, except a last point
/// appended only to keep the endpoint, are at least `d` apart.
pub proof fn lemma_smooth_spacing(pts: Seq<Point>, d: int)
    ensures
        forall|i: int|
            0 <= i && i + 1 < smoothed(pts, d).len() - (if endpoint_forced(pts, d) {
                1int
            } else {
                0int
            }) ==> far_enough(#[trigger] smoothed(pts, d)[i + 1], smoothed(pts, d)[i], d),
{
    if pts.len() >= 2 {
        let n = pts.len() as int;
        lemma_kept_spacing(pts, d, n - 1);
        lemma_kept_basics(pts, d, n - 1);
        let k = kept(pts, d, n - 1);
        assert forall|i: int|
            0 <= i && i + 1 < smoothed(pts, d).len() - (if endpoint_forced(pts, d) {
                1int
            } else {
                0int
            }) implies far_enough(#[trigger] smoothed(pts, d)[i + 1], smoothed(pts, d)[i], d) by {
            if i + 1 < k.len() {
                assert(far_enough(k[i + 1], k[i], d));
            }
        }
    }
}

/// Decimation never lengthens a stroke.
pub proof fn lemma_smooth_not_longer(pts: Seq<Point>, d: int)
    ensures
        smoothed(pts, d).len() <= pts.len(),
{
    if pts.len() >= 2 {
        lemma_kept_basics(pts, d, pts.len() - 1);
    }
}

/// A stroke of two or more points keeps at least two.
pub proof fn lemma_smooth_at_least_two(pts: Seq<Point>, d: int)
    requires
        pts.len() >= 2,
    ensures
        smoothed(pts, d).len() >= 2,
{
    lemma_kept_basics(pts, d, pts.len() - 1);
}

/// A copy of a run of points.
pub fn copy_points(points: &[Point]) -> (r: Vec<Point>)
    ensures
        r@ == points@,
{
    let n = points.len();
    let mut result: Vec<Point> = Vec::new();
    let mut i: usize = 0;
    while i < n
        invariant
            i <= n,
            n == points@.len(),
            result@ == points@.subrange(0, i as int),
        decreases n - i,
    {
        result.push(points[i]);
        i += 1;
        assert(result@ =~= points@.subrange(0, i as int));
    }
    assert(result@ =~= points@);
    result
}

/// Smooths a stroke by dropping points closer than `min_distance` (in
/// 1/256 pixel) to the last point kept, while always keeping both ends.
pub fn smooth_points(points: &[Point], min_distance: u32) -> (r: Vec<Point>)
    ensures
        r@ == smoothed(points@, min_distance as int),
        points@.len() >= 2 ==> r@[0] == points@[0] && r@.last() == points@.last(),
        points@.len() >= 2 ==> r@.len() >= 2,
        r@.len() <= points@.len(),
{
    let n = points.len();
    if n < 2 {
        return copy_points(points);
    }
    let mut result: Vec<Point> = Vec::new();
    let d: i128 = min_distance as i128;
    assert(0 <= d * d <= 0x1_0000_0000_0000_0000) by (nonlinear_arith)
        requires
            0 <= d <= 0x1_0000_0000,
    ;
    let d2: i128 = d * d;
    result.push(points[0]);
    assert(result@ =~= kept(points@, min_distance as int, 1));
    let mut i: usize = 1;
    while i < n - 1
        invariant
            1 <= i <= n - 1,
            n == points@.len(),
            d2 == min_distance as int * min_distance as int,
            result@ == kept(points@, min_distance as int, i as int),
        decreases n - i,
    {
        proof {
            lemma_kept_basics(points@, min_distance as int, i as int);
        }
        let last = result[result.len() - 1];
        if distance_squared(points[i], last) >= d2 {
            result.push(points[i]);
        }
        i += 1;
    }
    proof {
        lemma_smooth_endpoints(points@, min_distance as int);
        lemma_smooth_not_longer(points@, min_distance as int);
        lemma_smooth_at_least_two(points@, min_distance as int);
    }
    result.push(points[n - 1]);
    result
}

/// An exact fraction `num / den`; a zero `den` stands for the quotient by
/// zero, infinite as a float division makes it.
#[derive(Clone, Copy, PartialEq, Eq, Structural, Debug)]
pub struct Ratio {
    pub num: i64,
    pub den: i64,
}

/// The fraction `num / den`.
pub open spec fn frac(num: int, den: int) -> Ratio {
    Ratio { num: num as i64, den: den as i64 }
}

/// Column-major orthographic projection of a `width` x `height` pixel
/// surface: x from 0 to `width` goes to clip-space -1 to 1, y from 0 to
/// `height` goes to clip-space 1 to -1 (origin top left), z and w pass
/// through unchanged.
pub open spec fn ortho(width: int, height: int) -> Seq<Ratio> {
    seq![
        frac(2, width), frac(0, 1), frac(0, 1), frac(0, 1),
        frac(0, 1), frac(-2, height), frac(0, 1), frac(0, 1),
        frac(0, 1), frac(0, 1), frac(1, 1), frac(0, 1),
        frac(-1, 1), frac(1, 1), frac(0, 1), frac(1, 1),
    ]
}

/// The projection matrix of a surface of `width` x `height` pixels.
pub fn ortho_matrix(width: u32, height: u32) -> (r: [Ratio; 16])
    ensures
        r@ == ortho(width as int, height as int),
{
    let zero = Ratio { num: 0, den: 1 };
    let m = [
        Ratio { num: 2, den: width as i64 }, zero, zero, zero,
        zero, Ratio { num: -2, den: height as i64 }, zero, zero,
        zero, zero, Ratio { num: 1, den: 1 }, zero,
        Ratio { num: -1, den: 1 }, Ratio { num: 1, den: 1 }, zero, Ratio { num: 1, den: 1 },
    ];
    assert(m@ =~= ortho(width as int, height as int));
    m
}

/// Row `row` of the column-major matrix `m` applied to the pixel `(x, y)` at
/// depth 0, as a fraction (numerator, denominator).
pub open spec fn clip(m: Seq<Ratio>, row: int, x: int, y: int) -> (int, int) {
    let (a, b) = (m[row].num as int, m[row].den as int);
    let (c, d) = (m[row + 4].num as int, m[row + 4].den as int);
    let (e, f) = (m[row + 12].num as int, m[row + 12].den as int);
    (a * x * d * f + c * y * b * f + e * b * d, b * d * f)
}

/// The projection takes pixel x to clip-space `(2x - width) / width` and
/// pixel y to `(height - 2y) / height`: the left edge to -1, the right edge
/// to 1, the top edge to 1 and the bottom edge to -1. Its z and w rows are
/// those of the identity, so z and w pass through unchanged.
pub proof fn lemma_ortho_maps_pixels(width: u32, height: u32, x: int, y: int)
    requires
        width > 0,
        height > 0,
    ensures
        ortho(width as int, height as int).subrange(8, 12) == seq![frac(0, 1), frac(0, 1), frac(1, 1), frac(0, 1)],
        ortho(width as int, height as int)[2] == frac(0, 1),
        ortho(width as int, height as int)[6] == frac(0, 1),
        ortho(width as int, height as int)[14] == frac(0, 1),
        ortho(width as int, height as int)[3] == frac(0, 1),
        ortho(width as int, height as int)[7] == frac(0, 1),
        ortho(width as int, height as int)[11] == frac(0, 1),
        ortho(width as int, height as int)[15] == frac(1, 1),
        clip(ortho(width as int, height as int), 0, x, y) == (2 * x - width, width as int),
        clip(ortho(width as int, height as int), 1, x, y) == (height - 2 * y, height as int),
{
    let m = ortho(width as int, height as int);
    assert(m.subrange(8, 12) =~= seq![frac(0, 1), frac(0, 1), frac(1, 1), frac(0, 1)]);
    assert(m[0] == frac(2, width as int) && m[4] == frac(0, 1) && m[12] == frac(-1, 1));
    assert(m[1] == frac(0, 1) && m[5] == frac(-2, height as int) && m[13] == frac(1, 1));
    let w = width as int;
    let h = height as int;
    assert(m[0].num as int == 2 && m[0].den as int == w);
    assert(m[4].num as int == 0 && m[4].den as int == 1);
    assert(m[12].num as int == -1 && m[12].den as int == 1);
    assert(m[1].num as int == 0 && m[1].den as int == 1);
    assert(m[5].num as int == -2 && m[5].den as int == h);
    assert(m[13].num as int == 1 && m[13].den as int == 1);
    assert(clip(m, 0, x, y) == (2 * x * 1 * 1 + 0 * y * w * 1 + (-1) * w * 1, w * 1 * 1));
    assert(clip(m, 1, x, y) == (0 * x * h * 1 + (-2) * y * 1 * 1 + 1 * 1 * h, 1 * h * 1));
    assert(2 * x * 1 * 1 + 0 * y * w * 1 + (-1) * w * 1 == 2 * x - w) by (nonlinear_arith);
    assert(0 * x * h * 1 + (-2) * y * 1 * 1 + 1 * 1 * h == h - 2 * y) by (nonlinear_arith);
    assert(w * 1 * 1 == w && 1 * h * 1 == h) by (nonlinear_arith);
}

} // verus!
