//! Oriented rectangles in fixed point and the separating-axis overlap test.
use vstd::prelude::*;
use crate::trig::{cos_of, cos_sin, sin_of, FULL_TURN, TRIG_SCALE};

verus! {

/// Positions are measured in thousandths of a pixel.
pub const POS_SCALE: i64 = 1000;

/// Half of a pixel, in position units.
pub const HALF_PIXEL: i64 = 500;

/// The largest width or height, in pixels, that the overlap test handles.
pub const MAX_EXTENT: u32 = 1048576;

/// The largest absolute coordinate, in position units, of a rectangle's center.
pub const MAX_COORD: i64 = 1125899906842624;

/// A rectangle of `width` by `height` pixels centred on `(x, y)` and rotated by `direction`.
///
/// The width runs along the heading and the height across it.
#[derive(Clone, Copy, Debug, PartialEq, Eq, Structural)]
pub struct Rectangle {
    pub x: i64,
    pub y: i64,
    pub width: u32,
    pub height: u32,
    pub direction: u32,
}

impl Rectangle {
    /// Positive extents that the overlap test can handle, a heading in
    /// `[0, FULL_TURN)`, and a center within `MAX_COORD` of the origin.
    pub open spec fn wf(&self) -> bool {
        &&& 0 < self.width <= MAX_EXTENT
        &&& 0 < self.height <= MAX_EXTENT
        &&& self.direction < FULL_TURN
        &&& -MAX_COORD <= self.x <= MAX_COORD
        &&& -MAX_COORD <= self.y <= MAX_COORD
    }

    pub fn new(x: i64, y: i64, width: u32, height: u32, direction: u32) -> (r: Self)
        ensures
            r == (Rectangle { x, y, width, height, direction }),
    {
        Rectangle { x, y, width, height, direction }
    }
}

/// Half the width of a rectangle, in position units.
pub open spec fn half_width(r: Rectangle) -> int {
    r.width * HALF_PIXEL
}

/// Half the height of a rectangle, in position units.
pub open spec fn half_height(r: Rectangle) -> int {
    r.height * HALF_PIXEL
}

/// Corner `k` of a rectangle, going round from the rear right, scaled by `TRIG_SCALE`.
pub open spec fn corner(r: Rectangle, k: int) -> (int, int) {
    let ox = if k == 0 || k == 3 { -half_width(r) } else { half_width(r) };
    let oy = if k == 0 || k == 1 { -half_height(r) } else { half_height(r) };
    let c = cos_of(r.direction);
    let s = sin_of(r.direction);
    (r.x * TRIG_SCALE + ox * c - oy * s, r.y * TRIG_SCALE + ox * s + oy * c)
}

/// The four corners of a rectangle, in order round its outline.
pub open spec fn corners(r: Rectangle) -> Seq<(int, int)> {
    seq![corner(r, 0), corner(r, 1), corner(r, 2), corner(r, 3)]
}

/// The normal of the edge from corner `i` to the next corner round the outline.
pub open spec fn edge_normal(cs: Seq<(int, int)>, i: int) -> (int, int) {
    let p = cs[i];
    let q = cs[(i + 1) % 4];
    (-(q.1 - p.1), q.0 - p.0)
}

pub open spec fn dot(p: (int, int), a: (int, int)) -> int {
    p.0 * a.0 + p.1 * a.1
}

pub open spec fn min2(a: int, b: int) -> int {
    if a <= b { a } else { b }
}

pub open spec fn max2(a: int, b: int) -> int {
    if a >= b { a } else { b }
}

/// The least projection of four points on an axis.
///
/// Projections are left unnormalised: dividing every projection on one axis
/// by the same positive length would not change how they are ordered.
pub open spec fn proj_min(cs: Seq<(int, int)>, a: (int, int)) -> int {
    min2(min2(dot(cs[0], a), dot(cs[1], a)), min2(dot(cs[2], a), dot(cs[3], a)))
}

/// The greatest projection of four points on an axis.
pub open spec fn proj_max(cs: Seq<(int, int)>, a: (int, int)) -> int {
    max2(max2(dot(cs[0], a), dot(cs[1], a)), max2(dot(cs[2], a), dot(cs[3], a)))
}

/// The projections of two quadrilaterals on an axis overlap; touching counts.
pub open spec fn overlap_on(c1: Seq<(int, int)>, c2: Seq<(int, int)>, a: (int, int)) -> bool {
    proj_max(c1, a) >= proj_min(c2, a) && proj_max(c2, a) >= proj_min(c1, a)
}

/// No edge normal of either rectangle separates them.
pub open spec fn sat_intersect(a: Rectangle, b: Rectangle) -> bool {
    &&& forall|i: int| 0 <= i < 4 ==> #[trigger] overlap_on(corners(a), corners(b), edge_normal(corners(a), i))
    &&& forall|i: int| 0 <= i < 4 ==> #[trigger] overlap_on(corners(a), corners(b), edge_normal(corners(b), i))
}

/// Corner coordinates stay below this bound in absolute value.
pub open spec fn corner_bound() -> int {
    0x800000000000000000
}

/// Edge normals stay below this bound in absolute value.
pub open spec fn axis_bound() -> int {
    0x10000000000000
}

pub proof fn lemma_mul_abs_le(a: int, b: int, ka: int, kb: int)
    requires
        -ka <= a <= ka,
        -kb <= b <= kb,
    ensures
        -(ka * kb) <= a * b <= ka * kb,
{
    assert(-(ka * kb) <= a * b <= ka * kb) by (nonlinear_arith)
        requires
            -ka <= a <= ka,
            -kb <= b <= kb,
    ;
}

proof fn lemma_corner_bounds(r: Rectangle, k: int)
    requires
        r.wf(),
    ensures
        -corner_bound() < corner(r, k).0 < corner_bound(),
        -corner_bound() < corner(r, k).1 < corner_bound(),
{
    let c = cos_of(r.direction);
    let s = sin_of(r.direction);
    assert(-TRIG_SCALE <= c <= TRIG_SCALE && -TRIG_SCALE <= s <= TRIG_SCALE) by {
        lemma_trig_range(r.direction);
    }
    let hw = half_width(r);
    let hh = half_height(r);
    assert(0 < hw <= 524288000 && 0 < hh <= 524288000);
    let ox = if k == 0 || k == 3 { -hw } else { hw };
    let oy = if k == 0 || k == 1 { -hh } else { hh };
    lemma_mul_abs_le(ox, c, 524288000, 1000000);
    lemma_mul_abs_le(oy, s, 524288000, 1000000);
    lemma_mul_abs_le(ox, s, 524288000, 1000000);
    lemma_mul_abs_le(oy, c, 524288000, 1000000);
    lemma_mul_abs_le(r.x as int, TRIG_SCALE as int, MAX_COORD as int, 1000000);
    lemma_mul_abs_le(r.y as int, TRIG_SCALE as int, MAX_COORD as int, 1000000);
}

/// The fixed-point cosine and sine lie within one unit of the scale.
pub proof fn lemma_trig_range(direction: u32)
    ensures
        -TRIG_SCALE <= cos_of(direction) <= TRIG_SCALE,
        -TRIG_SCALE <= sin_of(direction) <= TRIG_SCALE,
{
    crate::trig::lemma_sin_deg_range(crate::trig::heading_degrees(direction));
    crate::trig::lemma_sin_deg_range(((crate::trig::heading_degrees(direction) + 90) % 360) as u32);
}

/// A sequence of four exact points that matches `cs`.
pub open spec fn points_match(v: Seq<(i128, i128)>, cs: Seq<(int, int)>) -> bool {
    &&& v.len() == 4
    &&& cs.len() == 4
    &&& forall|i: int| 0 <= i < 4 ==> (#[trigger] v[i]).0 == cs[i].0 && v[i].1 == cs[i].1
}

fn get_rotated_corners(rect: &Rectangle) -> (r: Vec<(i128, i128)>)
    requires
        rect.wf(),
    ensures
        points_match(r@, corners(*rect)),
{
    let hw = rect.width as i128 * HALF_PIXEL as i128;
    let hh = rect.height as i128 * HALF_PIXEL as i128;
    let (c, s) = cos_sin(rect.direction);
    let c = c as i128;
    let s = s as i128;
    let cx = rect.x as i128 * TRIG_SCALE as i128;
    let cy = rect.y as i128 * TRIG_SCALE as i128;
    proof {
        lemma_corner_bounds(*rect, 0);
        lemma_mul_abs_le(hw as int, c as int, 524288000, 1000000);
        lemma_mul_abs_le(hh as int, s as int, 524288000, 1000000);
        lemma_mul_abs_le(hw as int, s as int, 524288000, 1000000);
        lemma_mul_abs_le(hh as int, c as int, 524288000, 1000000);
        lemma_mul_abs_le(rect.x as int, TRIG_SCALE as int, MAX_COORD as int, 1000000);
        lemma_mul_abs_le(rect.y as int, TRIG_SCALE as int, MAX_COORD as int, 1000000);
    }
    let mut v: Vec<(i128, i128)> = Vec::new();
    v.push((cx - hw * c + hh * s, cy - hw * s - hh * c));
    v.push((cx + hw * c + hh * s, cy + hw * s - hh * c));
    v.push((cx + hw * c - hh * s, cy + hw * s + hh * c));
    v.push((cx - hw * c - hh * s, cy - hw * s + hh * c));
    proof {
        let cs = corners(*rect);
        assert(-hw * c == (-hw) * c && -hw * s == (-hw) * s) by (nonlinear_arith);
        assert(-hh * c == (-hh) * c && -hh * s == (-hh) * s) by (nonlinear_arith);
        assert((-hh) * s == -(hh * s) && (-hh) * c == -(hh * c)) by (nonlinear_arith);
        lemma_corner_expand(*rect);
        assert(v@[0].0 == cs[0].0 && v@[0].1 == cs[0].1);
        assert(v@[1].0 == cs[1].0 && v@[1].1 == cs[1].1);
        assert(v@[2].0 == cs[2].0 && v@[2].1 == cs[2].1);
        assert(v@[3].0 == cs[3].0 && v@[3].1 == cs[3].1);
    }
    v
}

proof fn lemma_corner_expand(r: Rectangle)
    ensures
        ({
            let hw = half_width(r);
            let hh = half_height(r);
            let c = cos_of(r.direction);
            let s = sin_of(r.direction);
            let cx = r.x * TRIG_SCALE;
            let cy = r.y * TRIG_SCALE;
            &&& corner(r, 0) == (cx - hw * c + hh * s, cy - hw * s - hh * c)
            &&& corner(r, 1) == (cx + hw * c + hh * s, cy + hw * s - hh * c)
            &&& corner(r, 2) == (cx + hw * c - hh * s, cy + hw * s + hh * c)
            &&& corner(r, 3) == (cx - hw * c - hh * s, cy - hw * s + hh * c)
        }),
{
    let hw = half_width(r);
    let hh = half_height(r);
    let c = cos_of(r.direction);
    let s = sin_of(r.direction);
    assert((-hw) * c == -(hw * c) && (-hw) * s == -(hw * s)) by (nonlinear_arith);
    assert((-hh) * c == -(hh * c) && (-hh) * s == -(hh * s)) by (nonlinear_arith);
}

/// Corners of a well-formed rectangle and the normals of its edges are bounded.
proof fn lemma_quad_bounds(r: Rectangle)
    requires
        r.wf(),
    ensures
        forall|i: int| 0 <= i < 4 ==> -corner_bound() < (#[trigger] corners(r)[i]).0 < corner_bound()
            && -corner_bound() < corners(r)[i].1 < corner_bound(),
        forall|i: int| 0 <= i < 4 ==> -axis_bound() < (#[trigger] edge_normal(corners(r), i)).0 < axis_bound()
            && -axis_bound() < edge_normal(corners(r), i).1 < axis_bound(),
{
    lemma_corner_bounds(r, 0);
    lemma_corner_bounds(r, 1);
    lemma_corner_bounds(r, 2);
    lemma_corner_bounds(r, 3);
    let c = cos_of(r.direction);
    let s = sin_of(r.direction);
    lemma_trig_range(r.direction);
    let hw = half_width(r);
    let hh = half_height(r);
    lemma_mul_abs_le(hw, c, 524288000, 1000000);
    lemma_mul_abs_le(hh, s, 524288000, 1000000);
    lemma_mul_abs_le(hw, s, 524288000, 1000000);
    lemma_mul_abs_le(hh, c, 524288000, 1000000);
    assert((-hw) * c == -(hw * c) && (-hw) * s == -(hw * s)) by (nonlinear_arith);
    assert((-hh) * c == -(hh * c) && (-hh) * s == -(hh * s)) by (nonlinear_arith);
}

fn get_axes(corners_v: &Vec<(i128, i128)>, Ghost(cs): Ghost<Seq<(int, int)>>) -> (r: Vec<(i128, i128)>)
    requires
        points_match(corners_v@, cs),
        forall|i: int| 0 <= i < 4 ==> -axis_bound() < (#[trigger] edge_normal(cs, i)).0 < axis_bound()
            && -axis_bound() < edge_normal(cs, i).1 < axis_bound(),
    ensures
        r@.len() == 4,
        forall|i: int| 0 <= i < 4 ==> (#[trigger] r@[i]).0 == edge_normal(cs, i).0
            && r@[i].1 == edge_normal(cs, i).1,
{
    let mut axes: Vec<(i128, i128)> = Vec::new();
    let mut i: usize = 0;
    while i < 4
        invariant
            0 <= i <= 4,
            points_match(corners_v@, cs),
            forall|j: int| 0 <= j < 4 ==> -axis_bound() < (#[trigger] edge_normal(cs, j)).0 < axis_bound()
                && -axis_bound() < edge_normal(cs, j).1 < axis_bound(),
            axes@.len() == i,
            forall|j: int| 0 <= j < i ==> (#[trigger] axes@[j]).0 == edge_normal(cs, j).0
                && axes@[j].1 == edge_normal(cs, j).1,
        decreases 4 - i,
    {
        let (x1, y1) = corners_v[i];
        let (x2, y2) = corners_v[(i + 1) % 4];
        proof {
            assert(edge_normal(cs, i as int) == (-(cs[(i + 1) % 4].1 - cs[i as int].1), cs[(i + 1) % 4].0 - cs[i as int].0));
            assert(corners_v@[(i + 1) % 4 as int].0 == cs[(i + 1) % 4].0);
        }
        axes.push((y1 - y2, x2 - x1));
        i += 1;
    }
    axes
}

fn project(corners_v: &Vec<(i128, i128)>, axis: (i128, i128), Ghost(cs): Ghost<Seq<(int, int)>>) -> (r: (i128, i128))
    requires
        points_match(corners_v@, cs),
        forall|i: int| 0 <= i < 4 ==> -corner_bound() < (#[trigger] cs[i]).0 < corner_bound()
            && -corner_bound() < cs[i].1 < corner_bound(),
        -axis_bound() < axis.0 < axis_bound(),
        -axis_bound() < axis.1 < axis_bound(),
    ensures
        r.0 == proj_min(cs, (axis.0 as int, axis.1 as int)),
        r.1 == proj_max(cs, (axis.0 as int, axis.1 as int)),
{
    let ghost a = (axis.0 as int, axis.1 as int);
    let mut dots: Vec<i128> = Vec::new();
    let mut i: usize = 0;
    while i < 4
        invariant
            0 <= i <= 4,
            a == (axis.0 as int, axis.1 as int),
            points_match(corners_v@, cs),
            forall|j: int| 0 <= j < 4 ==> -corner_bound() < (#[trigger] cs[j]).0 < corner_bound()
                && -corner_bound() < cs[j].1 < corner_bound(),
            -axis_bound() < axis.0 < axis_bound(),
            -axis_bound() < axis.1 < axis_bound(),
            dots@.len() == i,
            forall|j: int| 0 <= j < i ==> (#[trigger] dots@[j]) == dot(cs[j], a),
        decreases 4 - i,
    {
        let (x, y) = corners_v[i];
        proof {
            lemma_mul_abs_le(x as int, axis.0 as int, corner_bound(), axis_bound());
            lemma_mul_abs_le(y as int, axis.1 as int, corner_bound(), axis_bound());
        }
        dots.push(x * axis.0 + y * axis.1);
        i += 1;
    }
    let d0 = dots[0];
    let d1 = dots[1];
    let d2 = dots[2];
    let d3 = dots[3];
    let lo01 = if d0 <= d1 { d0 } else { d1 };
    let lo23 = if d2 <= d3 { d2 } else { d3 };
    let hi01 = if d0 >= d1 { d0 } else { d1 };
    let hi23 = if d2 >= d3 { d2 } else { d3 };
    let lo = if lo01 <= lo23 { lo01 } else { lo23 };
    let hi = if hi01 >= hi23 { hi01 } else { hi23 };
    (lo, hi)
}

fn overlap_on_axis(
    corners1: &Vec<(i128, i128)>,
    corners2: &Vec<(i128, i128)>,
    axis: (i128, i128),
    Ghost(c1): Ghost<Seq<(int, int)>>,
    Ghost(c2): Ghost<Seq<(int, int)>>,
) -> (r: bool)
    requires
        points_match(corners1@, c1),
        points_match(corners2@, c2),
        forall|i: int| 0 <= i < 4 ==> -corner_bound() < (#[trigger] c1[i]).0 < corner_bound()
            && -corner_bound() < c1[i].1 < corner_bound(),
        forall|i: int| 0 <= i < 4 ==> -corner_bound() < (#[trigger] c2[i]).0 < corner_bound()
            && -corner_bound() < c2[i].1 < corner_bound(),
        -axis_bound() < axis.0 < axis_bound(),
        -axis_bound() < axis.1 < axis_bound(),
    ensures
        r == overlap_on(c1, c2, (axis.0 as int, axis.1 as int)),
{
    let (min1, max1) = project(corners1, axis, Ghost(c1));
    let (min2, max2) = project(corners2, axis, Ghost(c2));
    max1 >= min2 && max2 >= min1
}

fn overlap_on_all(
    corners1: &Vec<(i128, i128)>,
    corners2: &Vec<(i128, i128)>,
    axes: &Vec<(i128, i128)>,
    Ghost(c1): Ghost<Seq<(int, int)>>,
    Ghost(c2): Ghost<Seq<(int, int)>>,
    Ghost(owner): Ghost<Seq<(int, int)>>,
) -> (r: bool)
    requires
        points_match(corners1@, c1),
        points_match(corners2@, c2),
        forall|i: int| 0 <= i < 4 ==> -corner_bound() < (#[trigger] c1[i]).0 < corner_bound()
            && -corner_bound() < c1[i].1 < corner_bound(),
        forall|i: int| 0 <= i < 4 ==> -corner_bound() < (#[trigger] c2[i]).0 < corner_bound()
            && -corner_bound() < c2[i].1 < corner_bound(),
        forall|i: int| 0 <= i < 4 ==> -axis_bound() < (#[trigger] edge_normal(owner, i)).0 < axis_bound()
            && -axis_bound() < edge_normal(owner, i).1 < axis_bound(),
        axes@.len() == 4,
        forall|i: int| 0 <= i < 4 ==> (#[trigger] axes@[i]).0 == edge_normal(owner, i).0
            && axes@[i].1 == edge_normal(owner, i).1,
    ensures
        r == forall|i: int| 0 <= i < 4 ==> #[trigger] overlap_on(c1, c2, edge_normal(owner, i)),
{
    let mut i: usize = 0;
    while i < 4
        invariant
            0 <= i <= 4,
            points_match(corners1@, c1),
            points_match(corners2@, c2),
            forall|i: int| 0 <= i < 4 ==> -corner_bound() < (#[trigger] c1[i]).0 < corner_bound()
                && -corner_bound() < c1[i].1 < corner_bound(),
            forall|i: int| 0 <= i < 4 ==> -corner_bound() < (#[trigger] c2[i]).0 < corner_bound()
                && -corner_bound() < c2[i].1 < corner_bound(),
            forall|i: int| 0 <= i < 4 ==> -axis_bound() < (#[trigger] edge_normal(owner, i)).0 < axis_bound()
                && -axis_bound() < edge_normal(owner, i).1 < axis_bound(),
            axes@.len() == 4,
            forall|i: int| 0 <= i < 4 ==> (#[trigger] axes@[i]).0 == edge_normal(owner, i).0
                && axes@[i].1 == edge_normal(owner, i).1,
            forall|j: int| 0 <= j < i ==> #[trigger] overlap_on(c1, c2, edge_normal(owner, j)),
        decreases 4 - i,
    {
        let axis = axes[i];
        assert((axis.0 as int, axis.1 as int) == edge_normal(owner, i as int));
        if !overlap_on_axis(corners1, corners2, axis, Ghost(c1), Ghost(c2)) {
            assert(!overlap_on(c1, c2, edge_normal(owner, i as int)));
            return false;
        }
        i += 1;
    }
    true
}

/// Separating-axis test of two oriented rectangles, with the edge normals of
/// both as candidate axes. Rectangles that only touch intersect.
pub fn rectangles_intersect(rect1: &Rectangle, rect2: &Rectangle) -> (r: bool)
    requires
        rect1.wf(),
        rect2.wf(),
    ensures
        r == sat_intersect(*rect1, *rect2),
{
    let ghost ca = corners(*rect1);
    let ghost cb = corners(*rect2);
    proof {
        lemma_quad_bounds(*rect1);
        lemma_quad_bounds(*rect2);
    }
    let rect1_corners = get_rotated_corners(rect1);
    let rect2_corners = get_rotated_corners(rect2);
    let axes1 = get_axes(&rect1_corners, Ghost(ca));
    let axes2 = get_axes(&rect2_corners, Ghost(cb));
    overlap_on_all(&rect1_corners, &rect2_corners, &axes1, Ghost(ca), Ghost(cb), Ghost(ca))
        && overlap_on_all(&rect1_corners, &rect2_corners, &axes2, Ghost(ca), Ghost(cb), Ghost(cb))
}

/// The overlap of two rectangles' axis-aligned extents; touching counts.
pub open spec fn aabb_overlap(a: Rectangle, b: Rectangle) -> bool {
    &&& a.x - half_width(a) <= b.x + half_width(b)
    &&& b.x - half_width(b) <= a.x + half_width(a)
    &&& a.y - half_height(a) <= b.y + half_height(b)
    &&& b.y - half_height(b) <= a.y + half_height(a)
}

/// The corners of the box `[xlo, xhi] x [ylo, yhi]`, in the order of `corners`.
pub open spec fn box_corners(xlo: int, xhi: int, ylo: int, yhi: int) -> Seq<(int, int)> {
    seq![(xlo, ylo), (xhi, ylo), (xhi, yhi), (xlo, yhi)]
}

proof fn lemma_mul_order(a: int, b: int, k: int)
    ensures
        k > 0 ==> (a <= b <==> a * k <= b * k),
        k < 0 ==> (a <= b <==> a * k >= b * k),
{
    if k > 0 {
        if a <= b {
            assert(a * k <= b * k) by (nonlinear_arith)
                requires
                    a <= b,
                    k > 0,
            ;
        } else {
            assert(a * k > b * k) by (nonlinear_arith)
                requires
                    a > b,
                    k > 0,
            ;
        }
    } else if k < 0 {
        if a <= b {
            assert(a * k >= b * k) by (nonlinear_arith)
                requires
                    a <= b,
                    k < 0,
            ;
        } else {
            assert(a * k < b * k) by (nonlinear_arith)
                requires
                    a > b,
                    k < 0,
            ;
        }
    }
}

/// On an axis along y, two boxes overlap exactly when their y extents do.
proof fn lemma_box_overlap_y(
    x1lo: int, x1hi: int, y1lo: int, y1hi: int,
    x2lo: int, x2hi: int, y2lo: int, y2hi: int,
    k: int,
)
    requires
        y1lo < y1hi,
        y2lo < y2hi,
        k != 0,
    ensures
        overlap_on(box_corners(x1lo, x1hi, y1lo, y1hi), box_corners(x2lo, x2hi, y2lo, y2hi), (0, k))
            == (y1lo <= y2hi && y2lo <= y1hi),
{
    let c1 = box_corners(x1lo, x1hi, y1lo, y1hi);
    let c2 = box_corners(x2lo, x2hi, y2lo, y2hi);
    assert(dot(c1[0], (0, k)) == y1lo * k);
    assert(dot(c1[2], (0, k)) == y1hi * k);
    assert(dot(c2[0], (0, k)) == y2lo * k);
    assert(dot(c2[2], (0, k)) == y2hi * k);
    lemma_mul_order(y1lo, y1hi, k);
    lemma_mul_order(y2lo, y2hi, k);
    lemma_mul_order(y1lo, y2hi, k);
    lemma_mul_order(y2lo, y1hi, k);
    lemma_mul_order(y1hi, y2lo, k);
    lemma_mul_order(y2hi, y1lo, k);
}

/// On an axis along x, two boxes overlap exactly when their x extents do.
proof fn lemma_box_overlap_x(
    x1lo: int, x1hi: int, y1lo: int, y1hi: int,
    x2lo: int, x2hi: int, y2lo: int, y2hi: int,
    k: int,
)
    requires
        x1lo < x1hi,
        x2lo < x2hi,
        k != 0,
    ensures
        overlap_on(box_corners(x1lo, x1hi, y1lo, y1hi), box_corners(x2lo, x2hi, y2lo, y2hi), (k, 0))
            == (x1lo <= x2hi && x2lo <= x1hi),
{
    let c1 = box_corners(x1lo, x1hi, y1lo, y1hi);
    let c2 = box_corners(x2lo, x2hi, y2lo, y2hi);
    assert(dot(c1[0], (k, 0)) == x1lo * k);
    assert(dot(c1[1], (k, 0)) == x1hi * k);
    assert(dot(c2[0], (k, 0)) == x2lo * k);
    assert(dot(c2[1], (k, 0)) == x2hi * k);
    lemma_mul_order(x1lo, x1hi, k);
    lemma_mul_order(x2lo, x2hi, k);
    lemma_mul_order(x1lo, x2hi, k);
    lemma_mul_order(x2lo, x1hi, k);
    lemma_mul_order(x1hi, x2lo, k);
    lemma_mul_order(x2hi, x1lo, k);
}

/// A rectangle with heading zero has the corners of an axis-aligned box.
proof fn lemma_unrotated_corners(r: Rectangle)
    requires
        r.wf(),
        r.direction == 0,
    ensures
        corners(r) == box_corners(
            (r.x - half_width(r)) * TRIG_SCALE,
            (r.x + half_width(r)) * TRIG_SCALE,
            (r.y - half_height(r)) * TRIG_SCALE,
            (r.y + half_height(r)) * TRIG_SCALE,
        ),
{
    reveal(crate::trig::sine_table);
    assert(cos_of(0) == TRIG_SCALE);
    assert(sin_of(0) == 0);
    lemma_corner_expand(r);
    let hw = half_width(r);
    let hh = half_height(r);
    assert(hw * 0 == 0 && hh * 0 == 0);
    assert((r.x - hw) * TRIG_SCALE == r.x * TRIG_SCALE - hw * TRIG_SCALE) by (nonlinear_arith);
    assert((r.x + hw) * TRIG_SCALE == r.x * TRIG_SCALE + hw * TRIG_SCALE) by (nonlinear_arith);
    assert((r.y - hh) * TRIG_SCALE == r.y * TRIG_SCALE - hh * TRIG_SCALE) by (nonlinear_arith);
    assert((r.y + hh) * TRIG_SCALE == r.y * TRIG_SCALE + hh * TRIG_SCALE) by (nonlinear_arith);
    assert(corners(r) =~= box_corners(
        (r.x - hw) * TRIG_SCALE,
        (r.x + hw) * TRIG_SCALE,
        (r.y - hh) * TRIG_SCALE,
        (r.y + hh) * TRIG_SCALE,
    ));
}

/// With heading zero on both sides, the separating-axis test agrees with the
/// overlap test of axis-aligned bounding boxes.
pub proof fn lemma_axis_aligned_intersect(a: Rectangle, b: Rectangle)
    requires
        a.wf(),
        b.wf(),
        a.direction == 0,
        b.direction == 0,
    ensures
        sat_intersect(a, b) == aabb_overlap(a, b),
{
    let t = TRIG_SCALE as int;
    let (ax0, ax1) = ((a.x - half_width(a)) * t, (a.x + half_width(a)) * t);
    let (ay0, ay1) = ((a.y - half_height(a)) * t, (a.y + half_height(a)) * t);
    let (bx0, bx1) = ((b.x - half_width(b)) * t, (b.x + half_width(b)) * t);
    let (by0, by1) = ((b.y - half_height(b)) * t, (b.y + half_height(b)) * t);
    lemma_unrotated_corners(a);
    lemma_unrotated_corners(b);
    lemma_mul_order(a.x - half_width(a), a.x + half_width(a), t);
    lemma_mul_order(a.y - half_height(a), a.y + half_height(a), t);
    lemma_mul_order(b.x - half_width(b), b.x + half_width(b), t);
    lemma_mul_order(b.y - half_height(b), b.y + half_height(b), t);
    lemma_mul_order(a.x - half_width(a), b.x + half_width(b), t);
    lemma_mul_order(b.x - half_width(b), a.x + half_width(a), t);
    lemma_mul_order(a.y - half_height(a), b.y + half_height(b), t);
    lemma_mul_order(b.y - half_height(b), a.y + half_height(a), t);
    let ca = corners(a);
    let cb = corners(b);
    assert(edge_normal(ca, 0) == (0int, ax1 - ax0));
    assert(edge_normal(ca, 1) == (-(ay1 - ay0), 0int));
    assert(edge_normal(ca, 2) == (0int, ax0 - ax1));
    assert(edge_normal(ca, 3) == (ay1 - ay0, 0int));
    assert(edge_normal(cb, 0) == (0int, bx1 - bx0));
    assert(edge_normal(cb, 1) == (-(by1 - by0), 0int));
    assert(edge_normal(cb, 2) == (0int, bx0 - bx1));
    assert(edge_normal(cb, 3) == (by1 - by0, 0int));
    lemma_box_overlap_y(ax0, ax1, ay0, ay1, bx0, bx1, by0, by1, ax1 - ax0);
    lemma_box_overlap_x(ax0, ax1, ay0, ay1, bx0, bx1, by0, by1, -(ay1 - ay0));
    lemma_box_overlap_y(ax0, ax1, ay0, ay1, bx0, bx1, by0, by1, ax0 - ax1);
    lemma_box_overlap_x(ax0, ax1, ay0, ay1, bx0, bx1, by0, by1, ay1 - ay0);
    lemma_box_overlap_y(ax0, ax1, ay0, ay1, bx0, bx1, by0, by1, bx1 - bx0);
    lemma_box_overlap_x(ax0, ax1, ay0, ay1, bx0, bx1, by0, by1, -(by1 - by0));
    lemma_box_overlap_y(ax0, ax1, ay0, ay1, bx0, bx1, by0, by1, bx0 - bx1);
    lemma_box_overlap_x(ax0, ax1, ay0, ay1, bx0, bx1, by0, by1, by1 - by0);
    if aabb_overlap(a, b) {
        assert forall|i: int| 0 <= i < 4 implies #[trigger] overlap_on(ca, cb, edge_normal(ca, i)) by {
            assert(i == 0 || i == 1 || i == 2 || i == 3);
        }
        assert forall|i: int| 0 <= i < 4 implies #[trigger] overlap_on(ca, cb, edge_normal(cb, i)) by {
            assert(i == 0 || i == 1 || i == 2 || i == 3);
        }
    } else {
        assert(!overlap_on(ca, cb, edge_normal(ca, 0)) || !overlap_on(ca, cb, edge_normal(ca, 1)));
    }
}

/// A rectangle with heading zero and a copy of it moved by `t` along its
/// length intersect exactly while `|t|` is at most the sum of their half
/// widths; at equality they touch, which counts as intersecting.
pub proof fn lemma_shift_along_width(r: Rectangle, t: int)
    requires
        r.wf(),
        r.direction == 0,
        -MAX_COORD <= r.x + t <= MAX_COORD,
    ensures
        sat_intersect(r, Rectangle { x: (r.x + t) as i64, ..r })
            == (-(half_width(r) + half_width(r)) <= t <= half_width(r) + half_width(r)),
{
    lemma_axis_aligned_intersect(r, Rectangle { x: (r.x + t) as i64, ..r });
}

/// A rectangle with heading zero and a copy of it moved by `t` across its
/// length intersect exactly while `|t|` is at most the sum of their half
/// heights; at equality they touch, which counts as intersecting.
pub proof fn lemma_shift_across_width(r: Rectangle, t: int)
    requires
        r.wf(),
        r.direction == 0,
        -MAX_COORD <= r.y + t <= MAX_COORD,
    ensures
        sat_intersect(r, Rectangle { y: (r.y + t) as i64, ..r })
            == (-(half_height(r) + half_height(r)) <= t <= half_height(r) + half_height(r)),
{
    lemma_axis_aligned_intersect(r, Rectangle { y: (r.y + t) as i64, ..r });
}

/// Division rounding down, for a positive divisor.
pub fn floor_div(a: i128, d: i128) -> (r: i128)
    requires
        d > 0,
        a > i128::MIN,
    ensures
        r == a / d,
{
    if a >= 0 {
        a / d
    } else {
        let m = -a - 1;
        let q = m / d;
        proof {
            let rem = m % d;
            vstd::arithmetic::div_mod::lemma_fundamental_div_mod(m as int, d as int);
            assert(m == d * q + rem);
            assert(a == (-q - 1) * d + (d - rem - 1)) by (nonlinear_arith)
                requires
                    m == d * q + rem,
                    a == -m - 1,
            ;
            vstd::arithmetic::div_mod::lemma_fundamental_div_mod_converse(a as int, d as int, -q - 1, d - rem - 1);
        }
        -q - 1
    }
}

/// A sensor box of `width` by `height` pixels whose center lies half its
/// width ahead of `start` along `direction`.
pub open spec fn vision_rect(start: (i64, i64), direction: u32, width: u32, height: u32) -> Rectangle {
    let reach = width * HALF_PIXEL;
    Rectangle {
        x: (start.0 + reach * cos_of(direction) / (TRIG_SCALE as int)) as i64,
        y: (start.1 + reach * sin_of(direction) / (TRIG_SCALE as int)) as i64,
        width,
        height,
        direction,
    }
}

proof fn lemma_offset_bound(reach: int, c: int)
    requires
        0 <= reach,
        -TRIG_SCALE <= c <= TRIG_SCALE,
    ensures
        -reach <= reach * c / (TRIG_SCALE as int) <= reach,
{
    lemma_mul_abs_le(reach, c, reach, TRIG_SCALE as int);
    let t = TRIG_SCALE as int;
    assert(-reach * t <= reach * c <= reach * t);
    vstd::arithmetic::div_mod::lemma_div_is_ordered(reach * c, reach * t, t);
    vstd::arithmetic::div_mod::lemma_div_is_ordered(-reach * t, reach * c, t);
    vstd::arithmetic::div_mod::lemma_div_multiples_vanish(reach, t);
    vstd::arithmetic::div_mod::lemma_div_multiples_vanish(-reach, t);
    assert((-reach) * t == -reach * t) by (nonlinear_arith);
}

/// Builds the forward sensor box of a vehicle at `start` heading along `direction`.
pub fn create_vehicle_vision(start: (i64, i64), direction: u32, width: u32, height: u32) -> (r: Rectangle)
    requires
        direction < FULL_TURN,
        -MAX_COORD <= start.0 <= MAX_COORD,
        -MAX_COORD <= start.1 <= MAX_COORD,
    ensures
        r == vision_rect(start, direction, width, height),
{
    let (c, s) = cos_sin(direction);
    let reach = width as i128 * HALF_PIXEL as i128;
    proof {
        lemma_mul_abs_le(reach as int, c as int, reach as int, TRIG_SCALE as int);
        lemma_mul_abs_le(reach as int, s as int, reach as int, TRIG_SCALE as int);
        lemma_offset_bound(reach as int, c as int);
        lemma_offset_bound(reach as int, s as int);
    }
    let dx = floor_div(reach * c as i128, TRIG_SCALE as i128);
    let dy = floor_div(reach * s as i128, TRIG_SCALE as i128);
    let x = (start.0 as i128 + dx) as i64;
    let y = (start.1 as i128 + dy) as i64;
    Rectangle { x, y, width, height, direction }
}

/// Within the coordinate range, the sensor box center lies at most half its
/// width from `start` along each axis.
pub proof fn lemma_vision_near(start: (i64, i64), direction: u32, width: u32, height: u32)
    requires
        -MAX_COORD <= start.0 <= MAX_COORD,
        -MAX_COORD <= start.1 <= MAX_COORD,
    ensures
        ({
            let v = vision_rect(start, direction, width, height);
            &&& -(width * HALF_PIXEL) <= v.x - start.0 <= width * HALF_PIXEL
            &&& -(width * HALF_PIXEL) <= v.y - start.1 <= width * HALF_PIXEL
        }),
{
    let reach = width * HALF_PIXEL;
    lemma_trig_range(direction);
    lemma_offset_bound(reach, cos_of(direction));
    lemma_offset_bound(reach, sin_of(direction));
}

/// Bounds a quotient by bounding the dividend with a multiple of the divisor.
pub proof fn lemma_div_within(a: int, k: int, d: int)
    requires
        d > 0,
        k >= 0,
        -(k * d) <= a <= k * d,
    ensures
        -k <= a / d <= k,
{
    vstd::arithmetic::div_mod::lemma_div_is_ordered(a, k * d, d);
    vstd::arithmetic::div_mod::lemma_div_is_ordered(-(k * d), a, d);
    vstd::arithmetic::div_mod::lemma_div_multiples_vanish(k, d);
    vstd::arithmetic::div_mod::lemma_div_multiples_vanish(-k, d);
    assert(d * (-k) == -(k * d) && d * k == k * d) by (nonlinear_arith);
}

/// The squared length of a heading's fixed-point direction vector.
pub open spec fn frame_norm(direction: u32) -> int {
    cos_of(direction) * cos_of(direction) + sin_of(direction) * sin_of(direction)
}

/// The corners of a rectangle centred on `(px, py)` with half extents `hw`
/// and `hh` along the direction `(c, s)` and across it.
pub open spec fn frame_corners(px: int, py: int, hw: int, hh: int, c: int, s: int) -> Seq<(int, int)> {
    seq![
        (px - hw * c + hh * s, py - hw * s - hh * c),
        (px + hw * c + hh * s, py + hw * s - hh * c),
        (px + hw * c - hh * s, py + hw * s + hh * c),
        (px - hw * c - hh * s, py - hw * s + hh * c),
    ]
}

/// Projected on a multiple of `(-s, c)` or of `(c, s)`, the frame point
/// `p + a (c, s) + b (-s, c)` lands where the point `(p . (c, s) + a n,
/// p . (-s, c) + b n)` lands on the same multiple of a coordinate axis.
proof fn lemma_frame_dot(px: int, py: int, a: int, b: int, c: int, s: int, m: int)
    ensures
        ({
            let n = c * c + s * s;
            let q = (c * px + s * py + a * n, -(s * px) + c * py + b * n);
            let f = (px + a * c - b * s, py + a * s + b * c);
            &&& dot(f, (-(m * s), m * c)) == dot(q, (0, m))
            &&& dot(f, (m * c, m * s)) == dot(q, (m, 0))
        }),
{
    let n = c * c + s * s;
    let x = px + a * c - b * s;
    let y = py + a * s + b * c;
    let qu = c * px + s * py + a * n;
    let qv = -(s * px) + c * py + b * n;
    assert(c * y - s * x == qv) by (nonlinear_arith)
        requires
            x == px + a * c - b * s,
            y == py + a * s + b * c,
            qv == -(s * px) + c * py + b * n,
            n == c * c + s * s,
    ;
    assert(c * x + s * y == qu) by (nonlinear_arith)
        requires
            x == px + a * c - b * s,
            y == py + a * s + b * c,
            qu == c * px + s * py + a * n,
            n == c * c + s * s,
    ;
    assert(x * (-(m * s)) + y * (m * c) == m * (c * y - s * x)) by (nonlinear_arith);
    assert(x * (m * c) + y * (m * s) == m * (c * x + s * y)) by (nonlinear_arith);
    assert(qu * 0 + qv * m == m * qv) by (nonlinear_arith);
    assert(qu * m + qv * 0 == m * qu) by (nonlinear_arith);
}

/// Two frame rectangles of one heading and size, seen along one of their
/// axes, project like two boxes in the frame's own coordinates.
proof fn lemma_frame_as_box(
    pax: int, pay: int, pbx: int, pby: int, hw: int, hh: int, c: int, s: int, m: int,
)
    ensures
        ({
            let n = c * c + s * s;
            let fa = frame_corners(pax, pay, hw, hh, c, s);
            let fb = frame_corners(pbx, pby, hw, hh, c, s);
            let ua = c * pax + s * pay;
            let va = -(s * pax) + c * pay;
            let ub = c * pbx + s * pby;
            let vb = -(s * pbx) + c * pby;
            let ba = box_corners(ua - hw * n, ua + hw * n, va - hh * n, va + hh * n);
            let bb = box_corners(ub - hw * n, ub + hw * n, vb - hh * n, vb + hh * n);
            &&& overlap_on(fa, fb, (-(m * s), m * c)) == overlap_on(ba, bb, (0, m))
            &&& overlap_on(fa, fb, (m * c, m * s)) == overlap_on(ba, bb, (m, 0))
        }),
{
    let n = c * c + s * s;
    assert((-hw) * c == -(hw * c) && (-hw) * s == -(hw * s) && (-hh) * c == -(hh * c) && (-hh) * s == -(hh * s))
        by (nonlinear_arith);
    assert((-hh) * n == -(hh * n) && (-hw) * n == -(hw * n)) by (nonlinear_arith);
    lemma_frame_dot(pax, pay, -hw, -hh, c, s, m);
    lemma_frame_dot(pax, pay, hw, -hh, c, s, m);
    lemma_frame_dot(pax, pay, hw, hh, c, s, m);
    lemma_frame_dot(pax, pay, -hw, hh, c, s, m);
    lemma_frame_dot(pbx, pby, -hw, -hh, c, s, m);
    lemma_frame_dot(pbx, pby, hw, -hh, c, s, m);
    lemma_frame_dot(pbx, pby, hw, hh, c, s, m);
    lemma_frame_dot(pbx, pby, -hw, hh, c, s, m);
}

/// The normals of a frame rectangle's edges are multiples of `(-s, c)` and `(c, s)`.
proof fn lemma_frame_normals(px: int, py: int, hw: int, hh: int, c: int, s: int)
    ensures
        ({
            let f = frame_corners(px, py, hw, hh, c, s);
            &&& edge_normal(f, 0) == (-((2 * hw) * s), (2 * hw) * c)
            &&& edge_normal(f, 1) == ((-2 * hh) * c, (-2 * hh) * s)
            &&& edge_normal(f, 2) == (-((-2 * hw) * s), (-2 * hw) * c)
            &&& edge_normal(f, 3) == ((2 * hh) * c, (2 * hh) * s)
        }),
{
    assert((2 * hw) * s == 2 * (hw * s) && (2 * hw) * c == 2 * (hw * c)) by (nonlinear_arith);
    assert((-2 * hw) * s == -2 * (hw * s) && (-2 * hw) * c == -2 * (hw * c)) by (nonlinear_arith);
    assert((2 * hh) * s == 2 * (hh * s) && (2 * hh) * c == 2 * (hh * c)) by (nonlinear_arith);
    assert((-2 * hh) * s == -2 * (hh * s) && (-2 * hh) * c == -2 * (hh * c)) by (nonlinear_arith);
}

/// The fixed-point direction vector of every heading is non-zero.
pub proof fn lemma_frame_norm_positive(direction: u32)
    ensures
        frame_norm(direction) > 0,
{
    assert forall|k: u32| 1 <= k <= 90 implies #[trigger] crate::trig::sine_table(k) > 0 by {
        reveal(crate::trig::sine_table);
    }
    let d = crate::trig::heading_degrees(direction);
    let c = cos_of(direction);
    let s = sin_of(direction);
    assert(c * c >= 0 && s * s >= 0) by (nonlinear_arith);
    if s != 0 {
        assert(s * s > 0) by (nonlinear_arith)
            requires
                s != 0,
        ;
    } else {
        assert(d == 0 || d == 180);
        assert(c != 0);
        assert(c * c > 0) by (nonlinear_arith)
            requires
                c != 0,
        ;
    }
}

/// Two rectangles of one heading and size intersect exactly when the offset
/// between their centers, measured along the heading's direction vector
/// `(c, s)` and across it along `(-s, c)`, is within the sum of their half
/// widths, respectively half heights, times the vector's squared length.
pub proof fn lemma_same_heading_intersect(a: Rectangle, b: Rectangle)
    requires
        a.wf(),
        b.wf(),
        b.direction == a.direction,
        b.width == a.width,
        b.height == a.height,
    ensures
        ({
            let c = cos_of(a.direction);
            let s = sin_of(a.direction);
            let n = frame_norm(a.direction);
            let dx = b.x - a.x;
            let dy = b.y - a.y;
            let along = TRIG_SCALE * (c * dx + s * dy);
            let across = TRIG_SCALE * (-(s * dx) + c * dy);
            sat_intersect(a, b) == (
                -(2 * half_width(a) * n) <= along <= 2 * half_width(a) * n
                && -(2 * half_height(a) * n) <= across <= 2 * half_height(a) * n)
        }),
{
    let t = TRIG_SCALE as int;
    let c = cos_of(a.direction);
    let s = sin_of(a.direction);
    let n = frame_norm(a.direction);
    let hw = half_width(a);
    let hh = half_height(a);
    let pax = a.x * t;
    let pay = a.y * t;
    let pbx = b.x * t;
    let pby = b.y * t;
    lemma_frame_norm_positive(a.direction);
    lemma_corner_expand(a);
    lemma_corner_expand(b);
    let ca = corners(a);
    let cb = corners(b);
    assert(ca =~= frame_corners(pax, pay, hw, hh, c, s));
    assert(cb =~= frame_corners(pbx, pby, hw, hh, c, s));
    lemma_frame_normals(pax, pay, hw, hh, c, s);
    lemma_frame_normals(pbx, pby, hw, hh, c, s);
    let ua = c * pax + s * pay;
    let va = -(s * pax) + c * pay;
    let ub = c * pbx + s * pby;
    let vb = -(s * pbx) + c * pby;
    lemma_frame_as_box(pax, pay, pbx, pby, hw, hh, c, s, 2 * hw);
    lemma_frame_as_box(pax, pay, pbx, pby, hw, hh, c, s, -2 * hh);
    lemma_frame_as_box(pax, pay, pbx, pby, hw, hh, c, s, -2 * hw);
    lemma_frame_as_box(pax, pay, pbx, pby, hw, hh, c, s, 2 * hh);
    assert(hw * n > 0 && hh * n > 0) by (nonlinear_arith)
        requires
            hw > 0,
            hh > 0,
            n > 0,
    ;
    let (ua0, ua1, va0, va1) = (ua - hw * n, ua + hw * n, va - hh * n, va + hh * n);
    let (ub0, ub1, vb0, vb1) = (ub - hw * n, ub + hw * n, vb - hh * n, vb + hh * n);
    lemma_box_overlap_y(ua0, ua1, va0, va1, ub0, ub1, vb0, vb1, 2 * hw);
    lemma_box_overlap_y(ua0, ua1, va0, va1, ub0, ub1, vb0, vb1, -2 * hw);
    lemma_box_overlap_x(ua0, ua1, va0, va1, ub0, ub1, vb0, vb1, -2 * hh);
    lemma_box_overlap_x(ua0, ua1, va0, va1, ub0, ub1, vb0, vb1, 2 * hh);
    let dx = b.x - a.x;
    let dy = b.y - a.y;
    let ex = pbx - pax;
    let ey = pby - pay;
    assert(ex == t * dx && ey == t * dy) by (nonlinear_arith)
        requires
            ex == pbx - pax,
            ey == pby - pay,
            pax == a.x * t,
            pay == a.y * t,
            pbx == b.x * t,
            pby == b.y * t,
            dx == b.x - a.x,
            dy == b.y - a.y,
    ;
    assert(ub - ua == c * ex + s * ey) by (nonlinear_arith)
        requires
            ub == c * pbx + s * pby,
            ua == c * pax + s * pay,
            ex == pbx - pax,
            ey == pby - pay,
    ;
    assert(vb - va == -(s * ex) + c * ey) by (nonlinear_arith)
        requires
            vb == -(s * pbx) + c * pby,
            va == -(s * pax) + c * pay,
            ex == pbx - pax,
            ey == pby - pay,
    ;
    assert(c * (t * dx) + s * (t * dy) == t * (c * dx + s * dy)) by (nonlinear_arith);
    assert(-(s * (t * dx)) + c * (t * dy) == t * (-(s * dx) + c * dy)) by (nonlinear_arith);
    assert(2 * hw * n == 2 * (hw * n) && 2 * hh * n == 2 * (hh * n)) by (nonlinear_arith);
    assert(edge_normal(ca, 0) == (-((2 * hw) * s), (2 * hw) * c));
    assert(edge_normal(ca, 1) == ((-2 * hh) * c, (-2 * hh) * s));
    assert(edge_normal(ca, 2) == (-((-2 * hw) * s), (-2 * hw) * c));
    assert(edge_normal(ca, 3) == ((2 * hh) * c, (2 * hh) * s));
    assert(edge_normal(cb, 0) == (-((2 * hw) * s), (2 * hw) * c));
    assert(edge_normal(cb, 1) == ((-2 * hh) * c, (-2 * hh) * s));
    assert(edge_normal(cb, 2) == (-((-2 * hw) * s), (-2 * hw) * c));
    assert(edge_normal(cb, 3) == ((2 * hh) * c, (2 * hh) * s));
    let cond = -(2 * hw * n) <= t * (c * dx + s * dy) <= 2 * hw * n
        && -(2 * hh * n) <= t * (-(s * dx) + c * dy) <= 2 * hh * n;
    if cond {
        assert forall|i: int| 0 <= i < 4 implies #[trigger] overlap_on(ca, cb, edge_normal(ca, i)) by {
            assert(i == 0 || i == 1 || i == 2 || i == 3);
        }
        assert forall|i: int| 0 <= i < 4 implies #[trigger] overlap_on(ca, cb, edge_normal(cb, i)) by {
            assert(i == 0 || i == 1 || i == 2 || i == 3);
        }
    } else {
        assert(!overlap_on(ca, cb, edge_normal(ca, 0)) || !overlap_on(ca, cb, edge_normal(ca, 1)));
    }
}

} // verus!
