//! The field compute kernel: a pure pass pipeline that turns a region and an
//! obstacle snapshot into a distance grid, a gradient grid, and a curl grid.

use vstd::prelude::*;
use crate::math::{
    div_floor, isqrt_u128, lemma_div_bound_scaled, lemma_mul_bound, lemma_sqrt_floor_bounds,
    lemma_sqrt_floor_mono, lemma_sqrt_floor_square, sqrt_floor, MAX_COORD, SCALE,
};
use crate::obstacle::{
    min_distance, min_distance_spec, obstacles_wf, DistanceFieldObstacle, MAX_DISTANCE, MAX_POINT,
    NO_OBSTACLE_DISTANCE,
};
use crate::field::DistanceField;
use crate::vec2::Vec2i;

verus! {

/// Largest accepted grid cell count along one axis.
pub const MAX_DIM: usize = 4096;

/// A grid is a rectangular sequence of columns: `dims.0` columns of height
/// `dims.1`, indexed `[x][y]`.
pub open spec fn grid_rect<T>(g: Seq<Vec<T>>, w: int, h: int) -> bool {
    &&& g.len() == w
    &&& forall|x: int| 0 <= x < w ==> (#[trigger] g[x])@.len() == h
}

/// Every cell of a rectangular grid has magnitude at most `m`.
pub open spec fn grid_vals_bounded(g: Seq<Vec<i64>>, w: int, h: int, m: int) -> bool {
    forall|x: int, y: int|
        0 <= x < w && 0 <= y < h ==> -m <= #[trigger] g[x]@[y] <= m
}

/// The grid spacing along one axis: the region spans `2 * he` world units
/// across `d - 1` cell intervals, floor-divided.
pub open spec fn step1(he: int, d: int) -> int {
    (2 * he) / (d - 1)
}

/// A region is well formed when its center, half-extents and resolution are
/// bounded, the resolution leaves room for the difference stencils, and the
/// grid spacing is at least one world unit on both axes. The last clause is
/// the integer model's granularity floor: a grid denser than one cell per
/// world unit is expressed by choosing a finer world unit for the whole
/// configuration, as the default region does.
pub open spec fn region_wf(center: Vec2i, half_extents: Vec2i, dims: (usize, usize)) -> bool {
    &&& center.in_bounds(MAX_COORD as int)
    &&& 1 <= half_extents.x <= MAX_COORD
    &&& 1 <= half_extents.y <= MAX_COORD
    &&& 3 <= dims.0 <= MAX_DIM
    &&& 3 <= dims.1 <= MAX_DIM
    &&& step1(half_extents.x as int, dims.0 as int) >= 1
    &&& step1(half_extents.y as int, dims.1 as int) >= 1
}

/// The world x-coordinate of grid column `x`.
pub open spec fn grid_point_x(center: Vec2i, half_extents: Vec2i, dims: (usize, usize), x: int) -> int {
    center.x - half_extents.x + step1(half_extents.x as int, dims.0 as int) * x
}

/// The world y-coordinate of grid row `y`.
pub open spec fn grid_point_y(center: Vec2i, half_extents: Vec2i, dims: (usize, usize), y: int) -> int {
    center.y - half_extents.y + step1(half_extents.y as int, dims.1 as int) * y
}

/// The world position of grid cell `(x, y)`: the region origin plus `step`
/// times the cell index.
pub open spec fn grid_point_of(
    center: Vec2i,
    half_extents: Vec2i,
    dims: (usize, usize),
    x: int,
    y: int,
) -> Vec2i {
    Vec2i {
        x: grid_point_x(center, half_extents, dims, x) as i64,
        y: grid_point_y(center, half_extents, dims, y) as i64,
    }
}

/// On one axis of a well-formed region, every grid coordinate stays within
/// [`MAX_POINT`].
pub proof fn lemma_axis_point_bounds(c: int, he: int, d: int, i: int)
    requires
        -MAX_COORD <= c <= MAX_COORD,
        1 <= he <= MAX_COORD,
        3 <= d <= MAX_DIM,
        step1(he, d) >= 1,
        0 <= i < d,
    ensures
        0 <= step1(he, d) * i <= 2 * he,
        -MAX_POINT <= c - he + step1(he, d) * i <= MAX_POINT,
{
    let s = step1(he, d);
    vstd::arithmetic::div_mod::lemma_fundamental_div_mod(2 * he, d - 1);
    assert(s * (d - 1) <= 2 * he);
    assert(0 <= s * i <= s * (d - 1)) by (nonlinear_arith)
        requires
            s >= 1,
            0 <= i <= d - 1,
    {}
}

/// Exact contract of the distance pass: every cell holds the minimum signed
/// distance from that cell's world position to the obstacle snapshot.
pub open spec fn distance_grid_ok(
    g: Seq<Vec<i64>>,
    center: Vec2i,
    half_extents: Vec2i,
    dims: (usize, usize),
    obs: Seq<DistanceFieldObstacle>,
) -> bool {
    &&& grid_rect(g, dims.0 as int, dims.1 as int)
    &&& forall|x: int, y: int|
        0 <= x < dims.0 && 0 <= y < dims.1 ==> #[trigger] g[x]@[y] == min_distance_spec(
            obs,
            grid_point_of(center, half_extents, dims, x, y),
        )
}

/// The distance pass: scans every grid cell against every obstacle.
#[verifier::loop_isolation(false)]
pub fn compute_distance_grid(
    center: Vec2i,
    half_extents: Vec2i,
    dims: (usize, usize),
    obstacles: &Vec<DistanceFieldObstacle>,
) -> (g: Vec<Vec<i64>>)
    requires
        region_wf(center, half_extents, dims),
        obstacles_wf(obstacles@),
    ensures
        distance_grid_ok(g@, center, half_extents, dims, obstacles@),
        grid_vals_bounded(g@, dims.0 as int, dims.1 as int, NO_OBSTACLE_DISTANCE as int),
{
    let w = dims.0;
    let h = dims.1;
    let step_x = div_floor(2 * half_extents.x, (w as i64) - 1);
    let step_y = div_floor(2 * half_extents.y, (h as i64) - 1);
    let origin_x = center.x - half_extents.x;
    let origin_y = center.y - half_extents.y;
    let mut g: Vec<Vec<i64>> = Vec::new();
    let mut x: usize = 0;
    while x < w
        invariant
            x <= w,
            g@.len() == x,
            forall|i: int| 0 <= i < x ==> (#[trigger] g@[i])@.len() == h,
            forall|i: int, j: int|
                0 <= i < x && 0 <= j < h ==> #[trigger] g@[i]@[j] == min_distance_spec(
                    obstacles@,
                    grid_point_of(center, half_extents, dims, i, j),
                ),
            forall|i: int, j: int|
                0 <= i < x && 0 <= j < h ==> -(NO_OBSTACLE_DISTANCE as int) <= #[trigger] g@[i]@[j]
                    <= NO_OBSTACLE_DISTANCE as int,
        decreases w - x,
    {
        let mut col: Vec<i64> = Vec::new();
        let mut y: usize = 0;
        while y < h
            invariant
                y <= h,
                col@.len() == y,
                forall|j: int|
                    0 <= j < y ==> #[trigger] col@[j] == min_distance_spec(
                        obstacles@,
                        grid_point_of(center, half_extents, dims, x as int, j),
                    ),
                forall|j: int|
                    0 <= j < y ==> -(NO_OBSTACLE_DISTANCE as int) <= #[trigger] col@[j]
                        <= NO_OBSTACLE_DISTANCE as int,
            decreases h - y,
        {
            proof {
                lemma_axis_point_bounds(
                    center.x as int,
                    half_extents.x as int,
                    w as int,
                    x as int,
                );
                lemma_axis_point_bounds(
                    center.y as int,
                    half_extents.y as int,
                    h as int,
                    y as int,
                );
            }
            let px = origin_x + step_x * (x as i64);
            let py = origin_y + step_y * (y as i64);
            let p = Vec2i { x: px, y: py };
            assert(p == grid_point_of(center, half_extents, dims, x as int, y as int));
            let d = min_distance(obstacles, p);
            col.push(d);
            y += 1;
        }
        g.push(col);
        x += 1;
    }
    g
}

/// Largest magnitude of a gradient component produced by the gradient pass.
pub const MAX_GRADIENT: i64 = 8796093022208;

/// Largest magnitude of a curl value produced by the curl pass.
pub const MAX_CURL: i64 = 16384;

/// The horizontal 3x3 difference stencil applied to the distance grid.
pub open spec fn sobel_x(d: Seq<Vec<i64>>, x: int, y: int) -> int {
    2 * d[x + 1]@[y] + d[x + 1]@[y + 1] + d[x + 1]@[y - 1] - 2 * d[x - 1]@[y] - d[x - 1]@[y - 1]
        - d[x - 1]@[y + 1]
}

/// The vertical 3x3 difference stencil applied to the distance grid.
pub open spec fn sobel_y(d: Seq<Vec<i64>>, x: int, y: int) -> int {
    2 * d[x]@[y + 1] + d[x + 1]@[y + 1] + d[x - 1]@[y + 1] - 2 * d[x]@[y - 1] - d[x + 1]@[y - 1]
        - d[x - 1]@[y - 1]
}

/// The gradient estimate at an interior cell: the stencil sums, scaled to
/// fixed point and floor-divided by the grid spacing per axis.
pub open spec fn gradient_cell(
    d: Seq<Vec<i64>>,
    step_x: int,
    step_y: int,
    x: int,
    y: int,
) -> Vec2i {
    Vec2i {
        x: ((sobel_x(d, x, y) * SCALE) / step_x) as i64,
        y: ((sobel_y(d, x, y) * SCALE) / step_y) as i64,
    }
}

/// Exact contract of the gradient pass: interior cells hold the stencil
/// estimate, the one-cell border is zero.
pub open spec fn gradient_grid_ok(
    g: Seq<Vec<Vec2i>>,
    d: Seq<Vec<i64>>,
    step_x: int,
    step_y: int,
    w: int,
    h: int,
) -> bool {
    &&& grid_rect(g, w, h)
    &&& forall|x: int, y: int|
        0 <= x < w && 0 <= y < h ==> #[trigger] g[x]@[y] == (if 1 <= x < w - 1 && 1 <= y < h - 1 {
            gradient_cell(d, step_x, step_y, x, y)
        } else {
            Vec2i { x: 0, y: 0 }
        })
}

/// Every cell of a rectangular vector grid stays within `m` per component.
pub open spec fn grid_vecs_bounded(g: Seq<Vec<Vec2i>>, w: int, h: int, m: int) -> bool {
    forall|x: int, y: int|
        0 <= x < w && 0 <= y < h ==> (#[trigger] g[x]@[y]).in_bounds(m)
}

/// The gradient pass: a Sobel-style finite difference over the distance
/// grid, divided by the grid spacing; zero on the one-cell border.
#[verifier::loop_isolation(false)]
pub fn compute_gradient_grid(
    dist: &Vec<Vec<i64>>,
    dims: (usize, usize),
    step_x: i64,
    step_y: i64,
) -> (g: Vec<Vec<Vec2i>>)
    requires
        grid_rect(dist@, dims.0 as int, dims.1 as int),
        3 <= dims.0 <= MAX_DIM,
        3 <= dims.1 <= MAX_DIM,
        1 <= step_x <= 2 * MAX_COORD,
        1 <= step_y <= 2 * MAX_COORD,
        grid_vals_bounded(dist@, dims.0 as int, dims.1 as int, NO_OBSTACLE_DISTANCE as int),
    ensures
        gradient_grid_ok(g@, dist@, step_x as int, step_y as int, dims.0 as int, dims.1 as int),
        grid_vecs_bounded(g@, dims.0 as int, dims.1 as int, MAX_GRADIENT as int),
{
    let w = dims.0;
    let h = dims.1;
    let mut g: Vec<Vec<Vec2i>> = Vec::new();
    let mut x: usize = 0;
    while x < w
        invariant
            x <= w,
            g@.len() == x,
            forall|i: int| 0 <= i < x ==> (#[trigger] g@[i])@.len() == h,
            forall|i: int, j: int|
                0 <= i < x && 0 <= j < h ==> #[trigger] g@[i]@[j] == (if 1 <= i < w - 1 && 1 <= j
                    < h - 1 {
                    gradient_cell(dist@, step_x as int, step_y as int, i, j)
                } else {
                    Vec2i { x: 0, y: 0 }
                }),
            forall|i: int, j: int|
                0 <= i < x && 0 <= j < h ==> (#[trigger] g@[i]@[j]).in_bounds(MAX_GRADIENT as int),
        decreases w - x,
    {
        let mut col: Vec<Vec2i> = Vec::new();
        let mut y: usize = 0;
        while y < h
            invariant
                y <= h,
                col@.len() == y,
                forall|j: int|
                    0 <= j < y ==> #[trigger] col@[j] == (if 1 <= x < w - 1 && 1 <= j < h - 1 {
                        gradient_cell(dist@, step_x as int, step_y as int, x as int, j)
                    } else {
                        Vec2i { x: 0, y: 0 }
                    }),
                forall|j: int|
                    0 <= j < y ==> (#[trigger] col@[j]).in_bounds(MAX_GRADIENT as int),
            decreases h - y,
        {
            let cell: Vec2i = if 1 <= x && x < w - 1 && 1 <= y && y < h - 1 {
                let sx = 2 * dist[x + 1][y] + dist[x + 1][y + 1] + dist[x + 1][y - 1]
                    - 2 * dist[x - 1][y] - dist[x - 1][y - 1] - dist[x - 1][y + 1];
                let sy = 2 * dist[x][y + 1] + dist[x + 1][y + 1] + dist[x - 1][y + 1]
                    - 2 * dist[x][y - 1] - dist[x + 1][y - 1] - dist[x - 1][y - 1];
                let gx = div_floor(sx * SCALE, step_x);
                let gy = div_floor(sy * SCALE, step_y);
                proof {
                    lemma_div_bound_scaled(sx as int * SCALE as int, step_x as int, MAX_GRADIENT as int);
                    lemma_div_bound_scaled(sy as int * SCALE as int, step_y as int, MAX_GRADIENT as int);
                }
                Vec2i { x: gx, y: gy }
            } else {
                Vec2i { x: 0, y: 0 }
            };
            col.push(cell);
            y += 1;
        }
        g.push(col);
        x += 1;
    }
    g
}

/// Rotate a gradient vector 90 degrees clockwise and scale it to a
/// fixed-point unit vector; the zero vector stays zero.
pub open spec fn rot_norm(v: Vec2i) -> Vec2i {
    let n = sqrt_floor(v.x * v.x + v.y * v.y);
    if n == 0 {
        Vec2i { x: 0, y: 0 }
    } else {
        Vec2i { x: ((v.y * SCALE) / n) as i64, y: ((-v.x * SCALE) / n) as i64 }
    }
}

/// Computes [`rot_norm`] exactly.
pub fn rotate_normalize(v: Vec2i) -> (r: Vec2i)
    requires
        v.in_bounds(MAX_GRADIENT as int),
    ensures
        r == rot_norm(v),
        r.in_bounds(SCALE as int),
{
    proof {
        lemma_mul_bound(v.x as int, v.x as int, MAX_GRADIENT as int, MAX_GRADIENT as int);
        lemma_mul_bound(v.y as int, v.y as int, MAX_GRADIENT as int, MAX_GRADIENT as int);
        assert((v.x as int) * (v.x as int) >= 0 && (v.y as int) * (v.y as int) >= 0)
            by (nonlinear_arith);
    }
    let n2: i128 = (v.x as i128) * (v.x as i128) + (v.y as i128) * (v.y as i128);
    let n = isqrt_u128(n2 as u128);
    proof {
        lemma_sqrt_floor_bounds(n2 as int);
        assert((n as int) <= 0x2_0000_0000_0000) by (nonlinear_arith)
            requires
                0 <= (n as int),
                (n as int) * (n as int) <= (n2 as int),
                (n2 as int) <= 2 * (MAX_GRADIENT as int) * (MAX_GRADIENT as int),
        {}
    }
    if n == 0 {
        Vec2i { x: 0, y: 0 }
    } else {
        let ni = n as i64;
        proof {
            // each component's magnitude is at most the whole vector's norm
            lemma_sqrt_floor_square(if v.x >= 0 { v.x as int } else { -(v.x as int) });
            lemma_sqrt_floor_square(if v.y >= 0 { v.y as int } else { -(v.y as int) });
            assert((v.x as int) * (v.x as int) <= n2 as int && (v.y as int) * (v.y as int)
                <= n2 as int);
            lemma_sqrt_floor_mono((v.x as int) * (v.x as int), n2 as int);
            lemma_sqrt_floor_mono((v.y as int) * (v.y as int), n2 as int);
            assert((if v.x >= 0 { v.x as int } else { -(v.x as int) }) * (if v.x >= 0 {
                v.x as int
            } else {
                -(v.x as int)
            }) == (v.x as int) * (v.x as int)) by (nonlinear_arith);
            assert((if v.y >= 0 { v.y as int } else { -(v.y as int) }) * (if v.y >= 0 {
                v.y as int
            } else {
                -(v.y as int)
            }) == (v.y as int) * (v.y as int)) by (nonlinear_arith);
            lemma_mul_bound(v.y as int, SCALE as int, n as int, SCALE as int);
            lemma_mul_bound(v.x as int, SCALE as int, n as int, SCALE as int);
            lemma_div_bound_scaled((v.y as int) * (SCALE as int), n as int, SCALE as int);
            lemma_div_bound_scaled((-(v.x as int)) * (SCALE as int), n as int, SCALE as int);
            assert((-(v.x as int)) * (SCALE as int) == -((v.x as int) * (SCALE as int)))
                by (nonlinear_arith);
        }
        let rx = div_floor(v.y * SCALE, ni);
        let ry = div_floor(-v.x * SCALE, ni);
        Vec2i { x: rx, y: ry }
    }
}

/// The curl estimate at a cell two steps inside the border: the rotated,
/// normalized gradient neighbors combined by the difference stencils.
pub open spec fn curl_cell(g: Seq<Vec<Vec2i>>, x: int, y: int) -> int {
    let bl = rot_norm(g[x - 1]@[y - 1]);
    let br = rot_norm(g[x + 1]@[y - 1]);
    let bb = rot_norm(g[x]@[y - 1]);
    let ll = rot_norm(g[x - 1]@[y]);
    let rr = rot_norm(g[x + 1]@[y]);
    let tt = rot_norm(g[x]@[y + 1]);
    let tl = rot_norm(g[x - 1]@[y + 1]);
    let tr = rot_norm(g[x + 1]@[y + 1]);
    let dy_dx = 2 * rr.y + tr.y + br.y - 2 * ll.y - bl.y - tl.y;
    let dx_dy = 2 * tt.x + tr.x + tl.x - 2 * bb.x - bl.x - br.x;
    dy_dx - dx_dy
}

/// Exact contract of the curl pass: cells with a two-cell margin hold the
/// stencil estimate, the rest are zero.
pub open spec fn curl_grid_ok(c: Seq<Vec<i64>>, g: Seq<Vec<Vec2i>>, w: int, h: int) -> bool {
    &&& grid_rect(c, w, h)
    &&& forall|x: int, y: int|
        0 <= x < w && 0 <= y < h ==> #[trigger] c[x]@[y] == (if 2 <= x < w - 2 && 2 <= y < h - 2 {
            curl_cell(g, x, y)
        } else {
            0
        })
}

/// The curl pass: estimates the rotation of the perpendicular-rotated,
/// normalized gradient field; zero on the two-cell border.
#[verifier::loop_isolation(false)]
pub fn compute_curl_grid(gradient: &Vec<Vec<Vec2i>>, dims: (usize, usize)) -> (c: Vec<Vec<i64>>)
    requires
        grid_rect(gradient@, dims.0 as int, dims.1 as int),
        3 <= dims.0 <= MAX_DIM,
        3 <= dims.1 <= MAX_DIM,
        grid_vecs_bounded(gradient@, dims.0 as int, dims.1 as int, MAX_GRADIENT as int),
    ensures
        curl_grid_ok(c@, gradient@, dims.0 as int, dims.1 as int),
        grid_vals_bounded(c@, dims.0 as int, dims.1 as int, MAX_CURL as int),
{
    let w = dims.0;
    let h = dims.1;
    let mut c: Vec<Vec<i64>> = Vec::new();
    let mut x: usize = 0;
    while x < w
        invariant
            x <= w,
            c@.len() == x,
            forall|i: int| 0 <= i < x ==> (#[trigger] c@[i])@.len() == h,
            forall|i: int, j: int|
                0 <= i < x && 0 <= j < h ==> #[trigger] c@[i]@[j] == (if 2 <= i < w - 2 && 2 <= j
                    < h - 2 {
                    curl_cell(gradient@, i, j)
                } else {
                    0
                }),
            forall|i: int, j: int|
                0 <= i < x && 0 <= j < h ==> -MAX_CURL <= #[trigger] c@[i]@[j] <= MAX_CURL,
        decreases w - x,
    {
        let mut col: Vec<i64> = Vec::new();
        let mut y: usize = 0;
        while y < h
            invariant
                y <= h,
                col@.len() == y,
                forall|j: int|
                    0 <= j < y ==> #[trigger] col@[j] == (if 2 <= x < w - 2 && 2 <= j < h - 2 {
                        curl_cell(gradient@, x as int, j)
                    } else {
                        0
                    }),
                forall|j: int| 0 <= j < y ==> -MAX_CURL <= #[trigger] col@[j] <= MAX_CURL,
            decreases h - y,
        {
            let cell: i64 = if 2 <= x && x + 2 < w && 2 <= y && y + 2 < h {
                let bl = rotate_normalize(gradient[x - 1][y - 1]);
                let br = rotate_normalize(gradient[x + 1][y - 1]);
                let bb = rotate_normalize(gradient[x][y - 1]);
                let ll = rotate_normalize(gradient[x - 1][y]);
                let rr = rotate_normalize(gradient[x + 1][y]);
                let tt = rotate_normalize(gradient[x][y + 1]);
                let tl = rotate_normalize(gradient[x - 1][y + 1]);
                let tr = rotate_normalize(gradient[x + 1][y + 1]);
                let dy_dx = 2 * rr.y + tr.y + br.y - 2 * ll.y - bl.y - tl.y;
                let dx_dy = 2 * tt.x + tr.x + tl.x - 2 * bb.x - bl.x - br.x;
                dy_dx - dx_dy
            } else {
                0
            };
            col.push(cell);
            y += 1;
        }
        c.push(col);
        x += 1;
    }
    c
}

/// On a locally affine distance grid (a flat region of constant slope `a`
/// per column and `b` per row) the difference stencils recover the slope
/// exactly: the horizontal stencil sums to `8 * a`, the vertical one to
/// `8 * b`. The gradient estimate there is the analytic gradient, scaled by
/// the stencil weight.
pub proof fn lemma_sobel_exact_on_affine(d: Seq<Vec<i64>>, x: int, y: int, a: int, b: int)
    requires
        d[x + 1]@[y] == d[x]@[y] + a,
        d[x - 1]@[y] == d[x]@[y] - a,
        d[x]@[y + 1] == d[x]@[y] + b,
        d[x]@[y - 1] == d[x]@[y] - b,
        d[x + 1]@[y + 1] == d[x]@[y] + a + b,
        d[x + 1]@[y - 1] == d[x]@[y] + a - b,
        d[x - 1]@[y + 1] == d[x]@[y] - a + b,
        d[x - 1]@[y - 1] == d[x]@[y] - a - b,
    ensures
        sobel_x(d, x, y) == 8 * a,
        sobel_y(d, x, y) == 8 * b,
{
}

/// A locally constant gradient — the gradient of an irrotational,
/// constant-slope distance field — has zero curl: with all eight neighbors
/// equal, the rotated directions coincide and the stencils cancel.
pub proof fn lemma_curl_zero_on_constant(g: Seq<Vec<Vec2i>>, x: int, y: int, v: Vec2i)
    requires
        g[x - 1]@[y - 1] == v,
        g[x]@[y - 1] == v,
        g[x + 1]@[y - 1] == v,
        g[x - 1]@[y] == v,
        g[x + 1]@[y] == v,
        g[x - 1]@[y + 1] == v,
        g[x]@[y + 1] == v,
        g[x + 1]@[y + 1] == v,
    ensures
        curl_cell(g, x, y) == 0,
{
}

/// The rotated direction of an axis-aligned gradient of magnitude `k`: the
/// normalization divides exactly, giving a unit axis vector in fixed point.
proof fn lemma_rot_norm_axis(v: Vec2i, k: int)
    requires
        1 <= k,
        (v.x == k && v.y == 0) || (v.x == -k && v.y == 0) || (v.x == 0 && v.y == k) || (v.x == 0
            && v.y == -k),
    ensures
        v.x == k ==> rot_norm(v).x == 0 && rot_norm(v).y == -SCALE,
        v.x == -k ==> rot_norm(v).x == 0 && rot_norm(v).y == SCALE,
        v.y == k ==> rot_norm(v).x == SCALE && rot_norm(v).y == 0,
        v.y == -k ==> rot_norm(v).x == -SCALE && rot_norm(v).y == 0,
{
    let s = SCALE as int;
    assert((v.x as int) * (v.x as int) + (v.y as int) * (v.y as int) == k * k)
        by (nonlinear_arith)
        requires
            (v.x == k && v.y == 0) || (v.x == -k && v.y == 0) || (v.x == 0 && v.y == k) || (v.x
                == 0 && v.y == -k),
    {}
    lemma_sqrt_floor_square(k);
    vstd::arithmetic::div_mod::lemma_div_multiples_vanish(0, k);
    vstd::arithmetic::div_mod::lemma_div_multiples_vanish(s, k);
    vstd::arithmetic::div_mod::lemma_div_multiples_vanish(-s, k);
    assert(k * 0 == 0 && k * s == k * s && k * (-s) == -(k * s)) by (nonlinear_arith);
    assert((k * s) / k == s && (-(k * s)) / k == -s && (0int) / k == 0);
}

/// The rotated direction of a diagonal gradient `(±k, ±k)`: each component
/// of the fixed-point unit vector lies in `[512, SCALE]`, with the sign
/// given by the rotation.
proof fn lemma_rot_norm_diag(v: Vec2i, k: int)
    requires
        1 <= k,
        v.x == k || v.x == -k,
        v.y == k || v.y == -k,
    ensures
        v.y == k ==> 512 <= rot_norm(v).x <= SCALE,
        v.y == -k ==> -SCALE - 1 <= rot_norm(v).x <= -512,
        v.x == k ==> -SCALE - 1 <= rot_norm(v).y <= -512,
        v.x == -k ==> 512 <= rot_norm(v).y <= SCALE,
{
    let s = SCALE as int;
    assert((v.x as int) * (v.x as int) + (v.y as int) * (v.y as int) == 2 * (k * k))
        by (nonlinear_arith)
        requires
            v.x == k || v.x == -k,
            v.y == k || v.y == -k,
    {}
    let n = sqrt_floor(2 * (k * k));
    lemma_sqrt_floor_square(k);
    assert(k * k <= 2 * (k * k)) by (nonlinear_arith)
        requires
            1 <= k,
    {}
    lemma_sqrt_floor_mono(k * k, 2 * (k * k));
    assert(k <= n);
    lemma_sqrt_floor_bounds(2 * (k * k));
    assert(n < 2 * k) by (nonlinear_arith)
        requires
            1 <= k,
            0 <= n,
            n * n <= 2 * (k * k),
    {}
    // the positive quotient q = (k * SCALE) / n lies in [512, SCALE]
    let q = (k * s) / n;
    vstd::arithmetic::div_mod::lemma_div_is_ordered_by_denominator(k * s, n, 2 * k);
    vstd::arithmetic::div_mod::lemma_div_multiples_vanish(512, 2 * k);
    assert(k * s == (2 * k) * 512) by (nonlinear_arith)
        requires
            s == 1024,
    {}
    assert(512 <= q);
    assert(k * s <= n * s) by (nonlinear_arith)
        requires
            k <= n,
            0 < s,
    {}
    vstd::arithmetic::div_mod::lemma_div_is_ordered(k * s, n * s, n);
    vstd::arithmetic::div_mod::lemma_div_multiples_vanish(s, n);
    assert(n * s == n * s);
    assert(q <= s);
    // the negative quotient (-(k * SCALE)) / n lies in [-q - 1, -q]
    vstd::arithmetic::div_mod::lemma_fundamental_div_mod(k * s, n);
    let r = (k * s) % n;
    assert(n * q <= k * s < n * (q + 1)) by (nonlinear_arith)
        requires
            k * s == n * q + r,
            0 <= r < n,
    {}
    assert(n * (-q) == -(n * q)) by (nonlinear_arith);
    assert(n * (-(q + 1)) == -(n * (q + 1))) by (nonlinear_arith);
    assert(-(k * s) <= n * (-q));
    vstd::arithmetic::div_mod::lemma_div_is_ordered(-(k * s), n * (-q), n);
    vstd::arithmetic::div_mod::lemma_div_multiples_vanish(-q, n);
    assert(n * (-(q + 1)) <= -(k * s));
    vstd::arithmetic::div_mod::lemma_div_is_ordered(n * (-(q + 1)), -(k * s), n);
    vstd::arithmetic::div_mod::lemma_div_multiples_vanish(-(q + 1), n);
    assert(-q - 1 <= (-(k * s)) / n <= -q);
    assert((v.y as int) * s == (if v.y == k {
        k * s
    } else {
        -(k * s)
    })) by (nonlinear_arith)
        requires
            v.y == k || v.y == -k,
    {}
    assert((-(v.x as int)) * s == (if v.x == k {
        -(k * s)
    } else {
        k * s
    })) by (nonlinear_arith)
        requires
            v.x == k || v.x == -k,
    {}
}

/// An outward-radial gradient pattern — each of the eight neighbors of
/// `(x, y)` holding `k` times its offset from the cell — rotates clockwise
/// into a genuinely rotational (tangential) field, and the curl estimate
/// there is strictly negative, whatever `k >= 1` and wherever the cell.
pub proof fn lemma_curl_negative_on_outward_radial(g: Seq<Vec<Vec2i>>, x: int, y: int, k: i64)
    requires
        1 <= k,
        g[x + 1]@[y].x == k && g[x + 1]@[y].y == 0,
        g[x - 1]@[y].x == -k && g[x - 1]@[y].y == 0,
        g[x]@[y + 1].x == 0 && g[x]@[y + 1].y == k,
        g[x]@[y - 1].x == 0 && g[x]@[y - 1].y == -k,
        g[x + 1]@[y + 1].x == k && g[x + 1]@[y + 1].y == k,
        g[x + 1]@[y - 1].x == k && g[x + 1]@[y - 1].y == -k,
        g[x - 1]@[y + 1].x == -k && g[x - 1]@[y + 1].y == k,
        g[x - 1]@[y - 1].x == -k && g[x - 1]@[y - 1].y == -k,
    ensures
        curl_cell(g, x, y) < 0,
{
    lemma_rot_norm_axis(g[x + 1]@[y], k as int);
    lemma_rot_norm_axis(g[x - 1]@[y], k as int);
    lemma_rot_norm_axis(g[x]@[y + 1], k as int);
    lemma_rot_norm_axis(g[x]@[y - 1], k as int);
    lemma_rot_norm_diag(g[x + 1]@[y + 1], k as int);
    lemma_rot_norm_diag(g[x + 1]@[y - 1], k as int);
    lemma_rot_norm_diag(g[x - 1]@[y + 1], k as int);
    lemma_rot_norm_diag(g[x - 1]@[y - 1], k as int);
}

/// The mirrored handedness: an inward-radial gradient pattern rotates into
/// the opposite tangential field, and the curl estimate is strictly
/// positive.
pub proof fn lemma_curl_positive_on_inward_radial(g: Seq<Vec<Vec2i>>, x: int, y: int, k: i64)
    requires
        1 <= k,
        g[x + 1]@[y].x == -k && g[x + 1]@[y].y == 0,
        g[x - 1]@[y].x == k && g[x - 1]@[y].y == 0,
        g[x]@[y + 1].x == 0 && g[x]@[y + 1].y == -k,
        g[x]@[y - 1].x == 0 && g[x]@[y - 1].y == k,
        g[x + 1]@[y + 1].x == -k && g[x + 1]@[y + 1].y == -k,
        g[x + 1]@[y - 1].x == -k && g[x + 1]@[y - 1].y == k,
        g[x - 1]@[y + 1].x == k && g[x - 1]@[y + 1].y == -k,
        g[x - 1]@[y - 1].x == k && g[x - 1]@[y - 1].y == k,
    ensures
        curl_cell(g, x, y) > 0,
{
    lemma_rot_norm_axis(g[x + 1]@[y], k as int);
    lemma_rot_norm_axis(g[x - 1]@[y], k as int);
    lemma_rot_norm_axis(g[x]@[y + 1], k as int);
    lemma_rot_norm_axis(g[x]@[y - 1], k as int);
    lemma_rot_norm_diag(g[x + 1]@[y + 1], k as int);
    lemma_rot_norm_diag(g[x + 1]@[y - 1], k as int);
    lemma_rot_norm_diag(g[x - 1]@[y + 1], k as int);
    lemma_rot_norm_diag(g[x - 1]@[y - 1], k as int);
}

/// The three grids of a field are exactly what the pass pipeline yields for
/// the field's own region and the given obstacle snapshot.
pub open spec fn field_matches(f: DistanceField, obs: Seq<DistanceFieldObstacle>) -> bool {
    let w = f.sample_dimensions.0 as int;
    let h = f.sample_dimensions.1 as int;
    let sx = step1(f.half_extents.x as int, w);
    let sy = step1(f.half_extents.y as int, h);
    &&& distance_grid_ok(f.distance_field@, f.center, f.half_extents, f.sample_dimensions, obs)
    &&& gradient_grid_ok(f.gradient_field@, f.distance_field@, sx, sy, w, h)
    &&& curl_grid_ok(f.curl_field@, f.gradient_field@, w, h)
}

/// The field compute kernel: distance scan, gradient stencil, curl stencil,
/// assembled into one field tagged with the region it was computed for.
pub fn calculate_fields(
    center: Vec2i,
    half_extents: Vec2i,
    sample_counts: (usize, usize),
    obstacles: &Vec<DistanceFieldObstacle>,
) -> (f: DistanceField)
    requires
        region_wf(center, half_extents, sample_counts),
        obstacles_wf(obstacles@),
    ensures
        f.center == center,
        f.half_extents == half_extents,
        f.sample_dimensions == sample_counts,
        f.grids_shaped(),
        f.wf(),
        field_matches(f, obstacles@),
{
    let step_x = div_floor(2 * half_extents.x, (sample_counts.0 as i64) - 1);
    let step_y = div_floor(2 * half_extents.y, (sample_counts.1 as i64) - 1);
    let dist = compute_distance_grid(center, half_extents, sample_counts, obstacles);
    let gradient = compute_gradient_grid(&dist, sample_counts, step_x, step_y);
    let curl = compute_curl_grid(&gradient, sample_counts);
    DistanceField {
        center,
        half_extents,
        sample_dimensions: sample_counts,
        distance_field: dist,
        gradient_field: gradient,
        curl_field: curl,
    }
}

} // verus!
