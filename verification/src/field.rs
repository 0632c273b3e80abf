//! The published field value and its bilinearly interpolated samplers.

use vstd::prelude::*;
use crate::compute::{
    grid_rect, grid_vals_bounded, grid_vecs_bounded, region_wf, step1, MAX_CURL, MAX_GRADIENT,
};
use crate::math::{div_floor, lemma_div_bound_scaled, lemma_mul_bound, rem_floor, SCALE};
use crate::obstacle::{MAX_POINT, NO_OBSTACLE_DISTANCE};
use crate::vec2::Vec2i;

verus! {

/// One published field: three same-shaped grids over one region, always
/// produced together from one obstacle snapshot.
pub struct DistanceField {
    pub center: Vec2i,
    pub half_extents: Vec2i,
    pub sample_dimensions: (usize, usize),
    pub distance_field: Vec<Vec<i64>>,
    pub gradient_field: Vec<Vec<Vec2i>>,
    pub curl_field: Vec<Vec<i64>>,
}

impl DistanceField {
    /// The region parameters are well formed.
    pub open spec fn region_ok(self) -> bool {
        region_wf(self.center, self.half_extents, self.sample_dimensions)
    }

    /// All three grids are still empty (the state before any computation).
    pub open spec fn grids_empty(self) -> bool {
        &&& self.distance_field@.len() == 0
        &&& self.gradient_field@.len() == 0
        &&& self.curl_field@.len() == 0
    }

    /// All three grids have the region's resolution and bounded values.
    pub open spec fn grids_shaped(self) -> bool {
        let w = self.sample_dimensions.0 as int;
        let h = self.sample_dimensions.1 as int;
        &&& grid_rect(self.distance_field@, w, h)
        &&& grid_rect(self.gradient_field@, w, h)
        &&& grid_rect(self.curl_field@, w, h)
        &&& grid_vals_bounded(self.distance_field@, w, h, NO_OBSTACLE_DISTANCE as int)
        &&& grid_vecs_bounded(self.gradient_field@, w, h, MAX_GRADIENT as int)
        &&& grid_vals_bounded(self.curl_field@, w, h, MAX_CURL as int)
    }

    /// A field is well formed when its region is and its grids are either
    /// still empty or fully populated at the region's resolution.
    pub open spec fn wf(self) -> bool {
        &&& self.region_ok()
        &&& (self.grids_empty() || self.grids_shaped())
    }

    /// The continuous grid coordinate of a world point, in fixed point:
    /// `(point - origin) * SCALE / step`, floor-divided per axis.
    pub open spec fn grid_position_spec(self, point: Vec2i) -> Vec2i {
        let sx = step1(self.half_extents.x as int, self.sample_dimensions.0 as int);
        let sy = step1(self.half_extents.y as int, self.sample_dimensions.1 as int);
        Vec2i {
            x: (((point.x - (self.center.x - self.half_extents.x)) * SCALE) / sx) as i64,
            y: (((point.y - (self.center.y - self.half_extents.y)) * SCALE) / sy) as i64,
        }
    }

    /// Computes [`DistanceField::grid_position_spec`] exactly.
    pub fn grid_position(&self, point: Vec2i) -> (g: Vec2i)
        requires
            self.region_ok(),
            point.in_bounds(MAX_POINT as int),
        ensures
            g == self.grid_position_spec(point),
    {
        let step_x = div_floor(2 * self.half_extents.x, (self.sample_dimensions.0 as i64) - 1);
        let step_y = div_floor(2 * self.half_extents.y, (self.sample_dimensions.1 as i64) - 1);
        let dx = point.x - (self.center.x - self.half_extents.x);
        let dy = point.y - (self.center.y - self.half_extents.y);
        let gx = div_floor(dx * SCALE, step_x);
        let gy = div_floor(dy * SCALE, step_y);
        Vec2i { x: gx, y: gy }
    }

    /// The checked distance sample at a world point.
    pub fn sample_distance_checked(&self, point: Vec2i) -> (r: Option<i64>)
        requires
            self.wf(),
            point.in_bounds(MAX_POINT as int),
        ensures
            r.is_some() <==> sample_in_range(
                self.distance_field@,
                self.grid_position_spec(point),
            ),
            r.is_some() ==> r.unwrap() == sample_grid_spec(
                self.distance_field@,
                self.grid_position_spec(point),
            ),
    {
        let pos = self.grid_position(point);
        sample_grid_checked(pos, &self.distance_field)
    }

    /// The checked gradient sample at a world point.
    pub fn sample_gradient_checked(&self, point: Vec2i) -> (r: Option<Vec2i>)
        requires
            self.wf(),
            point.in_bounds(MAX_POINT as int),
        ensures
            r.is_some() <==> sample_vec2_in_range(
                self.gradient_field@,
                self.grid_position_spec(point),
            ),
            r.is_some() ==> r.unwrap() == sample_grid_vec2_spec(
                self.gradient_field@,
                self.grid_position_spec(point),
            ),
    {
        let pos = self.grid_position(point);
        sample_grid_vec2_checked(pos, &self.gradient_field)
    }

    /// The checked curl sample at a world point.
    pub fn sample_curl_checked(&self, point: Vec2i) -> (r: Option<i64>)
        requires
            self.wf(),
            point.in_bounds(MAX_POINT as int),
        ensures
            r.is_some() <==> sample_in_range(self.curl_field@, self.grid_position_spec(point)),
            r.is_some() ==> r.unwrap() == sample_grid_spec(
                self.curl_field@,
                self.grid_position_spec(point),
            ),
    {
        let pos = self.grid_position(point);
        sample_grid_checked(pos, &self.curl_field)
    }
}

impl Default for DistanceField {
    /// The initial field: a 2000 x 2000 grid over half-extents of 800 x 400
    /// display units, with empty grids; nothing can be sampled until a
    /// computation is published. World coordinates count `1 / SCALE` of a
    /// display unit, so that this resolution's sub-unit grid spacing stays
    /// an integer (the step is (819, 409) world units per cell).
    fn default() -> (d: DistanceField)
        ensures
            d.center == (Vec2i { x: 0, y: 0 }),
            d.half_extents == (Vec2i { x: 819200, y: 409600 }),
            d.sample_dimensions == (2000usize, 2000usize),
            d.grids_empty(),
            d.wf(),
    {
        DistanceField {
            center: Vec2i { x: 0, y: 0 },
            half_extents: Vec2i { x: 819200, y: 409600 },
            sample_dimensions: (2000, 2000),
            distance_field: Vec::new(),
            gradient_field: Vec::new(),
            curl_field: Vec::new(),
        }
    }
}

/// One linear interpolation step between fixed-point endpoints, with weight
/// `t` in `[0, SCALE]`.
pub open spec fn lerp1(a: int, b: int, t: int) -> int {
    (a * (SCALE - t) + b * t) / (SCALE as int)
}

/// The bilinear sample of a scalar grid at a fixed-point grid coordinate:
/// floor to a cell, then interpolate bottom edge, top edge, and between.
pub open spec fn sample_grid_spec(f: Seq<Vec<i64>>, pos: Vec2i) -> int {
    let x = pos.x as int / (SCALE as int);
    let y = pos.y as int / (SCALE as int);
    let px = pos.x as int % (SCALE as int);
    let py = pos.y as int % (SCALE as int);
    let bottom = lerp1(f[x]@[y] as int, f[x + 1]@[y] as int, px);
    let top = lerp1(f[x]@[y + 1] as int, f[x + 1]@[y + 1] as int, px);
    lerp1(bottom, top, py)
}

/// The fixed-point coordinate's floor indexes a full 2x2 neighborhood.
pub open spec fn sample_in_range(f: Seq<Vec<i64>>, pos: Vec2i) -> bool {
    &&& 0 <= pos.x
    &&& 0 <= pos.y
    &&& pos.x as int / (SCALE as int) + 1 < f.len()
    &&& pos.y as int / (SCALE as int) + 1 < f[0]@.len()
}

/// A scalar grid accepted by the samplers: rectangular, of bounded size and
/// bounded values.
pub open spec fn sample_grid_wf(f: Seq<Vec<i64>>) -> bool {
    &&& f.len() <= 4096
    &&& forall|i: int| 0 <= i < f.len() ==> (#[trigger] f[i])@.len() == f[0]@.len()
    &&& f.len() > 0 ==> f[0]@.len() <= 4096
    &&& forall|i: int, j: int|
        0 <= i < f.len() && 0 <= j < f[i]@.len() ==> -MAX_GRADIENT <= #[trigger] f[i]@[j]
            <= MAX_GRADIENT
}

/// One interpolation step, executable.
fn lerp1_exec(a: i64, b: i64, t: i64) -> (r: i64)
    requires
        -2 * MAX_GRADIENT <= a <= 2 * MAX_GRADIENT,
        -2 * MAX_GRADIENT <= b <= 2 * MAX_GRADIENT,
        0 <= t <= SCALE,
    ensures
        r == lerp1(a as int, b as int, t as int),
        -2 * MAX_GRADIENT <= r <= 2 * MAX_GRADIENT,
{
    proof {
        lemma_mul_bound(a as int, (SCALE - t) as int, 2 * MAX_GRADIENT as int, SCALE as int);
        lemma_mul_bound(b as int, t as int, 2 * MAX_GRADIENT as int, SCALE as int);
        lemma_div_bound_scaled(
            (a as int) * ((SCALE - t) as int) + (b as int) * (t as int),
            SCALE as int,
            4 * MAX_GRADIENT as int,
        );
        assert((a as int) * ((SCALE - t) as int) + (b as int) * (t as int) <= 2 * MAX_GRADIENT
            * (SCALE as int)) by (nonlinear_arith)
            requires
                -2 * MAX_GRADIENT <= a <= 2 * MAX_GRADIENT,
                -2 * MAX_GRADIENT <= b <= 2 * MAX_GRADIENT,
                0 <= t <= SCALE,
        {}
        assert((a as int) * ((SCALE - t) as int) + (b as int) * (t as int) >= -2 * MAX_GRADIENT
            * (SCALE as int)) by (nonlinear_arith)
            requires
                -2 * MAX_GRADIENT <= a <= 2 * MAX_GRADIENT,
                -2 * MAX_GRADIENT <= b <= 2 * MAX_GRADIENT,
                0 <= t <= SCALE,
        {}
        lemma_div_bound_scaled(
            (a as int) * ((SCALE - t) as int) + (b as int) * (t as int),
            SCALE as int,
            2 * MAX_GRADIENT as int,
        );
    }
    div_floor(a * (SCALE - t) + b * t, SCALE)
}

/// The unchecked bilinear sampler over a scalar grid, at a non-negative
/// fixed-point grid coordinate whose floor indexes a 2x2 neighborhood.
pub fn sample_grid(position: Vec2i, field: &Vec<Vec<i64>>) -> (v: i64)
    requires
        sample_grid_wf(field@),
        sample_in_range(field@, position),
    ensures
        v == sample_grid_spec(field@, position),
{
    let x = div_floor(position.x, SCALE) as usize;
    let y = div_floor(position.y, SCALE) as usize;
    let px = rem_floor(position.x, SCALE);
    let py = rem_floor(position.y, SCALE);
    let bottom = lerp1_exec(field[x][y], field[x + 1][y], px);
    let top = lerp1_exec(field[x][y + 1], field[x + 1][y + 1], px);
    lerp1_exec(bottom, top, py)
}

/// The checked bilinear sampler: absent exactly when the floored coordinate
/// cannot index a full 2x2 neighborhood.
pub fn sample_grid_checked(position: Vec2i, field: &Vec<Vec<i64>>) -> (r: Option<i64>)
    requires
        sample_grid_wf(field@),
    ensures
        r.is_some() <==> sample_in_range(field@, position),
        r.is_some() ==> r.unwrap() == sample_grid_spec(field@, position),
{
    if position.x < 0 || position.y < 0 {
        return None;
    }
    if field.len() == 0 {
        proof {
            lemma_div_bound_scaled(position.x as int, SCALE as int, position.x as int);
        }
        return None;
    }
    let w = field.len();
    let h = field[0].len();
    if h == 0 {
        proof {
            vstd::arithmetic::div_mod::lemma_div_pos_is_pos(position.y as int, SCALE as int);
        }
        return None;
    }
    let xm = ((w - 1) as i64) * SCALE;
    let ym = ((h - 1) as i64) * SCALE;
    proof {
        lemma_in_range_iff(position.x as int, w as int);
        lemma_in_range_iff(position.y as int, h as int);
    }
    if position.x >= xm || position.y >= ym {
        return None;
    }
    Some(sample_grid(position, field))
}

/// `floor(p / SCALE) + 1 < n` exactly when `p < (n - 1) * SCALE`, for
/// non-negative `p`.
proof fn lemma_in_range_iff(p: int, n: int)
    requires
        0 <= p,
        1 <= n,
    ensures
        (p / (SCALE as int) + 1 < n) <==> (p < (n - 1) * (SCALE as int)),
{
    vstd::arithmetic::div_mod::lemma_fundamental_div_mod(p, SCALE as int);
    let q = p / (SCALE as int);
    let r = p % (SCALE as int);
    assert((q + 1 < n) <==> (p < (n - 1) * (SCALE as int))) by (nonlinear_arith)
        requires
            p == (SCALE as int) * q + r,
            0 <= r < (SCALE as int),
            0 <= p,
            1 <= n,
    {}
}

/// The bilinear sample of a vector grid, componentwise.
pub open spec fn sample_grid_vec2_spec(f: Seq<Vec<Vec2i>>, pos: Vec2i) -> Vec2i {
    let x = pos.x as int / (SCALE as int);
    let y = pos.y as int / (SCALE as int);
    let px = pos.x as int % (SCALE as int);
    let py = pos.y as int % (SCALE as int);
    Vec2i {
        x: lerp1(
            lerp1(f[x]@[y].x as int, f[x + 1]@[y].x as int, px),
            lerp1(f[x]@[y + 1].x as int, f[x + 1]@[y + 1].x as int, px),
            py,
        ) as i64,
        y: lerp1(
            lerp1(f[x]@[y].y as int, f[x + 1]@[y].y as int, px),
            lerp1(f[x]@[y + 1].y as int, f[x + 1]@[y + 1].y as int, px),
            py,
        ) as i64,
    }
}

/// The floored coordinate indexes a full 2x2 neighborhood of a vector grid.
pub open spec fn sample_vec2_in_range(f: Seq<Vec<Vec2i>>, pos: Vec2i) -> bool {
    &&& 0 <= pos.x
    &&& 0 <= pos.y
    &&& pos.x as int / (SCALE as int) + 1 < f.len()
    &&& pos.y as int / (SCALE as int) + 1 < f[0]@.len()
}

/// A vector grid accepted by the samplers.
pub open spec fn sample_grid_vec2_wf(f: Seq<Vec<Vec2i>>) -> bool {
    &&& f.len() <= 4096
    &&& forall|i: int| 0 <= i < f.len() ==> (#[trigger] f[i])@.len() == f[0]@.len()
    &&& f.len() > 0 ==> f[0]@.len() <= 4096
    &&& forall|i: int, j: int|
        0 <= i < f.len() && 0 <= j < f[i]@.len() ==> (#[trigger] f[i]@[j]).in_bounds(
            MAX_GRADIENT as int,
        )
}

/// The unchecked bilinear sampler over a vector grid.
pub fn sample_grid_vec2(position: Vec2i, field: &Vec<Vec<Vec2i>>) -> (v: Vec2i)
    requires
        sample_grid_vec2_wf(field@),
        sample_vec2_in_range(field@, position),
    ensures
        v == sample_grid_vec2_spec(field@, position),
{
    let x = div_floor(position.x, SCALE) as usize;
    let y = div_floor(position.y, SCALE) as usize;
    let px = rem_floor(position.x, SCALE);
    let py = rem_floor(position.y, SCALE);
    let vx = lerp1_exec(
        lerp1_exec(field[x][y].x, field[x + 1][y].x, px),
        lerp1_exec(field[x][y + 1].x, field[x + 1][y + 1].x, px),
        py,
    );
    let vy = lerp1_exec(
        lerp1_exec(field[x][y].y, field[x + 1][y].y, px),
        lerp1_exec(field[x][y + 1].y, field[x + 1][y + 1].y, px),
        py,
    );
    Vec2i { x: vx, y: vy }
}

/// The checked bilinear sampler over a vector grid.
pub fn sample_grid_vec2_checked(position: Vec2i, field: &Vec<Vec<Vec2i>>) -> (r: Option<Vec2i>)
    requires
        sample_grid_vec2_wf(field@),
    ensures
        r.is_some() <==> sample_vec2_in_range(field@, position),
        r.is_some() ==> r.unwrap() == sample_grid_vec2_spec(field@, position),
{
    if position.x < 0 || position.y < 0 {
        return None;
    }
    if field.len() == 0 {
        return None;
    }
    let w = field.len();
    let h = field[0].len();
    if h == 0 {
        proof {
            vstd::arithmetic::div_mod::lemma_div_pos_is_pos(position.y as int, SCALE as int);
        }
        return None;
    }
    let xm = ((w - 1) as i64) * SCALE;
    let ym = ((h - 1) as i64) * SCALE;
    proof {
        lemma_in_range_iff(position.x as int, w as int);
        lemma_in_range_iff(position.y as int, h as int);
    }
    if position.x >= xm || position.y >= ym {
        return None;
    }
    Some(sample_grid_vec2(position, field))
}

/// The bilinear combiner over one cell's four corners, with fixed-point
/// weights `x` and `y` in `[0, SCALE]`: corner `b` carries full weight at
/// `(0, 0)`.
pub open spec fn lerp_spec(a: int, b: int, c: int, d: int, x: int, y: int) -> int {
    let xy = (x * y) / (SCALE as int);
    (a * (x - xy) + b * (SCALE - x - y + xy) + c * xy + d * (y - xy)) / (SCALE as int)
}

/// Computes [`lerp_spec`] exactly.
pub fn lerp(a: i64, b: i64, c: i64, d: i64, x: i64, y: i64) -> (r: i64)
    requires
        -MAX_GRADIENT <= a <= MAX_GRADIENT,
        -MAX_GRADIENT <= b <= MAX_GRADIENT,
        -MAX_GRADIENT <= c <= MAX_GRADIENT,
        -MAX_GRADIENT <= d <= MAX_GRADIENT,
        0 <= x <= SCALE,
        0 <= y <= SCALE,
    ensures
        r == lerp_spec(a as int, b as int, c as int, d as int, x as int, y as int),
{
    proof {
        lemma_mul_bound(x as int, y as int, SCALE as int, SCALE as int);
        lemma_div_bound_scaled((x as int) * (y as int), SCALE as int, SCALE as int);
    }
    let xy = div_floor(x * y, SCALE);
    proof {
        lemma_mul_bound(a as int, (x - xy) as int, MAX_GRADIENT as int, 2 * SCALE as int);
        lemma_mul_bound(b as int, (SCALE - x - y + xy) as int, MAX_GRADIENT as int, 3 * SCALE as int);
        lemma_mul_bound(c as int, xy as int, MAX_GRADIENT as int, SCALE as int);
        lemma_mul_bound(d as int, (y - xy) as int, MAX_GRADIENT as int, 2 * SCALE as int);
    }
    let total = a * (x - xy) + b * (SCALE - x - y + xy) + c * xy + d * (y - xy);
    div_floor(total, SCALE)
}

/// Sampling at an exact grid node reproduces the stored grid value: when a
/// fixed-point coordinate is `(i * SCALE, j * SCALE)`, the bilinear sample
/// of any grid equals cell `(i, j)` exactly.
pub proof fn lemma_sample_at_node(f: Seq<Vec<i64>>, pos: Vec2i, i: int, j: int)
    requires
        pos.x == i * SCALE,
        pos.y == j * SCALE,
    ensures
        sample_grid_spec(f, pos) == f[i]@[j],
{
    vstd::arithmetic::div_mod::lemma_div_multiples_vanish(i, SCALE as int);
    vstd::arithmetic::div_mod::lemma_div_multiples_vanish(j, SCALE as int);
    vstd::arithmetic::div_mod::lemma_mod_multiples_basic(i, SCALE as int);
    vstd::arithmetic::div_mod::lemma_mod_multiples_basic(j, SCALE as int);
    assert((SCALE as int) * i == i * SCALE && (SCALE as int) * j == j * SCALE)
        by (nonlinear_arith);
    let b = f[i]@[j] as int;
    assert(lerp1(b, f[i + 1]@[j] as int, 0) == b) by {
        assert(b * (SCALE - 0) == (SCALE as int) * b) by (nonlinear_arith);
        assert(f[i + 1]@[j] as int * 0 == 0) by (nonlinear_arith);
        vstd::arithmetic::div_mod::lemma_div_multiples_vanish(b, SCALE as int);
    }
    let t = f[i]@[j + 1] as int;
    assert(lerp1(t, f[i + 1]@[j + 1] as int, 0) == t) by {
        assert(t * (SCALE - 0) == (SCALE as int) * t) by (nonlinear_arith);
        assert(f[i + 1]@[j + 1] as int * 0 == 0) by (nonlinear_arith);
        vstd::arithmetic::div_mod::lemma_div_multiples_vanish(t, SCALE as int);
    }
    assert(lerp1(b, t, 0) == b) by {
        assert(b * (SCALE - 0) == (SCALE as int) * b) by (nonlinear_arith);
        assert(t * 0 == 0) by (nonlinear_arith);
        vstd::arithmetic::div_mod::lemma_div_multiples_vanish(b, SCALE as int);
    }
}

/// The vector-grid counterpart of [`lemma_sample_at_node`]: at an exact
/// grid node the bilinear sample of a vector grid is the stored cell.
pub proof fn lemma_sample_vec2_at_node(f: Seq<Vec<Vec2i>>, pos: Vec2i, i: int, j: int)
    requires
        pos.x == i * SCALE,
        pos.y == j * SCALE,
    ensures
        sample_grid_vec2_spec(f, pos) == f[i]@[j],
{
    vstd::arithmetic::div_mod::lemma_div_multiples_vanish(i, SCALE as int);
    vstd::arithmetic::div_mod::lemma_div_multiples_vanish(j, SCALE as int);
    vstd::arithmetic::div_mod::lemma_mod_multiples_basic(i, SCALE as int);
    vstd::arithmetic::div_mod::lemma_mod_multiples_basic(j, SCALE as int);
    assert((SCALE as int) * i == i * SCALE && (SCALE as int) * j == j * SCALE)
        by (nonlinear_arith);
    lemma_lerp1_at_zero(f[i]@[j].x as int, f[i + 1]@[j].x as int);
    lemma_lerp1_at_zero(f[i]@[j + 1].x as int, f[i + 1]@[j + 1].x as int);
    lemma_lerp1_at_zero(f[i]@[j].x as int, f[i]@[j + 1].x as int);
    lemma_lerp1_at_zero(f[i]@[j].y as int, f[i + 1]@[j].y as int);
    lemma_lerp1_at_zero(f[i]@[j + 1].y as int, f[i + 1]@[j + 1].y as int);
    lemma_lerp1_at_zero(f[i]@[j].y as int, f[i]@[j + 1].y as int);
}

/// At weight zero, one interpolation step returns its first endpoint.
proof fn lemma_lerp1_at_zero(a: int, b: int)
    ensures
        lerp1(a, b, 0) == a,
{
    assert(a * (SCALE - 0) == (SCALE as int) * a) by (nonlinear_arith);
    assert(b * 0 == 0) by (nonlinear_arith);
    vstd::arithmetic::div_mod::lemma_div_multiples_vanish(a, SCALE as int);
}

} // verus!
