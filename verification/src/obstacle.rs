//! Obstacle shapes with rigid transforms, and the exact signed distance from
//! a point to an obstacle's surface (negative inside the shape).

use vstd::prelude::*;
use crate::math::{
    abs_i64, abs_int, div_floor, isqrt_i64, lemma_mul_bound, sqrt_floor, MAX_COORD, SCALE,
};
use crate::vec2::Vec2i;

verus! {

/// Largest magnitude of a query point handed to the distance computation
/// (grid points stay within this bound for any well-formed region).
pub const MAX_POINT: i64 = 4194304;

/// Every signed distance to a well-formed obstacle from a bounded point has
/// magnitude at most this.
pub const MAX_DISTANCE: i64 = 33554432;

/// Distance reported where no obstacle exists at all: a sentinel far larger
/// than any reachable true distance.
pub const NO_OBSTACLE_DISTANCE: i64 = 1073741824;

/// A shape supporting a signed point-to-surface distance.
#[derive(Clone, Copy, PartialEq, Eq, Structural, Debug)]
pub enum ObstacleShape {
    /// An axis-aligned box in its local frame, given by half-extents.
    Cuboid { half_extents: Vec2i },
    /// A disc of the given radius.
    Ball { radius: i64 },
}

impl ObstacleShape {
    /// Extents are non-negative and bounded.
    pub open spec fn wf(self) -> bool {
        match self {
            ObstacleShape::Cuboid { half_extents } => {
                &&& 0 <= half_extents.x <= MAX_COORD
                &&& 0 <= half_extents.y <= MAX_COORD
            },
            ObstacleShape::Ball { radius } => 0 <= radius <= MAX_COORD,
        }
    }
}

/// One obstacle of a snapshot: a shape plus its world transform. The
/// rotation is a fixed-point cosine/sine pair scaled by `SCALE`.
#[derive(Clone, Copy, PartialEq, Eq, Structural, Debug)]
pub struct DistanceFieldObstacle {
    pub shape: ObstacleShape,
    pub position: Vec2i,
    pub rot_cos: i64,
    pub rot_sin: i64,
}

impl DistanceFieldObstacle {
    /// Shape, position and rotation are bounded.
    pub open spec fn wf(self) -> bool {
        &&& self.shape.wf()
        &&& self.position.in_bounds(MAX_COORD as int)
        &&& -(SCALE as int) <= self.rot_cos <= SCALE as int
        &&& -(SCALE as int) <= self.rot_sin <= SCALE as int
    }

    /// An unrotated obstacle at `position`.
    pub fn axis_aligned(shape: ObstacleShape, position: Vec2i) -> (ob: DistanceFieldObstacle)
        ensures
            ob.shape == shape,
            ob.position == position,
            ob.rot_cos == SCALE,
            ob.rot_sin == 0,
    {
        DistanceFieldObstacle { shape, position, rot_cos: SCALE, rot_sin: 0 }
    }
}

/// The signed distance from `p` to the surface of `ob`, in world units:
/// the point is carried into the obstacle's local frame by the inverse
/// rotation (fixed-point, floor-divided), then measured against the shape.
/// Negative values mean `p` lies inside the shape.
pub open spec fn signed_distance_spec(ob: DistanceFieldObstacle, p: Vec2i) -> int {
    let dx = p.x - ob.position.x;
    let dy = p.y - ob.position.y;
    match ob.shape {
        ObstacleShape::Cuboid { half_extents } => {
            let lx = (ob.rot_cos * dx + ob.rot_sin * dy) / (SCALE as int);
            let ly = (ob.rot_cos * dy - ob.rot_sin * dx) / (SCALE as int);
            let qx = abs_int(lx) - half_extents.x;
            let qy = abs_int(ly) - half_extents.y;
            if qx > 0 || qy > 0 {
                let ox = if qx > 0 { qx } else { 0 };
                let oy = if qy > 0 { qy } else { 0 };
                sqrt_floor(ox * ox + oy * oy)
            } else {
                if qx > qy {
                    qx
                } else {
                    qy
                }
            }
        },
        ObstacleShape::Ball { radius } => sqrt_floor(dx * dx + dy * dy) - radius,
    }
}

/// Computes [`signed_distance_spec`] exactly.
pub fn signed_distance(ob: &DistanceFieldObstacle, p: Vec2i) -> (d: i64)
    requires
        ob.wf(),
        p.in_bounds(MAX_POINT as int),
    ensures
        d == signed_distance_spec(*ob, p),
        -MAX_DISTANCE <= d <= MAX_DISTANCE,
{
    let dx = p.x - ob.position.x;
    let dy = p.y - ob.position.y;
    assert(abs_int(dx as int) <= 5242880 && abs_int(dy as int) <= 5242880);
    match ob.shape {
        ObstacleShape::Cuboid { half_extents } => {
            proof {
                lemma_mul_bound(ob.rot_cos as int, dx as int, 1024, 5242880);
                lemma_mul_bound(ob.rot_sin as int, dy as int, 1024, 5242880);
                lemma_mul_bound(ob.rot_cos as int, dy as int, 1024, 5242880);
                lemma_mul_bound(ob.rot_sin as int, dx as int, 1024, 5242880);
            }
            let nx = ob.rot_cos * dx + ob.rot_sin * dy;
            let ny = ob.rot_cos * dy - ob.rot_sin * dx;
            let lx = div_floor(nx, SCALE);
            let ly = div_floor(ny, SCALE);
            proof {
                vstd::arithmetic::div_mod::lemma_div_is_ordered(
                    nx as int,
                    10737418240,
                    SCALE as int,
                );
                vstd::arithmetic::div_mod::lemma_div_is_ordered(
                    -10737418240,
                    nx as int,
                    SCALE as int,
                );
                vstd::arithmetic::div_mod::lemma_div_is_ordered(
                    ny as int,
                    10737418240,
                    SCALE as int,
                );
                vstd::arithmetic::div_mod::lemma_div_is_ordered(
                    -10737418240,
                    ny as int,
                    SCALE as int,
                );
            }
            assert(-10485760 <= lx <= 10485760);
            assert(-10485760 <= ly <= 10485760);
            let qx = abs_i64(lx) - half_extents.x;
            let qy = abs_i64(ly) - half_extents.y;
            if qx > 0 || qy > 0 {
                let ox = if qx > 0 { qx } else { 0 };
                let oy = if qy > 0 { qy } else { 0 };
                proof {
                    lemma_mul_bound(ox as int, ox as int, 11534336, 11534336);
                    lemma_mul_bound(oy as int, oy as int, 11534336, 11534336);
                }
                let d = isqrt_i64(ox * ox + oy * oy);
                proof {
                    assert((d as int) <= 16777216) by (nonlinear_arith)
                        requires
                            0 <= (d as int),
                            (d as int) * (d as int) <= 2 * 11534336 * 11534336,
                    {}
                }
                d
            } else {
                if qx > qy {
                    qx
                } else {
                    qy
                }
            }
        },
        ObstacleShape::Ball { radius } => {
            proof {
                lemma_mul_bound(dx as int, dx as int, 5242880, 5242880);
                lemma_mul_bound(dy as int, dy as int, 5242880, 5242880);
                assert((dx as int) * (dx as int) >= 0 && (dy as int) * (dy as int) >= 0)
                    by (nonlinear_arith);
            }
            let d = isqrt_i64(dx * dx + dy * dy);
            proof {
                assert((d as int) <= 8388608) by (nonlinear_arith)
                    requires
                        0 <= (d as int),
                        (d as int) * (d as int) <= 2 * 5242880 * 5242880,
                {}
            }
            d - radius
        },
    }
}

/// The minimum signed distance from `p` over a snapshot of obstacles, or
/// [`NO_OBSTACLE_DISTANCE`] for an empty snapshot.
pub open spec fn min_distance_spec(obs: Seq<DistanceFieldObstacle>, p: Vec2i) -> int
    decreases obs.len(),
{
    if obs.len() == 0 {
        NO_OBSTACLE_DISTANCE as int
    } else {
        let rest = min_distance_spec(obs.drop_last(), p);
        let d = signed_distance_spec(obs.last(), p);
        if d < rest {
            d
        } else {
            rest
        }
    }
}

/// Every obstacle of a snapshot is well formed.
pub open spec fn obstacles_wf(obs: Seq<DistanceFieldObstacle>) -> bool {
    forall|i: int| 0 <= i < obs.len() ==> (#[trigger] obs[i]).wf()
}

/// Computes [`min_distance_spec`] exactly.
pub fn min_distance(obstacles: &Vec<DistanceFieldObstacle>, p: Vec2i) -> (d: i64)
    requires
        obstacles_wf(obstacles@),
        p.in_bounds(MAX_POINT as int),
    ensures
        d == min_distance_spec(obstacles@, p),
        -MAX_DISTANCE <= d <= NO_OBSTACLE_DISTANCE,
{
    let mut best: i64 = NO_OBSTACLE_DISTANCE;
    let n = obstacles.len();
    assert(obstacles@.take(0) =~= Seq::<DistanceFieldObstacle>::empty());
    for k in 0..n
        invariant
            n == obstacles@.len(),
            obstacles_wf(obstacles@),
            p.in_bounds(MAX_POINT as int),
            best == min_distance_spec(obstacles@.take(k as int), p),
            -MAX_DISTANCE <= best <= NO_OBSTACLE_DISTANCE,
    {
        let d = signed_distance(&obstacles[k], p);
        proof {
            assert(obstacles@.take(k + 1).drop_last() =~= obstacles@.take(k as int));
            assert(obstacles@.take(k + 1).last() == obstacles@[k as int]);
        }
        if d < best {
            best = d;
        }
    }
    proof {
        assert(obstacles@.take(n as int) =~= obstacles@);
    }
    best
}

/// The snapshot builder: an owned, order-stable copy of the live obstacle
/// list, fit to hand across a concurrency boundary.
pub fn snapshot_obstacles(obstacles: &Vec<DistanceFieldObstacle>) -> (s: Vec<
    DistanceFieldObstacle,
>)
    ensures
        s@ == obstacles@,
{
    let mut s: Vec<DistanceFieldObstacle> = Vec::new();
    let n = obstacles.len();
    for k in 0..n
        invariant
            n == obstacles@.len(),
            s@ == obstacles@.take(k as int),
    {
        s.push(obstacles[k]);
        proof {
            assert(obstacles@.take(k + 1) =~= obstacles@.take(k as int).push(obstacles@[k as int]));
        }
    }
    proof {
        assert(obstacles@.take(n as int) =~= obstacles@);
    }
    s
}

} // verus!
