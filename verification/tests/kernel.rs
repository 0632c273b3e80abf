//! Tests of the field compute kernel: distance scan, gradient stencil, curl
//! stencil, and the empty-snapshot and minimum-resolution edge cases.

use distance_field::compute::{calculate_fields, compute_curl_grid};
use distance_field::obstacle::{
    min_distance, signed_distance, DistanceFieldObstacle, ObstacleShape, NO_OBSTACLE_DISTANCE,
};
use distance_field::vec2::Vec2i;

fn ball(radius: i64, x: i64, y: i64) -> DistanceFieldObstacle {
    DistanceFieldObstacle::axis_aligned(ObstacleShape::Ball { radius }, Vec2i { x, y })
}

fn cuboid(hx: i64, hy: i64, x: i64, y: i64) -> DistanceFieldObstacle {
    DistanceFieldObstacle::axis_aligned(
        ObstacleShape::Cuboid { half_extents: Vec2i { x: hx, y: hy } },
        Vec2i { x, y },
    )
}

#[test]
fn distance_to_box_fifty_units_right() {
    // a point 50 units right of a box with half-extent 5: distance 45
    let ob = cuboid(5, 5, 0, 0);
    assert_eq!(signed_distance(&ob, Vec2i { x: 50, y: 0 }), 45);
    // inside the box the sign is negative
    assert_eq!(signed_distance(&ob, Vec2i { x: 0, y: 0 }), -5);
    assert_eq!(signed_distance(&ob, Vec2i { x: 4, y: 0 }), -1);
}

#[test]
fn distance_to_rotated_box() {
    // a box rotated 90 degrees swaps its extents: cos = 0, sin = SCALE
    let ob = DistanceFieldObstacle {
        shape: ObstacleShape::Cuboid { half_extents: Vec2i { x: 10, y: 5 } },
        position: Vec2i { x: 0, y: 0 },
        rot_cos: 0,
        rot_sin: 1024,
    };
    assert_eq!(signed_distance(&ob, Vec2i { x: 20, y: 0 }), 15);
    assert_eq!(signed_distance(&ob, Vec2i { x: 0, y: 20 }), 10);
}

#[test]
fn distance_to_ball() {
    let ob = ball(5, 10, 10);
    assert_eq!(signed_distance(&ob, Vec2i { x: 10, y: 22 }), 7);
    assert_eq!(signed_distance(&ob, Vec2i { x: 10, y: 10 }), -5);
}

#[test]
fn min_distance_picks_nearest_and_empty_is_sentinel() {
    let obs: Vec<DistanceFieldObstacle> = vec![ball(1, 100, 0), ball(1, 10, 0)];
    assert_eq!(min_distance(&obs, Vec2i { x: 0, y: 0 }), 9);
    let none: Vec<DistanceFieldObstacle> = vec![];
    assert_eq!(min_distance(&none, Vec2i { x: 0, y: 0 }), NO_OBSTACLE_DISTANCE);
}

#[test]
fn kernel_distance_grid_matches_analytic_values() {
    // center (0,0), half-extents 16, 33x33 cells: step is exactly 1
    let obs = vec![cuboid(5, 5, 0, 0)];
    let f = calculate_fields(Vec2i { x: 0, y: 0 }, Vec2i { x: 16, y: 16 }, (33, 33), &obs);
    // cell (26, 16) sits at world (10, 0): 5 units right of the box face
    assert_eq!(f.distance_field[26][16], 5);
    // cell (16, 16) sits at the box center
    assert_eq!(f.distance_field[16][16], -5);
    // a diagonal corner: world (10, 10) is sqrt(50) = 7 from the corner
    assert_eq!(f.distance_field[26][26], 7);
}

#[test]
fn kernel_gradient_points_away_from_point_obstacle() {
    // a point obstacle at the origin: the distance field is radial, so the
    // gradient right of it points along +x
    let obs = vec![ball(0, 0, 0)];
    let f = calculate_fields(Vec2i { x: 0, y: 0 }, Vec2i { x: 16, y: 16 }, (33, 33), &obs);
    // cell (26, 16) is world (10, 0): stencil sum 8, times SCALE, step 1
    assert_eq!(f.gradient_field[26][16].x, 8192);
    assert_eq!(f.gradient_field[26][16].y, 0);
    // above the obstacle the gradient points along +y
    assert_eq!(f.gradient_field[16][26].x, 0);
    assert_eq!(f.gradient_field[16][26].y, 8192);
}

#[test]
fn kernel_curl_of_flat_field_is_zero() {
    // a wide box below the region: the distance field is y + 10 everywhere,
    // so the gradient has constant direction and the curl vanishes exactly
    let obs = vec![cuboid(100, 10, 0, -20)];
    let f = calculate_fields(Vec2i { x: 0, y: 0 }, Vec2i { x: 16, y: 16 }, (33, 33), &obs);
    for x in 0..33 {
        for y in 0..33 {
            assert_eq!(f.curl_field[x][y], 0, "curl at ({}, {})", x, y);
        }
    }
    // and the gradient really is constant on the interior
    assert_eq!(f.gradient_field[16][16], Vec2i { x: 0, y: 8192 });
    assert_eq!(f.gradient_field[5][20], Vec2i { x: 0, y: 8192 });
}

/// A handmade gradient grid pointing radially away from the grid center.
fn radial_gradient_grid(n: usize, sign: i64) -> Vec<Vec<Vec2i>> {
    let c = (n / 2) as i64;
    let mut g = Vec::new();
    for x in 0..n {
        let mut col = Vec::new();
        for y in 0..n {
            let dx = x as i64 - c;
            let dy = y as i64 - c;
            col.push(Vec2i { x: sign * dx * 1024, y: sign * dy * 1024 });
        }
        g.push(col);
    }
    g
}

#[test]
fn curl_of_rotational_structure_has_consistent_sign() {
    // an outward radial gradient becomes, after the clockwise rotation, a
    // genuinely rotational (tangential) field: its curl is negative at every
    // probe, and flipping the handedness flips the sign
    let g = radial_gradient_grid(11, 1);
    let curl = compute_curl_grid(&g, (11, 11));
    for (x, y) in [(8, 5), (2, 5), (5, 8), (5, 2)] {
        assert!(curl[x][y] < 0, "curl at ({}, {}) was {}", x, y, curl[x][y]);
    }
    let g2 = radial_gradient_grid(11, -1);
    let curl2 = compute_curl_grid(&g2, (11, 11));
    for (x, y) in [(8, 5), (2, 5), (5, 8), (5, 2)] {
        assert!(curl2[x][y] > 0, "curl at ({}, {}) was {}", x, y, curl2[x][y]);
    }
}

#[test]
fn empty_snapshot_yields_sentinel_field() {
    let obs: Vec<DistanceFieldObstacle> = vec![];
    let f = calculate_fields(Vec2i { x: 0, y: 0 }, Vec2i { x: 4, y: 4 }, (9, 9), &obs);
    for x in 0..9 {
        for y in 0..9 {
            assert_eq!(f.distance_field[x][y], NO_OBSTACLE_DISTANCE);
            assert_eq!(f.gradient_field[x][y], Vec2i { x: 0, y: 0 });
            assert_eq!(f.curl_field[x][y], 0);
        }
    }
}

#[test]
fn minimum_resolution_populates_only_the_stencil_margins() {
    // 5x5 is the smallest useful grid: gradient only at (1..4, 1..4), curl
    // only at (2, 2)
    let obs = vec![ball(0, 0, 0)];
    let f = calculate_fields(Vec2i { x: 0, y: 0 }, Vec2i { x: 2, y: 2 }, (5, 5), &obs);
    for x in 0..5 {
        for y in 0..5 {
            if x == 0 || x == 4 || y == 0 || y == 4 {
                assert_eq!(f.gradient_field[x][y], Vec2i { x: 0, y: 0 });
            }
            if !(x == 2 && y == 2) {
                assert_eq!(f.curl_field[x][y], 0);
            }
        }
    }
    // an interior gradient cell is genuinely populated
    assert_eq!(f.gradient_field[3][2], Vec2i { x: 6144, y: 0 });
}
