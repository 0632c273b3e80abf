//! Tests of the bilinear samplers, the checked-sampling bounds semantics,
//! and the bilinear combiner formula.

use distance_field::compute::calculate_fields;
use distance_field::field::{
    lerp, sample_grid, sample_grid_checked, sample_grid_vec2, sample_grid_vec2_checked,
    DistanceField,
};
use distance_field::obstacle::{DistanceFieldObstacle, ObstacleShape};
use distance_field::vec2::Vec2i;

fn small_field() -> DistanceField {
    let obs = vec![DistanceFieldObstacle::axis_aligned(
        ObstacleShape::Ball { radius: 0 },
        Vec2i { x: 0, y: 0 },
    )];
    calculate_fields(Vec2i { x: 0, y: 0 }, Vec2i { x: 16, y: 16 }, (33, 33), &obs)
}

#[test]
fn sample_at_grid_node_reproduces_grid_values() {
    // fractional offsets (0, 0): the sample equals the stored cell, for all
    // three grids (and both gradient components)
    let f = small_field();
    for (i, j) in [(0usize, 0usize), (16, 16), (26, 16), (31, 31), (5, 20)] {
        let pos = Vec2i { x: i as i64 * 1024, y: j as i64 * 1024 };
        assert_eq!(sample_grid(pos, &f.distance_field), f.distance_field[i][j]);
        assert_eq!(sample_grid_vec2(pos, &f.gradient_field), f.gradient_field[i][j]);
        assert_eq!(sample_grid(pos, &f.curl_field), f.curl_field[i][j]);
    }
}

#[test]
fn sample_interpolates_between_cells() {
    // a handmade 2x2 grid, sampled at the cell midpoint
    let grid: Vec<Vec<i64>> = vec![vec![0, 1024], vec![2048, 3072]];
    assert_eq!(sample_grid(Vec2i { x: 512, y: 512 }, &grid), 1536);
    // halfway along the bottom edge
    assert_eq!(sample_grid(Vec2i { x: 512, y: 0 }, &grid), 1024);
    // halfway up the left edge
    assert_eq!(sample_grid(Vec2i { x: 0, y: 512 }, &grid), 512);
}

#[test]
fn sample_checked_bounds_semantics() {
    let f = small_field();
    // negative coordinates: absent
    assert_eq!(sample_grid_checked(Vec2i { x: -1, y: 0 }, &f.distance_field), None);
    assert_eq!(sample_grid_checked(Vec2i { x: 0, y: -1 }, &f.distance_field), None);
    // floored index at resolution - 1: absent (no 2x2 neighborhood)
    assert_eq!(sample_grid_checked(Vec2i { x: 32 * 1024, y: 0 }, &f.distance_field), None);
    assert_eq!(sample_grid_checked(Vec2i { x: 0, y: 32 * 1024 }, &f.distance_field), None);
    // one fixed-point unit inside: present
    assert_eq!(
        sample_grid_checked(Vec2i { x: 32 * 1024 - 1, y: 0 }, &f.distance_field),
        Some(sample_grid(Vec2i { x: 32 * 1024 - 1, y: 0 }, &f.distance_field)),
    );
    // interior: present and equal to the unchecked sampler
    let pos = Vec2i { x: 10 * 1024 + 300, y: 7 * 1024 + 700 };
    assert_eq!(
        sample_grid_checked(pos, &f.distance_field),
        Some(sample_grid(pos, &f.distance_field)),
    );
    let gv = sample_grid_vec2_checked(pos, &f.gradient_field);
    assert_eq!(gv, Some(sample_grid_vec2(pos, &f.gradient_field)));
    assert_eq!(sample_grid_vec2_checked(Vec2i { x: -5, y: 0 }, &f.gradient_field), None);
}

#[test]
fn sample_checked_on_empty_field_is_absent() {
    let f = DistanceField::default();
    assert_eq!(f.sample_distance_checked(Vec2i { x: 0, y: 0 }), None);
    assert_eq!(f.sample_gradient_checked(Vec2i { x: 0, y: 0 }), None);
    assert_eq!(f.sample_curl_checked(Vec2i { x: 0, y: 0 }), None);
}

#[test]
fn field_level_sampling_maps_world_to_grid() {
    let f = small_field();
    // world (10, 0) is grid node (26, 16) exactly (origin (-16,-16), step 1)
    let r = f.sample_distance_checked(Vec2i { x: 10, y: 0 });
    assert_eq!(r, Some(f.distance_field[26][16]));
    let g = f.sample_gradient_checked(Vec2i { x: 10, y: 0 });
    assert_eq!(g, Some(f.gradient_field[26][16]));
    // outside the region: absent
    assert_eq!(f.sample_distance_checked(Vec2i { x: 17, y: 0 }), None);
    assert_eq!(f.sample_distance_checked(Vec2i { x: -17, y: 0 }), None);
}

#[test]
fn grid_position_maps_world_to_fixed_point_grid_coordinates() {
    // the default region: a 2000 x 2000 grid over 800 x 400 display units
    // of half-extent, in world units of 1/1024 display unit, so the origin
    // is (-819200, -409600) and the step (819, 409)
    let f = DistanceField::default();
    assert_eq!(f.sample_dimensions, (2000, 2000));
    assert_eq!(f.half_extents, Vec2i { x: 819200, y: 409600 });
    // 10 display units right of center: (10240 + 819200) * 1024 / 819
    let g = f.grid_position(Vec2i { x: 10240, y: 0 });
    assert_eq!(g, Vec2i { x: 1037053, y: 1025502 });
    // the region center itself: (819200 * 1024 / 819, 409600 * 1024 / 409)
    let g2 = f.grid_position(Vec2i { x: 0, y: 0 });
    assert_eq!(g2, Vec2i { x: 1024250, y: 1025502 });
}

#[test]
fn lerp_formula_exact_values() {
    // corner b carries full weight at (0, 0)
    assert_eq!(lerp(11, 22, 33, 44, 0, 0), 22);
    // at the midpoint all four corners weigh a quarter
    assert_eq!(lerp(0, 1024, 2048, 3072, 512, 512), 1536);
    // at (SCALE, 0) corner a carries full weight
    assert_eq!(lerp(11, 22, 33, 44, 1024, 0), 11);
    // at (0, SCALE) corner d carries full weight
    assert_eq!(lerp(11, 22, 33, 44, 0, 1024), 44);
    // at (SCALE, SCALE) corner c carries full weight
    assert_eq!(lerp(11, 22, 33, 44, 1024, 1024), 33);
}
