//! Tests of the scheduler state machine, publish idempotence, the
//! read-previous-field guarantee while a computation is in flight, the
//! snapshot builder, the curl image, and the calibration toggle.

use distance_field::calibration::{
    should_record_left_axis, update_rla_toggle, RecordLeftStickToggle,
};
use distance_field::compute::calculate_fields;
use distance_field::image::curl_image;
use distance_field::obstacle::{snapshot_obstacles, DistanceFieldObstacle, ObstacleShape};
use distance_field::scheduler::DistanceFieldPlugin;
use distance_field::vec2::Vec2i;

fn obstacles_a() -> Vec<DistanceFieldObstacle> {
    vec![DistanceFieldObstacle::axis_aligned(
        ObstacleShape::Ball { radius: 0 },
        Vec2i { x: 0, y: 0 },
    )]
}

fn obstacles_b() -> Vec<DistanceFieldObstacle> {
    vec![DistanceFieldObstacle::axis_aligned(
        ObstacleShape::Cuboid { half_extents: Vec2i { x: 5, y: 5 } },
        Vec2i { x: 0, y: 0 },
    )]
}

fn field_of(obs: &Vec<DistanceFieldObstacle>) -> distance_field::field::DistanceField {
    calculate_fields(Vec2i { x: 0, y: 0 }, Vec2i { x: 16, y: 16 }, (33, 33), obs)
}

#[test]
fn publish_twice_leaves_samples_unchanged() {
    // the kernel is deterministic, so two runs on the same snapshot build
    // equal fields; publishing the second changes no sample
    let mut store = DistanceFieldPlugin::new();
    let probe = Vec2i { x: 10, y: 0 };
    store.publish(field_of(&obstacles_a()));
    let first = store.sample(probe);
    assert!(first.is_some());
    store.publish(field_of(&obstacles_a()));
    assert_eq!(store.sample(probe), first);
}

#[test]
fn sample_before_completion_reads_previous_field() {
    let mut store = DistanceFieldPlugin::new();
    store.publish(field_of(&obstacles_a()));
    let probe = Vec2i { x: 10, y: 0 };
    let before = store.sample(probe);
    // an obstacle change arrives: a computation must be launched, but the
    // published field is untouched until it completes
    let launch = store.trigger();
    assert!(launch);
    assert_eq!(store.sample(probe), before);
    // completion publishes the new field atomically
    let relaunch = store.complete(field_of(&obstacles_b()));
    assert!(!relaunch);
    let after = store.sample(probe);
    assert_eq!(after, Some(5));
    assert_ne!(after, before);
}

#[test]
fn triggers_while_pending_coalesce_into_one_rerun() {
    let mut store = DistanceFieldPlugin::new();
    assert!(store.trigger());
    // further triggers while a computation is in flight do not launch
    assert!(!store.trigger());
    assert!(!store.trigger());
    // completion asks for exactly one rerun
    assert!(store.complete(field_of(&obstacles_a())));
    // which, once it completes, asks for none
    assert!(!store.complete(field_of(&obstacles_a())));
    // and the store is idle again
    assert!(store.trigger());
}

#[test]
fn fresh_store_samples_nothing() {
    let store = DistanceFieldPlugin::new();
    assert_eq!(store.sample(Vec2i { x: 0, y: 0 }), None);
}

#[test]
fn snapshot_is_an_order_stable_copy() {
    let live = vec![
        DistanceFieldObstacle::axis_aligned(ObstacleShape::Ball { radius: 3 }, Vec2i {
            x: 1,
            y: 2,
        }),
        DistanceFieldObstacle::axis_aligned(
            ObstacleShape::Cuboid { half_extents: Vec2i { x: 4, y: 5 } },
            Vec2i { x: -6, y: 7 },
        ),
    ];
    let snap = snapshot_obstacles(&live);
    assert_eq!(snap.len(), 2);
    assert_eq!(snap[0], live[0]);
    assert_eq!(snap[1], live[1]);
}

#[test]
fn curl_image_has_rgba_layout() {
    let f = field_of(&obstacles_b());
    let img = curl_image(&f);
    assert_eq!(img.width, 33);
    assert_eq!(img.height, 33);
    assert_eq!(img.data.len(), 33 * 33 * 4);
    // every pixel is opaque, blue stays zero
    for p in 0..(33 * 33) {
        assert_eq!(img.data[4 * p + 2], 0);
        assert_eq!(img.data[4 * p + 3], 255);
    }
    // pixel (r, c) shows curl cell (c, 32 - r)
    let r = 5;
    let c = 7;
    let v = f.curl_field[c][32 - r];
    let expect_red = if v <= 0 { 0 } else if v >= 1024 { 255 } else { (v * 255 / 1024) as u8 };
    assert_eq!(img.data[4 * (r * 33 + c)], expect_red);
}

#[test]
fn calibration_toggle_state_machine() {
    let mut toggle = RecordLeftStickToggle::default();
    assert!(!should_record_left_axis(&toggle));
    // no press: nothing changes
    let (clear, ev) = update_rla_toggle(&mut toggle, false);
    assert!(!clear && ev.is_none() && !toggle.0);
    // press: recording starts and storage must be cleared
    let (clear, ev) = update_rla_toggle(&mut toggle, true);
    assert!(clear && ev.is_none() && toggle.0);
    assert!(should_record_left_axis(&toggle));
    // press again: recording stops and a warp recompute is requested
    let (clear, ev) = update_rla_toggle(&mut toggle, true);
    assert!(!clear && ev.is_some() && !toggle.0);
}
