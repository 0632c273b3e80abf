//! The field store and computation scheduler: a state machine deciding when
//! a background kernel run is launched, and the atomic publish of a finished
//! field.
//!
//! The expensive kernel itself runs outside the per-frame path: a host loop
//! calls [`DistanceFieldPlugin::trigger`] on each obstacle change, performs
//! the launch it requests, and hands a finished field to
//! [`DistanceFieldPlugin::complete`]. Triggers that arrive while a
//! computation is in flight are coalesced into a single rerun, so no result
//! is ever silently dropped and at most one computation runs at a time.

use vstd::prelude::*;
use crate::field::DistanceField;

verus! {

/// The field store plus the scheduler state: the currently published field,
/// whether a computation is in flight, and whether another run was
/// requested meanwhile.
pub struct DistanceFieldPlugin {
    pub field: DistanceField,
    pub pending: bool,
    pub rerun_queued: bool,
}

/// `s` with its published field replaced by `f` and the scheduler state
/// untouched: the whole effect of a publish.
pub open spec fn with_field(s: DistanceFieldPlugin, f: DistanceField) -> DistanceFieldPlugin {
    DistanceFieldPlugin { field: f, pending: s.pending, rerun_queued: s.rerun_queued }
}

impl DistanceFieldPlugin {
    /// The published field is well formed, and a rerun can only be queued
    /// while a computation is in flight.
    pub open spec fn wf(self) -> bool {
        &&& self.field.wf()
        &&& self.rerun_queued ==> self.pending
    }

    /// A fresh store: the default (empty-grid) field, nothing in flight.
    pub fn new() -> (s: DistanceFieldPlugin)
        ensures
            s.field.grids_empty(),
            s.field.wf(),
            !s.pending,
            !s.rerun_queued,
            s.wf(),
    {
        DistanceFieldPlugin {
            field: DistanceField::default(),
            pending: false,
            rerun_queued: false,
        }
    }

    /// An obstacle change arrived. When nothing is in flight the caller must
    /// launch a computation (`launch` is true); otherwise the request is
    /// coalesced into one queued rerun. The published field is untouched, so
    /// samples taken before the new computation completes still read the
    /// previous field.
    pub fn trigger(&mut self) -> (launch: bool)
        ensures
            final(self).field == old(self).field,
            launch == !old(self).pending,
            final(self).pending,
            final(self).rerun_queued == (old(self).pending || old(self).rerun_queued),
            old(self).wf() ==> final(self).wf(),
    {
        if self.pending {
            self.rerun_queued = true;
            false
        } else {
            self.pending = true;
            true
        }
    }

    /// A launched computation finished: publish its field atomically (the
    /// store holds either the old field or the new one, never a mixture).
    /// When a rerun was queued, the caller must launch the next computation
    /// (`relaunch` is true) and the store stays pending.
    pub fn complete(&mut self, new_field: DistanceField) -> (relaunch: bool)
        requires
            old(self).pending,
            new_field.wf(),
        ensures
            final(self).field == new_field,
            relaunch == old(self).rerun_queued,
            final(self).pending == old(self).rerun_queued,
            !final(self).rerun_queued,
            final(self).wf(),
    {
        let relaunch = self.rerun_queued;
        self.field = new_field;
        self.pending = relaunch;
        self.rerun_queued = false;
        relaunch
    }

    /// Replace the published field directly, leaving the scheduler state
    /// untouched.
    pub fn publish(&mut self, f: DistanceField)
        requires
            f.wf(),
        ensures
            *final(self) == (with_field(*old(self), f)),
            old(self).wf() ==> final(self).wf(),
    {
        self.field = f;
    }

    /// The checked distance sample against the currently published field.
    pub fn sample(&self, point: crate::vec2::Vec2i) -> (r: Option<i64>)
        requires
            self.wf(),
            point.in_bounds(crate::obstacle::MAX_POINT as int),
        ensures
            r.is_some() <==> crate::field::sample_in_range(
                self.field.distance_field@,
                self.field.grid_position_spec(point),
            ),
            r.is_some() ==> r.unwrap() == crate::field::sample_grid_spec(
                self.field.distance_field@,
                self.field.grid_position_spec(point),
            ),
    {
        self.field.sample_distance_checked(point)
    }
}

/// Publishing the same field twice in a row is the same as publishing it
/// once: every later sample reads the same published field either way.
pub proof fn lemma_publish_idempotent(s: DistanceFieldPlugin, f: DistanceField)
    ensures
        with_field(with_field(s, f), f) == with_field(s, f),
{
}

/// Sample answers depend only on the published field: two store states with
/// the same published field answer every query alike. In particular, after
/// a `trigger` (which leaves the field untouched) and before the matching
/// `complete`, consumers still read the previously published field.
pub proof fn lemma_sample_reads_published(
    a: DistanceFieldPlugin,
    b: DistanceFieldPlugin,
    point: crate::vec2::Vec2i,
)
    requires
        a.field == b.field,
    ensures
        crate::field::sample_in_range(
            a.field.distance_field@,
            a.field.grid_position_spec(point),
        ) == crate::field::sample_in_range(
            b.field.distance_field@,
            b.field.grid_position_spec(point),
        ),
        crate::field::sample_grid_spec(
            a.field.distance_field@,
            a.field.grid_position_spec(point),
        ) == crate::field::sample_grid_spec(
            b.field.distance_field@,
            b.field.grid_position_spec(point),
        ),
{
}

} // verus!
