//! The rig: an ordered list of drivers run in turn once per frame, its
//! builder, and the lookup of a driver by its kind.
use vstd::prelude::*;
use crate::composite::FollowTarget;
use crate::drivers::arm::Arm;
use crate::drivers::lock_position::LockPosition;
use crate::drivers::maintain_distance::MaintainDistance;
use crate::drivers::position::Position;
use crate::drivers::rotation::Rotation;
use crate::drivers::smooth::{abs, Smooth};
use crate::transform::{Handedness, Transform};

verus! {

/// The kinds of driver, for looking one up in a rig.
#[derive(Clone, Copy, Debug, PartialEq, Eq, Structural)]
pub enum DriverKind {
    Position,
    Rotation,
    LockPosition,
    Arm,
    Smooth,
    MaintainDistance,
    Rig,
    FollowTarget,
}

/// One stage of a rig.
pub enum Driver<H: Handedness> {
    Position(Position),
    Rotation(Rotation),
    LockPosition(LockPosition),
    Arm(Arm),
    Smooth(Smooth),
    MaintainDistance(MaintainDistance),
    /// A whole rig run as one stage; it starts from the identity transform.
    Rig(CameraRig<H>),
    FollowTarget(FollowTarget<H>),
}

/// What a driver hands on, given what the stage before it handed on and
/// the time elapsed since the last frame.
pub open spec fn driver_output<H: Handedness>(d: Driver<H>, parent: Transform<H>, dt: u64) -> Transform<H>
    decreases d,
{
    match d {
        Driver::Position(p) => p.output(),
        Driver::Rotation(r) => r.output(),
        Driver::LockPosition(l) => l.output(parent),
        Driver::Arm(a) => a.output(parent),
        Driver::Smooth(m) => m.output(parent, dt),
        Driver::MaintainDistance(m) => m.output(parent),
        Driver::Rig(r) => pipeline_output(r.drivers@, dt),
        Driver::FollowTarget(f) => pipeline_output(f.rig.drivers@, dt),
    }
}

/// The drivers run in order, each from the output of the one before it,
/// the first from the identity transform.
pub open spec fn pipeline_output<H: Handedness>(ds: Seq<Driver<H>>, dt: u64) -> Transform<H>
    decreases ds,
{
    if ds.len() == 0 {
        Transform::spec_identity()
    } else {
        driver_output(ds[ds.len() - 1], pipeline_output(ds.subrange(0, ds.len() - 1), dt), dt)
    }
}

/// A nested rig after a frame: its drivers have each advanced, and it holds
/// what they handed on.
pub open spec fn rig_advanced<H: Handedness>(r: CameraRig<H>, e: CameraRig<H>, dt: u64) -> bool {
    &&& pipeline_advanced(r.drivers@, e.drivers@, dt)
    &&& e.final_transform == pipeline_output(r.drivers@, dt)
}

/// `e` is driver `d` after one frame run from `parent`. Only smoothing
/// drivers and nested rigs change; the others keep no state.
pub open spec fn driver_advanced<H: Handedness>(d: Driver<H>, e: Driver<H>, parent: Transform<H>, dt: u64) -> bool
    decreases d,
{
    match d {
        Driver::Smooth(m) => e == Driver::<H>::Smooth(m.next(parent, dt)),
        Driver::Rig(r) => match e {
            Driver::Rig(r2) => pipeline_advanced(r.drivers@, r2.drivers@, dt)
                && r2.final_transform == pipeline_output(r.drivers@, dt),
            _ => false,
        },
        Driver::FollowTarget(f) => match e {
            Driver::FollowTarget(f2) => pipeline_advanced(f.rig.drivers@, f2.rig.drivers@, dt)
                && f2.rig.final_transform == pipeline_output(f.rig.drivers@, dt),
            _ => false,
        },
        _ => e == d,
    }
}

/// Each driver of `es` is the one of `ds` at the same place after a frame,
/// run from what the drivers before it handed on.
pub open spec fn pipeline_advanced<H: Handedness>(ds: Seq<Driver<H>>, es: Seq<Driver<H>>, dt: u64) -> bool
    decreases ds,
{
    &&& ds.len() == es.len()
    &&& ds.len() > 0 ==> {
        &&& pipeline_advanced(ds.subrange(0, ds.len() - 1), es.subrange(0, es.len() - 1), dt)
        &&& driver_advanced(
            ds[ds.len() - 1],
            es[es.len() - 1],
            pipeline_output(ds.subrange(0, ds.len() - 1), dt),
            dt,
        )
    }
}

/// Zero elapsed time after a frame repeats that frame's output: a driver
/// advanced by a frame, run again from the same parent with no time
/// elapsed, hands on what it handed on in that frame.
pub proof fn lemma_zero_time_repeats<H: Handedness>(d: Driver<H>, e: Driver<H>, parent: Transform<H>, dt: u64)
    requires
        driver_advanced(d, e, parent, dt),
    ensures
        driver_output(e, parent, 0) == driver_output(d, parent, dt),
    decreases d,
{
    match d {
        Driver::Rig(r) => {
            if let Driver::Rig(r2) = e {
                lemma_pipeline_zero_time_repeats(r.drivers@, r2.drivers@, dt);
            }
        },
        Driver::FollowTarget(f) => {
            if let Driver::FollowTarget(f2) = e {
                lemma_pipeline_zero_time_repeats(f.rig.drivers@, f2.rig.drivers@, dt);
            }
        },
        Driver::Smooth(m) => {
            m.lemma_zero_time_repeats(parent, dt);
        },
        _ => {},
    }
}

/// A rig advanced by a frame and updated again with no time elapsed hands
/// on what it handed on in that frame.
pub proof fn lemma_pipeline_zero_time_repeats<H: Handedness>(ds: Seq<Driver<H>>, es: Seq<Driver<H>>, dt: u64)
    requires
        pipeline_advanced(ds, es, dt),
    ensures
        pipeline_output(es, 0) == pipeline_output(ds, dt),
    decreases ds,
{
    if ds.len() > 0 {
        let n = ds.len() - 1;
        lemma_pipeline_zero_time_repeats(ds.subrange(0, n), es.subrange(0, n), dt);
        lemma_zero_time_repeats(ds[n], es[n], pipeline_output(ds.subrange(0, n), dt), dt);
    }
}

impl<H: Handedness> Driver<H> {
    pub open spec fn spec_kind(&self) -> DriverKind {
        match self {
            Driver::Position(_) => DriverKind::Position,
            Driver::Rotation(_) => DriverKind::Rotation,
            Driver::LockPosition(_) => DriverKind::LockPosition,
            Driver::Arm(_) => DriverKind::Arm,
            Driver::Smooth(_) => DriverKind::Smooth,
            Driver::MaintainDistance(_) => DriverKind::MaintainDistance,
            Driver::Rig(_) => DriverKind::Rig,
            Driver::FollowTarget(_) => DriverKind::FollowTarget,
        }
    }

    #[verifier::when_used_as_spec(spec_kind)]
    pub fn kind(&self) -> (r: DriverKind)
        ensures
            r == self.spec_kind(),
    {
        match self {
            Driver::Position(_) => DriverKind::Position,
            Driver::Rotation(_) => DriverKind::Rotation,
            Driver::LockPosition(_) => DriverKind::LockPosition,
            Driver::Arm(_) => DriverKind::Arm,
            Driver::Smooth(_) => DriverKind::Smooth,
            Driver::MaintainDistance(_) => DriverKind::MaintainDistance,
            Driver::Rig(_) => DriverKind::Rig,
            Driver::FollowTarget(_) => DriverKind::FollowTarget,
        }
    }

    /// Runs this stage from `parent`, `delta_time` after the last frame.
    pub fn update(&mut self, parent: &Transform<H>, delta_time: u64) -> (r: Transform<H>)
        ensures
            r == driver_output(*old(self), *parent, delta_time),
            driver_advanced(*old(self), *final(self), *parent, delta_time),
        decreases *old(self),
    {
        match self {
            Driver::Position(p) => p.update(parent),
            Driver::Rotation(r) => r.update(parent),
            Driver::LockPosition(l) => l.update(parent),
            Driver::Arm(a) => a.update(parent),
            Driver::Smooth(m) => m.update(parent, delta_time),
            Driver::MaintainDistance(m) => m.update(parent),
            Driver::Rig(r) => r.update(delta_time),
            Driver::FollowTarget(f) => f.rig.update(delta_time),
        }
    }
}

/// A frame keeps each driver's kind, and leaves every driver that keeps no
/// state as it was.
pub proof fn lemma_advanced_keeps_kinds<H: Handedness>(ds: Seq<Driver<H>>, es: Seq<Driver<H>>, dt: u64)
    requires
        pipeline_advanced(ds, es, dt),
    ensures
        ds.len() == es.len(),
        forall|i: int| 0 <= i < ds.len() ==> #[trigger] es[i].spec_kind() == ds[i].spec_kind(),
        forall|i: int|
            0 <= i < ds.len() && !(ds[i] is Smooth) && !(ds[i] is Rig) && !(
            ds[i] is FollowTarget) ==> #[trigger] es[i] == ds[i],
    decreases ds,
{
    if ds.len() > 0 {
        let n = ds.len() - 1;
        lemma_advanced_keeps_kinds(ds.subrange(0, n), es.subrange(0, n), dt);
        assert(driver_advanced(ds[n], es[n], pipeline_output(ds.subrange(0, n), dt), dt));
        lemma_driver_advanced_kind(ds[n], es[n], pipeline_output(ds.subrange(0, n), dt), dt);
        assert forall|i: int| 0 <= i < ds.len() implies #[trigger] es[i].spec_kind()
            == ds[i].spec_kind() by {
            if i < n {
                assert(es[i] == es.subrange(0, n)[i]);
                assert(ds[i] == ds.subrange(0, n)[i]);
            }
        }
        assert forall|i: int|
            0 <= i < ds.len() && !(ds[i] is Smooth) && !(ds[i] is Rig) && !(
            ds[i] is FollowTarget) implies #[trigger] es[i] == ds[i] by {
            if i < n {
                assert(es[i] == es.subrange(0, n)[i]);
                assert(ds[i] == ds.subrange(0, n)[i]);
            }
        }
    }
}

/// A frame keeps a driver's kind, and leaves a driver that keeps no state
/// as it was.
pub proof fn lemma_driver_advanced_kind<H: Handedness>(d: Driver<H>, e: Driver<H>, parent: Transform<H>, dt: u64)
    requires
        driver_advanced(d, e, parent, dt),
    ensures
        e.spec_kind() == d.spec_kind(),
        !(d is Smooth) && !(d is Rig) && !(d is FollowTarget) ==> e == d,
{
    match d {
        Driver::Rig(r) => {
            assert(e is Rig);
        },
        Driver::FollowTarget(f) => {
            assert(e is FollowTarget);
        },
        _ => {},
    }
}

/// Running a rig is a left fold of its drivers' outputs: no drivers give the
/// identity transform, and a driver appended last runs on what the drivers
/// before it give.
pub proof fn lemma_pipeline_is_fold<H: Handedness>(ds: Seq<Driver<H>>, d: Driver<H>, dt: u64)
    ensures
        pipeline_output(Seq::<Driver<H>>::empty(), dt) == Transform::<H>::spec_identity(),
        pipeline_output(ds.push(d), dt) == driver_output(d, pipeline_output(ds, dt), dt),
{
    assert(ds.push(d).subrange(0, ds.len() as int) =~= ds);
}

/// A stage that hands on its parent unchanged can be left out: the rig's
/// output is that of the rig without it.
pub proof fn lemma_transparent_stage<H: Handedness>(
    pre: Seq<Driver<H>>,
    d: Driver<H>,
    post: Seq<Driver<H>>,
    dt: u64,
)
    requires
        forall|t: Transform<H>| #[trigger] driver_output(d, t, dt) == t,
    ensures
        pipeline_output(pre.push(d) + post, dt) == pipeline_output(pre + post, dt),
    decreases post.len(),
{
    if post.len() == 0 {
        assert(pre.push(d) + post =~= pre.push(d));
        assert(pre + post =~= pre);
        assert(pre.push(d).subrange(0, pre.len() as int) =~= pre);
        assert(driver_output(d, pipeline_output(pre, dt), dt) == pipeline_output(pre, dt));
    } else {
        let n = post.len() - 1;
        let rest = post.subrange(0, n);
        lemma_transparent_stage(pre, d, rest, dt);
        let a = pre.push(d) + post;
        let b = pre + post;
        assert(a.subrange(0, a.len() - 1) =~= pre.push(d) + rest);
        assert(b.subrange(0, b.len() - 1) =~= pre + rest);
        assert(a[a.len() - 1] == post[n]);
        assert(b[b.len() - 1] == post[n]);
    }
}

/// With zero smoothness and no prediction, a smoothing stage can be left
/// out once time has elapsed: the stages after it act on the raw output
/// of the stages before it.
pub proof fn lemma_unsmoothed_stage<H: Handedness>(
    pre: Seq<Driver<H>>,
    m: Smooth,
    post: Seq<Driver<H>>,
    dt: u64,
)
    requires
        m.smoothness == 0,
        !m.predictive,
        dt > 0,
    ensures
        pipeline_output(pre.push(Driver::Smooth(m)) + post, dt) == pipeline_output(pre + post, dt),
{
    assert forall|t: Transform<H>| #[trigger] driver_output(Driver::Smooth(m), t, dt) == t by {
        m.lemma_zero_smoothness_follows(t, dt);
    }
    lemma_transparent_stage(pre, Driver::Smooth(m), post, dt);
}

/// Where a smoothing stage's smoothness outweighs the move it is asked to
/// make (twice the distance to its target on each axis, times the elapsed
/// time, below the elapsed time plus the smoothness), it hands on the
/// position it held, with the rotation of the stages before it: the stages
/// after it see the held position, not the new one.
pub proof fn lemma_smoothing_stage_holds<H: Handedness>(pre: Seq<Driver<H>>, m: Smooth, dt: u64)
    requires
        m.previous is Some,
        ({
            let t = m.target(pipeline_output(pre, dt).position);
            let p = m.previous->0;
            &&& 2 * abs(t.x - p.x) * dt < dt + m.smoothness
            &&& 2 * abs(t.y - p.y) * dt < dt + m.smoothness
            &&& 2 * abs(t.z - p.z) * dt < dt + m.smoothness
        }),
    ensures
        pipeline_output(pre.push(Driver::Smooth(m)), dt) == Transform::<H>::spec_new(
            m.previous->0,
            pipeline_output(pre, dt).rotation,
        ),
{
    let ds = pre.push(Driver::Smooth(m));
    let parent = pipeline_output(pre, dt);
    assert(ds.subrange(0, pre.len() as int) =~= pre);
    assert(pipeline_output(ds, dt) == driver_output(Driver::<H>::Smooth(m), parent, dt));
    m.lemma_large_smoothness_holds(parent, dt);
    assert(m.output(parent, dt).position == m.previous->0);
    assert(m.output(parent, dt) =~= Transform::<H>::spec_new(m.previous->0, parent.rotation));
}

/// Changing the driver at index `i` leaves what every earlier stage hands on
/// as it was, and stage `i` then hands on the new driver's output for the
/// same parent.
pub proof fn lemma_replaced_driver<H: Handedness>(ds: Seq<Driver<H>>, i: int, d: Driver<H>, n: int, dt: u64)
    requires
        0 <= i < ds.len(),
        0 <= n <= i,
    ensures
        pipeline_output(ds.update(i, d).subrange(0, n), dt) == pipeline_output(
            ds.subrange(0, n),
            dt,
        ),
        pipeline_output(ds.update(i, d).subrange(0, i + 1), dt) == driver_output(
            d,
            pipeline_output(ds.subrange(0, i), dt),
            dt,
        ),
{
    let e = ds.update(i, d);
    assert(e.subrange(0, n) =~= ds.subrange(0, n));
    assert(e.subrange(0, i + 1).subrange(0, i) =~= ds.subrange(0, i));
}

/// `ds[i]` is the first driver of kind `k` in `ds`.
pub open spec fn is_first_of_kind<H: Handedness>(ds: Seq<Driver<H>>, k: DriverKind, i: int) -> bool {
    &&& 0 <= i < ds.len()
    &&& ds[i].spec_kind() == k
    &&& forall|j: int| 0 <= j < i ==> ds[j].spec_kind() != k
}

/// Some driver in `ds` is of kind `k`.
pub open spec fn has_kind<H: Handedness>(ds: Seq<Driver<H>>, k: DriverKind) -> bool {
    exists|i: int| 0 <= i < ds.len() && ds[i].spec_kind() == k
}

/// The index of the first driver of kind `k` in `ds`.
pub open spec fn first_of_kind<H: Handedness>(ds: Seq<Driver<H>>, k: DriverKind) -> int {
    choose|i: int| is_first_of_kind(ds, k, i)
}

/// Where a kind occurs, a first driver of that kind exists.
pub proof fn lemma_kind_has_first<H: Handedness>(ds: Seq<Driver<H>>, k: DriverKind)
    requires
        has_kind(ds, k),
    ensures
        is_first_of_kind(ds, k, first_of_kind(ds, k)),
    decreases ds.len(),
{
    let i = choose|i: int| 0 <= i < ds.len() && ds[i].spec_kind() == k;
    if ds[0].spec_kind() == k {
        assert(is_first_of_kind(ds, k, 0));
    } else {
        let rest = ds.subrange(1, ds.len() as int);
        assert(rest[i - 1] == ds[i]);
        lemma_kind_has_first(rest, k);
        let f = first_of_kind(rest, k);
        assert forall|j: int| 0 <= j < f + 1 implies ds[j].spec_kind() != k by {
            if j > 0 {
                assert(ds[j] == rest[j - 1]);
            }
        }
        assert(is_first_of_kind(ds, k, f + 1));
    }
}

/// The first driver of a kind is found, and there is only one first.
pub proof fn lemma_first_of_kind<H: Handedness>(ds: Seq<Driver<H>>, k: DriverKind, i: int)
    requires
        is_first_of_kind(ds, k, i),
    ensures
        first_of_kind(ds, k) == i,
{
    let c = first_of_kind(ds, k);
    assert(is_first_of_kind(ds, k, c));
    if c < i {
        assert(ds[c].spec_kind() != k);
    } else if i < c {
        assert(ds[i].spec_kind() != k);
    }
}

/// An ordered list of drivers and the transform that the last update gave.
pub struct CameraRig<H: Handedness> {
    pub drivers: Vec<Driver<H>>,
    pub final_transform: Transform<H>,
}

impl<H: Handedness> CameraRig<H> {
    pub fn builder() -> (r: CameraRigBuilder<H>)
        ensures
            r.drivers@.len() == 0,
    {
        CameraRigBuilder { drivers: Vec::new() }
    }

    /// The index of the first driver of kind `k`, if there is one.
    pub fn driver_index(&self, k: DriverKind) -> (r: Option<usize>)
        ensures
            r.is_none() <==> !has_kind(self.drivers@, k),
            r matches Some(i) ==> is_first_of_kind(self.drivers@, k, i as int) && i == first_of_kind(
                self.drivers@,
                k,
            ),
    {
        let mut i: usize = 0;
        while i < self.drivers.len()
            invariant
                i <= self.drivers@.len(),
                forall|j: int| 0 <= j < i ==> self.drivers@[j].spec_kind() != k,
            decreases self.drivers@.len() - i,
        {
            if self.drivers[i].kind() == k {
                proof {
                    lemma_first_of_kind(self.drivers@, k, i as int);
                }
                return Some(i);
            }
            i += 1;
        }
        None
    }

    /// The first driver of kind `k`, to change in place. A rig is expected to
    /// hold the kind asked for; asking for one that it lacks is a
    /// programming error, ruled out here by the precondition.
    pub fn driver_mut(&mut self, k: DriverKind) -> (r: &mut Driver<H>)
        requires
            has_kind(old(self).drivers@, k),
        ensures
            *r == old(self).drivers@[first_of_kind(old(self).drivers@, k)],
            final(self).drivers@ == old(self).drivers@.update(
                first_of_kind(old(self).drivers@, k),
                *final(r),
            ),
            final(self).final_transform == old(self).final_transform,
    {
        let i = self.driver_index(k).unwrap();
        &mut self.drivers[i]
    }

    /// Runs every driver in order, `delta_time` after the last frame, each
    /// from the output of the one before it and the first from the identity
    /// transform; stores the last output in `final_transform` and returns
    /// it.
    pub fn update(&mut self, delta_time: u64) -> (r: Transform<H>)
        ensures
            r == pipeline_output(old(self).drivers@, delta_time),
            rig_advanced(*old(self), *final(self), delta_time),
        decreases old(self).drivers@,
    {
        let ghost ds = self.drivers@;
        let mut t = Transform::identity();
        let mut i: usize = 0;
        while i < self.drivers.len()
            invariant
                ds == old(self).drivers@,
                self.drivers@.len() == ds.len(),
                i <= ds.len(),
                t == pipeline_output(ds.subrange(0, i as int), delta_time),
                pipeline_advanced(
                    ds.subrange(0, i as int),
                    self.drivers@.subrange(0, i as int),
                    delta_time,
                ),
                forall|j: int| i <= j < ds.len() ==> self.drivers@[j] == ds[j],
            decreases ds.len() - i,
        {
            let ghost before = self.drivers@;
            proof {
                assert(decreases_to!(ds => ds[i as int]));
            }
            t = self.drivers[i].update(&t, delta_time);
            proof {
                let now = self.drivers@;
                assert(now == before.update(i as int, now[i as int]));
                assert(ds.subrange(0, i + 1).subrange(0, i as int) =~= ds.subrange(0, i as int));
                assert(now.subrange(0, i + 1).subrange(0, i as int) =~= before.subrange(0, i as int));
                assert(now.subrange(0, i as int) =~= before.subrange(0, i as int));
                assert(ds.subrange(0, i + 1)[i as int] == ds[i as int]);
            }
            i += 1;
        }
        proof {
            assert(ds.subrange(0, ds.len() as int) =~= ds);
            assert(self.drivers@.subrange(0, ds.len() as int) =~= self.drivers@);
        }
        self.final_transform = t;
        t
    }
}

/// Collects drivers in order for a new rig.
pub struct CameraRigBuilder<H: Handedness> {
    pub drivers: Vec<Driver<H>>,
}

impl<H: Handedness> CameraRigBuilder<H> {
    /// Appends a driver after those already added.
    pub fn with(self, driver: Driver<H>) -> (r: CameraRigBuilder<H>)
        ensures
            r.drivers@ == self.drivers@.push(driver),
    {
        let mut drivers = self.drivers;
        drivers.push(driver);
        CameraRigBuilder { drivers }
    }

    /// The rig with the drivers in the order added, run once with no time
    /// elapsed.
    pub fn build(self) -> (r: CameraRig<H>)
        ensures
            pipeline_advanced(self.drivers@, r.drivers@, 0),
            r.final_transform == pipeline_output(self.drivers@, 0),
    {
        let mut rig = CameraRig { drivers: self.drivers, final_transform: Transform::identity() };
        rig.update(0);
        rig
    }
}

} // verus!
