//! Attributes that the motion and collision systems read and write.

use std::time::Duration;
use vstd::prelude::*;
use crate::physics::Vec2;
use crate::scalar::Scalar;

verus! {

/// Nanoseconds in a second.
pub const NANOS_PER_SECOND: u32 = 1_000_000_000;

/// Nanoseconds in a millisecond.
pub const NANOS_PER_MILLI: u64 = 1_000_000;

/// The velocity of an entity.
#[derive(Debug, Clone, Copy, PartialEq, Eq, Structural)]
pub struct VelocityComponent {
    pub value: Vec2,
}

impl VelocityComponent {
    pub fn new(x: Scalar, y: Scalar) -> (r: VelocityComponent)
        ensures
            r.value.x == x,
            r.value.y == y,
    {
        VelocityComponent { value: Vec2::new(x, y) }
    }
}

/// The position of the centre of an entity.
#[derive(Debug, Clone, Copy, PartialEq, Eq, Structural)]
pub struct PositionComponent {
    pub value: Vec2,
}

impl PositionComponent {
    pub fn new(x: Scalar, y: Scalar) -> (r: PositionComponent)
        ensures
            r.value.x == x,
            r.value.y == y,
    {
        PositionComponent { value: Vec2::new(x, y) }
    }
}

/// The mass of an entity. Motion divides by it, so a usable mass is a
/// positive finite number.
#[derive(Debug, Clone, Copy, PartialEq, Eq, Structural)]
pub struct MassComponent {
    pub value: Scalar,
}

impl MassComponent {
    pub fn new(mass: Scalar) -> (r: MassComponent)
        ensures
            r.value == mass,
    {
        MassComponent { value: mass }
    }

    /// The mass is a finite number above zero.
    pub open spec fn well_formed(self) -> bool {
        0 < self.value.bits < 0x7f80_0000
    }

    #[verifier::when_used_as_spec(well_formed)]
    pub fn is_well_formed(self) -> (r: bool)
        ensures
            r == self.well_formed(),
    {
        0 < self.value.bits && self.value.bits < 0x7f80_0000
    }
}

/// The acceleration applied to an entity on every frame.
#[derive(Debug, Clone, Copy, PartialEq, Eq, Structural)]
pub struct AccelerationComponent {
    pub value: Vec2,
}

impl AccelerationComponent {
    pub fn new(x: Scalar, y: Scalar) -> (r: AccelerationComponent)
        ensures
            r.value.x == x,
            r.value.y == y,
    {
        AccelerationComponent { value: Vec2::new(x, y) }
    }
}

/// The whole length of a `Duration` in nanoseconds, as
/// `Duration::as_nanos` gives it.
pub uninterp spec fn duration_as_nanos(d: Duration) -> u128;

/// `Duration::from_millis`: the duration of that many milliseconds.
#[verifier::external_body]
fn duration_from_millis(millis: u64) -> (d: Duration)
    ensures
        duration_as_nanos(d) == millis * NANOS_PER_MILLI,
{
    Duration::from_millis(millis)
}

/// `Duration::new`: the duration of `secs` seconds and `nanos`
/// nanoseconds. Whole seconds among the nanoseconds are carried into the
/// seconds; the call panics where that carry overflows them.
#[verifier::external_body]
fn duration_new(secs: u64, nanos: u32) -> (d: Duration)
    requires
        secs + nanos / NANOS_PER_SECOND <= u64::MAX,
    ensures
        duration_as_nanos(d) == secs * NANOS_PER_SECOND + nanos,
{
    Duration::new(secs, nanos)
}

/// `Duration::as_nanos`.
#[verifier::external_body]
fn duration_to_nanos(d: &Duration) -> (n: u128)
    ensures
        n == duration_as_nanos(*d),
{
    d.as_nanos()
}

/// The simulated time that one frame advances the world by.
pub struct DeltaTime(pub Duration);

impl DeltaTime {
    /// The length of the step in nanoseconds.
    pub open spec fn nanos(self) -> nat {
        duration_as_nanos(self.0) as nat
    }

    /// The step of a fixed frame rate: a second divided by `fps`, in whole
    /// nanoseconds.
    pub fn from_fps(fps: u32) -> (r: DeltaTime)
        requires
            fps > 0,
        ensures
            r.nanos() == NANOS_PER_SECOND as nat / fps as nat,
    {
        DeltaTime(duration_new(0, NANOS_PER_SECOND / fps))
    }

    pub fn as_nanos(&self) -> (n: u128)
        ensures
            n == self.nanos(),
    {
        duration_to_nanos(&self.0)
    }
}

impl Default for DeltaTime {
    /// A step of one millisecond.
    fn default() -> (r: DeltaTime)
        ensures
            r.nanos() == NANOS_PER_MILLI,
    {
        DeltaTime(duration_from_millis(1))
    }
}

/// How a pair of colliding entities exchanges momentum.
#[derive(Debug, Clone, Copy, PartialEq, Eq, Structural)]
pub enum CollisionType {
    Elastic,
    Inelastic,
    PerfectlyInelastic,
}

/// Marks an entity as taking part in collisions.
#[derive(Debug, Clone, Copy, PartialEq, Eq, Structural)]
pub struct CollisionComponent {
    pub col_type: CollisionType,
}

impl CollisionComponent {
    pub fn new(col_type: CollisionType) -> (r: CollisionComponent)
        ensures
            r.col_type == col_type,
    {
        CollisionComponent { col_type }
    }
}

/// The extent of the axis-aligned box around the position of an entity.
#[derive(Debug, Clone, Copy, PartialEq, Eq, Structural)]
pub struct SizeComponent {
    pub width: u32,
    pub height: u32,
}

impl SizeComponent {
    pub fn new(width: u32, height: u32) -> (r: SizeComponent)
        ensures
            r.width == width,
            r.height == height,
    {
        SizeComponent { width, height }
    }
}

} // verus!
