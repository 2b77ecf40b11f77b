//! The calibration of a camera that is turned about its user: which samples can be
//! used, and which circle that was fitted to them. The fitting itself is arithmetic of
//! doubles outside; what comes of it is judged here by its bits.
use crate::bits;
use crate::bits::{INFINITY, SIGN};
use crate::math::{Pose, Vec3};
use vstd::prelude::*;

verus! {

/// Why a calibration is refused.
#[derive(Clone, Copy, PartialEq, Eq, Structural, Debug)]
pub enum CalibrationError {
    /// There are fewer than twenty samples, or more than ten thousand.
    Count,
    /// The mouth is not between nothing and twenty centimetres in front.
    Mouth,
    /// A sample is not later than the one before.
    Order,
    /// A position is not finite.
    Position,
    /// The headset was seen after the camera, or too long before.
    Stale,
    /// The head moved.
    Head,
    /// The camera went up or down.
    Height,
    /// The camera was not turned far enough.
    Arc,
    /// The samples do not tell the circle.
    Separate,
    /// The camera was too near or too far.
    Radius,
    /// The samples do not lie on a circle.
    Residual,
}

/// One look at the camera and at the headset.
#[derive(Clone, Copy, PartialEq, Eq, Structural, Debug)]
pub struct CalibrationSample {
    pub camera: Pose,
    pub hmd: Pose,
}

/// How long before the camera the headset may have been seen.
pub const HMD_NS: i64 = 150_000_000;

/// The bits of 0.2, 0.03, 0.02, 90.0, 1e-8, 0.05 and 5.0.
pub const MOUTH_LIMIT: u64 = 0x3fc9_9999_9999_999a;

pub const HEAD_LIMIT: u64 = 0x3f9e_b851_eb85_1eb8;

pub const DRIFT_LIMIT: u64 = 0x3f94_7ae1_47ae_147b;

pub const ARC_LIMIT: u64 = 0x4056_8000_0000_0000;

pub const PIVOT_LIMIT: u64 = 0x3e45_798e_e230_8c3a;

pub const NEAREST: u64 = 0x3fa9_9999_9999_999a;

pub const FARTHEST: u64 = 0x4014_0000_0000_0000;

/// Whether so many samples and such a mouth can be used.
pub open spec fn beginning(count: usize, mouth_forward_m: u64) -> Result<(), CalibrationError> {
    if !(20 <= count <= 10000) {
        Err(CalibrationError::Count)
    } else if !bits::from_zero_to(mouth_forward_m, MOUTH_LIMIT) {
        Err(CalibrationError::Mouth)
    } else {
        Ok(())
    }
}

/// Whether so many samples, and a mouth so far in front, can be used at all.
pub fn begin(count: usize, mouth_forward_m: u64) -> (res: Result<(), CalibrationError>)
    ensures
        res == beginning(count, mouth_forward_m),
{
    if count < 20 || count > 10000 {
        return Err(CalibrationError::Count);
    }
    if !(mouth_forward_m <= MOUTH_LIMIT || mouth_forward_m == SIGN) {
        return Err(CalibrationError::Mouth);
    }
    Ok(())
}

/// The headset was seen with the camera or shortly before.
pub open spec fn is_fresh(seen: int, hmd: int) -> bool {
    0 <= seen - hmd <= HMD_NS
}

/// What stands against a sample, after one at the time `previous`.
pub open spec fn sample_fault(previous: i64, s: CalibrationSample) -> Option<CalibrationError> {
    if s.camera.time_ns <= previous {
        Some(CalibrationError::Order)
    } else if !s.camera.position.is_finite() || !s.hmd.position.is_finite() {
        Some(CalibrationError::Position)
    } else if !is_fresh(s.camera.time_ns as int, s.hmd.time_ns as int) {
        Some(CalibrationError::Stale)
    } else {
        None
    }
}

/// Whether a sample can be used, after one at the time `previous`; before the first
/// that is -1.
pub fn check_sample(previous: i64, s: &CalibrationSample) -> (res: Result<(), CalibrationError>)
    ensures
        res == (match sample_fault(previous, *s) {
            Some(e) => Err(e),
            None => Ok(()),
        }),
{
    if s.camera.time_ns <= previous {
        return Err(CalibrationError::Order);
    }
    if !s.camera.position.finite() || !s.hmd.position.finite() {
        return Err(CalibrationError::Position);
    }
    let age: i128 = s.camera.time_ns as i128 - s.hmd.time_ns as i128;
    if age < 0 || age > HMD_NS as i128 {
        return Err(CalibrationError::Stale);
    }
    Ok(())
}

/// The sample at a place can be used after the one before it.
pub open spec fn usable_at(samples: Seq<CalibrationSample>, i: int) -> bool {
    sample_fault(
        if i == 0 {
            (-1) as i64
        } else {
            samples[i - 1].camera.time_ns
        },
        samples[i],
    ) is None
}

/// Every sample can be used after the one before it.
pub open spec fn all_usable(samples: Seq<CalibrationSample>) -> bool {
    forall|i: int| 0 <= i < samples.len() ==> #[trigger] usable_at(samples, i)
}

/// The samples of a calibration rise in time, and none came before the session.
pub proof fn samples_rise(samples: Seq<CalibrationSample>, i: int, j: int)
    requires
        all_usable(samples),
        0 <= i <= j < samples.len(),
    ensures
        samples[i].camera.time_ns >= 0,
        i < j ==> samples[i].camera.time_ns < samples[j].camera.time_ns,
    decreases j,
{
    assert(usable_at(samples, j));
    if i < j {
        samples_rise(samples, i, j - 1);
    } else if i > 0 {
        samples_rise(samples, i - 1, i - 1);
    }
}

/// How everything moved: the farthest that the head went, the farthest that the camera
/// went up or down, and how many degrees it was turned.
#[derive(Clone, Copy, PartialEq, Eq, Structural, Debug)]
pub struct Motion {
    pub head: u64,
    pub height: u64,
    pub arc: u64,
}

/// Whether things moved as they had to.
pub open spec fn judged(m: Motion) -> Result<(), CalibrationError> {
    if !bits::from_zero_to(m.head, HEAD_LIMIT) {
        Err(CalibrationError::Head)
    } else if !bits::from_zero_to(m.height, DRIFT_LIMIT) {
        Err(CalibrationError::Height)
    } else if !(ARC_LIMIT <= m.arc <= INFINITY) {
        Err(CalibrationError::Arc)
    } else {
        Ok(())
    }
}

/// Whether things moved as they had to.
pub fn check_motion(m: Motion) -> (res: Result<(), CalibrationError>)
    ensures
        res == judged(m),
{
    if !(m.head <= HEAD_LIMIT || m.head == SIGN) {
        return Err(CalibrationError::Head);
    }
    if !(m.height <= DRIFT_LIMIT || m.height == SIGN) {
        return Err(CalibrationError::Height);
    }
    if m.arc < ARC_LIMIT || m.arc > INFINITY {
        return Err(CalibrationError::Arc);
    }
    Ok(())
}

/// A number that is large enough to divide by.
pub open spec fn divides(pivot: u64) -> bool {
    PIVOT_LIMIT < bits::magnitude(pivot) <= INFINITY
}

/// Whether a pivot of the elimination is large enough to divide by.
pub fn check_pivot(pivot: u64) -> (res: Result<(), CalibrationError>)
    ensures
        res == (if divides(pivot) {
            Ok(())
        } else {
            Err(CalibrationError::Separate)
        }),
{
    let size: u64 = bits::abs(pivot);
    if PIVOT_LIMIT < size && size <= INFINITY {
        Ok(())
    } else {
        Err(CalibrationError::Separate)
    }
}

/// The row with the largest number in a column, from a row on; the last of those that
/// are equal.
pub open spec fn is_largest(column: Seq<u64>, from: int, row: int) -> bool {
    &&& from <= row < column.len()
    &&& forall|k: int|
        from <= k < column.len() ==> bits::magnitude(#[trigger] column[k]) <= bits::magnitude(
            column[row],
        ) && (k > row ==> bits::magnitude(column[k]) < bits::magnitude(column[row]))
}

/// The row to divide by next.
pub fn pivot_row(column: &[u64], from: usize) -> (row: usize)
    requires
        from < column.len(),
    ensures
        is_largest(column@, from as int, row as int),
{
    let mut row: usize = from;
    let mut i: usize = from + 1;
    while i < column.len()
        invariant
            from <= row < i <= column.len(),
            forall|k: int|
                from <= k < i ==> bits::magnitude(#[trigger] column@[k]) <= bits::magnitude(
                    column@[row as int],
                ) && (k > row ==> bits::magnitude(column@[k]) < bits::magnitude(
                    column@[row as int],
                )),
        decreases column.len() - i,
    {
        if bits::abs(column[i]) >= bits::abs(column[row]) {
            row = i;
        }
        i += 1;
    }
    row
}

/// A radius that a camera is turned at.
pub open spec fn is_radius(radius: u64) -> bool {
    NEAREST <= radius <= FARTHEST
}

/// The samples lie near enough to their circle.
pub open spec fn is_near(residual: u64) -> bool {
    bits::from_zero_to(residual, DRIFT_LIMIT)
}

/// Whether the circle can be used: its radius, and how far the samples lie off it.
pub fn check_radius(radius: u64) -> (res: Result<(), CalibrationError>)
    ensures
        res == (if is_radius(radius) {
            Ok(())
        } else {
            Err(CalibrationError::Radius)
        }),
{
    if NEAREST <= radius && radius <= FARTHEST {
        Ok(())
    } else {
        Err(CalibrationError::Radius)
    }
}

pub fn check_residual(residual: u64) -> (res: Result<(), CalibrationError>)
    ensures
        res == (if is_near(residual) {
            Ok(())
        } else {
            Err(CalibrationError::Residual)
        }),
{
    if residual <= DRIFT_LIMIT || residual == SIGN {
        Ok(())
    } else {
        Err(CalibrationError::Residual)
    }
}

/// A calibration. Angles are in radians, and the pivot is where it is seen from the
/// level camera.
#[derive(Clone, Copy, PartialEq, Eq, Structural, Debug)]
pub struct LocalCalibration {
    pub schema_version: u32,
    pub calibrated_at_ns: i64,
    pub camera_yaw: u64,
    pub pivot_from_camera: Vec3,
    pub hmd: Pose,
    pub world_from_tracking_yaw: u64,
    pub mouth_forward_m: u64,
    pub arc_degrees: u64,
    pub residual_rms_m: u64,
    pub camera_radius_m: u64,
    pub head_motion_m: u64,
}

/// Why nothing is estimated.
#[derive(Clone, Copy, PartialEq, Eq, Structural, Debug)]
pub enum EstimateError {
    /// It is a time before the calibration, or the calibration is of another kind.
    Uncalibrated,
    /// The headset has not been seen lately.
    Headset,
    /// A position is not finite.
    Position,
    /// The head has moved.
    Head,
}

/// Whether the mouth can be estimated at a time, with a camera and a headset that were seen
/// when they were.
pub open spec fn estimability(c: LocalCalibration, camera: i64, hmd: i64, at: i64) -> Result<
    (),
    EstimateError,
> {
    if c.schema_version != 1 || at < c.calibrated_at_ns {
        Err(EstimateError::Uncalibrated)
    } else if at < camera || !is_fresh(at as int, hmd as int) {
        Err(EstimateError::Headset)
    } else {
        Ok(())
    }
}

/// The head is where it was.
pub open spec fn is_still(distance: u64) -> bool {
    bits::from_zero_to(distance, HEAD_LIMIT)
}

impl LocalCalibration {
    /// Whether the mouth can be estimated at a time.
    pub fn estimable(&self, camera: &Pose, hmd: &Pose, at: i64) -> (res: Result<(), EstimateError>)
        ensures
            res == estimability(*self, camera.time_ns, hmd.time_ns, at),
    {
        if self.schema_version != 1 || at < self.calibrated_at_ns {
            return Err(EstimateError::Uncalibrated);
        }
        let age: i128 = at as i128 - hmd.time_ns as i128;
        if at < camera.time_ns || age < 0 || age > HMD_NS as i128 {
            return Err(EstimateError::Headset);
        }
        Ok(())
    }

    /// Whether the positions can be used.
    pub fn positioned(&self, camera: &Pose, hmd: &Pose) -> (res: Result<(), EstimateError>)
        ensures
            res == (if camera.position.is_finite() && hmd.position.is_finite() {
                Ok(())
            } else {
                Err(EstimateError::Position)
            }),
    {
        if camera.position.finite() && hmd.position.finite() {
            Ok(())
        } else {
            Err(EstimateError::Position)
        }
    }

    /// Whether the head is still where it was, so far from there.
    pub fn still(&self, distance: u64) -> (res: Result<(), EstimateError>)
        ensures
            res == (if is_still(distance) {
                Ok(())
            } else {
                Err(EstimateError::Head)
            }),
    {
        if distance <= HEAD_LIMIT || distance == SIGN {
            Ok(())
        } else {
            Err(EstimateError::Head)
        }
    }
}

/// A calibration needs twenty samples and takes ten thousand at most; the mouth is at most
/// twenty centimetres in front of the headset.
pub proof fn calibrations_need_enough_samples(count: usize, mouth: u64)
    ensures
        beginning(count, mouth) is Ok <==> 20 <= count <= 10_000 && (mouth
            <= 0x3fc9_9999_9999_999a || mouth == 0x8000_0000_0000_0000),
        count < 20 || count > 10_000 ==> beginning(count, mouth) == Err::<(), _>(
            CalibrationError::Count,
        ),
        beginning(count, mouth) == Err::<(), _>(CalibrationError::Mouth) ==> 20 <= count <= 10_000,
{
    bits::ranges_begin_at_zero(mouth, 0x3fc9_9999_9999_999a);
    bits::patterns_are_doubles(mouth);
}

/// A sample is used exactly where it is later than the one before, both were seen somewhere,
/// and the headset was seen with the camera or up to 150 milliseconds before; the first of
/// these that fails is the reason.
pub proof fn samples_are_used_where_they_can_be(previous: i64, s: CalibrationSample)
    ensures
        sample_fault(previous, s) is None <==> {
            &&& s.camera.time_ns > previous
            &&& s.camera.position.is_finite() && s.hmd.position.is_finite()
            &&& s.hmd.time_ns <= s.camera.time_ns <= s.hmd.time_ns + 150_000_000
        },
        s.camera.time_ns <= previous ==> sample_fault(previous, s) == Some(CalibrationError::Order),
        s.camera.time_ns > previous && !(s.camera.position.is_finite()
            && s.hmd.position.is_finite()) ==> sample_fault(previous, s) == Some(
            CalibrationError::Position,
        ),
        sample_fault(previous, s) == Some(CalibrationError::Stale) ==> s.camera.time_ns
            < s.hmd.time_ns || s.camera.time_ns - s.hmd.time_ns > 150_000_000,
{
}

/// Things move as they have to: the head by three centimetres at most, the camera by two
/// centimetres up or down at most, and by a quarter turn at least; the first of these that
/// fails is the reason.
pub proof fn motions_are_judged_by_their_limits(m: Motion)
    ensures
        judged(m) is Ok <==> {
            &&& m.head <= 0x3f9e_b851_eb85_1eb8 || m.head == 0x8000_0000_0000_0000
            &&& m.height <= 0x3f94_7ae1_47ae_147b || m.height == 0x8000_0000_0000_0000
            &&& 0x4056_8000_0000_0000 <= m.arc <= 0x7ff0_0000_0000_0000
        },
        judged(m) == Err::<(), _>(CalibrationError::Head) <==> !(m.head <= 0x3f9e_b851_eb85_1eb8
            || m.head == 0x8000_0000_0000_0000),
        judged(m) == Err::<(), _>(CalibrationError::Arc) ==> m.arc < 0x4056_8000_0000_0000 || m.arc
            > 0x7ff0_0000_0000_0000,
{
    bits::ranges_begin_at_zero(m.head, 0x3f9e_b851_eb85_1eb8);
    bits::ranges_begin_at_zero(m.height, 0x3f94_7ae1_47ae_147b);
    bits::patterns_are_doubles(m.head);
    bits::patterns_are_doubles(m.height);
}

/// A circle is used where its radius is from five centimetres to five metres and its samples
/// lie within two centimetres of it; numbers are divided by where they are not too small,
/// whatever their sign.
pub proof fn circles_are_judged_by_their_limits(number: u64)
    ensures
        is_radius(number) <==> 0x3fa9_9999_9999_999a <= number <= 0x4014_0000_0000_0000,
        is_near(number) <==> number <= 0x3f94_7ae1_47ae_147b || number == 0x8000_0000_0000_0000,
        is_still(number) <==> number <= 0x3f9e_b851_eb85_1eb8 || number == 0x8000_0000_0000_0000,
        divides(number) <==> 0x3e45_798e_e230_8c3a < number % 0x8000_0000_0000_0000
            <= 0x7ff0_0000_0000_0000,
        divides(bits::negative(number)) == divides(number),
{
    bits::ranges_begin_at_zero(number, 0x3f94_7ae1_47ae_147b);
    bits::ranges_begin_at_zero(number, 0x3f9e_b851_eb85_1eb8);
    bits::patterns_are_doubles(number);
}

/// The mouth is estimated from the calibration on, at times when the camera has been seen and
/// the headset in the last 150 milliseconds.
pub proof fn mouths_are_estimated_where_they_can_be(
    c: LocalCalibration,
    camera: i64,
    hmd: i64,
    at: i64,
)
    ensures
        estimability(c, camera, hmd, at) is Ok <==> {
            &&& c.schema_version == 1
            &&& at >= c.calibrated_at_ns && at >= camera
            &&& hmd <= at <= hmd + 150_000_000
        },
        c.schema_version != 1 || at < c.calibrated_at_ns ==> estimability(c, camera, hmd, at)
            == Err::<(), _>(EstimateError::Uncalibrated),
        estimability(c, camera, hmd, at) == Err::<(), _>(EstimateError::Headset) ==> at
            >= c.calibrated_at_ns,
{
}

/// The row to divide by is the last of those with the largest number, and there is only one.
pub proof fn there_is_one_largest(column: Seq<u64>, from: int, row: int, other: int)
    requires
        is_largest(column, from, row),
        from <= other < column.len(),
    ensures
        from <= row < column.len(),
        column[other] % 0x8000_0000_0000_0000 <= column[row] % 0x8000_0000_0000_0000,
        other > row ==> column[other] % 0x8000_0000_0000_0000 < column[row]
            % 0x8000_0000_0000_0000,
        is_largest(column, from, other) ==> other == row,
{
    assert(bits::magnitude(column[other]) <= bits::magnitude(column[row]));
    assert(bits::magnitude(column[row]) <= bits::magnitude(column[row]));
    bits::patterns_are_doubles(column[other]);
    bits::patterns_are_doubles(column[row]);
}

} // verus!
