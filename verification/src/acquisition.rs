//! The acquisition plan and the averaging of one tilt angle's exposures.

use crate::fixed::{
    lemma_round_div_between, lemma_round_div_of_multiple, lemma_spaced_ascends,
    lemma_spaced_between, lemma_spaced_ends, round_div, round_quotient, spaced, spaced_point,
    Fixed,
};
use crate::select::{argmin, first_least, scores_of};
use vstd::prelude::*;

verus! {

/// Smallest tilt a calibration may command: 160 degrees.
pub const MIN_ANGLE: i64 = 160_000_000_000;

/// Largest tilt a calibration may command: 200 degrees.
pub const MAX_ANGLE: i64 = 200_000_000_000;

/// One tenth of a degree, the resolution of a commanded tilt.
pub const TENTH: i64 = 100_000_000;

/// What a calibration run is asked to do.
#[derive(Clone, Copy, Debug, PartialEq, Eq, Structural)]
pub struct CalibrationPlan {
    /// First tilt angle, in degrees.
    pub start: Fixed,
    /// Last tilt angle, in degrees.
    pub end: Fixed,
    /// Number of tilt angles, both ends included.
    pub nstep: usize,
    /// Exposure time, in seconds.
    pub exptime: Fixed,
    /// Exposures averaged at each angle.
    pub naverage: usize,
    /// Whether the images are kept once analysed.
    pub keep_images: bool,
    /// Whether exposures are simulated.
    pub simulate: bool,
}

/// Why a plan is refused before anything is commanded.
#[derive(Clone, Copy, Debug, PartialEq, Eq, Structural)]
pub enum ValidationError {
    /// The start angle is below 160 or above 200 degrees.
    StartOutOfRange,
    /// The end angle is below 160 or above 200 degrees.
    EndOutOfRange,
    /// The start angle is above the end angle.
    StartAfterEnd,
    /// Fewer than two tilt angles are asked for.
    TooFewSteps,
    /// The exposure time is not positive.
    ExposureNotPositive,
}

impl CalibrationPlan {
    /// The first rule that the plan breaks, if it breaks one.
    pub open spec fn fault(&self) -> Option<ValidationError> {
        if self.start@ < MIN_ANGLE || self.start@ > MAX_ANGLE {
            Some(ValidationError::StartOutOfRange)
        } else if self.end@ < MIN_ANGLE || self.end@ > MAX_ANGLE {
            Some(ValidationError::EndOutOfRange)
        } else if self.start@ > self.end@ {
            Some(ValidationError::StartAfterEnd)
        } else if self.nstep < 2 {
            Some(ValidationError::TooFewSteps)
        } else if self.exptime@ <= 0 {
            Some(ValidationError::ExposureNotPositive)
        } else {
            None
        }
    }

    /// Whether the plan breaks no rule.
    pub open spec fn is_valid(&self) -> bool {
        self.fault() is None
    }

    /// Tilt angle number `i` of the plan, in billionths of a degree: the
    /// evenly spaced angle rounded to one decimal digit.
    pub open spec fn target(&self, i: int) -> int {
        spaced(self.start@, self.end@, self.nstep as int, i, TENTH as int)
    }

    /// Checks the plan against the rules, in the order in which
    /// [`ValidationError`] lists them.
    pub fn validate(&self) -> (result: Result<(), ValidationError>)
        ensures
            result is Ok <==> self.is_valid(),
            result is Err ==> self.fault() == Some(result->Err_0),
    {
        if self.start.nanos < MIN_ANGLE || self.start.nanos > MAX_ANGLE {
            Err(ValidationError::StartOutOfRange)
        } else if self.end.nanos < MIN_ANGLE || self.end.nanos > MAX_ANGLE {
            Err(ValidationError::EndOutOfRange)
        } else if self.start.nanos > self.end.nanos {
            Err(ValidationError::StartAfterEnd)
        } else if self.nstep < 2 {
            Err(ValidationError::TooFewSteps)
        } else if self.exptime.nanos <= 0 {
            Err(ValidationError::ExposureNotPositive)
        } else {
            Ok(())
        }
    }

    /// The tilt angles of a valid plan, in the order in which they are
    /// commanded.
    pub fn target_angles(&self) -> (angles: Vec<Fixed>)
        requires
            self.is_valid(),
        ensures
            angles@.len() == self.nstep,
            forall|i: int| 0 <= i < angles@.len() ==> (#[trigger] angles@[i])@ == self.target(i),
    {
        let mut angles: Vec<Fixed> = Vec::new();
        let mut i: usize = 0;
        while i < self.nstep
            invariant
                self.is_valid(),
                i <= self.nstep,
                angles@.len() == i,
                forall|j: int| 0 <= j < i ==> (#[trigger] angles@[j])@ == self.target(j),
            decreases self.nstep - i,
        {
            proof {
                lemma_target_in_range(*self, i as int);
            }
            let point: i128 = spaced_point(self.start, self.end, self.nstep, i, TENTH);
            angles.push(Fixed { nanos: point as i64 });
            i = i + 1;
        }
        angles
    }
}

/// Every tilt angle of a valid plan lies between its two ends.
pub proof fn lemma_target_in_range(plan: CalibrationPlan, i: int)
    requires
        plan.is_valid(),
        0 <= i < plan.nstep,
    ensures
        MIN_ANGLE <= plan.target(i) <= MAX_ANGLE,
{
    lemma_spaced_between(plan.start@, plan.end@, plan.nstep as int, i, TENTH as int, 1600, 2000);
}

/// The tilt angles of a valid plan run from the start angle to the end
/// angle, each rounded to a tenth of a degree, and never turn back.
pub proof fn law_targets_span_the_plan(plan: CalibrationPlan, i: int)
    requires
        plan.is_valid(),
        0 <= i < plan.nstep - 1,
    ensures
        plan.target(0) == round_div(plan.start@, TENTH as int) * TENTH,
        plan.target(plan.nstep - 1) == round_div(plan.end@, TENTH as int) * TENTH,
        plan.target(i) <= plan.target(i + 1),
{
    lemma_spaced_ends(plan.start@, plan.end@, plan.nstep as int, TENTH as int);
    lemma_spaced_ascends(plan.start@, plan.end@, plan.nstep as int, i, TENTH as int);
}

/// One detected source: its flux in counts and its area in pixels.
#[derive(Clone, Copy, Debug, PartialEq, Eq, Structural)]
pub struct Detection {
    pub flux: Fixed,
    pub area: Fixed,
}

/// The areas of `detections`, in their order.
pub open spec fn areas_of(detections: Seq<Detection>) -> Seq<int> {
    detections.map_values(|d: Detection| d.area@)
}

/// The position of the calibration spot among `detections`: the first
/// source of least area.
pub open spec fn spot_of(detections: Seq<Detection>) -> int {
    first_least(areas_of(detections))
}

/// Picks the calibration spot: the source that comes first when the sources
/// are put in ascending order of area, which is the first source of least
/// area. Mind that this is the smallest source, not the largest. `None`
/// where nothing was detected.
pub fn select_spot(detections: &Vec<Detection>) -> (spot: Option<usize>)
    ensures
        spot is None <==> detections@.len() == 0,
        spot is Some ==> spot->Some_0 == spot_of(detections@),
        spot is Some ==> spot->Some_0 < detections@.len(),
{
    let mut areas: Vec<i64> = Vec::new();
    let mut i: usize = 0;
    while i < detections.len()
        invariant
            i <= detections@.len(),
            areas@.len() == i,
            forall|j: int| 0 <= j < i ==> #[trigger] areas@[j] == detections@[j].area.nanos,
        decreases detections@.len() - i,
    {
        areas.push(detections[i].area.nanos);
        i = i + 1;
    }
    assert(scores_of(areas@) =~= areas_of(detections@));
    argmin(areas.as_slice())
}

/// The averaged measurement of one tilt angle.
#[derive(Clone, Copy, Debug, PartialEq, Eq, Structural)]
pub struct FrameData {
    /// The commanded tilt angle.
    pub angle: Fixed,
    /// The raw angle that the device reached.
    pub raw_angle: Fixed,
    /// Sources per exposure, rounded down.
    pub nobj: usize,
    /// Mean flux of the calibration spot.
    pub spotflux: Fixed,
    /// Mean area of the calibration spot.
    pub spotarea: Fixed,
}

/// The running sums of the exposures taken at one tilt angle.
#[derive(Clone, Copy, Debug)]
pub struct Tally {
    flux: i128,
    area: i128,
    objects: u128,
    exposures: usize,
}

/// The mathematical content of a [`Tally`].
pub struct TallyModel {
    /// Sum of the spot fluxes.
    pub flux: int,
    /// Sum of the spot areas.
    pub area: int,
    /// Number of sources seen in all exposures together.
    pub objects: int,
    /// Number of exposures recorded, empty ones included.
    pub exposures: int,
}

/// The tally of no exposure.
pub open spec fn empty_tally() -> TallyModel {
    TallyModel { flux: 0, area: 0, objects: 0, exposures: 0 }
}

/// The tally after one more exposure in which `detections` were found. An
/// exposure without sources adds nothing but itself.
pub open spec fn tally_with(before: TallyModel, detections: Seq<Detection>) -> TallyModel {
    if detections.len() == 0 {
        TallyModel { exposures: before.exposures + 1, ..before }
    } else {
        TallyModel {
            flux: before.flux + detections[spot_of(detections)].flux@,
            area: before.area + detections[spot_of(detections)].area@,
            objects: before.objects + detections.len(),
            exposures: before.exposures + 1,
        }
    }
}

/// Mean flux of a tally, rounded to the nearest billionth.
pub open spec fn mean_flux(tally: TallyModel) -> int {
    round_div(tally.flux, tally.exposures)
}

/// Mean area of a tally, rounded to the nearest billionth.
pub open spec fn mean_area(tally: TallyModel) -> int {
    round_div(tally.area, tally.exposures)
}

/// Sources per exposure of a tally, rounded down.
pub open spec fn mean_objects(tally: TallyModel) -> int {
    tally.objects / tally.exposures
}

impl View for Tally {
    type V = TallyModel;

    closed spec fn view(&self) -> TallyModel {
        TallyModel {
            flux: self.flux as int,
            area: self.area as int,
            objects: self.objects as int,
            exposures: self.exposures as int,
        }
    }
}

impl Tally {
    /// What holds of every tally: no sum is larger than its exposures allow.
    pub closed spec fn wf(&self) -> bool {
        &&& -0x8000_0000_0000_0000 * self.exposures <= self.flux <= 0x7fff_ffff_ffff_ffff
            * self.exposures
        &&& -0x8000_0000_0000_0000 * self.exposures <= self.area <= 0x7fff_ffff_ffff_ffff
            * self.exposures
        &&& self.objects <= usize::MAX * self.exposures
    }

    /// The tally of no exposure.
    pub fn new() -> (tally: Tally)
        ensures
            tally.wf(),
            tally@ == empty_tally(),
    {
        Tally { flux: 0, area: 0, objects: 0, exposures: 0 }
    }

    /// Number of exposures recorded so far.
    pub fn exposures(&self) -> (n: usize)
        ensures
            n == self@.exposures,
    {
        self.exposures
    }

    /// Records one exposure and what was detected in it.
    pub fn record(&mut self, detections: &Vec<Detection>)
        requires
            old(self).wf(),
            old(self)@.exposures < usize::MAX,
        ensures
            final(self).wf(),
            final(self)@ == tally_with(old(self)@, detections@),
    {
        match select_spot(detections) {
            Some(spot) => {
                let chosen = detections[spot];
                proof {
                    let n = self.exposures as int;
                    assert(0x7fff_ffff_ffff_ffff * (n + 1) == 0x7fff_ffff_ffff_ffff * n
                        + 0x7fff_ffff_ffff_ffff) by (nonlinear_arith);
                    assert(-0x8000_0000_0000_0000 * (n + 1) == -0x8000_0000_0000_0000 * n
                        - 0x8000_0000_0000_0000) by (nonlinear_arith);
                    let most = usize::MAX as int;
                    assert(most * (n + 1) == most * n + most) by (nonlinear_arith);
                    assert(0 <= most * n <= 0xffff_ffff_ffff_ffff * 0xffff_ffff_ffff_ffff)
                        by (nonlinear_arith)
                        requires
                            0 <= n <= 0xffff_ffff_ffff_ffff,
                            0 <= most <= 0xffff_ffff_ffff_ffff,
                    ;
                    assert(0 <= 0x8000_0000_0000_0000 * n <= 0x8000_0000_0000_0000
                        * 0xffff_ffff_ffff_ffff) by (nonlinear_arith)
                        requires
                            0 <= n <= 0xffff_ffff_ffff_ffff,
                    ;
                }
                self.flux = self.flux + (chosen.flux.nanos as i128);
                self.area = self.area + (chosen.area.nanos as i128);
                self.objects = self.objects + (detections.len() as u128);
                self.exposures = self.exposures + 1;
            },
            None => {
                proof {
                    let n = self.exposures as int;
                    assert(0x7fff_ffff_ffff_ffff * (n + 1) >= 0x7fff_ffff_ffff_ffff * n)
                        by (nonlinear_arith);
                    assert(-0x8000_0000_0000_0000 * (n + 1) <= -0x8000_0000_0000_0000 * n)
                        by (nonlinear_arith);
                    assert(usize::MAX * (n + 1) >= usize::MAX * n) by (nonlinear_arith);
                }
                self.exposures = self.exposures + 1;
            },
        }
    }

    /// The averaged measurement of the exposures recorded so far, for the
    /// tilt angle `angle` at which the device reported `raw_angle`.
    pub fn average(&self, angle: Fixed, raw_angle: Fixed) -> (frame: FrameData)
        requires
            self.wf(),
            self@.exposures >= 1,
        ensures
            frame.angle == angle,
            frame.raw_angle == raw_angle,
            frame.nobj == mean_objects(self@),
            frame.spotflux@ == mean_flux(self@),
            frame.spotarea@ == mean_area(self@),
    {
        let n: i128 = self.exposures as i128;
        proof {
            lemma_round_div_between(
                self.flux as int,
                n as int,
                -0x8000_0000_0000_0000,
                0x7fff_ffff_ffff_ffff,
            );
            lemma_round_div_between(
                self.area as int,
                n as int,
                -0x8000_0000_0000_0000,
                0x7fff_ffff_ffff_ffff,
            );
            assert(0 <= 0x8000_0000_0000_0000 * n <= 0x8000_0000_0000_0000 * 0xffff_ffff_ffff_ffff)
                by (nonlinear_arith)
                requires
                    0 <= n <= 0xffff_ffff_ffff_ffff,
            ;
            let most = usize::MAX as int;
            vstd::arithmetic::div_mod::lemma_div_is_ordered(
                self.objects as int,
                most * n,
                n as int,
            );
            vstd::arithmetic::div_mod::lemma_div_multiples_vanish(most, n as int);
            assert(most * n == n * most) by (nonlinear_arith);
        }
        let flux: i128 = round_quotient(self.flux, n);
        let area: i128 = round_quotient(self.area, n);
        let objects: u128 = self.objects / (self.exposures as u128);
        FrameData {
            angle,
            raw_angle,
            nobj: objects as usize,
            spotflux: Fixed { nanos: flux as i64 },
            spotarea: Fixed { nanos: area as i64 },
        }
    }
}

/// With a single exposure nothing is averaged: the frame carries the flux
/// and the area of that exposure's spot exactly, and the number of sources
/// seen in it.
pub proof fn law_single_exposure_is_exact(detections: Seq<Detection>)
    requires
        detections.len() > 0,
    ensures
        mean_flux(tally_with(empty_tally(), detections)) == detections[spot_of(detections)].flux@,
        mean_area(tally_with(empty_tally(), detections)) == detections[spot_of(detections)].area@,
        mean_objects(tally_with(empty_tally(), detections)) == detections.len(),
{
    let spot = detections[spot_of(detections)];
    lemma_round_div_of_multiple(spot.flux@, 1);
    lemma_round_div_of_multiple(spot.area@, 1);
}

/// An exposure in which nothing was detected counts as an exposure and adds
/// nothing to any sum.
pub proof fn law_empty_exposure_adds_nothing(before: TallyModel)
    ensures
        tally_with(before, Seq::<Detection>::empty()).flux == before.flux,
        tally_with(before, Seq::<Detection>::empty()).area == before.area,
        tally_with(before, Seq::<Detection>::empty()).objects == before.objects,
        tally_with(before, Seq::<Detection>::empty()).exposures == before.exposures + 1,
{
}

} // verus!
