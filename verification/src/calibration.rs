//! The calibration run as a state machine.
//!
//! A run alternates work that only the outside world can do (tilting the
//! filter, exposing, detecting sources, removing an image) with decisions.
//! The decisions live here: [`Calibration::advance`] takes the event that
//! ends one piece of outside work and answers with the next piece to do.
//! Whoever drives the run performs each [`Action`] and reports back.

use crate::acquisition::{
    empty_tally, lemma_target_in_range, mean_area, mean_flux, mean_objects, tally_with,
    CalibrationPlan, Detection, FrameData, Tally, TallyModel,
};
use crate::expose::ImageType;
use crate::fixed::{fixed, Fixed};
use vstd::prelude::*;

verus! {

/// The outside work that a run is waiting for.
#[derive(Clone, Copy, Debug, PartialEq, Eq, Structural)]
pub enum Phase {
    /// The filter is being tilted to the current angle.
    Tilting,
    /// An exposure is being taken.
    Exposing,
    /// Sources are being detected in the last exposure.
    Detecting,
    /// The last exposure's image is being removed.
    Removing,
    /// Every angle has been measured.
    Finished,
}

/// The next piece of outside work.
#[derive(Clone, Copy, Debug, PartialEq, Eq, Structural)]
pub enum Action {
    /// Command the device to the given angle and report the raw angle.
    Tilt { angle: Fixed },
    /// Take one exposure, or where `simulated` is set, only pretend to.
    Expose { kind: ImageType, duration: Fixed, target: Fixed, achieved: Fixed, simulated: bool },
    /// Detect the sources in the image just taken.
    Detect,
    /// Remove the image just analysed.
    Remove,
    /// Nothing is left to do.
    Finish,
}

/// The end of a piece of outside work.
#[derive(Debug)]
pub enum Event {
    /// The device was tilted and reports this raw angle.
    Tilted(Fixed),
    /// The exposure was taken.
    Exposed,
    /// These sources were detected.
    Detected(Vec<Detection>),
    /// Detection failed; the exposure counts as one without sources.
    DetectionFailed,
    /// The image was removed.
    Removed,
}

/// The mathematical content of an [`Event`].
pub enum EventModel {
    Tilted(Fixed),
    Exposed,
    Detected(Seq<Detection>),
    Removed,
}

impl View for Event {
    type V = EventModel;

    open spec fn view(&self) -> EventModel {
        match self {
            Event::Tilted(raw) => EventModel::Tilted(*raw),
            Event::Exposed => EventModel::Exposed,
            Event::Detected(found) => EventModel::Detected(found@),
            Event::DetectionFailed => EventModel::Detected(Seq::empty()),
            Event::Removed => EventModel::Removed,
        }
    }
}

/// A calibration run under way.
#[derive(Debug)]
pub struct Calibration {
    plan: CalibrationPlan,
    targets: Vec<Fixed>,
    position: usize,
    raw_angle: Fixed,
    tally: Tally,
    frames: Vec<FrameData>,
    phase: Phase,
}

/// The mathematical content of a [`Calibration`].
pub struct CalibrationModel {
    /// What the run was asked to do.
    pub plan: CalibrationPlan,
    /// Number of angles already measured.
    pub position: int,
    /// Raw angle reported for the angle under way.
    pub raw_angle: Fixed,
    /// Sums of the exposures taken at the angle under way.
    pub tally: TallyModel,
    /// The measurements of the angles already measured, in angle order.
    pub frames: Seq<FrameData>,
    /// What the run is waiting for.
    pub phase: Phase,
}

/// A run of `plan` of which nothing has been done yet.
pub open spec fn fresh_run(plan: CalibrationPlan) -> CalibrationModel {
    CalibrationModel {
        plan,
        position: 0,
        raw_angle: fixed(0),
        tally: empty_tally(),
        frames: Seq::empty(),
        phase: Phase::Tilting,
    }
}

/// The exposure that a run asks for at the angle under way.
pub open spec fn exposure_at(run: CalibrationModel) -> Action {
    Action::Expose {
        kind: ImageType::Light,
        duration: run.plan.exptime,
        target: fixed(run.plan.target(run.position)),
        achieved: run.raw_angle,
        simulated: run.plan.simulate,
    }
}

/// The measurement of the angle under way, from the exposures tallied.
pub open spec fn frame_at(run: CalibrationModel) -> FrameData {
    FrameData {
        angle: fixed(run.plan.target(run.position)),
        raw_angle: run.raw_angle,
        nobj: mean_objects(run.tally) as usize,
        spotflux: fixed(mean_flux(run.tally)),
        spotarea: fixed(mean_area(run.tally)),
    }
}

/// What follows once an exposure is done with: another exposure while fewer
/// than `naverage` are tallied; else the angle's measurement is filed and
/// the run turns to the next angle, or ends after the last.
pub open spec fn after_exposure(run: CalibrationModel) -> (CalibrationModel, Action) {
    if run.tally.exposures < run.plan.naverage {
        (CalibrationModel { phase: Phase::Exposing, ..run }, exposure_at(run))
    } else {
        let filed = CalibrationModel {
            position: run.position + 1,
            tally: empty_tally(),
            frames: run.frames.push(frame_at(run)),
            ..run
        };
        if filed.position < run.plan.nstep {
            (
                CalibrationModel { phase: Phase::Tilting, ..filed },
                Action::Tilt { angle: fixed(run.plan.target(filed.position)) },
            )
        } else {
            (CalibrationModel { phase: Phase::Finished, ..filed }, Action::Finish)
        }
    }
}

/// The run after `event`, and the work it asks for next; `None` where the
/// run was not waiting for such an event.
pub open spec fn after_event(run: CalibrationModel, event: EventModel) -> Option<
    (CalibrationModel, Action),
> {
    match (run.phase, event) {
        (Phase::Tilting, EventModel::Tilted(raw)) => {
            let tilted = CalibrationModel { raw_angle: raw, phase: Phase::Exposing, ..run };
            Some((tilted, exposure_at(tilted)))
        },
        (Phase::Exposing, EventModel::Exposed) => Some(
            (CalibrationModel { phase: Phase::Detecting, ..run }, Action::Detect),
        ),
        (Phase::Detecting, EventModel::Detected(found)) => {
            let counted = CalibrationModel { tally: tally_with(run.tally, found), ..run };
            if run.plan.keep_images {
                Some(after_exposure(counted))
            } else {
                Some((CalibrationModel { phase: Phase::Removing, ..counted }, Action::Remove))
            }
        },
        (Phase::Removing, EventModel::Removed) => Some(after_exposure(run)),
        _ => None,
    }
}

impl View for Calibration {
    type V = CalibrationModel;

    closed spec fn view(&self) -> CalibrationModel {
        CalibrationModel {
            plan: self.plan,
            position: self.position as int,
            raw_angle: self.raw_angle,
            tally: self.tally@,
            frames: self.frames@,
            phase: self.phase,
        }
    }
}

/// What holds of the content of every run that [`Calibration::begin`] and
/// [`Calibration::advance`] produce.
pub open spec fn run_is_sound(run: CalibrationModel) -> bool {
    &&& run.plan.is_valid()
    &&& run.plan.naverage >= 1
    &&& 0 <= run.position <= run.plan.nstep
    &&& run.frames.len() == run.position
    &&& (run.phase is Finished <==> run.position == run.plan.nstep)
    &&& forall|i: int|
        0 <= i < run.frames.len() ==> (#[trigger] run.frames[i]).angle@ == run.plan.target(i)
    &&& 0 <= run.tally.exposures <= run.plan.naverage
    &&& (run.phase is Tilting || run.phase is Finished ==> run.tally == empty_tally())
    &&& (run.phase is Exposing || run.phase is Detecting ==> run.tally.exposures
        < run.plan.naverage)
    &&& (run.phase is Removing ==> run.tally.exposures >= 1)
}

impl Calibration {
    /// Whether the run is one that `begin` and `advance` can have produced.
    pub closed spec fn wf(&self) -> bool {
        &&& run_is_sound(self@)
        &&& self.tally.wf()
        &&& self.targets@.len() == self.plan.nstep
        &&& forall|i: int|
            0 <= i < self.targets@.len() ==> (#[trigger] self.targets@[i])@ == self.plan.target(i)
    }

    /// Starts a run of a valid plan that averages at least one exposure per
    /// angle. The first thing to do is to tilt to the first angle.
    pub fn begin(plan: CalibrationPlan) -> (started: (Calibration, Action))
        requires
            plan.is_valid(),
            plan.naverage >= 1,
        ensures
            started.0.wf(),
            started.0@ == fresh_run(plan),
            started.1 == (Action::Tilt { angle: fixed(plan.target(0)) }),
    {
        let targets = plan.target_angles();
        let first = targets[0];
        let run = Calibration {
            plan,
            targets,
            position: 0,
            raw_angle: Fixed { nanos: 0 },
            tally: Tally::new(),
            frames: Vec::new(),
            phase: Phase::Tilting,
        };
        assert(run@.frames =~= Seq::<FrameData>::empty());
        (run, Action::Tilt { angle: first })
    }

    /// What the run is waiting for.
    pub fn phase(&self) -> (phase: Phase)
        ensures
            phase == self@.phase,
    {
        self.phase
    }

    /// Number of angles already measured.
    pub fn position(&self) -> (position: usize)
        ensures
            position == self@.position,
    {
        self.position
    }

    /// The measurements filed so far, in angle order.
    pub fn frames(&self) -> (frames: &Vec<FrameData>)
        ensures
            frames@ == self@.frames,
    {
        &self.frames
    }

    fn exposure(&self) -> (action: Action)
        requires
            self.wf(),
            self.position < self.plan.nstep,
        ensures
            action == exposure_at(self@),
    {
        Action::Expose {
            kind: ImageType::Light,
            duration: self.plan.exptime,
            target: self.targets[self.position],
            achieved: self.raw_angle,
            simulated: self.plan.simulate,
        }
    }

    fn finish_exposure(&mut self) -> (action: Action)
        requires
            old(self).wf(),
            old(self)@.phase is Removing,
        ensures
            final(self).wf(),
            (final(self)@, action) == after_exposure(old(self)@),
    {
        if self.tally.exposures() < self.plan.naverage {
            self.phase = Phase::Exposing;
            self.exposure()
        } else {
            proof {
                lemma_target_in_range(self.plan, self.position as int);
            }
            let frame = self.tally.average(self.targets[self.position], self.raw_angle);
            assert(frame == frame_at(self@));
            self.frames.push(frame);
            self.position = self.position + 1;
            self.tally = Tally::new();
            if self.position < self.plan.nstep {
                self.phase = Phase::Tilting;
                proof {
                    lemma_target_in_range(self.plan, self.position as int);
                }
                Action::Tilt { angle: self.targets[self.position] }
            } else {
                self.phase = Phase::Finished;
                Action::Finish
            }
        }
    }

    /// Takes the event that ends the work the run was waiting for and
    /// answers with the work to do next. An event that the run was not
    /// waiting for changes nothing and is answered with `None`.
    pub fn advance(&mut self, event: Event) -> (next: Option<Action>)
        requires
            old(self).wf(),
        ensures
            final(self).wf(),
            match after_event(old(self)@, event@) {
                Some((run, action)) => final(self)@ == run && next == Some(action),
                None => final(self)@ == old(self)@ && next is None,
            },
    {
        match event {
            Event::Tilted(raw) => {
                if self.phase == Phase::Tilting {
                    self.raw_angle = raw;
                    self.phase = Phase::Exposing;
                    Some(self.exposure())
                } else {
                    None
                }
            },
            Event::Exposed => {
                if self.phase == Phase::Exposing {
                    self.phase = Phase::Detecting;
                    Some(Action::Detect)
                } else {
                    None
                }
            },
            Event::Detected(found) => {
                if self.phase == Phase::Detecting {
                    Some(self.count(&found))
                } else {
                    None
                }
            },
            Event::DetectionFailed => {
                if self.phase == Phase::Detecting {
                    let nothing: Vec<Detection> = Vec::new();
                    Some(self.count(&nothing))
                } else {
                    None
                }
            },
            Event::Removed => {
                if self.phase == Phase::Removing {
                    Some(self.finish_exposure())
                } else {
                    None
                }
            },
        }
    }

    fn count(&mut self, found: &Vec<Detection>) -> (action: Action)
        requires
            old(self).wf(),
            old(self)@.phase is Detecting,
        ensures
            final(self).wf(),
            Some((final(self)@, action)) == after_event(
                old(self)@,
                EventModel::Detected(found@),
            ),
    {
        self.tally.record(found);
        self.phase = Phase::Removing;
        if self.plan.keep_images {
            self.finish_exposure()
        } else {
            Action::Remove
        }
    }
}

/// Whatever a run has been through, it has filed one measurement for each
/// angle it has left behind, in angle order, each under the angle that the
/// plan gives it; a finished run has filed one for every angle of the plan.
pub proof fn law_frames_follow_plan(run: Calibration)
    requires
        run.wf(),
    ensures
        run_is_sound(run@),
        run@.frames.len() == run@.position,
        run@.phase is Finished ==> run@.frames.len() == run@.plan.nstep,
        forall|i: int|
            0 <= i < run@.frames.len() ==> (#[trigger] run@.frames[i]).angle@
                == run@.plan.target(i),
{
}

} // verus!
