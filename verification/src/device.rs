//! The filter-tilter command protocol and its simulated device.
//!
//! A simulated device is nothing but a [`DeviceState`] kept in a file. One
//! command is one read-modify-write of that state: whoever owns the file
//! reads it, hands what was found to [`simulate`], and writes the returned
//! state back in full. The description and the timestamp of a state are
//! kept as the bytes of their text.

use crate::fixed::{representable, Fixed};
use vstd::prelude::*;

verus! {

/// Raw angle of a simulated device that has never been commanded: 171 degrees.
pub const DEFAULT_RAW_ANGLE: i64 = 171_000_000_000;

/// A command to the tilter. Angles are in degrees.
#[derive(Clone, Copy, Debug, PartialEq, Eq, Structural)]
pub enum TiltCommand {
    /// Report the tilt after moving to the given calibrated angle.
    GetAngle(Fixed),
    /// Move to the given calibrated angle.
    SetAngle(Fixed),
    /// Report the raw angle.
    GetRaw,
    /// Move to the given raw angle.
    SetRaw(Fixed),
    /// Make the current raw angle the zero point.
    Zero,
    /// Report the zero point.
    GetZero,
    /// Set the zero point.
    SetZero(Fixed),
}

/// The reference frame in which a device answers.
#[derive(Clone, Copy, Debug, PartialEq, Eq, Structural)]
pub enum Frame {
    /// A calibrated angle: raw angle minus zero point.
    Absolute,
    /// The device's own reading.
    Raw,
    /// A zero point.
    Zero,
}

/// What a command achieved: an angle and the frame it is expressed in.
#[derive(Clone, Copy, Debug, PartialEq, Eq, Structural)]
pub struct TiltOutcome {
    pub frame: Frame,
    pub angle: Fixed,
}

/// Why a command failed.
#[derive(Clone, Copy, Debug, PartialEq, Eq, Structural)]
pub enum DeviceError {
    /// The stored state of a simulated device could not be understood.
    CorruptState,
    /// The commanded angle plus the zero point is not a storable angle.
    OutOfRange,
}

/// The persisted state of a simulated device.
#[derive(Debug, PartialEq, Eq)]
pub struct DeviceState {
    pub description: Vec<u8>,
    pub zero_point: Fixed,
    pub raw_angle: Fixed,
    pub timestamp: Vec<u8>,
}

/// The mathematical content of a [`DeviceState`].
pub struct DeviceModel {
    pub description: Seq<u8>,
    pub zero_point: int,
    pub raw_angle: int,
    pub timestamp: Seq<u8>,
}

impl View for DeviceState {
    type V = DeviceModel;

    open spec fn view(&self) -> DeviceModel {
        DeviceModel {
            description: self.description@,
            zero_point: self.zero_point@,
            raw_angle: self.raw_angle@,
            timestamp: self.timestamp@,
        }
    }
}

/// The state of a device that has never been commanded.
pub open spec fn initial_model(description: Seq<u8>, timestamp: Seq<u8>) -> DeviceModel {
    DeviceModel { description, zero_point: 0, raw_angle: DEFAULT_RAW_ANGLE as int, timestamp }
}

/// The frame in which the answer to `command` is expressed.
pub open spec fn frame_of(command: TiltCommand) -> Frame {
    match command {
        TiltCommand::GetAngle(_) | TiltCommand::SetAngle(_) => Frame::Absolute,
        TiltCommand::GetRaw | TiltCommand::SetRaw(_) => Frame::Raw,
        TiltCommand::Zero | TiltCommand::GetZero | TiltCommand::SetZero(_) => Frame::Zero,
    }
}

/// The state that `command` leaves behind.
pub open spec fn state_after(before: DeviceModel, command: TiltCommand) -> DeviceModel {
    match command {
        TiltCommand::GetAngle(a) | TiltCommand::SetAngle(a) => DeviceModel {
            raw_angle: a@ + before.zero_point,
            ..before
        },
        TiltCommand::SetRaw(a) => DeviceModel { raw_angle: a@, ..before },
        TiltCommand::Zero => DeviceModel { zero_point: before.raw_angle, ..before },
        TiltCommand::SetZero(a) => DeviceModel { zero_point: a@, ..before },
        TiltCommand::GetRaw | TiltCommand::GetZero => before,
    }
}

/// The angle with which the device answers `command`.
pub open spec fn answer_to(before: DeviceModel, command: TiltCommand) -> int {
    match command {
        TiltCommand::GetAngle(a)
        | TiltCommand::SetAngle(a)
        | TiltCommand::SetRaw(a)
        | TiltCommand::SetZero(a) => a@,
        TiltCommand::GetRaw => before.raw_angle,
        TiltCommand::Zero => before.raw_angle,
        TiltCommand::GetZero => before.zero_point,
    }
}

/// Whether the device can carry out `command`: the state it leaves behind
/// must be storable.
pub open spec fn accepts(before: DeviceModel, command: TiltCommand) -> bool {
    representable(state_after(before, command).raw_angle)
}

/// What was found where a simulated device keeps its state.
#[derive(Debug, PartialEq, Eq)]
pub enum StateFile {
    /// Nothing is stored yet.
    Missing,
    /// Something is stored that is not a state.
    Corrupt,
    /// The stored state.
    Loaded(DeviceState),
}

impl DeviceState {
    /// The state of a device that has never been commanded: zero point 0,
    /// raw angle 171 degrees.
    pub fn initial(description: Vec<u8>, timestamp: Vec<u8>) -> (state: DeviceState)
        ensures
            state@ == initial_model(description@, timestamp@),
    {
        DeviceState {
            description,
            zero_point: Fixed { nanos: 0 },
            raw_angle: Fixed { nanos: DEFAULT_RAW_ANGLE },
            timestamp,
        }
    }

    /// Carries out one command. On failure the state is left as it was.
    pub fn apply(&mut self, command: TiltCommand) -> (result: Result<TiltOutcome, DeviceError>)
        ensures
            accepts(old(self)@, command) <==> result is Ok,
            result is Ok ==> {
                &&& final(self)@ == state_after(old(self)@, command)
                &&& result->Ok_0.frame == frame_of(command)
                &&& result->Ok_0.angle@ == answer_to(old(self)@, command)
            },
            result is Err ==> {
                &&& final(self)@ == old(self)@
                &&& result->Err_0 == DeviceError::OutOfRange
            },
    {
        match command {
            TiltCommand::GetAngle(a) | TiltCommand::SetAngle(a) => {
                match a.checked_add(self.zero_point) {
                    Some(raw) => {
                        self.raw_angle = raw;
                        Ok(TiltOutcome { frame: Frame::Absolute, angle: a })
                    },
                    None => Err(DeviceError::OutOfRange),
                }
            },
            TiltCommand::GetRaw => Ok(TiltOutcome { frame: Frame::Raw, angle: self.raw_angle }),
            TiltCommand::SetRaw(a) => {
                self.raw_angle = a;
                Ok(TiltOutcome { frame: Frame::Raw, angle: a })
            },
            TiltCommand::Zero => {
                self.zero_point = self.raw_angle;
                Ok(TiltOutcome { frame: Frame::Zero, angle: self.zero_point })
            },
            TiltCommand::GetZero => Ok(TiltOutcome { frame: Frame::Zero, angle: self.zero_point }),
            TiltCommand::SetZero(a) => {
                self.zero_point = a;
                Ok(TiltOutcome { frame: Frame::Zero, angle: a })
            },
        }
    }
}

/// The state on which a command found `file` acts: the stored one, or the
/// initial one where nothing is stored.
pub open spec fn state_found(
    file: StateFile,
    description: Seq<u8>,
    timestamp: Seq<u8>,
) -> DeviceModel {
    match file {
        StateFile::Loaded(state) => state@,
        _ => initial_model(description, timestamp),
    }
}

/// One command against a simulated device.
///
/// `file` is what the caller found in the device's file; `description` and
/// `timestamp` label the state that is created where nothing was stored. On
/// success the first component is the state to write back, the second the
/// device's answer. A corrupt file is never repaired and never overwritten:
/// the command fails.
pub fn simulate(
    file: StateFile,
    command: TiltCommand,
    description: Vec<u8>,
    timestamp: Vec<u8>,
) -> (result: Result<(DeviceState, TiltOutcome), DeviceError>)
    ensures
        result is Ok <==> !(file is Corrupt) && accepts(
            state_found(file, description@, timestamp@),
            command,
        ),
        result is Ok ==> {
            &&& result->Ok_0.0@ == state_after(
                state_found(file, description@, timestamp@),
                command,
            )
            &&& result->Ok_0.1.frame == frame_of(command)
            &&& result->Ok_0.1.angle@ == answer_to(
                state_found(file, description@, timestamp@),
                command,
            )
        },
        result is Err ==> result->Err_0 == (if file is Corrupt {
            DeviceError::CorruptState
        } else {
            DeviceError::OutOfRange
        }),
{
    let mut state = match file {
        StateFile::Missing => DeviceState::initial(description, timestamp),
        StateFile::Corrupt => {
            return Err(DeviceError::CorruptState);
        },
        StateFile::Loaded(state) => state,
    };
    match state.apply(command) {
        Ok(outcome) => Ok((state, outcome)),
        Err(e) => Err(e),
    }
}

/// A `GetAngle` answers with exactly the angle it was given, whatever the zero
/// point, and the raw angle it leaves behind is that angle above the zero
/// point.
pub proof fn law_get_returns_commanded_angle(before: DeviceModel, angle: Fixed)
    ensures
        answer_to(before, TiltCommand::GetAngle(angle)) == angle@,
        state_after(before, TiltCommand::GetAngle(angle)).raw_angle - before.zero_point == angle@,
        state_after(before, TiltCommand::GetAngle(angle)).zero_point == before.zero_point,
{
}

/// `Zero` makes the raw angle it finds the new zero point, answers with that
/// value, and leaves the raw angle alone.
pub proof fn law_zero_adopts_raw_angle(before: DeviceModel)
    ensures
        state_after(before, TiltCommand::Zero).zero_point == before.raw_angle,
        answer_to(before, TiltCommand::Zero) == before.raw_angle,
        state_after(before, TiltCommand::Zero).raw_angle == before.raw_angle,
        accepts(before, TiltCommand::Zero) <==> representable(before.raw_angle),
{
}

/// The three queries leave the state as they find it, and each answers
/// with what the state holds.
pub proof fn law_queries_change_nothing(before: DeviceModel)
    ensures
        state_after(before, TiltCommand::GetRaw) == before,
        state_after(before, TiltCommand::GetZero) == before,
        answer_to(before, TiltCommand::GetRaw) == before.raw_angle,
        answer_to(before, TiltCommand::GetZero) == before.zero_point,
{
}

} // verus!
