//! Single analog gamepad axis: fixed linear scaling and step throttling.
use vstd::prelude::*;

use crate::calibration::{linear, linear_value, Scale};
use crate::gate::ReadinessGate;
use crate::model::{Axis, AxisReport};

verus! {

/// The largest raw read expected from an axis.
pub const ADC_MAX_READ: u16 = 3000;

/// A new value is reported only when it differs from the last reported one
/// by more than this.
pub const COMPARE_STEP: u16 = 500;

/// The mapping `round(m * read) + b` of an axis.
#[derive(Clone, Copy, Debug, PartialEq, Eq, Structural)]
pub struct AxisCalibration {
    pub b: i32,
    pub m: Scale,
}

/// The slope that spreads the expected raw range over `i16`:
/// `i16::MAX / ADC_MAX_READ` in integer division, with no offset.
pub open spec fn axis_calibration() -> AxisCalibration {
    AxisCalibration { b: 0, m: Scale { num: (i16::MAX / (ADC_MAX_READ as i16)) as u32, den: 1 } }
}

impl AxisCalibration {
    pub open spec fn wf(self) -> bool {
        self.m.wf()
    }

    pub fn new(b: i32, m: Scale) -> (r: AxisCalibration)
        ensures
            r == (AxisCalibration { b, m }),
    {
        AxisCalibration { b, m }
    }

    /// The fixed calibration of a gamepad axis.
    pub fn standard() -> (r: AxisCalibration)
        ensures
            r == axis_calibration(),
            r.wf(),
    {
        AxisCalibration::new(0, Scale::new((i16::MAX / ADC_MAX_READ as i16) as u32, 1))
    }
}

/// A raw read of an axis with the calibration to apply to it.
#[derive(Clone, Copy, Debug)]
pub struct AxisRead {
    pub read: u16,
    pub axis: Axis,
    pub calibration: AxisCalibration,
}

pub open spec fn axis_scaled(c: AxisCalibration, read: u16) -> int {
    linear(read as int, c.m, c.b as int)
}

impl AxisRead {
    pub fn new(read: u16, axis: Axis, calibration: AxisCalibration) -> (r: AxisRead)
        ensures
            r.read == read,
            r.axis == axis,
            r.calibration == calibration,
    {
        AxisRead { read, axis, calibration }
    }

    /// The scaled value of this read.
    pub fn to_report(&self) -> (r: AxisReport)
        requires
            self.calibration.wf(),
        ensures
            r.axis == self.axis,
            r.value == axis_scaled(self.calibration, self.read),
    {
        AxisReport { axis: self.axis, value: linear_value(self.read, self.calibration.m, self.calibration.b) }
    }
}

/// The phase of an axis: waiting for its first read, then reading.
#[derive(Clone, Copy, Debug, PartialEq, Eq, Structural)]
pub enum AxisState {
    Calibrating,
    Reading(AxisCalibration),
}

/// One gamepad axis and the raw read whose value was last reported.
#[derive(Clone, Copy, Debug)]
pub struct AxisSampler {
    pub axis: Axis,
    pub state: AxisState,
    pub last_read: u16,
}

/// `|a - b|`.
pub open spec fn distance(a: int, b: int) -> int {
    if a >= b {
        a - b
    } else {
        b - a
    }
}

impl AxisSampler {
    pub open spec fn wf(self) -> bool {
        self.state matches AxisState::Reading(c) ==> c.wf()
    }

    pub fn new(axis: Axis) -> (r: AxisSampler)
        ensures
            r.axis == axis,
            r.state == AxisState::Calibrating,
            r.last_read == 0,
            r.wf(),
    {
        AxisSampler { axis, state: AxisState::Calibrating, last_read: 0 }
    }

    /// Takes the first read as the starting point and starts reading.
    pub fn calibrate(&mut self, first: u16)
        ensures
            final(self).axis == old(self).axis,
            final(self).state == AxisState::Reading(axis_calibration()),
            final(self).last_read == first,
            final(self).wf(),
    {
        self.state = AxisState::Reading(AxisCalibration::standard());
        self.last_read = first;
    }

    /// The report for one raw read, if its value moved more than the
    /// step away from the last reported value.
    pub fn read(&mut self, raw: u16) -> (r: Option<AxisReport>)
        requires
            old(self).wf(),
        ensures
            final(self).axis == old(self).axis,
            final(self).state == old(self).state,
            final(self).wf(),
            match old(self).state {
                AxisState::Calibrating => r is None && final(self).last_read == old(self).last_read,
                AxisState::Reading(c) => if distance(
                    axis_scaled(c, raw),
                    axis_scaled(c, old(self).last_read),
                ) > COMPARE_STEP {
                    r == Some(AxisReport { axis: old(self).axis, value: axis_scaled(c, raw) as i32 })
                        && final(self).last_read == raw
                } else {
                    r is None && final(self).last_read == old(self).last_read
                },
            },
    {
        match self.state {
            AxisState::Calibrating => None,
            AxisState::Reading(c) => {
                let now = AxisRead::new(raw, self.axis, c).to_report();
                let before = AxisRead::new(self.last_read, self.axis, c).to_report();
                let diff: i64 = if now.value >= before.value {
                    now.value as i64 - before.value as i64
                } else {
                    before.value as i64 - now.value as i64
                };
                if diff > COMPARE_STEP as i64 {
                    self.last_read = raw;
                    Some(now)
                } else {
                    None
                }
            },
        }
    }

    /// One tick behind the readiness latch. While it is closed nothing is
    /// read and nothing is reported. Once open, an axis that is still
    /// calibrating takes this read as its starting point, and a calibrated
    /// axis reads it.
    pub fn tick(&mut self, gate: &ReadinessGate, raw: u16) -> (r: Option<AxisReport>)
        requires
            old(self).wf(),
        ensures
            final(self).wf(),
            final(self).axis == old(self).axis,
            !gate@ ==> r is None && final(self).state == old(self).state && final(self).last_read == old(self).last_read,
            gate@ && old(self).state == AxisState::Calibrating ==> r is None && final(self).state == AxisState::Reading(
                axis_calibration(),
            ) && final(self).last_read == raw,
            gate@ && old(self).state is Reading ==> final(self).state == old(self).state && ({
                let c = old(self).state->Reading_0;
                if distance(axis_scaled(c, raw), axis_scaled(c, old(self).last_read)) > COMPARE_STEP {
                    r == Some(AxisReport { axis: old(self).axis, value: axis_scaled(c, raw) as i32 })
                        && final(self).last_read == raw
                } else {
                    r is None && final(self).last_read == old(self).last_read
                }
            }),
    {
        if !gate.is_ready() {
            return None;
        }
        match self.state {
            AxisState::Calibrating => {
                self.calibrate(raw);
                None
            },
            AxisState::Reading(_) => self.read(raw),
        }
    }
}

} // verus!
