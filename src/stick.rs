//! Two-axis analog stick used as a pointer: calibration at rest, deadzone
//! and linear mapping of raw reads to motion deltas.
use vstd::prelude::*;

use crate::calibration::{clamp_i32, linear, linear_value, round_ratio, scaled_by, Scale};
use crate::gate::ReadinessGate;
use crate::model::{MouseConfig, MouseMotion};

verus! {

/// Raw reads closer to the rest position than this map to zero.
pub const DEADZONE_RADIUS: u16 = 50;

/// The output magnitude that a deflection equal to the rest read maps to.
pub const STICK_OUTPUT_SCALE: u32 = 20;

/// The offset that brings the rest read to zero.
pub const STICK_OFFSET: i32 = -20;

/// The number of idle samples per axis that calibration averages.
pub const CALIBRATION_SAMPLES: usize = 10;

/// Per-axis linear mapping `round(m * read) + b`, with the rest reads that
/// define the deadzone.
#[derive(Clone, Copy, Debug, PartialEq, Eq, Structural)]
pub struct StickCalibration {
    pub x_b: i32,
    pub y_b: i32,
    pub x_m: Scale,
    pub y_m: Scale,
    pub x_zero_read: u16,
    pub y_zero_read: u16,
}

/// The calibration derived from rest reads: the rest read maps to zero and a
/// read of twice the rest read maps to the output scale.
pub open spec fn calibrated(x_zero: u16, y_zero: u16) -> StickCalibration {
    StickCalibration {
        x_b: STICK_OFFSET,
        y_b: STICK_OFFSET,
        x_m: Scale { num: STICK_OUTPUT_SCALE, den: x_zero as u32 },
        y_m: Scale { num: STICK_OUTPUT_SCALE, den: y_zero as u32 },
        x_zero_read: x_zero,
        y_zero_read: y_zero,
    }
}

/// One calibrated axis: zero inside the deadzone, the linear mapping outside.
pub open spec fn axis_value(read: int, zero: int, m: Scale, b: int) -> int {
    if zero - DEADZONE_RADIUS < read < zero + DEADZONE_RADIUS {
        0
    } else {
        linear(read, m, b)
    }
}

pub open spec fn stick_motion(c: StickCalibration, x: u16, y: u16) -> MouseMotion {
    MouseMotion {
        x: axis_value(x as int, c.x_zero_read as int, c.x_m, c.x_b as int) as i32,
        y: axis_value(y as int, c.y_zero_read as int, c.y_m, c.y_b as int) as i32,
    }
}

pub open spec fn sensitized(m: MouseMotion, cfg: MouseConfig) -> MouseMotion {
    MouseMotion { x: clamp_i32(m.x * cfg.x_sen) as i32, y: clamp_i32(m.y * cfg.y_sen) as i32 }
}

impl StickCalibration {
    pub open spec fn wf(self) -> bool {
        self.x_m.wf() && self.y_m.wf()
    }

    pub fn new(x_b: i32, y_b: i32, x_m: Scale, y_m: Scale, x_zero_read: u16, y_zero_read: u16) -> (r: StickCalibration)
        ensures
            r == (StickCalibration { x_b, y_b, x_m, y_m, x_zero_read, y_zero_read }),
    {
        StickCalibration { x_b, y_b, x_m, y_m, x_zero_read, y_zero_read }
    }

    /// The calibration for the given rest reads; a rest read of zero gives
    /// no slope and is refused.
    pub fn calibrate(x_zero_read: u16, y_zero_read: u16) -> (r: StickCalibration)
        requires
            x_zero_read > 0,
            y_zero_read > 0,
        ensures
            r == calibrated(x_zero_read, y_zero_read),
            r.wf(),
    {
        StickCalibration::new(
            STICK_OFFSET,
            STICK_OFFSET,
            Scale::new(STICK_OUTPUT_SCALE, x_zero_read as u32),
            Scale::new(STICK_OUTPUT_SCALE, y_zero_read as u32),
            x_zero_read,
            y_zero_read,
        )
    }
}

/// Maps one raw read of one axis.
pub fn axis_output(read: u16, zero: u16, m: Scale, b: i32) -> (r: i32)
    requires
        m.wf(),
    ensures
        r == axis_value(read as int, zero as int, m, b as int),
{
    let lo: i32 = zero as i32 - DEADZONE_RADIUS as i32;
    let hi: i32 = zero as i32 + DEADZONE_RADIUS as i32;
    if lo < read as i32 && (read as i32) < hi {
        0
    } else {
        linear_value(read, m, b)
    }
}

/// A pair of raw reads with the calibration to apply to them.
#[derive(Clone, Copy, Debug)]
pub struct StickRead {
    pub x_read: u16,
    pub y_read: u16,
    pub calibration: StickCalibration,
}

impl StickRead {
    pub fn new(x_read: u16, y_read: u16, calibration: StickCalibration) -> (r: StickRead)
        ensures
            r.x_read == x_read,
            r.y_read == y_read,
            r.calibration == calibration,
    {
        StickRead { x_read, y_read, calibration }
    }

    /// The motion these reads stand for.
    pub fn to_motion(&self) -> (r: MouseMotion)
        requires
            self.calibration.wf(),
        ensures
            r == stick_motion(self.calibration, self.x_read, self.y_read),
    {
        let c = self.calibration;
        MouseMotion {
            x: axis_output(self.x_read, c.x_zero_read, c.x_m, c.x_b),
            y: axis_output(self.y_read, c.y_zero_read, c.y_m, c.y_b),
        }
    }

    /// The reads with the state of the stick's click button.
    pub fn to_mouse_read(&self, click_read: bool) -> (r: MouseRead)
        requires
            self.calibration.wf(),
        ensures
            r.x_read == stick_motion(self.calibration, self.x_read, self.y_read).x,
            r.y_read == stick_motion(self.calibration, self.x_read, self.y_read).y,
            r.click_read == click_read,
    {
        let m = self.to_motion();
        MouseRead::new(m.x, m.y, click_read)
    }
}

/// Applies the per-axis sensitivity of a pointer configuration.
pub fn apply_sensitivity(m: MouseMotion, cfg: MouseConfig) -> (r: MouseMotion)
    ensures
        r == sensitized(m, cfg),
{
    MouseMotion { x: scaled_by(m.x, cfg.x_sen), y: scaled_by(m.y, cfg.y_sen) }
}

/// A pointer report of a stick with a click button.
#[derive(Clone, Copy, Debug, Default, PartialEq, Eq, Structural)]
pub struct MouseRead {
    pub x_read: i32,
    pub y_read: i32,
    pub click_read: bool,
}

impl MouseRead {
    pub fn new(x_read: i32, y_read: i32, click_read: bool) -> (r: MouseRead)
        ensures
            r == (MouseRead { x_read, y_read, click_read }),
    {
        MouseRead { x_read, y_read, click_read }
    }

    pub fn reads(self) -> (r: (i32, i32, bool))
        ensures
            r == (self.x_read, self.y_read, self.click_read),
    {
        (self.x_read, self.y_read, self.click_read)
    }
}

/// The sum of a sequence of raw reads.
pub open spec fn sum_reads(s: Seq<u16>) -> int
    decreases s.len(),
{
    if s.len() == 0 {
        0
    } else {
        sum_reads(s.drop_last()) + s.last()
    }
}

/// The mean of raw reads, rounded down.
pub open spec fn mean_read(s: Seq<u16>) -> int {
    sum_reads(s) / (s.len() as int)
}

proof fn lemma_sum_reads_bound(s: Seq<u16>)
    ensures
        0 <= sum_reads(s) <= 65535 * s.len(),
    decreases s.len(),
{
    if s.len() > 0 {
        lemma_sum_reads_bound(s.drop_last());
    }
}

/// The mean of raw reads, rounded down.
pub fn mean(samples: &Vec<u16>) -> (r: u16)
    requires
        samples@.len() > 0,
        samples@.len() <= 0x1_0000_0000_0000,
    ensures
        r == mean_read(samples@),
{
    let mut total: u64 = 0;
    let mut i: usize = 0;
    while i < samples.len()
        invariant
            i <= samples@.len() <= 0x1_0000_0000_0000,
            total == sum_reads(samples@.subrange(0, i as int)),
        decreases samples@.len() - i,
    {
        proof {
            lemma_sum_reads_bound(samples@.subrange(0, i as int));
            assert(samples@.subrange(0, i + 1).drop_last() =~= samples@.subrange(0, i as int));
        }
        total = total + samples[i] as u64;
        i = i + 1;
    }
    proof {
        assert(samples@.subrange(0, samples@.len() as int) =~= samples@);
        lemma_sum_reads_bound(samples@);
        assert((total as int) / (samples@.len() as int) <= 65535) by (nonlinear_arith)
            requires
                total <= 65535 * samples@.len(),
                samples@.len() > 0,
        ;
    }
    (total / samples.len() as u64) as u16
}

/// The phase of a stick: waiting for rest samples, then reading.
#[derive(Clone, Copy, Debug, PartialEq, Eq, Structural)]
pub enum StickState {
    Calibrating,
    Reading(StickCalibration),
}

/// A pointer stick and the sensitivity applied to its motion.
#[derive(Clone, Copy, Debug)]
pub struct StickSampler {
    pub state: StickState,
    pub config: MouseConfig,
}

/// The state that rest samples lead to: reading with the calibration of
/// their means, or still calibrating where a mean is zero.
pub open spec fn calibration_outcome(xs: Seq<u16>, ys: Seq<u16>) -> StickState {
    if mean_read(xs) > 0 && mean_read(ys) > 0 {
        StickState::Reading(calibrated(mean_read(xs) as u16, mean_read(ys) as u16))
    } else {
        StickState::Calibrating
    }
}

/// What a stick in reading state reports for a pair of reads: the
/// sensitized motion, unless both components are zero.
pub open spec fn stick_report(c: StickCalibration, cfg: MouseConfig, x: u16, y: u16) -> Option<MouseMotion> {
    let m = sensitized(stick_motion(c, x, y), cfg);
    if m.x != 0 || m.y != 0 {
        Some(m)
    } else {
        None
    }
}

impl StickSampler {
    pub open spec fn wf(self) -> bool {
        self.state matches StickState::Reading(c) ==> c.wf()
    }

    /// A stick that has not been calibrated yet.
    pub fn new(config: MouseConfig) -> (r: StickSampler)
        ensures
            r.state == StickState::Calibrating,
            r.config == config,
            r.wf(),
    {
        StickSampler { state: StickState::Calibrating, config }
    }

    /// Calibrates from samples taken at rest; a calibration, once made, is
    /// kept.
    pub fn calibrate(&mut self, xs: &Vec<u16>, ys: &Vec<u16>)
        requires
            old(self).state == StickState::Calibrating,
            0 < xs@.len() <= 0x1_0000_0000_0000,
            0 < ys@.len() <= 0x1_0000_0000_0000,
        ensures
            final(self).state == calibration_outcome(xs@, ys@),
            final(self).config == old(self).config,
            final(self).wf(),
    {
        let x_zero = mean(xs);
        let y_zero = mean(ys);
        if x_zero > 0 && y_zero > 0 {
            self.state = StickState::Reading(StickCalibration::calibrate(x_zero, y_zero));
        } else {
            self.state = StickState::Calibrating;
        }
    }

    /// The motion to report for one pair of reads, if any.
    pub fn read(&self, x: u16, y: u16) -> (r: Option<MouseMotion>)
        requires
            self.wf(),
        ensures
            r == match self.state {
                StickState::Calibrating => None,
                StickState::Reading(c) => stick_report(c, self.config, x, y),
            },
    {
        match self.state {
            StickState::Calibrating => None,
            StickState::Reading(c) => {
                let m = apply_sensitivity(StickRead::new(x, y, c).to_motion(), self.config);
                if m.x != 0 || m.y != 0 {
                    Some(m)
                } else {
                    None
                }
            },
        }
    }

    /// One tick behind the readiness latch. While it is closed nothing is
    /// read and nothing is reported. Once open, a stick that is still
    /// calibrating calibrates from the samples of this tick, and a
    /// calibrated stick reports the first pair of them.
    pub fn tick(&mut self, gate: &ReadinessGate, xs: &Vec<u16>, ys: &Vec<u16>) -> (r: Option<MouseMotion>)
        requires
            old(self).wf(),
            0 < xs@.len() <= 0x1_0000_0000_0000,
            0 < ys@.len() <= 0x1_0000_0000_0000,
        ensures
            final(self).wf(),
            final(self).config == old(self).config,
            !gate@ ==> r is None && final(self).state == old(self).state,
            gate@ && old(self).state == StickState::Calibrating ==> r is None && final(self).state
                == calibration_outcome(xs@, ys@),
            gate@ && old(self).state is Reading ==> final(self).state == old(self).state && r == stick_report(
                old(self).state->Reading_0,
                old(self).config,
                xs@[0],
                ys@[0],
            ),
    {
        if !gate.is_ready() {
            return None;
        }
        match self.state {
            StickState::Calibrating => {
                self.calibrate(xs, ys);
                None
            },
            StickState::Reading(_) => self.read(xs[0], ys[0]),
        }
    }
}

/// Calibration depends on the rest samples only through their means, and a
/// read equal to the rest read then maps to zero: the stick reports nothing.
pub proof fn lemma_rest_read_maps_to_zero(xs: Seq<u16>, ys: Seq<u16>, xs2: Seq<u16>, ys2: Seq<u16>, cfg: MouseConfig)
    requires
        xs.len() > 0,
        ys.len() > 0,
        xs2.len() > 0,
        ys2.len() > 0,
        mean_read(xs) > 0,
        mean_read(ys) > 0,
        mean_read(xs2) == mean_read(xs),
        mean_read(ys2) == mean_read(ys),
    ensures
        calibration_outcome(xs2, ys2) == calibration_outcome(xs, ys),
        calibration_outcome(xs, ys) matches StickState::Reading(c) && stick_motion(
            c,
            c.x_zero_read,
            c.y_zero_read,
        ) == (MouseMotion { x: 0, y: 0 }) && stick_report(c, cfg, c.x_zero_read, c.y_zero_read) is None,
{
    lemma_sum_reads_bound(xs);
    lemma_sum_reads_bound(ys);
    assert(mean_read(xs) <= 65535 && mean_read(ys) <= 65535) by {
        assert(sum_reads(xs) / (xs.len() as int) <= 65535) by (nonlinear_arith)
            requires
                0 <= sum_reads(xs) <= 65535 * xs.len(),
                xs.len() > 0,
        ;
        assert(sum_reads(ys) / (ys.len() as int) <= 65535) by (nonlinear_arith)
            requires
                0 <= sum_reads(ys) <= 65535 * ys.len(),
                ys.len() > 0,
        ;
    }
    let c = calibrated(mean_read(xs) as u16, mean_read(ys) as u16);
    assert(stick_motion(c, c.x_zero_read, c.y_zero_read) == MouseMotion { x: 0, y: 0 });
    assert(0 * cfg.x_sen == 0 && 0 * cfg.y_sen == 0) by (nonlinear_arith);
    assert(sensitized(MouseMotion { x: 0, y: 0 }, cfg) == MouseMotion { x: 0, y: 0 });
}

/// One stick axis calibrated at rest read `z`: reads within the deadzone
/// radius minus one of `z` map to zero; reads at the radius follow the
/// linear formula, and are non-zero for rest reads below 2000.
pub proof fn lemma_deadzone_boundary(z: u16)
    requires
        DEADZONE_RADIUS <= z,
        z + DEADZONE_RADIUS <= u16::MAX,
    ensures
        ({
            let c = calibrated(z, z);
            let r = DEADZONE_RADIUS as int;
            &&& axis_value(z + r - 1, z as int, c.x_m, c.x_b as int) == 0
            &&& axis_value(z - r + 1, z as int, c.x_m, c.x_b as int) == 0
            &&& axis_value(z + r, z as int, c.x_m, c.x_b as int) == round_ratio(
                STICK_OUTPUT_SCALE * (z + r),
                z as int,
            ) + STICK_OFFSET
            &&& axis_value(z - r, z as int, c.x_m, c.x_b as int) == round_ratio(
                STICK_OUTPUT_SCALE * (z - r),
                z as int,
            ) + STICK_OFFSET
            &&& z < 2000 ==> axis_value(z + r, z as int, c.x_m, c.x_b as int) > 0
            &&& z < 2000 ==> axis_value(z - r, z as int, c.x_m, c.x_b as int) < 0
        }),
{
    let zi = z as int;
    let d = 2 * zi;
    let hi = 2 * (20 * (zi + 50)) + zi;
    let lo = 2 * (20 * (zi - 50)) + zi;
    vstd::arithmetic::div_mod::lemma_fundamental_div_mod(hi, d);
    vstd::arithmetic::div_mod::lemma_fundamental_div_mod(lo, d);
    let qh = hi / d;
    let ql = lo / d;
    assert(0 <= qh <= 21 + 2000) by (nonlinear_arith)
        requires
            hi == d * qh + hi % d,
            0 <= hi % d < d,
            d == 2 * zi,
            zi >= 50,
            hi == 41 * zi + 2000,
    ;
    assert(0 <= ql <= 21) by (nonlinear_arith)
        requires
            lo == d * ql + lo % d,
            0 <= lo % d < d,
            d == 2 * zi,
            zi >= 50,
            lo == 41 * zi - 2000,
    ;
    if z < 2000 {
        assert(qh >= 21) by (nonlinear_arith)
            requires
                hi == d * qh + hi % d,
                0 <= hi % d < d,
                d == 2 * zi,
                50 <= zi < 2000,
                hi == 41 * zi + 2000,
        ;
        assert(ql <= 19) by (nonlinear_arith)
            requires
                lo == d * ql + lo % d,
                0 <= lo % d < d,
                d == 2 * zi,
                50 <= zi < 2000,
                lo == 41 * zi - 2000,
        ;
    }
}

} // verus!
