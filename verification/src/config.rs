//! Fan configuration: the temperature-to-speed curve and the fan parameters,
//! with the well-formedness conditions a configuration must satisfy before the
//! control loop may use it.

use vstd::prelude::*;

verus! {

/// Highest speed the device accepts, in RPM.
pub const RPM_MAX: u64 = 5500;

/// Granularity of speed commands, in RPM: every commanded speed is a multiple
/// of this step.
pub const FAN_SPEED_STEP: u64 = 500;

/// Pause between two consecutive speed commands of a ramp, in milliseconds.
pub const SPEED_CHANGE_DELAY_MS: u64 = 1000;

/// Cadence of the temperature sampler, in milliseconds.
pub const DATA_FETCHER_FREQ_MS: u64 = 1000;

/// One point of the curve: at `temp` degrees and above (up to the next point)
/// the fan should run at `speed` RPM.
#[derive(Clone, Copy, PartialEq, Eq, Structural, Debug)]
pub struct CurvePoint {
    pub temp: i32,
    pub speed: u64,
}

/// The fan-specific parameters: speed range and quantization, ramp pacing,
/// and the hysteresis knobs of the evaluator.
#[derive(Clone, Copy, PartialEq, Eq, Structural, Debug)]
pub struct FanConfig {
    /// Highest speed the device accepts.
    pub max_speed: u64,
    /// Every target speed must be a multiple of this step; one ramp command
    /// moves the speed by at most this much. Always positive.
    pub step_size: u64,
    /// Pause between two consecutive ramp commands, in milliseconds.
    pub step_delay_ms: u64,
    /// A candidate target is accepted only if it differs from the last
    /// commanded speed by more than this margin, or the dwell time has passed.
    pub hysteresis_margin: u64,
    /// Minimum time between accepted target changes, in milliseconds, unless
    /// the candidate clears the margin.
    pub min_dwell_ms: u64,
}

/// A complete configuration: the fan parameters and the curve.
pub struct Config {
    pub fan: FanConfig,
    pub curve: Vec<CurvePoint>,
}

/// A curve is well formed when it is non-empty, its temperatures are strictly
/// increasing, and each speed is a valid quantized speed for the fan.
pub open spec fn curve_wf(curve: Seq<CurvePoint>, fan: FanConfig) -> bool {
    &&& curve.len() > 0
    &&& forall|i: int, j: int|
        0 <= i < j < curve.len() ==> curve[i].temp < curve[j].temp
    &&& forall|i: int|
        0 <= i < curve.len() ==> (#[trigger] curve[i].speed) <= fan.max_speed
    &&& forall|i: int|
        0 <= i < curve.len() ==> (#[trigger] curve[i].speed) % fan.step_size == 0
}

impl FanConfig {
    /// The fan parameters are well formed when the step is positive, so a ramp
    /// makes progress, and the maximum is itself a quantized speed.
    pub open spec fn wf(self) -> bool {
        &&& self.step_size > 0
        &&& self.max_speed % self.step_size == 0
    }

    /// The parameters of the reference device: 0..=5500 RPM in steps of 500,
    /// one command per second, and no extra hysteresis beyond the step pacing.
    pub fn for_reference_device() -> (fan: FanConfig)
        ensures
            fan == (FanConfig {
                max_speed: RPM_MAX,
                step_size: FAN_SPEED_STEP,
                step_delay_ms: SPEED_CHANGE_DELAY_MS,
                hysteresis_margin: 0,
                min_dwell_ms: 0,
            }),
            fan.wf(),
    {
        proof {
            assert(RPM_MAX % FAN_SPEED_STEP == 0) by (nonlinear_arith);
        }
        FanConfig {
            max_speed: RPM_MAX,
            step_size: FAN_SPEED_STEP,
            step_delay_ms: SPEED_CHANGE_DELAY_MS,
            hysteresis_margin: 0,
            min_dwell_ms: 0,
        }
    }
}

impl Config {
    /// A configuration is usable by the control loop only when both the fan
    /// parameters and the curve are well formed.
    pub open spec fn wf(self) -> bool {
        &&& self.fan.wf()
        &&& curve_wf(self.curve@, self.fan)
    }

    /// Decides whether this configuration is well formed. A malformed or
    /// unsorted configuration must be rejected at load time; this is the
    /// check that load-time validation runs.
    pub fn validate(&self) -> (ok: bool)
        ensures
            ok == self.wf(),
    {
        if self.fan.step_size == 0 {
            return false;
        }
        if self.fan.max_speed % self.fan.step_size != 0 {
            return false;
        }
        if self.curve.len() == 0 {
            return false;
        }
        let mut i: usize = 0;
        while i < self.curve.len()
            invariant
                0 <= i <= self.curve@.len(),
                self.fan.step_size > 0,
                forall|p: int, q: int|
                    0 <= p < q < i ==> self.curve@[p].temp < self.curve@[q].temp,
                forall|p: int|
                    0 <= p < i ==> (#[trigger] self.curve@[p].speed) <= self.fan.max_speed,
                forall|p: int|
                    0 <= p < i ==> (#[trigger] self.curve@[p].speed) % self.fan.step_size == 0,
            decreases self.curve@.len() - i,
        {
            if self.curve[i].speed > self.fan.max_speed {
                return false;
            }
            if self.curve[i].speed % self.fan.step_size != 0 {
                return false;
            }
            if i > 0 && self.curve[i - 1].temp >= self.curve[i].temp {
                return false;
            }
            i = i + 1;
        }
        true
    }
}

} // verus!
