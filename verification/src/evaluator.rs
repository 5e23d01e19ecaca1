//! The curve evaluator: maps a temperature reading plus the hysteresis state
//! to a target speed. Pure decision logic: no I/O, no clock of its own; the
//! caller supplies the reading and the current time.

use vstd::prelude::*;
use crate::config::Config;
use crate::config::CurvePoint;
use crate::config::FanConfig;
use crate::config::curve_wf;

verus! {

/// One temperature sample: a whole-degree value, or the sentinel for a sample
/// the sensor could not deliver.
#[derive(Clone, Copy, PartialEq, Eq, Structural, Debug)]
pub enum TemperatureReading {
    Degrees(i32),
    Unavailable,
}

/// The evaluator's memory between decision cycles: the last accepted reading,
/// the last commanded target and when it was committed. Exactly one instance
/// exists per controlled fan, updated only by an accepted decision.
#[derive(Clone, Copy, PartialEq, Eq, Structural, Debug)]
pub struct HysteresisState {
    /// False until the first target has been accepted.
    pub has_prior: bool,
    /// Temperature of the last accepted decision, in whole degrees.
    pub last_temp: i32,
    /// Target speed of the last accepted decision.
    pub last_speed: u64,
    /// Time of the last accepted decision, in milliseconds.
    pub last_change_at: u64,
}

impl HysteresisState {
    /// The state at control-loop start: no prior reading, the fan treated as
    /// stopped, so the first valid reading always commits a target.
    pub fn start() -> (st: HysteresisState)
        ensures
            st == (HysteresisState {
                has_prior: false,
                last_temp: 0,
                last_speed: 0,
                last_change_at: 0,
            }),
    {
        HysteresisState { has_prior: false, last_temp: 0, last_speed: 0, last_change_at: 0 }
    }
}

/// Index of the curve point the lookup selects for temperature `t`: the last
/// point whose threshold is at or below `t`, and the first point when `t`
/// lies below every threshold.
pub open spec fn lookup_idx(curve: Seq<CurvePoint>, t: int) -> int
    decreases curve.len(),
{
    if curve.len() <= 1 {
        0
    } else if curve.last().temp <= t {
        curve.len() - 1
    } else {
        lookup_idx(curve.drop_last(), t)
    }
}

/// The speed the curve assigns to temperature `t`: the step function through
/// the curve points.
pub open spec fn lookup_speed(curve: Seq<CurvePoint>, t: int) -> u64 {
    curve[lookup_idx(curve, t)].speed
}

/// What `lookup_idx` selects, characterized without the recursion: the index
/// is in range, every later point lies strictly above `t`, and a nonzero
/// index is only selected when its threshold is at or below `t`.
pub proof fn lemma_lookup_idx_props(curve: Seq<CurvePoint>, t: int)
    requires
        curve.len() > 0,
    ensures
        0 <= lookup_idx(curve, t) < curve.len(),
        forall|j: int| lookup_idx(curve, t) < j < curve.len() ==> (#[trigger] curve[j].temp) > t,
        lookup_idx(curve, t) > 0 ==> curve[lookup_idx(curve, t)].temp <= t,
    decreases curve.len(),
{
    if curve.len() <= 1 {
    } else if curve.last().temp <= t {
    } else {
        lemma_lookup_idx_props(curve.drop_last(), t);
        assert forall|j: int| lookup_idx(curve, t) < j < curve.len() implies (#[trigger] curve[j].temp)
            > t by {
            if j < curve.len() - 1 {
                assert(curve[j] == curve.drop_last()[j]);
            }
        }
        if lookup_idx(curve, t) > 0 {
            assert(curve[lookup_idx(curve, t)] == curve.drop_last()[lookup_idx(curve, t)]);
        }
    }
}

/// Below the lowest threshold the lookup yields the first point's speed; at
/// or above the highest threshold, the last point's speed.
pub proof fn lemma_lookup_extremes(curve: Seq<CurvePoint>, fan: FanConfig, t: int)
    requires
        curve_wf(curve, fan),
    ensures
        t < curve[0].temp ==> lookup_speed(curve, t) == curve[0].speed,
        t >= curve.last().temp ==> lookup_speed(curve, t) == curve.last().speed,
{
    lemma_lookup_idx_props(curve, t);
    let k = lookup_idx(curve, t);
    if t < curve[0].temp {
        if k > 0 {
            assert(curve[k].temp <= t);
            assert(curve[0].temp < curve[k].temp);
        }
    }
    if t >= curve.last().temp {
        if k < curve.len() - 1 {
            assert(curve[curve.len() - 1].temp > t);
        }
    }
}

/// A reading exactly at a threshold selects that threshold's own speed: the
/// boundary tie-break is deterministic and stable.
pub proof fn lemma_lookup_at_threshold(curve: Seq<CurvePoint>, fan: FanConfig, i: int)
    requires
        curve_wf(curve, fan),
        0 <= i < curve.len(),
    ensures
        lookup_idx(curve, curve[i].temp as int) == i,
        lookup_speed(curve, curve[i].temp as int) == curve[i].speed,
{
    let t = curve[i].temp as int;
    lemma_lookup_idx_props(curve, t);
    let k = lookup_idx(curve, t);
    if k < i {
        assert(curve[i].temp > t);
    }
    if k > i {
        assert(curve[k].temp <= t);
        assert(curve[i].temp < curve[k].temp);
    }
}

/// Looks up the speed the curve assigns to temperature `t`: the last point at
/// or below `t`, and the first point when `t` lies below the whole curve.
pub fn lookup(curve: &Vec<CurvePoint>, t: i32) -> (speed: u64)
    requires
        curve@.len() > 0,
    ensures
        speed == lookup_speed(curve@, t as int),
{
    proof {
        assert(curve@.subrange(0, curve@.len() as int) =~= curve@);
    }
    let mut i: usize = curve.len();
    while i > 1
        invariant
            1 <= i <= curve@.len(),
            lookup_idx(curve@, t as int) == lookup_idx(curve@.subrange(0, i as int), t as int),
        decreases i,
    {
        let sub = Ghost(curve@.subrange(0, i as int));
        if curve[i - 1].temp <= t {
            proof {
                assert(sub@.last() == curve@[i - 1]);
                assert(lookup_idx(sub@, t as int) == i - 1);
            }
            return curve[i - 1].speed;
        }
        proof {
            assert(sub@.last() == curve@[i - 1]);
            assert(sub@.drop_last() =~= curve@.subrange(0, i - 1));
        }
        i = i - 1;
    }
    proof {
        assert(lookup_idx(curve@.subrange(0, 1int), t as int) == 0);
        assert(curve@.subrange(0, 1int)[0] == curve@[0]);
    }
    curve[0].speed
}

/// Time elapsed between two millisecond timestamps; zero when the clock
/// appears to have gone backwards.
pub open spec fn elapsed(now: u64, then: u64) -> int {
    if now >= then {
        now - then
    } else {
        0
    }
}

/// Magnitude of the difference between two speeds.
pub open spec fn speed_diff(a: u64, b: u64) -> int {
    if a >= b {
        a - b
    } else {
        b - a
    }
}

/// Whether the hysteresis gate lets a candidate target through: always on the
/// very first decision, and otherwise only when the candidate differs from
/// the last commanded speed by more than the margin, or more than the dwell
/// time has passed since the last accepted change.
pub open spec fn accepts(st: HysteresisState, candidate: u64, now: u64, fan: FanConfig) -> bool {
    ||| !st.has_prior
    ||| speed_diff(candidate, st.last_speed) > fan.hysteresis_margin
    ||| elapsed(now, st.last_change_at) > fan.min_dwell_ms
}

/// The state an accepted decision commits: reading, target and time recorded
/// as one transition.
pub open spec fn committed(t: i32, candidate: u64, now: u64) -> HysteresisState {
    HysteresisState { has_prior: true, last_temp: t, last_speed: candidate, last_change_at: now }
}

/// What one decision cycle does: the target it returns and the state it
/// leaves behind.
pub open spec fn spec_evaluate(
    reading: TemperatureReading,
    cfg: Config,
    st: HysteresisState,
    now: u64,
) -> (u64, HysteresisState) {
    match reading {
        TemperatureReading::Unavailable => (st.last_speed, st),
        TemperatureReading::Degrees(t) => {
            let candidate = lookup_speed(cfg.curve@, t as int);
            if accepts(st, candidate, now, cfg.fan) {
                (candidate, committed(t, candidate, now))
            } else {
                (st.last_speed, st)
            }
        },
    }
}

/// One decision cycle of the control loop. An unavailable reading never
/// drives the fan: the previous target is returned and the state is left
/// untouched. A valid reading is mapped through the curve; the candidate is
/// committed and returned when the hysteresis gate accepts it, and otherwise
/// the previous target is returned with the state untouched.
pub fn evaluate(
    reading: TemperatureReading,
    cfg: &Config,
    st: &mut HysteresisState,
    now: u64,
) -> (target: u64)
    requires
        cfg.wf(),
    ensures
        (target, *final(st)) == spec_evaluate(reading, *cfg, *old(st), now),
        target <= cfg.fan.max_speed || (target == old(st).last_speed && *final(st) == *old(st)),
{
    match reading {
        TemperatureReading::Unavailable => st.last_speed,
        TemperatureReading::Degrees(t) => {
            let candidate = lookup(&cfg.curve, t);
            proof {
                lemma_lookup_idx_props(cfg.curve@, t as int);
            }
            let diff = if candidate >= st.last_speed {
                candidate - st.last_speed
            } else {
                st.last_speed - candidate
            };
            let since = if now >= st.last_change_at {
                now - st.last_change_at
            } else {
                0
            };
            if !st.has_prior || diff > cfg.fan.hysteresis_margin || since > cfg.fan.min_dwell_ms {
                st.has_prior = true;
                st.last_temp = t;
                st.last_speed = candidate;
                st.last_change_at = now;
                candidate
            } else {
                st.last_speed
            }
        },
    }
}

/// A hysteresis state only ever holds quantized, in-range targets.
pub open spec fn state_valid(st: HysteresisState, fan: FanConfig) -> bool {
    &&& st.last_speed % fan.step_size == 0
    &&& st.last_speed <= fan.max_speed
}

/// The evaluator only ever produces valid ramp targets: starting from a
/// state whose last target was quantized and in range, the returned target
/// and the new state's last target are too. The ramp controller therefore
/// never rejects a target the control loop hands it.
pub proof fn lemma_evaluate_target_valid(
    reading: TemperatureReading,
    cfg: Config,
    st: HysteresisState,
    now: u64,
)
    requires
        cfg.wf(),
        state_valid(st, cfg.fan),
    ensures
        spec_evaluate(reading, cfg, st, now).0 % cfg.fan.step_size == 0,
        spec_evaluate(reading, cfg, st, now).0 <= cfg.fan.max_speed,
        state_valid(spec_evaluate(reading, cfg, st, now).1, cfg.fan),
{
    if reading is Degrees {
        let t = reading->Degrees_0;
        lemma_lookup_idx_props(cfg.curve@, t as int);
    }
}

/// A candidate that differs from the last commanded speed by less than the
/// hysteresis margin, before the dwell time has elapsed, is rejected: the
/// evaluator returns the previous target and mutates nothing.
pub proof fn lemma_hysteresis_rejects(
    reading: TemperatureReading,
    cfg: Config,
    st: HysteresisState,
    now: u64,
    t: i32,
)
    requires
        st.has_prior,
        reading == TemperatureReading::Degrees(t),
        speed_diff(lookup_speed(cfg.curve@, t as int), st.last_speed) < cfg.fan.hysteresis_margin,
        elapsed(now, st.last_change_at) < cfg.fan.min_dwell_ms,
    ensures
        spec_evaluate(reading, cfg, st, now) == (st.last_speed, st),
{
}

} // verus!
