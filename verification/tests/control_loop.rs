use pankha::config::{Config, CurvePoint, FanConfig, FAN_SPEED_STEP, RPM_MAX};
use pankha::device::{mode_command, DeviceError, DeviceSlot, MODE_MANUAL};
use pankha::evaluator::{evaluate, lookup, HysteresisState, TemperatureReading};
use pankha::ramp::{ramp_plan, ramp_step, RampController, RampError};
use pankha::sensor::{millidegrees_to_degrees, parse_reading};

fn reference_curve() -> Vec<CurvePoint> {
    vec![
        CurvePoint { temp: 40, speed: 0 },
        CurvePoint { temp: 60, speed: 1000 },
        CurvePoint { temp: 80, speed: 2000 },
    ]
}

fn reference_config() -> Config {
    Config {
        fan: FanConfig {
            max_speed: RPM_MAX,
            step_size: FAN_SPEED_STEP,
            step_delay_ms: 1000,
            hysteresis_margin: 0,
            min_dwell_ms: 0,
        },
        curve: reference_curve(),
    }
}

#[test]
fn lookup_below_lowest_threshold() {
    let curve = reference_curve();
    assert_eq!(lookup(&curve, 10), 0);
    assert_eq!(lookup(&curve, 39), 0);
}

#[test]
fn lookup_above_highest_threshold() {
    let curve = reference_curve();
    assert_eq!(lookup(&curve, 81), 2000);
    assert_eq!(lookup(&curve, 500), 2000);
}

#[test]
fn lookup_exact_threshold_is_stable() {
    let curve = reference_curve();
    assert_eq!(lookup(&curve, 60), 1000);
    assert_eq!(lookup(&curve, 60), 1000);
    assert_eq!(lookup(&curve, 40), 0);
    assert_eq!(lookup(&curve, 80), 2000);
}

#[test]
fn lookup_between_thresholds() {
    let curve = reference_curve();
    assert_eq!(lookup(&curve, 70), 1000);
    assert_eq!(lookup(&curve, 61), 1000);
    assert_eq!(lookup(&curve, 79), 1000);
}

#[test]
fn evaluate_scenario_curve_and_ramp() {
    // curve = [(40,0),(60,1000),(80,2000)], margin=0, dwell=0.
    let cfg = reference_config();
    assert!(cfg.validate());
    let mut st = HysteresisState::start();

    // reading 70 -> target 1000.
    let t1 = evaluate(TemperatureReading::Degrees(70), &cfg, &mut st, 1000);
    assert_eq!(t1, 1000);
    assert!(st.has_prior);
    assert_eq!(st.last_temp, 70);
    assert_eq!(st.last_speed, 1000);
    assert_eq!(st.last_change_at, 1000);

    // reading 81 -> target 2000; ramp 1000 -> 2000 with step 500 commands
    // 1500 then 2000.
    let t2 = evaluate(TemperatureReading::Degrees(81), &cfg, &mut st, 2000);
    assert_eq!(t2, 2000);
    let cmds = ramp_plan(t1, t2, cfg.fan.step_size);
    assert_eq!(cmds, vec![1500, 2000]);
}

#[test]
fn evaluate_unavailable_holds_previous_target() {
    // An unavailable reading after a prior valid target of 1000 returns 1000
    // and leaves the state untouched.
    let cfg = reference_config();
    let mut st = HysteresisState::start();
    let t1 = evaluate(TemperatureReading::Degrees(70), &cfg, &mut st, 5);
    assert_eq!(t1, 1000);
    let before = st;
    let t2 = evaluate(TemperatureReading::Unavailable, &cfg, &mut st, 99);
    assert_eq!(t2, 1000);
    assert_eq!(st, before);
    // Nothing to command for the held target.
    let cmds = ramp_plan(t1, t2, cfg.fan.step_size);
    assert!(cmds.is_empty());
}

#[test]
fn evaluate_hysteresis_rejects_small_change_within_dwell() {
    let mut cfg = reference_config();
    cfg.fan.hysteresis_margin = 1500;
    cfg.fan.min_dwell_ms = 10_000;
    let mut st = HysteresisState::start();
    // First decision is always accepted.
    let t1 = evaluate(TemperatureReading::Degrees(70), &cfg, &mut st, 0);
    assert_eq!(t1, 1000);
    let before = st;
    // Candidate 2000 differs by 1000 < margin, and only 5s < dwell elapsed:
    // rejected, state untouched.
    let t2 = evaluate(TemperatureReading::Degrees(81), &cfg, &mut st, 5_000);
    assert_eq!(t2, 1000);
    assert_eq!(st, before);
    // After the dwell has passed the same candidate is accepted.
    let t3 = evaluate(TemperatureReading::Degrees(81), &cfg, &mut st, 20_000);
    assert_eq!(t3, 2000);
    assert_eq!(st.last_change_at, 20_000);
}

#[test]
fn evaluate_hysteresis_accepts_large_change_early() {
    let mut cfg = reference_config();
    cfg.fan.hysteresis_margin = 300;
    cfg.fan.min_dwell_ms = 10_000;
    let mut st = HysteresisState::start();
    let t1 = evaluate(TemperatureReading::Degrees(50), &cfg, &mut st, 0);
    assert_eq!(t1, 0);
    // Candidate 2000 differs by 2000 > margin: accepted despite the dwell.
    let t2 = evaluate(TemperatureReading::Degrees(81), &cfg, &mut st, 1);
    assert_eq!(t2, 2000);
}

#[test]
fn validate_rejects_malformed_curves() {
    let fan = reference_config().fan;
    let unsorted = Config {
        fan,
        curve: vec![
            CurvePoint { temp: 60, speed: 1000 },
            CurvePoint { temp: 40, speed: 0 },
        ],
    };
    assert!(!unsorted.validate());
    let duplicate = Config {
        fan,
        curve: vec![
            CurvePoint { temp: 40, speed: 0 },
            CurvePoint { temp: 40, speed: 500 },
        ],
    };
    assert!(!duplicate.validate());
    let empty = Config { fan, curve: vec![] };
    assert!(!empty.validate());
    let over_max = Config { fan, curve: vec![CurvePoint { temp: 40, speed: 6000 }] };
    assert!(!over_max.validate());
    let unquantized = Config { fan, curve: vec![CurvePoint { temp: 40, speed: 250 }] };
    assert!(!unquantized.validate());
    let zero_step = Config {
        fan: FanConfig { step_size: 0, ..fan },
        curve: reference_curve(),
    };
    assert!(!zero_step.validate());
}

#[test]
fn ramp_plan_monotonic_and_bounded() {
    let up = ramp_plan(0, 2000, 500);
    assert_eq!(up, vec![500, 1000, 1500, 2000]);
    let down = ramp_plan(2000, 500, 500);
    assert_eq!(down, vec![1500, 1000, 500]);
    // An unaligned starting speed is clamped onto the target, never past it.
    let clamped = ramp_plan(700, 2000, 500);
    assert_eq!(clamped, vec![1200, 1700, 2000]);
}

#[test]
fn ramp_plan_idempotent_when_at_target() {
    assert!(ramp_plan(1000, 1000, 500).is_empty());
    assert!(ramp_plan(0, 0, 500).is_empty());
}

#[test]
fn ramp_step_never_overshoots() {
    assert_eq!(ramp_step(1800, 2000, 500), 2000);
    assert_eq!(ramp_step(200, 0, 500), 0);
    assert_eq!(ramp_step(0, 5500, 500), 500);
}

#[test]
fn ramp_to_rejects_invalid_targets() {
    let mut c = RampController::new(0, 500, 5500);
    assert_eq!(c.ramp_to(750), Err(RampError::NotQuantized));
    assert_eq!(c.ramp_to(6000), Err(RampError::OutOfRange));
    // A rejected target changes nothing: the ramp still has no work.
    assert_eq!(c.next_command(0), None);
}

#[test]
fn ramp_controller_runs_to_completion() {
    let mut c = RampController::new(1000, 500, 5500);
    let gen = c.ramp_to(2000).unwrap();
    assert_eq!(c.next_command(gen), Some(1500));
    assert_eq!(c.next_command(gen), Some(2000));
    // Completion: nothing further to command.
    assert_eq!(c.next_command(gen), None);
}

#[test]
fn ramp_controller_superseding_stops_old_ramp() {
    let mut c = RampController::new(0, 500, 5500);
    let gen1 = c.ramp_to(2000).unwrap();
    assert_eq!(c.next_command(gen1), Some(500));
    // A newer target supersedes the ramp toward 2000.
    let gen2 = c.ramp_to(1000).unwrap();
    assert_ne!(gen1, gen2);
    // The old driver's token no longer issues commands toward 2000.
    assert_eq!(c.next_command(gen1), None);
    // The new ramp proceeds toward 1000 from where the device was left.
    assert_eq!(c.next_command(gen2), Some(1000));
    assert_eq!(c.next_command(gen2), None);
}

#[test]
fn ramp_to_current_speed_issues_no_commands() {
    let mut c = RampController::new(1500, 500, 5500);
    let gen = c.ramp_to(1500).unwrap();
    assert_eq!(c.next_command(gen), None);
}

#[test]
fn mode_sequencing_engages_manual_control() {
    assert_eq!(mode_command(MODE_MANUAL), None);
    assert_eq!(mode_command(0), Some(MODE_MANUAL));
    assert_eq!(mode_command(2), Some(MODE_MANUAL));
}

#[test]
fn device_slot_tracks_descriptor() {
    let mut slot = DeviceSlot::new();
    assert_eq!(slot.get_fd(), Err(DeviceError::NotOpen));
    slot.set_fd(7);
    assert_eq!(slot.get_fd(), Ok(7));
}

#[test]
fn parse_reading_rounds_half_away_from_zero() {
    assert_eq!(parse_reading(&b"50.8".to_vec()), TemperatureReading::Degrees(51));
    assert_eq!(parse_reading(&b"50.5".to_vec()), TemperatureReading::Degrees(51));
    assert_eq!(parse_reading(&b"50.4".to_vec()), TemperatureReading::Degrees(50));
    assert_eq!(parse_reading(&b"47".to_vec()), TemperatureReading::Degrees(47));
    assert_eq!(parse_reading(&b"-0.5".to_vec()), TemperatureReading::Degrees(-1));
    assert_eq!(parse_reading(&b"-0.4".to_vec()), TemperatureReading::Degrees(0));
    assert_eq!(parse_reading(&b"-12.7".to_vec()), TemperatureReading::Degrees(-13));
}

#[test]
fn parse_reading_takes_first_token() {
    assert_eq!(parse_reading(&b"50.8 C".to_vec()), TemperatureReading::Degrees(51));
    assert_eq!(parse_reading(&b"  47.0 C".to_vec()), TemperatureReading::Degrees(47));
}

#[test]
fn parse_reading_rejects_malformed_text() {
    assert_eq!(parse_reading(&b"".to_vec()), TemperatureReading::Unavailable);
    assert_eq!(parse_reading(&b"   ".to_vec()), TemperatureReading::Unavailable);
    assert_eq!(parse_reading(&b"abc".to_vec()), TemperatureReading::Unavailable);
    assert_eq!(parse_reading(&b"-".to_vec()), TemperatureReading::Unavailable);
    assert_eq!(parse_reading(&b"50.".to_vec()), TemperatureReading::Unavailable);
    assert_eq!(parse_reading(&b".5".to_vec()), TemperatureReading::Unavailable);
    assert_eq!(parse_reading(&b"12.3.4".to_vec()), TemperatureReading::Unavailable);
    assert_eq!(parse_reading(&b"12x4".to_vec()), TemperatureReading::Unavailable);
}

#[test]
fn parse_reading_rejects_out_of_range_values() {
    assert_eq!(
        parse_reading(&b"99999999999999".to_vec()),
        TemperatureReading::Unavailable
    );
    assert_eq!(
        parse_reading(&b"-99999999999999".to_vec()),
        TemperatureReading::Unavailable
    );
    // The extremes of the whole-degree range still parse.
    assert_eq!(
        parse_reading(&b"2147483647".to_vec()),
        TemperatureReading::Degrees(2147483647)
    );
    assert_eq!(
        parse_reading(&b"-2147483648".to_vec()),
        TemperatureReading::Degrees(-2147483648)
    );
    assert_eq!(parse_reading(&b"2147483648".to_vec()), TemperatureReading::Unavailable);
}

#[test]
fn millidegrees_round_half_away_from_zero() {
    assert_eq!(millidegrees_to_degrees(50800), 51);
    assert_eq!(millidegrees_to_degrees(50500), 51);
    assert_eq!(millidegrees_to_degrees(50499), 50);
    assert_eq!(millidegrees_to_degrees(0), 0);
    assert_eq!(millidegrees_to_degrees(-500), -1);
    assert_eq!(millidegrees_to_degrees(-499), 0);
    assert_eq!(millidegrees_to_degrees(i32::MAX), 2147484);
    assert_eq!(millidegrees_to_degrees(i32::MIN), -2147484);
}

#[test]
fn controller_commands_match_the_plan() {
    // Driving the controller step by step issues exactly the plan.
    let mut c = RampController::new(700, 500, 5500);
    let gen = c.ramp_to(2500).unwrap();
    let plan = ramp_plan(700, 2500, 500);
    let mut issued: Vec<u64> = Vec::new();
    while let Some(cmd) = c.next_command(gen) {
        issued.push(cmd);
    }
    assert_eq!(issued, plan);
    assert_eq!(issued, vec![1200, 1700, 2200, 2500]);
}

#[test]
fn reference_device_parameters() {
    let fan = FanConfig::for_reference_device();
    assert_eq!(fan.max_speed, 5500);
    assert_eq!(fan.step_size, 500);
    assert_eq!(fan.step_delay_ms, 1000);
}
