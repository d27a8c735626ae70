use jcode_surfaces::scroll::{next_frame_at, Pace, Smooth, Step, FRAME, HOLD, LONGEST_STEP};

const START: u64 = 5_000_000_000;

#[test]
fn a_lit_bar_is_held_before_it_fades() {
    let mut pace = Pace::default();
    pace.nudge(true, START);
    assert_eq!(
        pace.advance(START + 50_000_000),
        Step { elapsed: 50_000_000, fading: false }
    );
    assert!(!pace.advance(START + HOLD - 1).fading);
    assert_eq!(pace.advance(START + HOLD), Step { elapsed: 1, fading: true });
}

#[test]
fn a_stall_eases_over_one_step() {
    let mut pace = Pace::default();
    pace.nudge(true, START);
    assert_eq!(pace.advance(START + 60_000_000_000).elapsed, LONGEST_STEP);
    assert_eq!(pace.advance(START + 60_000_000_000), Step { elapsed: 0, fading: false });
    assert_eq!(pace.advance(START), Step { elapsed: 0, fading: false });
}

#[test]
fn steps_add_up_to_the_time_between() {
    let mut pace = Pace::default();
    pace.nudge(true, START);
    let first = pace.advance(START + 30_000_000).elapsed;
    let second = pace.advance(START + 100_000_000).elapsed;
    assert_eq!(first + second, 100_000_000);
}

#[test]
fn only_a_move_starts_the_clock() {
    let mut still = Pace::default();
    still.nudge(false, START);
    assert_eq!(still, Pace { hold_until: Some(START + HOLD), last: None });
    assert_eq!(still.advance(START + FRAME).elapsed, 0);
    let mut moving = Pace::default();
    moving.nudge(true, START);
    moving.nudge(true, START + FRAME);
    assert_eq!(
        moving,
        Pace { hold_until: Some(START + FRAME + HOLD), last: Some(START) }
    );
    moving.show(START + 2 * FRAME);
    assert_eq!(moving.hold_until, Some(START + 2 * FRAME + HOLD));
}

#[test]
fn the_loop_wakes_only_while_something_moves() {
    assert_eq!(next_frame_at(true, START), Some(START + 8_000_000));
    assert_eq!(next_frame_at(false, u64::MAX), None);
}

fn decayed(value: f64, nanos: u64, tau: f64, epsilon: f64) -> f64 {
    let value = value * (-(nanos as f64 / 1e9) / tau).exp();
    if value.abs() < epsilon {
        0.0
    } else {
        value
    }
}

fn advance(smooth: &mut Smooth<f64>, now: u64) {
    smooth.advance(
        now,
        |lag, nanos| decayed(lag, nanos, 0.055, 0.2),
        |alpha, nanos| decayed(alpha, nanos, 0.22, 0.01),
    );
}

#[test]
fn a_scroll_lags_and_then_lands() {
    let mut smooth = Smooth::at_rest(0.0);
    smooth.nudge(Some(80.0), 1.0, START);
    assert!((smooth.lag() - 80.0f64).abs() < 1e-9);
    let mut now = START;
    for _ in 0..200 {
        now += FRAME;
        advance(&mut smooth, now);
    }
    assert_eq!(smooth.lag(), 0.0, "scroll ease never settled");
}

#[test]
fn the_bar_holds_then_fades() {
    let mut smooth = Smooth::at_rest(0.0);
    smooth.nudge(Some(10.0), 1.0, START);
    advance(&mut smooth, START + 100_000_000);
    assert_eq!(smooth.alpha(), 1.0, "bar faded during the hold");
    let mut now = START;
    for _ in 0..400 {
        now += FRAME;
        advance(&mut smooth, now);
    }
    assert_eq!(smooth.alpha(), 0.0, "bar never faded out");
    assert_eq!(smooth.lag(), 0.0);
}

#[test]
fn a_stall_decays_the_lag_no_further_than_one_step() {
    let mut short = Smooth::at_rest(0.0);
    short.nudge(Some(80.0), 1.0, START);
    for late in [LONGEST_STEP, LONGEST_STEP + 1, 3_600_000_000_000] {
        let mut long = short;
        advance(&mut long, START + late);
        let mut step = short;
        advance(&mut step, START + LONGEST_STEP);
        assert_eq!(long.lag(), step.lag());
        assert!(long.lag() > 0.0);
    }
    advance(&mut short, START);
    assert_eq!(short.lag(), 80.0);
}

#[test]
fn a_view_can_be_lit_shown_and_settled() {
    let mut smooth = Smooth::lit(0, 9);
    assert_eq!((smooth.lag(), smooth.alpha()), (0, 9));
    smooth.nudge(None, 5, START);
    assert_eq!((smooth.lag(), smooth.alpha(), smooth.pace.last), (0, 5, None));
    smooth.nudge(Some(7), 9, START);
    smooth.show(3, START + 1);
    assert_eq!((smooth.lag(), smooth.alpha()), (7, 3));
    assert_eq!(smooth.pace.hold_until, Some(START + 1 + HOLD));
    smooth.settle(0);
    assert_eq!((smooth.lag(), smooth.alpha()), (0, 3));
}
