//! The simulated clock.

use ironcondor::domain::{SimTime, StepIndex};
use ironcondor::engine::{Event, SimClock};
use ironcondor::error::BacktestError;

#[test]
fn test_clock_step_is_monotonic() {
    let mut clock = SimClock::new();
    // A strictly-increasing ts sequence with a gap between steps 1 and 2.
    let sequence = [(100i64, 0u32), (200, 1), (900, 2), (901, 3)];
    let mut prev_step = clock.step().value();
    let mut prev_ts = clock.ts().value();
    for (ts, step) in sequence {
        let outcome = clock.advance_to(SimTime::new(ts), StepIndex::new(step));
        assert!(matches!(outcome, Ok(())));
        // Step never decreases; ts strictly increases.
        assert!(clock.step().value() >= prev_step);
        assert!(clock.ts().value() > prev_ts);
        assert_eq!(clock.step().value(), step);
        assert_eq!(clock.ts().value(), ts);
        prev_step = clock.step().value();
        prev_ts = clock.ts().value();
    }
}

#[test]
fn test_clock_rejects_reversed_ts_data_out_of_order() {
    let mut clock = SimClock::new();
    assert!(matches!(
        clock.advance_to(SimTime::new(500), StepIndex::new(0)),
        Ok(())
    ));

    // Reversed ts is rejected.
    let reversed = clock.advance_to(SimTime::new(400), StepIndex::new(1));
    assert!(matches!(
        reversed,
        Err(BacktestError::DataOutOfOrder {
            step: 1,
            ts: 400,
            prev: 500,
        })
    ));

    // Duplicate ts (ts == prev) is equally rejected.
    let duplicate = clock.advance_to(SimTime::new(500), StepIndex::new(1));
    assert!(matches!(
        duplicate,
        Err(BacktestError::DataOutOfOrder {
            step: 1,
            ts: 500,
            prev: 500,
        })
    ));

    // A rejected advance leaves the clock state unchanged.
    assert_eq!(clock.step().value(), 0);
    assert_eq!(clock.ts().value(), 500);
}

#[test]
fn test_clock_rejects_step_regression_in_release() {
    // A step that regresses below the current step — even with a strictly
    // later ts — is a malformed tape and a hard typed error, enforced in
    // release builds too (the check is a real `if`, not a `debug_assert!`,
    // so this test holds whether or not `debug_assertions` is set).
    let mut clock = SimClock::new();
    assert!(matches!(
        clock.advance_to(SimTime::new(1_000), StepIndex::new(5)),
        Ok(())
    ));
    // ts advances (2_000 > 1_000) but step regresses (3 < 5): rejected.
    let regressed = clock.advance_to(SimTime::new(2_000), StepIndex::new(3));
    assert!(matches!(regressed, Err(BacktestError::Data(_))));
    // A rejected advance leaves the clock state unchanged.
    assert_eq!(clock.step().value(), 5);
    assert_eq!(clock.ts().value(), 1_000);
}

#[test]
fn test_clock_advance_strictly_later_ts_succeeds() {
    let mut clock = SimClock::new();
    assert!(matches!(
        clock.advance_to(SimTime::new(1_000), StepIndex::new(0)),
        Ok(())
    ));
    // A large gap in ts is allowed and preserved verbatim.
    let later = clock.advance_to(SimTime::new(5_000_000), StepIndex::new(1));
    assert!(matches!(later, Ok(())));
    assert_eq!(clock.ts().value(), 5_000_000);
    assert_eq!(clock.step().value(), 1);
}

#[test]
fn test_clock_default_matches_new() {
    let created = SimClock::new();
    let defaulted = SimClock::default();
    assert_eq!(created, defaulted);
    assert_eq!(created.step().value(), 0);
    assert_eq!(created.ts().value(), i64::MIN);
}

#[test]
fn test_event_decision_variant_holds_command_buffer() {
    // The conceptual Event model compiles against the domain command type.
    let event = Event::Decision(Vec::new());
    assert!(matches!(event, Event::Decision(ref cmds) if cmds.is_empty()));
}
