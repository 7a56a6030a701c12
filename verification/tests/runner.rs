use l4s_bench::progress::{
    abandon_message, combined_output, compute_eta_custom, format_duration_precise, launch_message,
    needs_cooldown, next_step, retry_notice, RunnerStep, MAX_UP_RETRIES, RUN_TIME_SECS,
};

#[test]
fn durations_as_clock_text() {
    assert_eq!(format_duration_precise(0), "00:00:00");
    assert_eq!(format_duration_precise(59), "00:00:59");
    assert_eq!(format_duration_precise(3661), "01:01:01");
    assert_eq!(format_duration_precise(86399), "23:59:59");
    assert_eq!(format_duration_precise(360000), "100:00:00");
}

#[test]
fn clock_fields_give_back_the_duration() {
    for secs in [0u64, 1, 59, 60, 3599, 3600, 3601, 86399, 123456] {
        let text = format_duration_precise(secs);
        let fields: Vec<u64> = text.split(':').map(|f| f.parse().unwrap()).collect();
        assert_eq!(fields.len(), 3);
        assert!(fields[1] < 60 && fields[2] < 60);
        assert_eq!(fields[0] * 3600 + fields[1] * 60 + fields[2], secs);
    }
}

#[test]
fn eta_counts_remaining_scenarios() {
    // each scenario: 10 s setup + 120 s run + 5 s cooldown
    assert_eq!(RUN_TIME_SECS, 120);
    assert_eq!(compute_eta_custom(Some(3), 1), "00:04:30");
    assert_eq!(compute_eta_custom(Some(3), 3), "00:00:00");
    assert_eq!(compute_eta_custom(Some(3), 5), "00:00:00");
    assert_eq!(compute_eta_custom(None, 0), "00:00:00");
    assert_eq!(compute_eta_custom(Some(100), 0), "03:45:00");
}

#[test]
fn retry_decisions() {
    assert!(matches!(next_step(1, true), RunnerStep::RunThenCleanUp));
    assert!(matches!(next_step(MAX_UP_RETRIES, true), RunnerStep::RunThenCleanUp));
    assert!(matches!(next_step(1, false), RunnerStep::Retry { next_attempt: 2 }));
    assert!(matches!(next_step(9, false), RunnerStep::Retry { next_attempt: 10 }));
    assert!(matches!(next_step(MAX_UP_RETRIES, false), RunnerStep::GiveUp));
}

#[test]
fn failing_launches_give_up_after_the_maximum() {
    let mut attempt = 1;
    let mut launches = 0;
    loop {
        launches += 1;
        match next_step(attempt, false) {
            RunnerStep::Retry { next_attempt } => attempt = next_attempt,
            RunnerStep::GiveUp => break,
            RunnerStep::RunThenCleanUp => panic!("never launched"),
        }
    }
    assert_eq!(launches, MAX_UP_RETRIES);
}

#[test]
fn runner_messages() {
    assert_eq!(launch_message("1bbr@10mbit", 3), "Launching scenario 1bbr@10mbit (attempt 3/10)");
    assert_eq!(abandon_message("s", 2), "Scenario s failed to launch on attempt 2/10");
    assert_eq!(abandon_message("s", 10), "Scenario s failed to launch after 10 attempts");
    assert_eq!(combined_output("out", "err"), "stdout:\nout\n\nstderr:\nerr");
    assert_eq!(
        retry_notice("s", 1, "boom"),
        "Scenario s: make up failed (attempt 1/10). Retrying in 10s...\nError details:\nboom"
    );
}

#[test]
fn cooldown_only_when_scenarios_remain() {
    assert!(needs_cooldown(1, Some(3)));
    assert!(!needs_cooldown(3, Some(3)));
    assert!(!needs_cooldown(0, None));
}
