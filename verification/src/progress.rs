//! Progress reporting and retry decisions of the serial experiment runner.

use vstd::prelude::*;
use crate::text::{append_str, decimal, decimal_string};

verus! {

/// Styles of the runner's progress bars.
pub enum ProgressBarStyle {
    Overall,
    Running,
    Waiting,
    Spinner,
}

/// Seconds a scenario runs.
pub const RUN_TIME_SECS: u64 = 120;

/// Seconds of cooldown between two scenarios.
pub const TIME_BETWEEN_SCENARIOS_SECS: u64 = 5;

/// Seconds assumed for cleaning up and starting a scenario.
pub const SCENARIO_SETUP_TIME_SECS: u64 = 10;

/// Attempts at launching a scenario before giving up.
pub const MAX_UP_RETRIES: usize = 10;

/// Seconds to wait before launching a scenario again.
pub const UP_RETRY_WAIT_SECS: u64 = 10;

/// Decimal notation padded with a leading zero to two digits at least.
pub open spec fn two_digits(n: nat) -> Seq<char> {
    if n < 10 {
        "0"@ + decimal(n)
    } else {
        decimal(n)
    }
}

/// `HH:MM:SS` for a number of seconds (hours may take more than two digits).
pub open spec fn clock_text(secs: nat) -> Seq<char> {
    two_digits(secs / 3600) + ":"@ + two_digits((secs % 3600) / 60) + ":"@ + two_digits(secs % 60)
}

/// The three fields of `HH:MM:SS` give back the duration: minutes and seconds
/// stay below 60 and hours, minutes and seconds add up to `secs`.
pub proof fn law_clock_fields(secs: nat)
    ensures
        (secs % 3600) / 60 < 60,
        secs % 60 < 60,
        (secs / 3600) * 3600 + ((secs % 3600) / 60) * 60 + secs % 60 == secs,
{
    let h = secs / 3600;
    let r = secs % 3600;
    assert(h * 3600 + r == secs) by (nonlinear_arith)
        requires
            h == secs / 3600,
            r == secs % 3600,
    ;
    assert((r / 60) * 60 + r % 60 == r) by (nonlinear_arith)
        requires
            r >= 0,
    ;
    assert(r % 60 == secs % 60) by (nonlinear_arith)
        requires
            h * 3600 + r == secs,
            0 <= r < 3600,
            h >= 0,
    ;
}

fn two_digit_string(n: u64) -> (res: String)
    ensures
        res@ == two_digits(n as nat),
{
    let d = decimal_string(n as u128);
    if n < 10 {
        let mut s = "0".to_owned();
        append_str(&mut s, d.as_str());
        s
    } else {
        d
    }
}

/// Formats a duration of `secs` seconds as `HH:MM:SS`.
pub fn format_duration_precise(secs: u64) -> (res: String)
    ensures
        res@ == clock_text(secs as nat),
{
    let hours = secs / 3600;
    let minutes = (secs % 3600) / 60;
    let seconds = secs % 60;
    let mut s = two_digit_string(hours);
    append_str(&mut s, ":");
    let m = two_digit_string(minutes);
    append_str(&mut s, m.as_str());
    append_str(&mut s, ":");
    let t = two_digit_string(seconds);
    append_str(&mut s, t.as_str());
    s
}

/// Seconds one more scenario takes: setup, run and cooldown.
pub open spec fn seconds_per_scenario() -> nat {
    (SCENARIO_SETUP_TIME_SECS + RUN_TIME_SECS + TIME_BETWEEN_SCENARIOS_SECS) as nat
}

/// The scenarios left: the bar's length (0 when unknown) minus its position,
/// never below zero.
pub open spec fn remaining_scenarios(len: Option<u64>, pos: u64) -> nat {
    let l: int = match len {
        Some(l) => l as int,
        None => 0,
    };
    if l > pos {
        (l - pos) as nat
    } else {
        0
    }
}

/// The estimated time left of the whole run, as `HH:MM:SS`: each remaining
/// scenario (counted modulo 2^32) takes its setup, run and cooldown time.
pub fn compute_eta_custom(len: Option<u64>, pos: u64) -> (res: String)
    ensures
        res@ == clock_text(((remaining_scenarios(len, pos) % 0x1_0000_0000) * seconds_per_scenario()) as nat),
{
    let total = match len {
        Some(l) => l,
        None => 0,
    };
    let remaining: u64 = if total > pos {
        total - pos
    } else {
        0
    };
    let scenarios: u64 = remaining % 0x1_0000_0000;
    assert(scenarios * 135 <= 0xffff_ffff * 135) by (nonlinear_arith)
        requires
            scenarios < 0x1_0000_0000,
    ;
    let secs: u64 = scenarios * (SCENARIO_SETUP_TIME_SECS + RUN_TIME_SECS + TIME_BETWEEN_SCENARIOS_SECS);
    format_duration_precise(secs)
}

/// What the runner does after an attempt at launching a scenario.
pub enum RunnerStep {
    /// The scenario is up: let it run, then clean up.
    RunThenCleanUp,
    /// Clean up, wait, and launch again as attempt `next_attempt`.
    Retry { next_attempt: usize },
    /// The last attempt failed: give up on the scenario.
    GiveUp,
}

/// The step after launch attempt `attempt` (counted from 1) succeeded or failed.
pub fn next_step(attempt: usize, launched: bool) -> (res: RunnerStep)
    requires
        1 <= attempt <= MAX_UP_RETRIES,
    ensures
        launched ==> res is RunThenCleanUp,
        !launched && attempt < MAX_UP_RETRIES ==> res == (RunnerStep::Retry { next_attempt: (attempt + 1) as usize }),
        !launched && attempt == MAX_UP_RETRIES ==> res is GiveUp,
{
    if launched {
        RunnerStep::RunThenCleanUp
    } else if attempt < MAX_UP_RETRIES {
        RunnerStep::Retry { next_attempt: attempt + 1 }
    } else {
        RunnerStep::GiveUp
    }
}

/// `"<attempt>/<max>"`.
pub open spec fn attempt_text(attempt: usize) -> Seq<char> {
    decimal(attempt as nat) + "/"@ + decimal(MAX_UP_RETRIES as nat)
}

fn attempt_string(attempt: usize) -> (res: String)
    ensures
        res@ == attempt_text(attempt),
{
    let mut s = decimal_string(attempt as u128);
    append_str(&mut s, "/");
    let m = decimal_string(MAX_UP_RETRIES as u128);
    append_str(&mut s, m.as_str());
    s
}

/// The spinner message while launch attempt `attempt` runs.
pub fn launch_message(scenario: &str, attempt: usize) -> (res: String)
    ensures
        res@ == "Launching scenario "@ + scenario@ + " (attempt "@ + attempt_text(attempt) + ")"@,
{
    let mut s = "Launching scenario ".to_owned();
    append_str(&mut s, scenario);
    append_str(&mut s, " (attempt ");
    let a = attempt_string(attempt);
    append_str(&mut s, a.as_str());
    append_str(&mut s, ")");
    s
}

/// The message with which the task bar is abandoned after a failed attempt.
pub fn abandon_message(scenario: &str, attempt: usize) -> (res: String)
    ensures
        attempt < MAX_UP_RETRIES ==> res@ == "Scenario "@ + scenario@ + " failed to launch on attempt "@
            + attempt_text(attempt),
        attempt >= MAX_UP_RETRIES ==> res@ == "Scenario "@ + scenario@ + " failed to launch after "@
            + decimal(MAX_UP_RETRIES as nat) + " attempts"@,
{
    let mut s = "Scenario ".to_owned();
    append_str(&mut s, scenario);
    if attempt < MAX_UP_RETRIES {
        append_str(&mut s, " failed to launch on attempt ");
        let a = attempt_string(attempt);
        append_str(&mut s, a.as_str());
    } else {
        append_str(&mut s, " failed to launch after ");
        let m = decimal_string(MAX_UP_RETRIES as u128);
        append_str(&mut s, m.as_str());
        append_str(&mut s, " attempts");
    }
    s
}

/// The output of a failed command: its standard output and standard error.
pub fn combined_output(stdout: &str, stderr: &str) -> (res: String)
    ensures
        res@ == "stdout:\n"@ + stdout@ + "\n\nstderr:\n"@ + stderr@,
{
    let mut s = "stdout:\n".to_owned();
    append_str(&mut s, stdout);
    append_str(&mut s, "\n\nstderr:\n");
    append_str(&mut s, stderr);
    s
}

/// The notice printed before retrying a scenario.
pub fn retry_notice(scenario: &str, attempt: usize, details: &str) -> (res: String)
    ensures
        res@ == "Scenario "@ + scenario@ + ": make up failed (attempt "@ + attempt_text(attempt)
            + "). Retrying in "@ + decimal(UP_RETRY_WAIT_SECS as nat) + "s...\nError details:\n"@
            + details@,
{
    let mut s = "Scenario ".to_owned();
    append_str(&mut s, scenario);
    append_str(&mut s, ": make up failed (attempt ");
    let a = attempt_string(attempt);
    append_str(&mut s, a.as_str());
    append_str(&mut s, "). Retrying in ");
    let w = decimal_string(UP_RETRY_WAIT_SECS as u128);
    append_str(&mut s, w.as_str());
    append_str(&mut s, "s...\nError details:\n");
    append_str(&mut s, details);
    s
}

/// Whether a cooldown comes after a scenario: only when scenarios are left.
pub fn needs_cooldown(pos: u64, len: Option<u64>) -> (res: bool)
    ensures
        res == (pos < match len {
            Some(l) => l,
            None => 0,
        }),
{
    let l = match len {
        Some(l) => l,
        None => 0,
    };
    pos < l
}

} // verus!
