use datadriver::utils::{
    accepts_default_yes, current_unix_secs, enable_ansi, human_age_at, human_age_secs,
    is_confirmation, is_yes_word, sys_time_to_secs,
};
use std::time::{Duration, UNIX_EPOCH};

#[test]
fn age_units_and_boundaries() {
    let now = 1_000_000;
    assert_eq!(human_age_at(now - 1, now), "1s");
    assert_eq!(human_age_at(now - 59, now), "59s");
    assert_eq!(human_age_at(now - 60, now), "1m");
    assert_eq!(human_age_at(now - 3599, now), "59m");
    assert_eq!(human_age_at(now - 3600, now), "1h");
    assert_eq!(human_age_at(now - 86399, now), "23h");
    assert_eq!(human_age_at(now - 86400, now), "1d");
    assert_eq!(human_age_at(now - 10 * 86400 - 5, now), "10d");
}

#[test]
fn age_of_unknown_or_future_time_is_zero() {
    assert_eq!(human_age_at(0, 500), "0s");
    assert_eq!(human_age_at(500, 500), "0s");
    assert_eq!(human_age_at(600, 500), "0s");
}

#[test]
fn age_from_clock() {
    let now = current_unix_secs();
    assert!(now > 1_600_000_000);
    assert_eq!(human_age_secs(0), "0s");
    let a = human_age_secs(now - 3 * 86400 - 10);
    assert!(a == "3d", "{}", a);
}

#[test]
fn system_time_seconds() {
    assert_eq!(sys_time_to_secs(UNIX_EPOCH + Duration::from_secs(1234)), 1234);
    assert_eq!(sys_time_to_secs(UNIX_EPOCH), 0);
    assert_eq!(sys_time_to_secs(UNIX_EPOCH - Duration::from_secs(5)), 0);
}

#[test]
fn confirmation_answers() {
    assert!(is_confirmation("y"));
    assert!(is_confirmation(" YES \n"));
    assert!(is_confirmation("Y\n"));
    assert!(!is_confirmation("yeah"));
    assert!(!is_confirmation(""));
    assert!(!is_confirmation("n"));
}

#[test]
fn report_prompt_defaults_to_yes() {
    assert!(accepts_default_yes("\n"));
    assert!(accepts_default_yes("  "));
    assert!(accepts_default_yes("Yep"));
    assert!(!accepts_default_yes("no"));
}

#[test]
fn enabling_colours_does_nothing_here() {
    enable_ansi();
}

#[test]
fn yes_words() {
    assert!(is_yes_word(&vec!['y']));
    assert!(is_yes_word(&vec!['y', 'e', 's']));
    assert!(!is_yes_word(&vec!['Y']));
    assert!(!is_yes_word(&vec!['y', 'e']));
    assert!(!is_yes_word(&vec![]));
}

#[test]
fn older_times_never_show_smaller_ages() {
    fn val(s: &str) -> u64 {
        let (n, u) = s.split_at(s.len() - 1);
        let n: u64 = n.parse().unwrap();
        n * match u { "s" => 1, "m" => 60, "h" => 3600, _ => 86400 }
    }
    let now = 10_000_000;
    let mut last = u64::MAX;
    for s in (1..now).step_by(997) {
        let v = val(&human_age_at(s, now));
        assert!(v <= last);
        last = v;
    }
}
