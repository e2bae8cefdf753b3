use std::path::PathBuf;
use std::time::Duration;

use tvbox_wc::recovery::{config_from, due, on_key, Config, Hold};

fn env(cmd: Option<&str>, keys: Option<&str>, hold: Option<&str>) -> Option<Config> {
    config_from(
        cmd.map(str::to_owned),
        keys.map(str::to_owned),
        hold.map(str::to_owned),
        Some("/home/tv".to_owned()),
    )
}

fn stages(config: &Config) -> Vec<(Duration, &'static str)> {
    config
        .stages
        .iter()
        .map(|stage| (Duration::from_millis(stage.0), stage.1))
        .collect()
}

#[test]
fn defaults_to_home_held_for_three_then_ten_seconds() {
    let c = env(None, None, None).unwrap();
    assert_eq!(
        PathBuf::from(c.command.clone()),
        PathBuf::from("/home/tv/.tvbox/recover.sh")
    );
    assert_eq!(c.keys, vec![172]);
    assert_eq!(
        stages(&c),
        vec![
            (Duration::from_secs(3), "reload"),
            (Duration::from_secs(10), "restart")
        ]
    );
}

#[test]
fn an_empty_command_switches_it_off() {
    assert_eq!(env(Some(""), None, None), None);
    assert_eq!(env(Some("  "), None, None), None);
}

#[test]
fn keys_and_thresholds_can_be_set() {
    let c = env(Some("/x"), Some("172, 158"), Some("2000")).unwrap();
    assert_eq!(c.keys, vec![172, 158]);
    assert_eq!(stages(&c), vec![(Duration::from_secs(2), "reload")]);
}

#[test]
fn a_threshold_list_that_makes_no_sense_falls_back_to_the_default() {
    for bad in ["", "abc", "5000,1000", "0,1000"] {
        let c = env(Some("/x"), None, Some(bad)).unwrap();
        assert_eq!(stages(&c).len(), 2, "{bad}");
        assert_eq!(stages(&c)[0].0, Duration::from_secs(3), "{bad}");
    }
}

#[test]
fn a_hold_is_armed_by_the_watched_key_only() {
    let mut h = Hold::default();
    assert_eq!(h.key(28, true, &[172]), None);
    h.key(28, false, &[172]);
    let g = h.key(172, true, &[172]).unwrap();
    assert!(h.current(g));
}

#[test]
fn letting_go_ends_the_hold() {
    let mut h = Hold::default();
    let g = h.key(172, true, &[172]).unwrap();
    h.key(172, false, &[172]);
    assert!(!h.current(g));
}

#[test]
fn another_key_during_the_hold_cancels_it() {
    let mut h = Hold::default();
    let g = h.key(172, true, &[172]).unwrap();
    assert_eq!(h.key(103, true, &[172]), None);
    assert!(!h.current(g));
    // ...and the release of the key that was held does not start anything.
    h.key(172, false, &[172]);
    assert!(!h.current(g));
}

#[test]
fn a_new_hold_does_not_revive_the_old_one() {
    let mut h = Hold::default();
    let first = h.key(172, true, &[172]).unwrap();
    h.key(172, false, &[172]);
    let second = h.key(172, true, &[172]).unwrap();
    assert!(!h.current(first));
    assert!(h.current(second));
}

#[test]
fn releasing_a_key_that_is_not_held_changes_nothing() {
    let mut h = Hold::default();
    let g = h.key(172, true, &[172]).unwrap();
    h.key(103, false, &[172]);
    assert!(h.current(g));
}

#[test]
fn without_a_home_or_a_command_it_is_off() {
    assert_eq!(config_from(None, None, None, None), None);
    let c = config_from(Some("/x".to_owned()), None, None, None).unwrap();
    assert_eq!(c.command, "/x");
}

#[test]
fn a_home_with_a_slash_behind_it_gets_no_second_one() {
    let c = config_from(None, None, None, Some("/home/tv/".to_owned())).unwrap();
    assert_eq!(c.command, "/home/tv/.tvbox/recover.sh");
    let c = config_from(None, None, None, Some(String::new())).unwrap();
    assert_eq!(c.command, ".tvbox/recover.sh");
}

#[test]
fn keys_that_are_no_numbers_are_left_out() {
    let c = env(Some("/x"), Some("abc,28, +30 ,4294967296,-1,"), None).unwrap();
    assert_eq!(c.keys, vec![28, 30]);
    let c = env(Some("/x"), Some("abc"), None).unwrap();
    assert_eq!(c.keys, vec![172]);
}

#[test]
fn a_third_threshold_has_no_name_and_is_ignored() {
    let c = env(Some("/x"), None, Some("1000,2000,3000")).unwrap();
    assert_eq!(c.stages, vec![(1000, "reload"), (2000, "restart")]);
}

#[test]
fn the_start_of_a_hold_arms_a_timer_for_each_stage() {
    let c = env(Some("/x"), None, None).unwrap();
    let mut hold = Hold::default();
    let alarms = on_key(&c, &mut hold, 172, true);
    assert_eq!(alarms.len(), 2);
    assert_eq!((alarms[0].after, alarms[0].stage), (3000, "reload"));
    assert_eq!((alarms[1].after, alarms[1].stage), (10000, "restart"));
    assert!(due(&hold, &alarms[0], true));
    assert!(!due(&hold, &alarms[0], false));
    assert_eq!(on_key(&c, &mut hold, 172, false).len(), 0);
    assert!(!due(&hold, &alarms[1], true));
    assert_eq!(on_key(&c, &mut hold, 28, true).len(), 0);
}

#[test]
fn a_cancelled_hold_is_not_current() {
    let mut hold = Hold::default();
    let generation = hold.key(172, true, &[172]).unwrap();
    assert!(hold.current(generation));
    hold.cancel();
    assert!(!hold.current(generation));
    assert!(!hold.current(generation + 1));
}

#[test]
fn a_hold_that_is_over_stays_over_whatever_is_watched_by_then() {
    let mut hold = Hold::default();
    let first = hold.key(172, true, &[172]).unwrap();
    hold.cancel();
    let second = hold.key(30, true, &[30]).unwrap();
    assert!(!hold.current(first));
    assert!(hold.current(second));
    hold.cancel();
    hold.cancel();
    assert_eq!(hold.key(30, true, &[172]), None);
    let third = hold.key(172, true, &[172, 30]).unwrap();
    assert!(!hold.current(first));
    assert!(!hold.current(second));
    assert!(hold.current(third));
}
