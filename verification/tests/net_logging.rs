//! Log names and headers.
use castr::net::logging::{KEEP, header, log_name, prunable, timestamp};

#[test]
fn the_epoch_and_the_awkward_dates_round_trip() {
    assert_eq!(timestamp(0), "1970-01-01 00:00:00Z");
    // A leap day, and the day after a leap day in a century year that is
    // a leap year - the two dates a hand-rolled calendar gets wrong.
    assert_eq!(timestamp(951_782_400), "2000-02-29 00:00:00Z");
    assert_eq!(timestamp(1_583_020_800), "2020-03-01 00:00:00Z");
    assert_eq!(timestamp(1_757_512_991), "2025-09-10 14:03:11Z");
    assert_eq!(timestamp(4_102_444_799), "2099-12-31 23:59:59Z");
}

#[test]
fn a_log_name_sorts_chronologically_as_text() {
    // What `prunable` and `newest` both depend on, so it is held here
    // rather than assumed at each use.
    let early = log_name("castr-sender", 1_757_512_991, 4);
    let late = log_name("castr-sender", 1_757_512_992, 4);
    assert!(early < late, "{early} should sort before {late}");
}

#[test]
fn two_runs_in_the_same_second_do_not_share_a_name() {
    assert_ne!(
        log_name("castr-sender", 1_757_512_991, 4216),
        log_name("castr-sender", 1_757_512_991, 4217)
    );
}

#[test]
fn pruning_keeps_the_newest_and_names_the_rest() {
    let names: Vec<String> = (0..5)
        .map(|i| log_name("castr-sender", 1_757_512_991 + i, 1))
        .collect();
    let gone = prunable("castr-sender", &names, 2);
    assert_eq!(gone, names[..3].to_vec());
}

#[test]
fn nothing_is_pruned_while_there_is_room() {
    let names: Vec<String> = (0..3)
        .map(|i| log_name("castr-sender", 1_757_512_991 + i, 1))
        .collect();
    assert!(prunable("castr-sender", &names, KEEP).is_empty());
}

#[test]
fn only_our_own_logs_are_ever_pruned() {
    // A directory someone else put a file in is not ours to tidy, and the
    // other binary's logs are not ours either.
    let names = vec![
        "notes.txt".to_string(),
        "castr-receiver-20260910-140311-00001.log".to_string(),
        log_name("castr-sender", 1_757_512_991, 1),
        log_name("castr-sender", 1_757_512_992, 1),
    ];
    assert_eq!(
        prunable("castr-sender", &names, 1),
        vec![log_name("castr-sender", 1_757_512_991, 1)]
    );
}

#[test]
fn the_header_says_what_was_run_and_when() {
    let args = vec![
        "castr-sender".to_string(),
        "miracast-cast".to_string(),
        "Living Room TV".to_string(),
    ];
    let h = header("castr-sender", "0.1.0", 1_757_512_991, &args, &[], "linux", "x86_64");
    assert!(h.contains("castr-sender 0.1.0"));
    assert!(h.contains("2025-09-10 14:03:11Z"));
    // The display name stays one argument, quoted, rather than reading as
    // three separate ones.
    assert!(h.contains("miracast-cast \"Living Room TV\""), "{h}");
}

#[test]
fn the_header_carries_what_the_caller_knows() {
    let h = header(
        "castr-sender",
        "0.1.0",
        0,
        &[],
        &[("firewall".into(), "rule present".into())],
        "linux",
        "x86_64",
    );
    assert!(h.contains("firewall   rule present"), "{h}");
}
