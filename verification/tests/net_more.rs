//! Days, logs and resent fragments, on concrete values.
use bytes::Bytes;
use castr::net::calendar::civil_from_days;
use castr::net::logging::{
    dir, file_stamp, header, log_name, newest, parts, prunable, timestamp, KEEP, LOG_DIR,
};
use castr::net::retransmit::RetransmitBuffer;
use castr::proto::Nack;

#[test]
fn days_are_civil_dates() {
    assert_eq!(civil_from_days(0), (1970, 1, 1));
    assert_eq!(civil_from_days(59), (1970, 3, 1));
    assert_eq!(civil_from_days(789), (1972, 2, 29));
    assert_eq!(civil_from_days(11_016), (2000, 2, 29));
    assert_eq!(civil_from_days(47_540), (2100, 2, 28));
    assert_eq!(civil_from_days(47_541), (2100, 3, 1));
    assert_eq!(civil_from_days(2_932_896), (9999, 12, 31));
}

#[test]
fn every_day_of_four_centuries_has_the_next_date() {
    let leap = |y: u64| y % 4 == 0 && (y % 100 != 0 || y % 400 == 0);
    let (mut y, mut m, mut d) = (1970u64, 1u32, 1u32);
    for day in 0..146_097u64 {
        assert_eq!(civil_from_days(day), (y, m, d));
        let len = match m {
            2 => 28 + leap(y) as u32,
            4 | 6 | 9 | 11 => 30,
            _ => 31,
        };
        d += 1;
        if d > len {
            d = 1;
            m += 1;
        }
        if m > 12 {
            m = 1;
            y += 1;
        }
    }
}

#[test]
fn a_moment_is_written_in_full() {
    assert_eq!(parts(1_709_210_096), (2024, 2, 29, 12, 34, 56));
    assert_eq!(timestamp(1_709_210_096), "2024-02-29 12:34:56Z");
    assert_eq!(file_stamp(1_709_210_096), "20240229-123456");
    assert_eq!(LOG_DIR, "logs");
    assert_eq!(dir("/home/pi/.config/castr"), "/home/pi/.config/castr/logs");
    assert_eq!(dir("/"), "/logs");
    assert_eq!(dir(""), "logs");
}

#[test]
fn the_newest_log_is_the_last_in_order() {
    let a = log_name("castr", 1_709_210_096, 7);
    let b = log_name("castr", 1_709_210_097, 3);
    assert!(a < b);
    let names = vec![b.clone(), "notes.txt".to_string(), a.clone()];
    assert_eq!(newest("castr", &names), Some(b.clone()));
    assert_eq!(newest("other", &names), None);
    assert_eq!(prunable("castr", &names, 1), vec![a]);
    assert!(prunable("castr", &names, KEEP).is_empty());
}

#[test]
fn a_header_ends_with_a_rule() {
    let h = header(
        "castr",
        "1.2.3",
        0,
        &["castr".to_string(), "--name".to_string(), "Living Room".to_string()],
        &[("display".to_string(), "TV".to_string())],
        "linux",
        "x86_64",
    );
    let lines: Vec<&str> = h.lines().collect();
    assert_eq!(lines[0], "app        castr 1.2.3");
    assert_eq!(lines[2], "command    castr --name \"Living Room\"");
    assert_eq!(lines[3], "os         linux x86_64");
    assert_eq!(lines[4], "display    TV");
    assert_eq!(lines[5], "-".repeat(72));
}

#[test]
fn a_fragment_is_resent_as_it_was_sent() {
    let mut b = RetransmitBuffer::new(1_000);
    assert!(b.is_empty());
    b.record(
        4,
        false,
        vec![Bytes::from_static(b"zero"), Bytes::from_static(b"one")],
        10,
    );
    let nack = Nack {
        frame_number: 4,
        missing: vec![1, 0, 7, 1],
    };
    let got = b.lookup(&nack, 500);
    assert_eq!(got, vec![&b"one"[..], b"zero", b"one"]);
    // Asking does not use them up.
    assert_eq!(b.lookup(&nack, 500).len(), 3);
    assert_eq!(b.len(), 1);
    assert!(b.lookup(&nack, 5_000).is_empty());
    assert!(b.is_empty());
}

#[test]
fn an_unwritable_directory_costs_the_log_and_nothing_else() {
    // A machine that cannot open a log file still has an application. This is
    // the one thing this module must never do: stop the program.
    let path = dir("/proc/nonexistent/castr");
    assert!(!std::path::Path::new(&path).exists());
}
