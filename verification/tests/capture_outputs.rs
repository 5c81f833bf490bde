//! Monitors.
use castr::capture::outputs::{Output, default_index, label, short_name};

fn out(index: u32, name: &str, primary: bool) -> Output {
    Output {
        index,
        device_name: name.into(),
        width: 1920,
        height: 1080,
        primary,
        rotated: false,
    }
}

#[test]
fn a_label_names_the_monitor_and_its_size() {
    let l = label(&out(0, r"\\.\DISPLAY1", false));
    assert_eq!(l, "DISPLAY1  1920x1080");
}

#[test]
fn the_primary_says_so() {
    assert!(label(&out(0, r"\\.\DISPLAY1", true)).contains("(primary)"));
}

#[test]
fn a_rotated_monitor_warns_that_the_cast_will_be_sideways() {
    // The capture path ignores rotation, so this is a standing limitation
    // the picker can at least be honest about.
    let o = Output {
        rotated: true,
        ..out(1, r"\\.\DISPLAY2", false)
    };
    assert!(label(&o).contains("sideways"));
}

#[test]
fn a_name_without_the_prefix_survives() {
    assert_eq!(short_name("DISPLAY3"), "DISPLAY3");
}

#[test]
fn the_primary_is_the_default() {
    let list = vec![out(0, r"\\.\DISPLAY1", false), out(1, r"\\.\DISPLAY2", true)];
    assert_eq!(default_index(&list), 1);
}

#[test]
fn without_a_primary_the_first_is_the_default() {
    let list = vec![out(2, r"\\.\DISPLAY1", false), out(3, r"\\.\DISPLAY2", false)];
    assert_eq!(default_index(&list), 2);
}


#[test]
fn an_empty_list_defaults_to_output_zero() {
    // Enumeration failing must not stop a cast: index 0 is what the CLI
    // has always used.
    assert_eq!(default_index(&[]), 0);
}
