use skill_transform::editor::{editor_frames, editor_text_defined};
use skill_transform::packets::{format_data, format_data_defined, messages_defined_exec, parse_messages};
use skill_transform::params::{params_frames, params_text_defined};

fn cell(f: &Vec<Option<String>>, i: usize) -> Option<&str> {
    f[i].as_deref()
}

fn msg1() -> Vec<&'static str> {
    vec![
        "hj1 86.79",
        "hj2 -45.00",
        "raj1 -81.43",
        "raj2 -14.65",
        "raj3 70.00",
        "raj4 15.00",
        "laj1 -81.43",
        "laj2 15.35",
        "laj3 -70.00",
        "laj4 -15.00",
        "rlj1 -0.16",
        "rlj2 1.26",
        "rlj3 16.11",
        "rlj4 -66.69",
        "rlj5 47.56",
        "rlj6 -1.27",
        "rlj7 0.00",
        "llj1 -0.16",
        "llj2 -0.43",
        "llj3 12.71",
        "llj4 -56.48",
        "llj5 43.36",
        "(FRP (n lf",
        " (c -0.03 -0.03 -0.01",
        " (f 30.72 -3.92 94.58",
        "llj6 0.40",
        "(FRP (n lf1",
        " (c -0.03 -0.01 -0.01",
        " (f 0.50 -7.37 39.59",
        "llj7 -0.00",
        "",
    ]
}

fn msg2() -> String {
    String::from("(time (now 118.81))(GS (sl 0) (sr 0) (t 4.62) (pm KickOff_Left))(GYR (n torso) (rt -79.44 10.53 -26.89))(ACC (n torso) \
        (a -0.37 -0.31 -0.20))(HJ (n hj1) (ax 86.79))(HJ (n hj2) (ax -45.00))(HJ (n raj1) (ax -81.43))(HJ (n raj2) (ax -14.65))    )(HJ (n raj3) \
        (ax 70.00))(HJ (n raj4) (ax 15.00))(HJ (n laj1) (ax -81.43))(HJ (n laj2) (ax 15.35))(HJ (n laj3) (ax -70.00))(HJ (n laj4) (ax -15.00))(HJ \
            (n rlj1) (ax -0.16))(HJ (n rlj2) (ax 1.26))(HJ (n rlj3) (ax 16.11))(HJ (n rlj4) (ax -66.69))(HJ (n rlj5) (ax 47.56))(HJ (n rlj6) \
            (ax -1.27))(HJ (n rlj7) (ax 0.00))(HJ (n llj1) (ax -0.16))(HJ (n llj2) (ax -0.43))(HJ (n llj3) (ax 12.71))(HJ (n llj4) (ax -56.48))(HJ \
                (n llj5) (ax 43.36))(FRP (n lf) (c -0.03 -0.03 -0.01) (f 30.72 -3.92 94.58))(HJ (n llj6) (ax 0.40))(FRP (n lf1) (c -0.03 -0.01 -0.01) \
                (f 0.50 -7.37 39.59))(HJ (n llj7) (ax -0.00))")
}

#[test]
fn test_format_data() {
    let msg = msg1();
    assert!(format_data_defined(&msg));
    let res1 = format_data(msg);
    let msgs = vec![msg2()];
    assert!(messages_defined_exec(&msgs));
    let (sensors, speeds) = parse_messages(&msgs);
    assert_eq!(sensors.len(), 1);
    assert_eq!(speeds.len(), 0);
    assert_eq!(res1, sensors[0]);
}

#[test]
fn format_data_values_without_toes() {
    let f = format_data(msg1());
    assert_eq!(f.len(), 21);
    assert_eq!(cell(&f, 0), Some("-81.43"));
    assert_eq!(cell(&f, 1), Some("15.35"));
    assert_eq!(cell(&f, 2), Some("-70.00"));
    assert_eq!(cell(&f, 3), Some("-15.00"));
    let left_leg = ["-0.16", "-0.43", "12.71", "-56.48", "43.36", "0.40"];
    for (k, v) in left_leg.iter().enumerate() {
        assert_eq!(cell(&f, 4 + k), Some(*v), "the left leg follows the right toe");
    }
    assert_eq!(cell(&f, 10), Some("-0.16"));
    assert_eq!(cell(&f, 13), Some("-66.69"));
    assert_eq!(cell(&f, 15), Some("-1.27"));
    assert_eq!(cell(&f, 16), Some("-81.43"));
    assert_eq!(cell(&f, 19), Some("15.00"));
    assert_eq!(cell(&f, 20), None);
}

#[test]
fn format_data_skips_toe_lines() {
    let f = format_data(vec!["rlj7 0", "llj1 5", "rle7 9"]);
    assert_eq!(cell(&f, 4), Some("5"));
    assert!(f.iter().enumerate().all(|(i, c)| i == 4 || c.is_none()));
}

#[test]
fn format_data_ignores_other_lines() {
    let base = format_data(vec!["laj1 1", "raj4 2"]);
    let with = format_data(vec!["laj1 1", "hj1 7", "(FRP (n lf", "raj4 2", "a b c"]);
    assert_eq!(base, with);
}

#[test]
fn format_data_later_lines_overwrite() {
    let f = format_data(vec!["laj1 1", "lae1 2", "xx 3", "la1 4"]);
    assert_eq!(cell(&f, 0), Some("2"));
}

#[test]
fn format_data_undefined_names() {
    assert!(!format_data_defined(&vec!["xxj1 1.0"]));
    assert!(!format_data_defined(&vec!["laj1 1.0", "éj1 2.0"]));
    assert!(!format_data_defined(&vec!["llj7 1.0", "xxj1 1.0"]));
    assert!(format_data_defined(&vec!["llj7 1.0", "rle7 1.0"]));
    assert!(format_data_defined(&vec!["héj1 2.0"]));
}

#[test]
fn parse_messages_sent_and_received() {
    let msgs = vec![
        String::from("(he1 0.5)(he2 0.1)(raj1 1.5)(rlj7 0)(llj1 9)(syn)"),
        String::from("unrelated"),
        String::from("(time (now 1.0))(HJ (n laj2) (ax 3.25))"),
    ];
    assert!(messages_defined_exec(&msgs));
    let (sensors, speeds) = parse_messages(&msgs);
    assert_eq!(sensors.len(), 1);
    assert_eq!(speeds.len(), 1);
    assert_eq!(cell(&sensors[0], 1), Some("3.25"));
    assert_eq!(cell(&speeds[0], 16), Some("1.5"));
    assert_eq!(cell(&speeds[0], 4), Some("9"));
}

#[test]
fn parse_messages_missing_parts() {
    assert!(!messages_defined_exec(&vec![String::from("(time (now 1.0)) nothing")]));
    assert!(!messages_defined_exec(&vec![String::from("(he1 1) no end")]));
    assert!(!messages_defined_exec(&vec![String::from("(syn) (he1 1)")]));
}

#[test]
fn params_frames_by_state() {
    let text = "// comment\n# another\nkick_s0_la1\t1.5\nkick_s0_ra4\t-2\nkick_s1_la1\t3\nkick_s1_wait\t7\nnot_a_joint\t4\n";
    assert!(params_text_defined(text));
    let frames = params_frames(text);
    assert_eq!(frames.len(), 2);
    assert!(frames.iter().all(|f| f.len() == 21));
    assert_eq!(cell(&frames[0], 0), Some("1.5"));
    assert_eq!(cell(&frames[0], 19), Some("-2"));
    assert_eq!(cell(&frames[0], 20), None);
    assert_eq!(cell(&frames[1], 0), Some("3"));
    assert_eq!(cell(&frames[1], 19), Some("-2"), "a new frame starts as a copy");
    assert_eq!(cell(&frames[1], 20), Some("7"));
}

#[test]
fn params_comment_lines_change_nothing() {
    let text = "kick_s0_la1\t1.5\nkick_s1_la1\t3\n";
    let with = "kick_s0_la1\t1.5\n# kick_s5_la1\t9\n/kick_s1_ra1 2\nkick_s1_la1\t3\n";
    assert_eq!(params_frames(text), params_frames(with));
}

#[test]
fn params_frames_empty_text() {
    let frames = params_frames("");
    assert_eq!(frames.len(), 1);
    assert!(frames[0].iter().all(|c| c.is_none()));
}

#[test]
fn params_text_undefined() {
    assert!(!params_text_defined("la1\t1\n"));
    assert!(!params_text_defined("x_s0_la1\n"));
    assert!(params_text_defined("x_s0_la1 1\n"));
    assert!(params_text_defined("#x_s0_la1\n"));
}

#[test]
fn editor_frames_rows() {
    let text = "200 0 0 1 2 3 0.0 0.0\n\nshort line\n150 0 0 0.0 0.0\n";
    assert!(editor_text_defined(text));
    let frames = editor_frames(text);
    assert_eq!(frames, vec![vec!["1", "2", "3", "200"], vec!["150"]]);
}

#[test]
fn editor_text_undefined() {
    assert!(!editor_text_defined("1 2 3\n"));
    assert!(!editor_text_defined("1 2 3 4\n"));
    assert!(editor_text_defined("1 2\n1 2 3 4 5\n"));
}
