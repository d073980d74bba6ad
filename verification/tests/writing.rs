use skill_transform::editor::{editor_frames, into_editor_text};
use skill_transform::params::params_frames;
use skill_transform::skill::{into_skl_text, into_skl_txt_texts, skl_txt_texts};

fn row(base: usize, wait: &str) -> Vec<String> {
    let mut r: Vec<String> = (0..20).map(|j| format!("{}", base + j)).collect();
    r.push(wait.to_string());
    r
}

#[test]
fn editor_text_of_rows() {
    let rows = vec![row(0, "20")];
    let text = into_editor_text(&rows);
    assert_eq!(
        text,
        "20 0 0 0 1 2 3 4 5 6 7 8 9 10 11 12 13 14 15 16 17 18 19 0.0 0.0\n"
    );
}

#[test]
fn editor_round_trip() {
    let rows = vec![row(0, "20"), row(100, "1000"), row(7, "-3.5")];
    let text = into_editor_text(&rows);
    assert_eq!(editor_frames(&text), rows);
}

#[test]
fn skl_text_of_a_frame() {
    let rows = vec![row(0, "0.02")];
    let text = into_skl_text(&rows);
    let expected = "STARTSKILL SKILL_TEST_LEFT_LEG\n\n\
STARTSTATE\n\
settar EFF_LA1 0 EFF_LA2 1 EFF_LA3 2 EFF_LA4 3 EFF_LL1 4 EFF_LL2 5 EFF_LL3 6 EFF_LL4 7 EFF_LL5 8 EFF_LL6 9 end\n\
settar EFF_RL1 10 EFF_RL2 11 EFF_RL3 12 EFF_RL4 13 EFF_RL5 14 EFF_RL6 15 EFF_RA1 16 EFF_RA2 17 EFF_RA3 18 EFF_RA4 19 end\n\
wait 0.02 end\nENDSTATE\n\n\
ENDSKILL\n\n\
REFLECTSKILL SKILL_TEST_LEFT_LEG SKILL_TEST_RIGHT_LEG";
    assert_eq!(text, expected);
}

#[test]
fn skl_text_of_no_frame() {
    let text = into_skl_text(&vec![]);
    assert_eq!(
        text,
        "STARTSKILL SKILL_TEST_LEFT_LEG\n\nENDSKILL\n\nREFLECTSKILL SKILL_TEST_LEFT_LEG SKILL_TEST_RIGHT_LEG"
    );
}

#[test]
fn skl_txt_texts_of_two_frames() {
    let rows = vec![row(0, "0.2"), row(50, "0.1")];
    let (txt, skl) = into_skl_txt_texts(&rows, "kick");
    let lines: Vec<&str> = txt.split('\n').collect();
    assert_eq!(lines.len(), 41);
    assert_eq!(lines[0], "kick_s0_la1\t0");
    assert_eq!(lines[19], "kick_s0_ra4\t19");
    assert_eq!(lines[20], "kick_s1_la1\t50");
    assert_eq!(lines[40], "");
    assert!(skl.starts_with("STARTSKILL SKILL_KICK_LEFT_LEG\n\nSTARTSTATE\nsettar EFF_LA1 $kick_s0_la1 EFF_LA2 $kick_s0_la2"));
    assert!(skl.contains("\nwait 0.2 end\nENDSTATE\n\nSTARTSTATE\nsettar EFF_LA1 $kick_s1_la1"));
    assert!(skl.ends_with("ENDSKILL\n\nREFLECTSKILL SKILL_KICK_LEFT_LEG SKILL_KICK_RIGHT_LEG"));
}

#[test]
fn skl_txt_upper_case_name() {
    let rows = vec![row(0, "0.2")];
    let (_, skl) = into_skl_txt_texts(&rows, "straße");
    assert!(skl.starts_with("STARTSKILL SKILL_STRASSE_LEFT_LEG"));
    let (_, skl2) = skl_txt_texts(&rows, "walk", "W");
    assert!(skl2.starts_with("STARTSKILL SKILL_W_LEFT_LEG"));
    assert!(skl2.contains("$walk_s0_la1"));
}

#[test]
fn params_round_trip() {
    let rows: Vec<Vec<String>> = (0..12).map(|k| row(k * 20, "1")).collect();
    let (txt, _) = into_skl_txt_texts(&rows, "run_fast");
    let frames = params_frames(&txt);
    assert_eq!(frames.len(), 12);
    for k in 0..12 {
        for j in 0..20 {
            assert_eq!(frames[k][j].as_deref(), Some(rows[k][j].as_str()));
        }
        assert_eq!(frames[k][20], None);
    }
}
