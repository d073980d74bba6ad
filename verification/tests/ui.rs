use skill_transform::ui::{execute, update_target, Export, Source};

#[test]
fn update_loads_by_extension() {
    assert_eq!(
        update_target(&Some(String::from("assets/out/kick.txt"))),
        (String::from("assets/out/kick.txt.old"), Some(Source::Params))
    );
    assert_eq!(
        update_target(&Some(String::from("a.b.edit"))),
        (String::from("a.b.edit.old"), Some(Source::Editor))
    );
    assert_eq!(
        update_target(&Some(String::from("c.pcapng"))),
        (String::from("c.pcapng.old"), Some(Source::Capture))
    );
    assert_eq!(
        update_target(&Some(String::from("c.png"))),
        (String::from("c.png.old"), Some(Source::Empty))
    );
}

#[test]
fn update_loads_once() {
    let (p, s) = update_target(&Some(String::from("x.txt")));
    assert!(s.is_some());
    assert_eq!(update_target(&Some(p.clone())), (p, None));
    assert_eq!(update_target(&None), (String::from("none"), None));
    assert_eq!(update_target(&Some(String::from("none"))), (String::from("none"), None));
}

#[test]
fn execute_picks_name_and_export() {
    assert_eq!(
        execute("assets/out/kick.txt.old", Some(1), false),
        Some((Export::Skl, String::from("kick")))
    );
    assert_eq!(
        execute("C:\\data\\walk.edit.old", Some(2), true),
        Some((Export::Editor, String::from("walk")))
    );
    assert_eq!(
        execute("dir/run.txt.old", Some(3), false),
        Some((Export::SklTxt, String::from("run")))
    );
    assert_eq!(execute("dir/run.txt.old", Some(0), false), None);
    assert_eq!(execute("none", Some(1), false), None);
}
