use skill_transform::joints::{get_joint_idx, joint_names_list, NO_JOINT};

#[test]
fn test_get_joint_idx() {
    assert_eq!(get_joint_idx("la1"), 0);
}

#[test]
fn joint_indices_follow_the_table() {
    let names = joint_names_list();
    assert_eq!(names.len(), 20);
    for (i, name) in names.iter().enumerate() {
        assert_eq!(get_joint_idx(name), i);
    }
    assert_eq!(names[0], "la1");
    assert_eq!(names[4], "ll1");
    assert_eq!(names[10], "rl1");
    assert_eq!(names[19], "ra4");
}

#[test]
fn joint_index_edges() {
    assert_eq!(get_joint_idx("ll6"), 9);
    assert_eq!(get_joint_idx("rl6"), 15);
    assert_eq!(get_joint_idx("ra1"), 16);
    assert_eq!(get_joint_idx("wait"), 20);
    assert_eq!(get_joint_idx("la5"), NO_JOINT);
    assert_eq!(get_joint_idx("ll7"), NO_JOINT);
    assert_eq!(get_joint_idx("la0"), NO_JOINT);
    assert_eq!(get_joint_idx("hj1"), usize::MAX);
    assert_eq!(get_joint_idx(""), usize::MAX);
    assert_eq!(get_joint_idx("la1 "), usize::MAX);
    assert_eq!(get_joint_idx("LA1"), usize::MAX);
}
