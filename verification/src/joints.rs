use vstd::prelude::*;

use crate::text::{chars_of, digit_char, string_of};

verus! {

/// The number of joints a frame carries values for; the frame's cell after them holds
/// the waiting time.
pub const JOINT_COUNT: usize = 20;

/// The index that `get_joint_idx` gives an unknown name.
pub const NO_JOINT: usize = usize::MAX;

/// The joints, in frame order: left arm 1-4, left leg 1-6, right leg 1-6, right arm 1-4.
pub open spec fn joint_names() -> Seq<Seq<char>> {
    seq![
        seq!['l', 'a', '1'], seq!['l', 'a', '2'], seq!['l', 'a', '3'], seq!['l', 'a', '4'],
        seq!['l', 'l', '1'], seq!['l', 'l', '2'], seq!['l', 'l', '3'], seq!['l', 'l', '4'],
        seq!['l', 'l', '5'], seq!['l', 'l', '6'],
        seq!['r', 'l', '1'], seq!['r', 'l', '2'], seq!['r', 'l', '3'], seq!['r', 'l', '4'],
        seq!['r', 'l', '5'], seq!['r', 'l', '6'],
        seq!['r', 'a', '1'], seq!['r', 'a', '2'], seq!['r', 'a', '3'], seq!['r', 'a', '4'],
    ]
}

/// The joint names in upper case, as skill files write them after `EFF_`.
pub open spec fn joint_labels() -> Seq<Seq<char>> {
    seq![
        seq!['L', 'A', '1'], seq!['L', 'A', '2'], seq!['L', 'A', '3'], seq!['L', 'A', '4'],
        seq!['L', 'L', '1'], seq!['L', 'L', '2'], seq!['L', 'L', '3'], seq!['L', 'L', '4'],
        seq!['L', 'L', '5'], seq!['L', 'L', '6'],
        seq!['R', 'L', '1'], seq!['R', 'L', '2'], seq!['R', 'L', '3'], seq!['R', 'L', '4'],
        seq!['R', 'L', '5'], seq!['R', 'L', '6'],
        seq!['R', 'A', '1'], seq!['R', 'A', '2'], seq!['R', 'A', '3'], seq!['R', 'A', '4'],
    ]
}

/// The name of the waiting-time cell.
pub open spec fn wait_name() -> Seq<char> {
    seq!['w', 'a', 'i', 't']
}

/// The first frame index of the limb that two letters name (`la`, `ll`, `rl`, `ra`).
pub open spec fn limb_start(side: char, part: char) -> int {
    if side == 'l' && part == 'a' {
        0
    } else if side == 'l' && part == 'l' {
        4
    } else if side == 'r' && part == 'l' {
        10
    } else {
        16
    }
}

/// How many joints the limb that two letters name has; 0 for letters that name no limb.
pub open spec fn limb_size(side: char, part: char) -> int {
    if (side == 'l' || side == 'r') && part == 'a' {
        4
    } else if (side == 'l' || side == 'r') && part == 'l' {
        6
    } else {
        0
    }
}

/// The frame index of a joint name: two letters for the limb and a digit from `1`
/// up to the limb's joint count; `wait` is index 20; any other name is `usize::MAX`.
pub open spec fn joint_index(name: Seq<char>) -> int {
    if name.len() == 3 && 0 <= (name[2] as int) - ('1' as int) < limb_size(name[0], name[1]) {
        limb_start(name[0], name[1]) + (name[2] as int) - ('1' as int)
    } else if name =~= wait_name() {
        20
    } else {
        usize::MAX as int
    }
}

/// Each name of the joint table has its own position as index.
pub proof fn lemma_joint_names_index(i: int)
    requires
        0 <= i < 20,
    ensures
        joint_index(joint_names()[i]) == i,
        joint_names()[i].len() == 3,
{
}

/// The joints of the table are exactly the names whose index is below 20, and each stands
/// at its index.
pub proof fn lemma_joint_index_names(name: Seq<char>)
    requires
        0 <= joint_index(name) < 20,
    ensures
        joint_names()[joint_index(name)] == name,
{
    assert(name.len() == 3);
    assert(joint_names()[joint_index(name)] =~= name);
}

/// A joint index is a frame index or `usize::MAX`; a name of three characters is never `wait`.
pub proof fn lemma_joint_index_range(name: Seq<char>)
    ensures
        joint_index(name) == usize::MAX as int || 0 <= joint_index(name) <= 20,
        name.len() == 3 ==> joint_index(name) == usize::MAX as int || 0 <= joint_index(name) < 20,
{
}

/// The index of a joint name, as `joint_index` states it, for a name given as characters.
pub fn joint_index_of(name: &[char]) -> (idx: usize)
    ensures
        idx as int == joint_index(name@),
{
    if name.len() == 3 {
        let side = name[0];
        let part = name[1];
        let digit = name[2];
        let (base, count): (usize, u32) = if side == 'l' && part == 'a' {
            (0, 4)
        } else if side == 'l' && part == 'l' {
            (4, 6)
        } else if side == 'r' && part == 'l' {
            (10, 6)
        } else if side == 'r' && part == 'a' {
            (16, 4)
        } else {
            (0, 0)
        };
        if count > 0 {
            if let Some(d) = digit_value(digit) {
                if 1 <= d && d - 1 < count as usize {
                    return base + (d - 1);
                }
            }
        }
    }
    if name.len() == 4 && name[0] == 'w' && name[1] == 'a' && name[2] == 'i' && name[3] == 't' {
        assert(name@ =~= wait_name());
        return 20;
    }
    NO_JOINT
}

/// The frame index of a joint name: the position of the name among the joints (`la1` to `la4`,
/// `ll1` to `ll6`, `rl1` to `rl6`, `ra1` to `ra4`), 20 for `wait`, `usize::MAX` for any other
/// name.
pub fn get_joint_idx(joint_name: &str) -> (idx: usize)
    ensures
        idx as int == joint_index(joint_name@),
{
    let cs = chars_of(joint_name);
    joint_index_of(cs.as_slice())
}

/// The value of a decimal digit character.
fn digit_value(c: char) -> (d: Option<usize>)
    ensures
        match d {
            Some(v) => v < 10 && c as int == '0' as int + v,
            None => !('0' as int <= c as int <= '9' as int),
        },
{
    match c {
        '0' => Some(0),
        '1' => Some(1),
        '2' => Some(2),
        '3' => Some(3),
        '4' => Some(4),
        '5' => Some(5),
        '6' => Some(6),
        '7' => Some(7),
        '8' => Some(8),
        '9' => Some(9),
        _ => None,
    }
}

/// The name of joint `i`, as characters.
pub fn joint_name_chars(i: usize) -> (name: Vec<char>)
    requires
        i < 20,
    ensures
        name@ == joint_names()[i as int],
{
    let (side, part, first): (char, char, usize) = if i < 4 {
        ('l', 'a', 0)
    } else if i < 10 {
        ('l', 'l', 4)
    } else if i < 16 {
        ('r', 'l', 10)
    } else {
        ('r', 'a', 16)
    };
    let d = digit_char(i - first + 1);
    let mut name: Vec<char> = Vec::new();
    name.push(side);
    name.push(part);
    name.push(d);
    assert(name@ =~= joint_names()[i as int]);
    name
}

/// The upper-case name of joint `i`, as characters.
pub fn joint_label_chars(i: usize) -> (label: Vec<char>)
    requires
        i < 20,
    ensures
        label@ == joint_labels()[i as int],
{
    let (side, part, first): (char, char, usize) = if i < 4 {
        ('L', 'A', 0)
    } else if i < 10 {
        ('L', 'L', 4)
    } else if i < 16 {
        ('R', 'L', 10)
    } else {
        ('R', 'A', 16)
    };
    let d = digit_char(i - first + 1);
    let mut label: Vec<char> = Vec::new();
    label.push(side);
    label.push(part);
    label.push(d);
    assert(label@ =~= joint_labels()[i as int]);
    label
}

/// The joint names in frame order (`la1`, ..., `ra4`).
pub fn joint_names_list() -> (names: Vec<String>)
    ensures
        names.len() == 20,
        forall|i: int| 0 <= i < 20 ==> #[trigger] names[i]@ == joint_names()[i],
{
    let mut names: Vec<String> = Vec::new();
    for i in 0..JOINT_COUNT
        invariant
            names.len() == i,
            forall|k: int| 0 <= k < i ==> #[trigger] names[k]@ == joint_names()[k],
    {
        let cs = joint_name_chars(i);
        names.push(string_of(cs.as_slice()));
    }
    names
}

} // verus!
