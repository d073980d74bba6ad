use vstd::prelude::*;

use crate::frames::{copy_frame, empty_frame, frames_view, new_frame, set_cell, Frame};
use crate::joints::{joint_index, joint_index_of, NO_JOINT};
use crate::text::{chars_eq, chars_of, copy_chars, lemma_split_nonempty, split_char, split_spec, views};

verus! {

/// A line of a params file that starts with `/` or `#` is a comment.
pub open spec fn is_comment(line: Seq<char>) -> bool {
    line.len() > 0 && (line[0] == '/' || line[0] == '#')
}

/// The tab-separated fields of a params line: the key, then the value.
pub open spec fn line_fields(line: Seq<char>) -> Seq<Seq<char>> {
    split_spec(line, '\t')
}

/// The `_`-separated parts of a params line's key: ..., the state, the joint.
pub open spec fn line_key(line: Seq<char>) -> Seq<Seq<char>> {
    split_spec(line_fields(line)[0], '_')
}

/// The frame index of the joint that a params line names.
pub open spec fn line_joint(line: Seq<char>) -> int {
    joint_index(line_key(line).last())
}

/// The state (the frame's name) of a params line.
pub open spec fn line_state(line: Seq<char>) -> Seq<char> {
    line_key(line)[line_key(line).len() - 2]
}

/// The value text of a params line.
pub open spec fn line_value(line: Seq<char>) -> Seq<char> {
    line_fields(line)[1]
}

/// A params line sets a cell when it is no comment and its key ends with a joint name.
pub open spec fn sets_cell(line: Seq<char>) -> bool {
    !is_comment(line) && line_joint(line) != usize::MAX as int
}

/// A line that sets a cell has a state before its joint, and a value.
pub open spec fn params_line_ok(line: Seq<char>) -> bool {
    sets_cell(line) ==> line_key(line).len() >= 2 && line_fields(line).len() >= 2
}

/// The state a params file starts in.
pub open spec fn first_state() -> Seq<char> {
    seq!['s', '0']
}

/// What reading a params file keeps between lines: the frames finished so far, the frame being
/// filled, and the current state.
pub type ParamsAcc = (Seq<Seq<Option<Seq<char>>>>, Seq<Option<Seq<char>>>, Seq<char>);

/// Reading one params line: a line that sets a cell under another state than the current one
/// first finishes the current frame (the new frame starts as a copy of it) and makes its state
/// current; then the cell takes the line's value. Other lines change nothing.
pub open spec fn params_step(acc: ParamsAcc, line: Seq<char>) -> ParamsAcc {
    if !sets_cell(line) {
        acc
    } else {
        let targets = if line_state(line) != acc.2 {
            acc.0.push(acc.1)
        } else {
            acc.0
        };
        (targets, acc.1.update(line_joint(line), Some(line_value(line))), line_state(line))
    }
}

/// The state after reading the first `n` lines.
pub open spec fn params_fold(lines: Seq<Seq<char>>, n: nat) -> ParamsAcc
    decreases n,
{
    if n == 0 {
        (Seq::empty(), empty_frame(), first_state())
    } else {
        params_step(params_fold(lines, (n - 1) as nat), lines[n - 1])
    }
}

/// The lines of a params text.
pub open spec fn params_lines(text: Seq<char>) -> Seq<Seq<char>> {
    split_spec(text, '\n')
}

/// The frames of a params text: those finished while reading its lines, then the last one.
pub open spec fn params_spec(text: Seq<char>) -> Seq<Seq<Option<Seq<char>>>> {
    let lines = params_lines(text);
    let acc = params_fold(lines, lines.len());
    acc.0.push(acc.1)
}

/// Every line of the text that sets a cell has a state and a value.
pub open spec fn params_defined(text: Seq<char>) -> bool {
    forall|i: int| 0 <= i < params_lines(text).len() ==> params_line_ok(#[trigger] params_lines(text)[i])
}

/// Reads a params text; the flag tells whether every line was well formed, and the frames are
/// those of `params_spec` when it was.
fn read_params(text: &str) -> (res: (bool, Vec<Frame>))
    ensures
        res.0 == params_defined(text@),
        res.0 ==> frames_view(res.1@) == params_spec(text@),
{
    let cs = chars_of(text);
    let lines = split_char(&cs, '\n');
    let ghost ls = views(lines@);
    let mut targets: Vec<Frame> = Vec::new();
    let mut frame = new_frame();
    let mut state: Vec<char> = Vec::new();
    state.push('s');
    state.push('0');
    assert(state@ =~= first_state());
    for i in 0..lines.len()
        invariant
            ls == views(lines@),
            ls == params_lines(text@),
            frame.len() == 21,
            (frames_view(targets@), frame.deep_view(), state@) == params_fold(ls, i as nat),
            forall|j: int| 0 <= j < i ==> params_line_ok(#[trigger] ls[j]),
    {
        let line = &lines[i];
        assert(line@ == ls[i as int]);
        let comment = line.len() > 0 && (line[0] == '/' || line[0] == '#');
        if !comment {
            let fields = split_char(line, '\t');
            proof {
                lemma_split_nonempty(line@, '\t');
            }
            let key = split_char(&fields[0], '_');
            proof {
                lemma_split_nonempty(fields@[0]@, '_');
            }
            let idx = joint_index_of(key[key.len() - 1].as_slice());
            assert(key@[key.len() - 1]@ == line_key(line@).last());
            if idx != NO_JOINT {
                if key.len() < 2 || fields.len() < 2 {
                    assert(!params_line_ok(ls[i as int]));
                    return (false, Vec::new());
                }
                let ghost acc = (frames_view(targets@), frame.deep_view(), state@);
                let st = &key[key.len() - 2];
                assert(st@ == line_state(line@));
                if !chars_eq(st, &state) {
                    let done = copy_frame(&frame);
                    targets.push(done);
                    state = copy_chars(st);
                    assert(frames_view(targets@) =~= acc.0.push(acc.1));
                }
                set_cell(&mut frame, idx, &fields[1]);
            }
        }
        assert(params_fold(ls, (i + 1) as nat) == params_step(params_fold(ls, i as nat), ls[i as int]));
    }
    targets.push(frame);
    assert(frames_view(targets@) =~= params_spec(text@));
    (true, targets)
}

/// The frames that a params text describes (the logic of `Target::from_params`): lines that are
/// comments, or whose key does not end with a joint name, are skipped; each other line sets its
/// joint's cell to its value, after finishing the frame when its state differs from the current one.
pub fn params_frames(text: &str) -> (frames: Vec<Frame>)
    requires
        params_defined(text@),
    ensures
        frames_view(frames@) == params_spec(text@),
{
    read_params(text).1
}

/// Whether reading the params text is defined: every line that sets a cell has a state before
/// its joint name and a value after a tab.
pub fn params_text_defined(text: &str) -> (ok: bool)
    ensures
        ok == params_defined(text@),
{
    read_params(text).0
}

} // verus!

verus! {

proof fn lemma_params_fold_len(lines: Seq<Seq<char>>, n: nat)
    requires
        n <= lines.len(),
        forall|i: int| 0 <= i < lines.len() ==> params_line_ok(#[trigger] lines[i]),
    ensures
        params_fold(lines, n).1.len() == 21,
        forall|k: int|
            0 <= k < params_fold(lines, n).0.len() ==> (#[trigger] params_fold(lines, n).0[k]).len()
                == 21,
    decreases n,
{
    if n > 0 {
        lemma_params_fold_len(lines, (n - 1) as nat);
        let line = lines[n - 1];
        if sets_cell(line) {
            crate::joints::lemma_joint_index_range(line_key(line).last());
        }
    }
}

/// Every frame read from a params text has 21 cells, one per joint and the waiting time.
pub proof fn lemma_params_frames_len(text: Seq<char>)
    requires
        params_defined(text),
    ensures
        forall|k: int|
            0 <= k < params_spec(text).len() ==> (#[trigger] params_spec(text)[k]).len() == 21,
{
    let lines = params_lines(text);
    lemma_params_fold_len(lines, lines.len());
    let acc = params_fold(lines, lines.len());
    assert forall|k: int| 0 <= k < params_spec(text).len() implies (#[trigger] params_spec(
        text,
    )[k]).len() == 21 by {
        if k < acc.0.len() {
            assert(params_spec(text)[k] == acc.0[k]);
        }
    }
}

} // verus!

verus! {

/// The state after reading `lines` in order, starting from `acc`.
pub open spec fn params_over(acc: ParamsAcc, lines: Seq<Seq<char>>) -> ParamsAcc
    decreases lines.len(),
{
    if lines.len() == 0 {
        acc
    } else {
        params_step(params_over(acc, lines.drop_last()), lines.last())
    }
}

/// Reading the first `n` lines is reading that prefix from the first state.
proof fn lemma_params_fold_over(lines: Seq<Seq<char>>, n: nat)
    requires
        n <= lines.len(),
    ensures
        params_fold(lines, n) == params_over(
            (Seq::empty(), empty_frame(), first_state()),
            lines.take(n as int),
        ),
    decreases n,
{
    if n > 0 {
        lemma_params_fold_over(lines, (n - 1) as nat);
        assert(lines.take(n as int).drop_last() =~= lines.take(n - 1));
        assert(lines.take(n as int).last() == lines[n - 1]);
    } else {
        assert(lines.take(0) =~= Seq::<Seq<char>>::empty());
    }
}

/// Reading two runs of lines one after the other is reading the first, then the second.
proof fn lemma_params_over_concat(acc: ParamsAcc, a: Seq<Seq<char>>, b: Seq<Seq<char>>)
    ensures
        params_over(acc, a + b) == params_over(params_over(acc, a), b),
    decreases b.len(),
{
    if b.len() == 0 {
        assert(a + b =~= a);
    } else {
        lemma_params_over_concat(acc, a, b.drop_last());
        assert((a + b).drop_last() =~= a + b.drop_last());
        assert((a + b).last() == b.last());
    }
}

/// A comment line changes nothing wherever it stands among the lines.
proof fn lemma_params_over_comment(a: Seq<Seq<char>>, c: Seq<char>, b: Seq<Seq<char>>)
    requires
        is_comment(c),
    ensures
        params_over((Seq::empty(), empty_frame(), first_state()), a.push(c) + b) == params_over(
            (Seq::empty(), empty_frame(), first_state()),
            a + b,
        ),
{
    let init: ParamsAcc = (Seq::empty(), empty_frame(), first_state());
    lemma_params_over_concat(init, a.push(c), b);
    lemma_params_over_concat(init, a, b);
    assert(a.push(c).drop_last() =~= a);
}

/// Inserting a line that starts with `/` or `#` (a comment) at the start of any line of a
/// params text changes neither the frames read from it nor whether reading it is defined.
pub proof fn lemma_params_comment_line(pre: Seq<char>, c: Seq<char>, post: Seq<char>)
    requires
        c.len() > 0,
        c[0] == '/' || c[0] == '#',
        !c.contains('\n'),
        pre.len() == 0 || pre.last() == '\n',
    ensures
        params_spec(pre + c.push('\n') + post) == params_spec(pre + post),
        params_defined(pre + c.push('\n') + post) == params_defined(pre + post),
{
    assert(is_comment(c));
    let with = pre + c.push('\n') + post;
    let without = pre + post;
    crate::text::lemma_split_free(c, '\n');
    crate::text::lemma_split_concat(c, post, '\n');
    let after = split_spec(post, '\n');
    // The lines before the inserted one.
    let a: Seq<Seq<char>> = if pre.len() == 0 {
        Seq::empty()
    } else {
        split_spec(pre.drop_last(), '\n')
    };
    if pre.len() == 0 {
        assert(with =~= c.push('\n') + post);
        assert(without =~= post);
        assert(params_lines(with) == seq![c] + after);
        assert(params_lines(with) =~= a.push(c) + after);
        assert(params_lines(without) =~= a + after);
    } else {
        let p = pre.drop_last();
        assert(pre =~= p.push('\n'));
        assert(with =~= p.push('\n') + (c.push('\n') + post));
        assert(without =~= p.push('\n') + post);
        crate::text::lemma_split_concat(p, c.push('\n') + post, '\n');
        crate::text::lemma_split_concat(p, post, '\n');
        assert(params_lines(with) == a + (seq![c] + after));
        assert(params_lines(with) =~= a.push(c) + after);
        assert(params_lines(without) =~= a + after);
    }
    let l1 = params_lines(with);
    let l2 = params_lines(without);
    lemma_params_fold_over(l1, l1.len());
    lemma_params_fold_over(l2, l2.len());
    assert(l1.take(l1.len() as int) =~= l1);
    assert(l2.take(l2.len() as int) =~= l2);
    lemma_params_over_comment(a, c, after);
    if params_defined(without) {
        assert forall|i: int| 0 <= i < l1.len() implies params_line_ok(#[trigger] l1[i]) by {
            if i < a.len() {
                assert(l1[i] == l2[i]);
            } else if i > a.len() {
                assert(l1[i] == l2[i - 1]);
            } else {
                assert(l1[i] == c);
            }
        }
    }
    if params_defined(with) {
        assert forall|i: int| 0 <= i < l2.len() implies params_line_ok(#[trigger] l2[i]) by {
            if i < a.len() {
                assert(l2[i] == l1[i]);
            } else {
                assert(l2[i] == l1[i + 1]);
            }
        }
    }
}

} // verus!
