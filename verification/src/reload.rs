use vstd::prelude::*;

use crate::frames::empty_frame;
use crate::joints::{joint_index, joint_names, lemma_joint_names_index};
use crate::params::{
    first_state, is_comment, line_fields, line_joint, line_key, line_state, line_value,
    params_defined, params_fold, params_line_ok, params_lines, params_spec, params_step, sets_cell,
};
use crate::skill::{param_key, param_line, param_lines, params_file_spec};
use crate::text::{
    decimal, digit_chars, free_of, lemma_concat_free, lemma_decimal_digits,
    lemma_decimal_injective, lemma_split_extend, lemma_split_free, lemma_split_nonempty,
    lemma_split_push_sep, lemma_split_terminated, split_spec,
};

verus! {

/// The frame that reading back a frame's params lines gives: each joint's value text, and no
/// waiting time (params files carry none).
pub open spec fn read_back_frame(row: Seq<Seq<char>>) -> Seq<Option<Seq<char>>> {
    Seq::new(21, |c: int| if c < 20 { Some(row[c]) } else { None::<Seq<char>> })
}

/// A frame whose first 20 texts hold neither a tab nor a newline.
pub open spec fn plain_values(row: Seq<Seq<char>>) -> bool {
    row.len() >= 20 && forall|j: int|
        0 <= j < 20 ==> !(#[trigger] row[j]).contains('\t') && !row[j].contains('\n')
}

/// A file name that can stand at the start of params lines: no tab, no newline, and no
/// leading `/` or `#`.
pub open spec fn plain_name(name: Seq<char>) -> bool {
    !name.contains('\t') && !name.contains('\n') && !is_comment(name)
}

proof fn lemma_not_in(s: Seq<char>, x: char)
    requires
        forall|i: int| 0 <= i < s.len() ==> s[i] != x,
    ensures
        !s.contains(x),
{
}

/// The state part of a key, `s` and the frame number, holds no separator.
proof fn lemma_state_free(k: nat, x: char)
    requires
        x == '_' || x == '\t' || x == '\n',
    ensures
        !(seq!['s'] + decimal(k)).contains(x),
{
    lemma_decimal_digits(k);
    let d = decimal(k);
    let st = seq!['s'] + d;
    assert forall|i: int| 0 <= i < st.len() implies st[i] != x by {
        if i > 0 {
            assert(st[i] == d[i - 1]);
            assert(digit_chars().contains(d[i - 1]));
            let m = choose|m: int| 0 <= m < digit_chars().len() && digit_chars()[m] == d[i - 1];
        }
    }
    lemma_not_in(st, x);
}

/// A joint name holds no separator.
proof fn lemma_joint_name_free(j: int, x: char)
    requires
        0 <= j < 20,
        x == '_' || x == '\t' || x == '\n',
    ensures
        !joint_names()[j].contains(x),
{
    lemma_joint_names_index(j);
    let n = joint_names()[j];
    assert(n[0] == 'l' || n[0] == 'r');
    assert(n[1] == 'a' || n[1] == 'l');
    assert(digit_chars().contains(n[2])) by {
        assert(digit_chars()[1] == '1' && digit_chars()[2] == '2' && digit_chars()[3] == '3');
        assert(digit_chars()[4] == '4' && digit_chars()[5] == '5' && digit_chars()[6] == '6');
        if n[2] == '1' {
            assert(digit_chars()[1] == n[2]);
        } else if n[2] == '2' {
            assert(digit_chars()[2] == n[2]);
        } else if n[2] == '3' {
            assert(digit_chars()[3] == n[2]);
        } else if n[2] == '4' {
            assert(digit_chars()[4] == n[2]);
        } else if n[2] == '5' {
            assert(digit_chars()[5] == n[2]);
        } else {
            assert(digit_chars()[6] == n[2]);
        }
    }
    let m = choose|m: int| 0 <= m < digit_chars().len() && digit_chars()[m] == n[2];
    assert forall|i: int| 0 <= i < n.len() implies n[i] != x by {}
    lemma_not_in(n, x);
}

/// What a params line of a written params file reads as.
proof fn lemma_param_line(name: Seq<char>, k: nat, j: int, v: Seq<char>)
    requires
        plain_name(name),
        0 <= j < 20,
        !v.contains('\t'),
        !v.contains('\n'),
    ensures
        !param_line(name, k, j, v).contains('\n'),
        sets_cell(param_line(name, k, j, v)),
        params_line_ok(param_line(name, k, j, v)),
        line_joint(param_line(name, k, j, v)) == j,
        line_state(param_line(name, k, j, v)) == seq!['s'] + decimal(k),
        line_value(param_line(name, k, j, v)) == v,
{
    let st = seq!['s'] + decimal(k);
    let jn = joint_names()[j];
    let key = param_key(name, k, j);
    let line = param_line(name, k, j, v);
    lemma_state_free(k, '_');
    lemma_state_free(k, '\t');
    lemma_state_free(k, '\n');
    lemma_joint_name_free(j, '_');
    lemma_joint_name_free(j, '\t');
    lemma_joint_name_free(j, '\n');
    lemma_joint_names_index(j);
    // The line is `name`, `_`, the state, `_`, the joint, a tab, the value.
    assert(key =~= ((name.push('_') + st).push('_') + jn));
    assert(line =~= key.push('\t') + v);
    let sep_u = seq!['_'];
    let sep_t = seq!['\t'];
    lemma_not_in(sep_u, '\t');
    lemma_not_in(sep_u, '\n');
    lemma_not_in(sep_t, '\n');
    // No tab in the key, no newline in the line.
    lemma_concat_free(name, sep_u, '\t');
    lemma_concat_free(name + sep_u, st, '\t');
    lemma_concat_free(name + sep_u + st, sep_u, '\t');
    lemma_concat_free(name + sep_u + st + sep_u, jn, '\t');
    assert(key =~= name + sep_u + st + sep_u + jn);
    lemma_concat_free(name, sep_u, '\n');
    lemma_concat_free(name + sep_u, st, '\n');
    lemma_concat_free(name + sep_u + st, sep_u, '\n');
    lemma_concat_free(name + sep_u + st + sep_u, jn, '\n');
    lemma_concat_free(key, sep_t, '\n');
    lemma_concat_free(key + sep_t, v, '\n');
    assert(line =~= key + sep_t + v);
    // The fields: the key and the value.
    lemma_split_free(key, '\t');
    lemma_split_push_sep(key, '\t');
    lemma_split_extend(key.push('\t'), v, '\t');
    let e = Seq::<char>::empty();
    assert(e + v =~= v);
    assert(seq![key].push(e).update(1, e + v) =~= seq![key, v]);
    assert(line_fields(line) =~= seq![key, v]);
    // The key's parts: those of the name, the state, the joint.
    let ns = split_spec(name, '_');
    lemma_split_nonempty(name, '_');
    lemma_split_push_sep(name, '_');
    lemma_split_extend(name.push('_'), st, '_');
    assert(ns.push(e).update(ns.len() as int, e + st) =~= ns.push(st));
    lemma_split_push_sep(name.push('_') + st, '_');
    lemma_split_extend((name.push('_') + st).push('_'), jn, '_');
    assert(ns.push(st).push(e).update(ns.len() as int + 1, e + jn) =~= ns.push(st).push(jn));
    assert(line_key(line) =~= ns.push(st).push(jn));
    assert(!is_comment(line)) by {
        if name.len() > 0 {
            assert(line[0] == name[0]);
        } else {
            assert(line[0] == '_');
        }
    }
}

/// The line at position `20 k + j` of the params lines of the first `n` frames is joint `j` of
/// frame `k`.
proof fn lemma_param_lines_index(name: Seq<char>, rows: Seq<Seq<Seq<char>>>, n: nat)
    ensures
        param_lines(name, rows, n).len() == 20 * n,
        forall|k: int, j: int|
            0 <= k < n && 0 <= j < 20 ==> #[trigger] param_lines(name, rows, n)[20 * k + j]
                == param_line(name, k as nat, j, rows[k][j]),
    decreases n,
{
    if n > 0 {
        lemma_param_lines_index(name, rows, (n - 1) as nat);
        let prev = param_lines(name, rows, (n - 1) as nat);
        let all = param_lines(name, rows, n);
        assert forall|k: int, j: int| 0 <= k < n && 0 <= j < 20 implies #[trigger] all[20 * k + j]
            == param_line(name, k as nat, j, rows[k][j]) by {
            if k < n - 1 {
                assert(all[20 * k + j] == prev[20 * k + j]);
            } else {
                assert(all[20 * k + j] == Seq::new(
                    20,
                    |j: int| param_line(name, (n - 1) as nat, j, rows[n - 1][j]),
                )[j]);
            }
        }
    }
}

/// The frame being filled after the first `j` lines of frame `k`: the cells of those joints
/// hold frame `k`'s values, the others still those of the frame before (nothing for frame 0).
pub open spec fn partial_frame(rows: Seq<Seq<Seq<char>>>, k: int, j: int) -> Seq<Option<Seq<char>>> {
    let base = if k == 0 {
        empty_frame()
    } else {
        read_back_frame(rows[k - 1])
    };
    Seq::new(21, |c: int| if c < j { Some(rows[k][c]) } else { base[c] })
}

/// The frames finished before frame `k`.
pub open spec fn finished_frames(rows: Seq<Seq<Seq<char>>>, k: int) -> Seq<Seq<Option<Seq<char>>>> {
    Seq::new(k as nat, |i: int| read_back_frame(rows[i]))
}

/// The state of frame `k`.
pub open spec fn frame_state(k: int) -> Seq<char> {
    seq!['s'] + decimal(k as nat)
}

/// Reading the written lines up to joint `j` of frame `k` gives the frames before it, the
/// partial frame, and frame `k`'s state.
proof fn lemma_fold_progress(
    name: Seq<char>,
    rows: Seq<Seq<Seq<char>>>,
    lines: Seq<Seq<char>>,
    k: int,
    j: int,
)
    requires
        plain_name(name),
        forall|i: int| 0 <= i < rows.len() ==> plain_values(#[trigger] rows[i]),
        lines == param_lines(name, rows, rows.len()).push(Seq::<char>::empty()),
        0 <= k < rows.len(),
        1 <= j <= 20,
    ensures
        params_fold(lines, (20 * k + j) as nat) == (
            finished_frames(rows, k),
            partial_frame(rows, k, j),
            frame_state(k),
        ),
    decreases k, j,
{
    lemma_param_lines_index(name, rows, rows.len());
    let m = 20 * k + j - 1;
    // The line just read is joint `j - 1` of frame `k`.
    assert(lines[m] == param_lines(name, rows, rows.len())[20 * k + (j - 1)]);
    assert(rows[k].len() >= 20 && !rows[k][j - 1].contains('\t') && !rows[k][j - 1].contains('\n'));
    lemma_param_line(name, k as nat, j - 1, rows[k][j - 1]);
    let line = lines[m];
    assert(params_fold(lines, (m + 1) as nat) == params_step(params_fold(lines, m as nat), line));
    if j > 1 {
        lemma_fold_progress(name, rows, lines, k, j - 1);
        assert(partial_frame(rows, k, j - 1).update(j - 1, Some(rows[k][j - 1])) =~= partial_frame(
            rows,
            k,
            j,
        ));
    } else if k > 0 {
        lemma_fold_progress(name, rows, lines, k - 1, 20);
        assert(20 * (k - 1) + 20 == m);
        // A new state finishes the frame before.
        assert(frame_state(k - 1) != frame_state(k)) by {
            if frame_state(k - 1) == frame_state(k) {
                assert(decimal((k - 1) as nat) =~= frame_state(k - 1).drop_first());
                assert(decimal(k as nat) =~= frame_state(k).drop_first());
                lemma_decimal_injective((k - 1) as nat, k as nat);
            }
        }
        assert(partial_frame(rows, k - 1, 20) =~= read_back_frame(rows[k - 1]));
        assert(finished_frames(rows, k - 1).push(read_back_frame(rows[k - 1])) =~= finished_frames(
            rows,
            k,
        ));
        assert(read_back_frame(rows[k - 1]).update(0, Some(rows[k][0])) =~= partial_frame(
            rows,
            k,
            1,
        ));
    } else {
        // The first line keeps the first state.
        assert(frame_state(0) =~= first_state());
        assert(finished_frames(rows, 0) =~= Seq::<Seq<Option<Seq<char>>>>::empty());
        assert(empty_frame().update(0, Some(rows[0][0])) =~= partial_frame(rows, 0, 1));
    }
}

/// Frames written as a params file by `into_skl_txt_texts` read back (`params_frames`) as the
/// same joint values, one frame per written frame, when there is at least one frame, the file
/// name has no tab or newline and does not start with `/` or `#`, and no value text has a tab or a
/// newline; reading that file is defined. The waiting times are not in the params file, so the
/// frames read back have none.
pub proof fn lemma_params_round_trip(name: Seq<char>, rows: Seq<Seq<Seq<char>>>)
    requires
        rows.len() >= 1,
        plain_name(name),
        forall|i: int| 0 <= i < rows.len() ==> plain_values(#[trigger] rows[i]),
    ensures
        params_defined(params_file_spec(name, rows)),
        params_spec(params_file_spec(name, rows)) == Seq::new(
            rows.len(),
            |k: int| read_back_frame(rows[k]),
        ),
{
    let n = rows.len();
    let pl = param_lines(name, rows, n);
    lemma_param_lines_index(name, rows, n);
    assert forall|i: int| 0 <= i < pl.len() implies !(#[trigger] pl[i]).contains('\n')
        && params_line_ok(pl[i]) by {
        let k = i / 20;
        let j = i % 20;
        assert(i == 20 * k + j);
        assert(pl[20 * k + j] == param_line(name, k as nat, j, rows[k][j]));
        assert(!rows[k][j].contains('\t') && !rows[k][j].contains('\n'));
        lemma_param_line(name, k as nat, j, rows[k][j]);
    }
    assert(free_of(pl, '\n'));
    lemma_split_terminated(pl, '\n');
    let text = params_file_spec(name, rows);
    let lines = params_lines(text);
    assert(lines == pl.push(Seq::<char>::empty()));
    // The empty last line sets no cell.
    let e = Seq::<char>::empty();
    assert(split_spec(e, '\t') =~= seq![e]);
    assert(split_spec(e, '_') =~= seq![e]);
    assert(line_key(e) =~= seq![e]);
    assert(joint_index(e) == usize::MAX as int);
    assert(!sets_cell(e));
    lemma_fold_progress(name, rows, lines, n - 1, 20);
    assert(20 * (n - 1) + 20 == 20 * n);
    assert(lines.len() == 20 * n + 1);
    assert(params_fold(lines, lines.len()) == params_fold(lines, (20 * n) as nat));
    assert(partial_frame(rows, n - 1, 20) =~= read_back_frame(rows[n - 1]));
    assert(finished_frames(rows, n - 1).push(read_back_frame(rows[n - 1])) =~= Seq::new(
        n,
        |k: int| read_back_frame(rows[k]),
    ));
    assert forall|i: int| 0 <= i < lines.len() implies params_line_ok(#[trigger] lines[i]) by {
        if i < pl.len() {
            assert(lines[i] == pl[i]);
        }
    }
}

} // verus!
