use vstd::prelude::*;

use crate::text::{
    chars_of, free_of, join_spec, lemma_split_join, lemma_split_terminated, push_joined,
    split_char, split_spec, string_of, terminated_spec, views,
};

verus! {

/// The space-separated tokens of an editor line.
pub open spec fn editor_tokens(line: Seq<char>) -> Seq<Seq<char>> {
    split_spec(line, ' ')
}

/// The frame that an editor line describes: none for a line of at most two tokens; otherwise
/// the tokens from the fourth up to the last two, then the first token (the waiting time).
pub open spec fn editor_row(line: Seq<char>) -> Option<Seq<Seq<char>>> {
    let t = editor_tokens(line);
    if t.len() <= 2 {
        None
    } else {
        Some(t.subrange(3, t.len() - 2).push(t[0]))
    }
}

/// An editor line either has at most two tokens or at least five.
pub open spec fn editor_line_ok(line: Seq<char>) -> bool {
    editor_tokens(line).len() <= 2 || editor_tokens(line).len() >= 5
}

/// The frames of the first `n` lines, in order.
pub open spec fn editor_rows(lines: Seq<Seq<char>>, n: nat) -> Seq<Seq<Seq<char>>>
    decreases n,
{
    if n == 0 {
        Seq::empty()
    } else {
        let prev = editor_rows(lines, (n - 1) as nat);
        match editor_row(lines[n - 1]) {
            Some(row) => prev.push(row),
            None => prev,
        }
    }
}

/// The lines of an editor text.
pub open spec fn editor_lines(text: Seq<char>) -> Seq<Seq<char>> {
    split_spec(text, '\n')
}

/// The frames of an editor text, one per line of more than two tokens.
pub open spec fn editor_spec(text: Seq<char>) -> Seq<Seq<Seq<char>>> {
    editor_rows(editor_lines(text), editor_lines(text).len())
}

/// Every line of the editor text has at most two tokens or at least five.
pub open spec fn editor_defined(text: Seq<char>) -> bool {
    forall|i: int|
        0 <= i < editor_lines(text).len() ==> editor_line_ok(#[trigger] editor_lines(text)[i])
}

/// Reads an editor text; the flag tells whether it is defined, and the frames are those of
/// `editor_spec` when it is.
fn read_editor(text: &str) -> (res: (bool, Vec<Vec<String>>))
    ensures
        res.0 == editor_defined(text@),
        res.0 ==> res.1.deep_view() == editor_spec(text@),
{
    let cs = chars_of(text);
    let lines = split_char(&cs, '\n');
    let ghost ls = views(lines@);
    let mut rows: Vec<Vec<String>> = Vec::new();
    for i in 0..lines.len()
        invariant
            ls == views(lines@),
            ls == editor_lines(text@),
            rows.deep_view() == editor_rows(ls, i as nat),
            forall|j: int| 0 <= j < i ==> editor_line_ok(#[trigger] ls[j]),
    {
        let line = &lines[i];
        assert(line@ == ls[i as int]);
        let toks = split_char(line, ' ');
        let ghost t = views(toks@);
        if toks.len() > 2 {
            if toks.len() < 5 {
                assert(!editor_line_ok(ls[i as int]));
                return (false, Vec::new());
            }
            let mut row: Vec<String> = Vec::new();
            let end = toks.len() - 2;
            for k in 3..end
                invariant
                    t == views(toks@),
                    end == toks.len() - 2,
                    3 <= end,
                    row.deep_view() == t.subrange(3, k as int),
            {
                let ghost before = row.deep_view();
                let cell = string_of(toks[k].as_slice());
                assert(cell@ == t[k as int]);
                row.push(cell);
                assert(row.deep_view() =~= before.push(t[k as int]));
                assert(row.deep_view() =~= t.subrange(3, k + 1));
            }
            let first = string_of(toks[0].as_slice());
            assert(first@ == t[0]);
            let ghost before = row.deep_view();
            row.push(first);
            assert(row.deep_view() =~= before.push(t[0]));
            let ghost prev = rows.deep_view();
            rows.push(row);
            assert(rows.deep_view() =~= prev.push(t.subrange(3, t.len() - 2).push(t[0])));
        }
    }
    assert(ls.len() == lines.len());
    (true, rows)
}

/// The frames that an editor text describes (the logic of `Target::from_editor`): each line of
/// more than two space-separated tokens gives the tokens from the fourth up to the last two, then
/// the first token, which holds the waiting time.
pub fn editor_frames(text: &str) -> (frames: Vec<Vec<String>>)
    requires
        editor_defined(text@),
    ensures
        frames.deep_view() == editor_spec(text@),
{
    read_editor(text).1
}

/// Whether reading the editor text is defined: no line has three or four tokens.
pub fn editor_text_defined(text: &str) -> (ok: bool)
    ensures
        ok == editor_defined(text@),
{
    read_editor(text).0
}

/// The token `0`.
pub open spec fn zero_token() -> Seq<char> {
    seq!['0']
}

/// The token `0.0`.
pub open spec fn zero_point_token() -> Seq<char> {
    seq!['0', '.', '0']
}

/// The tokens of the editor line of a frame given as the texts of its 20 joint values and its
/// waiting time: the waiting time, `0`, `0`, the joint values, `0.0`, `0.0`.
pub open spec fn editor_line_tokens(row: Seq<Seq<char>>) -> Seq<Seq<char>> {
    seq![row[20], zero_token(), zero_token()] + row.subrange(0, 20) + seq![
        zero_point_token(),
        zero_point_token(),
    ]
}

/// The editor line of a frame: its tokens separated by spaces.
pub open spec fn editor_line(row: Seq<Seq<char>>) -> Seq<char> {
    join_spec(editor_line_tokens(row), ' ')
}

/// The editor text of frames: the line of each, each followed by a newline.
pub open spec fn editor_text_spec(rows: Seq<Seq<Seq<char>>>) -> Seq<char> {
    terminated_spec(Seq::new(rows.len(), |i: int| editor_line(rows[i])), '\n')
}

fn zero_chars() -> (v: Vec<char>)
    ensures
        v@ == zero_token(),
{
    let mut v: Vec<char> = Vec::new();
    v.push('0');
    assert(v@ =~= zero_token());
    v
}

fn zero_point_chars() -> (v: Vec<char>)
    ensures
        v@ == zero_point_token(),
{
    let mut v: Vec<char> = Vec::new();
    v.push('0');
    v.push('.');
    v.push('0');
    assert(v@ =~= zero_point_token());
    v
}

/// The editor text of frames (the logic of `Target::into_editor`), each frame given as the texts
/// of its 20 joint values in joint order, then of its waiting time in milliseconds.
pub fn into_editor_text(rows: &Vec<Vec<String>>) -> (text: String)
    requires
        forall|i: int| 0 <= i < rows.len() ==> (#[trigger] rows@[i]).len() == 21,
    ensures
        text@ == editor_text_spec(rows.deep_view()),
{
    let ghost rs = rows.deep_view();
    let ghost lines = Seq::new(rs.len(), |i: int| editor_line(rs[i]));
    let mut out: Vec<char> = Vec::new();
    for i in 0..rows.len()
        invariant
            rs == rows.deep_view(),
            lines == Seq::new(rs.len(), |i: int| editor_line(rs[i])),
            forall|i: int| 0 <= i < rows.len() ==> (#[trigger] rows@[i]).len() == 21,
            out@ == terminated_spec(lines.take(i as int), '\n'),
    {
        let row = &rows[i];
        let ghost r = rs[i as int];
        assert(r.len() == 21);
        let mut toks: Vec<Vec<char>> = Vec::new();
        let w = chars_of(row[20].as_str());
        assert(w@ == r[20]);
        toks.push(w);
        toks.push(zero_chars());
        toks.push(zero_chars());
        for j in 0..20usize
            invariant
                row.len() == 21,
                r == row.deep_view(),
                views(toks@) == seq![r[20], zero_token(), zero_token()] + r.subrange(0, j as int),
        {
            let v = chars_of(row[j].as_str());
            assert(v@ == r[j as int]);
            let ghost before = views(toks@);
            toks.push(v);
            assert(views(toks@) =~= before.push(r[j as int]));
            assert(views(toks@) =~= seq![r[20], zero_token(), zero_token()] + r.subrange(
                0,
                j + 1,
            ));
        }
        toks.push(zero_point_chars());
        toks.push(zero_point_chars());
        assert(views(toks@) =~= editor_line_tokens(r));
        let ghost before = out@;
        push_joined(&mut out, &toks, ' ');
        out.push('\n');
        assert(lines.take(i + 1).drop_last() =~= lines.take(i as int));
        assert(out@ =~= terminated_spec(lines.take(i + 1), '\n'));
    }
    assert(lines.take(rows.len() as int) =~= lines);
    string_of(out.as_slice())
}

} // verus!

verus! {

/// The characters that the texts of an editor frame must lack for the frame to read back.
pub open spec fn editor_row_plain(row: Seq<Seq<char>>) -> bool {
    row.len() == 21 && free_of(row, ' ') && free_of(row, '\n')
}

proof fn lemma_small_tokens_free(x: char)
    requires
        x == ' ' || x == '\n',
    ensures
        !zero_token().contains(x),
        !zero_point_token().contains(x),
{
    if zero_token().contains(x) {
        let k = choose|k: int| 0 <= k < zero_token().len() && zero_token()[k] == x;
    }
    if zero_point_token().contains(x) {
        let k = choose|k: int| 0 <= k < zero_point_token().len() && zero_point_token()[k] == x;
    }
}

proof fn lemma_line_tokens_free(row: Seq<Seq<char>>, x: char)
    requires
        row.len() == 21,
        free_of(row, x),
        x == ' ' || x == '\n',
    ensures
        free_of(editor_line_tokens(row), x),
        editor_line_tokens(row).len() == 25,
{
    lemma_small_tokens_free(x);
    let t = editor_line_tokens(row);
    assert forall|i: int| 0 <= i < t.len() implies !(#[trigger] t[i]).contains(x) by {
        if i == 0 {
            assert(t[i] == row[20]);
        } else if i < 3 {
            assert(t[i] == zero_token());
        } else if i < 23 {
            assert(t[i] == row[i - 3]);
        } else {
            assert(t[i] == zero_point_token());
        }
    }
}

/// The line of a plain frame reads back as that frame.
proof fn lemma_editor_line_row(row: Seq<Seq<char>>)
    requires
        editor_row_plain(row),
    ensures
        editor_row(editor_line(row)) == Some(row),
        editor_line_ok(editor_line(row)),
        !editor_line(row).contains('\n'),
{
    lemma_line_tokens_free(row, ' ');
    lemma_line_tokens_free(row, '\n');
    let t = editor_line_tokens(row);
    lemma_split_join(t, ' ');
    crate::text::lemma_join_free(t, ' ', '\n');
    assert(t.subrange(3, t.len() - 2).push(t[0]) =~= row);
}

/// Frames written as an editor text (`into_editor_text`) read back (`editor_frames`) as the same
/// frames, for frames of 21 texts without spaces or newlines; reading that text is defined.
pub proof fn lemma_editor_round_trip(rows: Seq<Seq<Seq<char>>>)
    requires
        forall|i: int| 0 <= i < rows.len() ==> editor_row_plain(#[trigger] rows[i]),
    ensures
        editor_defined(editor_text_spec(rows)),
        editor_spec(editor_text_spec(rows)) == rows,
{
    let lines = Seq::new(rows.len(), |i: int| editor_line(rows[i]));
    assert forall|i: int| 0 <= i < lines.len() implies !(#[trigger] lines[i]).contains('\n') by {
        lemma_editor_line_row(rows[i]);
    }
    lemma_split_terminated(lines, '\n');
    let text = editor_text_spec(rows);
    let ls = editor_lines(text);
    assert(ls == lines.push(Seq::<char>::empty()));
    assert(split_spec(Seq::<char>::empty(), ' ') =~= seq![Seq::<char>::empty()]);
    assert forall|k: nat| k <= rows.len() implies editor_rows(ls, k) == rows.take(k as int) by {
        lemma_editor_rows_prefix(rows, ls, k);
    }
    assert(editor_rows(ls, ls.len()) == editor_rows(ls, rows.len() as nat));
    assert(rows.take(rows.len() as int) =~= rows);
    assert forall|i: int| 0 <= i < ls.len() implies editor_line_ok(#[trigger] ls[i]) by {
        if i < rows.len() {
            lemma_editor_line_row(rows[i]);
        }
    }
}

proof fn lemma_editor_rows_prefix(rows: Seq<Seq<Seq<char>>>, ls: Seq<Seq<char>>, k: nat)
    requires
        forall|i: int| 0 <= i < rows.len() ==> editor_row_plain(#[trigger] rows[i]),
        ls == Seq::new(rows.len(), |i: int| editor_line(rows[i])).push(Seq::<char>::empty()),
        k <= rows.len(),
    ensures
        editor_rows(ls, k) == rows.take(k as int),
    decreases k,
{
    if k == 0 {
        assert(rows.take(0) =~= Seq::<Seq<Seq<char>>>::empty());
    } else {
        lemma_editor_rows_prefix(rows, ls, (k - 1) as nat);
        lemma_editor_line_row(rows[k - 1]);
        assert(ls[k - 1] == editor_line(rows[k - 1]));
        assert(rows.take(k as int) =~= rows.take(k - 1).push(rows[k - 1]));
    }
}

} // verus!

verus! {

/// The editor text keeps the frames' order: the text for one more frame is the text for the
/// frames before, followed by the new frame's line and a newline.
pub proof fn lemma_editor_text_push(rows: Seq<Seq<Seq<char>>>, r: Seq<Seq<char>>)
    ensures
        editor_text_spec(rows.push(r)) == editor_text_spec(rows) + editor_line(r).push('\n'),
{
    let l1 = Seq::new(rows.push(r).len(), |i: int| editor_line(rows.push(r)[i]));
    let l0 = Seq::new(rows.len(), |i: int| editor_line(rows[i]));
    assert(l1.drop_last() =~= l0);
    assert(l1.last() == editor_line(r));
    assert(editor_text_spec(rows.push(r)) =~= editor_text_spec(rows) + editor_line(r).push('\n'));
}

} // verus!
