use vstd::prelude::*;
use vstd::utf8::is_ascii_chars;

use crate::joints::{joint_label_chars, joint_labels, joint_name_chars, joint_names};
use crate::text::{
    chars_of, decimal, decimal_of, push_all, push_str, string_of, terminated_spec, views,
};

verus! {

/// The part of a `settar` line for joint `j`: ` EFF_`, the joint's upper-case name, a space and
/// the value.
pub open spec fn eff_part(j: int, value: Seq<char>) -> Seq<char> {
    " EFF_"@ + joint_labels()[j] + " "@ + value
}

/// The parts of joints `from` up to `to` (excluded), in order.
pub open spec fn eff_parts(values: Seq<Seq<char>>, from: int, to: int) -> Seq<char>
    decreases to - from,
{
    if to <= from {
        Seq::<char>::empty()
    } else {
        eff_parts(values, from, to - 1) + eff_part(to - 1, values[to - 1])
    }
}

/// One state of a skill file: the left-side joints (the first ten) on a `settar` line, the
/// right-side joints on another, then the waiting time.
pub open spec fn skl_state(values: Seq<Seq<char>>, wait: Seq<char>) -> Seq<char> {
    "STARTSTATE\n"@ + "settar"@ + eff_parts(values, 0, 10) + " end"@ + "\nsettar"@ + eff_parts(
        values,
        10,
        20,
    ) + " end"@ + "\nwait "@ + wait + " end\nENDSTATE\n\n"@
}

/// The first `n` states, in order.
pub open spec fn skl_states(values: Seq<Seq<Seq<char>>>, waits: Seq<Seq<char>>, n: int) -> Seq<
    char,
>
    decreases n,
{
    if n <= 0 {
        Seq::<char>::empty()
    } else {
        skl_states(values, waits, n - 1) + skl_state(values[n - 1], waits[n - 1])
    }
}

/// A skill file: its header, the states, the end, and the line that reflects the left-leg skill
/// onto the right leg.
pub open spec fn skl_spec(skill: Seq<char>, values: Seq<Seq<Seq<char>>>, waits: Seq<Seq<char>>) -> Seq<
    char,
> {
    "STARTSKILL SKILL_"@ + skill + "_LEFT_LEG\n\n"@ + skl_states(values, waits, values.len() as int)
        + "ENDSKILL\n\n"@ + "REFLECTSKILL SKILL_"@ + skill + "_LEFT_LEG SKILL_"@ + skill
        + "_RIGHT_LEG"@
}

/// The views of nested character vectors.
pub open spec fn views2(v: Seq<Vec<Vec<char>>>) -> Seq<Seq<Seq<char>>> {
    Seq::new(v.len(), |i: int| views(v[i]@))
}

/// Appends one state to `out`.
fn push_state(out: &mut Vec<char>, values: &Vec<Vec<char>>, wait: &Vec<char>)
    requires
        values.len() == 20,
    ensures
        final(out)@ == old(out)@ + skl_state(views(values@), wait@),
{
    let ghost vs = views(values@);
    let ghost start = old(out)@;
    push_str(out, "STARTSTATE\n");
    push_str(out, "settar");
    let ghost left_start = out@;
    for j in 0..10usize
        invariant
            values.len() == 20,
            vs == views(values@),
            out@ == left_start + eff_parts(vs, 0, j as int),
    {
        let ghost before = out@;
        push_str(out, " EFF_");
        let label = joint_label_chars(j);
        push_all(out, &label);
        push_str(out, " ");
        push_all(out, &values[j]);
        assert(out@ =~= before + eff_part(j as int, vs[j as int]));
    }
    push_str(out, " end");
    push_str(out, "\nsettar");
    let ghost right_start = out@;
    for j in 10..20usize
        invariant
            values.len() == 20,
            vs == views(values@),
            out@ == right_start + eff_parts(vs, 10, j as int),
    {
        let ghost before = out@;
        push_str(out, " EFF_");
        let label = joint_label_chars(j);
        push_all(out, &label);
        push_str(out, " ");
        push_all(out, &values[j]);
        assert(out@ =~= before + eff_part(j as int, vs[j as int]));
    }
    push_str(out, " end");
    push_str(out, "\nwait ");
    push_all(out, wait);
    push_str(out, " end\nENDSTATE\n\n");
    assert(out@ =~= start + skl_state(vs, wait@));
}

/// A skill file for the skill `skill`, with one state per entry of `values` and `waits`.
fn skl_file(skill: &Vec<char>, values: &Vec<Vec<Vec<char>>>, waits: &Vec<Vec<char>>) -> (out: Vec<
    char,
>)
    requires
        values.len() == waits.len(),
        forall|k: int| 0 <= k < values.len() ==> (#[trigger] values@[k]).len() == 20,
    ensures
        out@ == skl_spec(skill@, views2(values@), views(waits@)),
{
    let ghost vs = views2(values@);
    let ghost ws = views(waits@);
    let mut out: Vec<char> = Vec::new();
    push_str(&mut out, "STARTSKILL SKILL_");
    push_all(&mut out, skill);
    push_str(&mut out, "_LEFT_LEG\n\n");
    let ghost body_start = out@;
    for k in 0..values.len()
        invariant
            values.len() == waits.len(),
            forall|k: int| 0 <= k < values.len() ==> (#[trigger] values@[k]).len() == 20,
            vs == views2(values@),
            ws == views(waits@),
            out@ == body_start + skl_states(vs, ws, k as int),
    {
        let ghost before = out@;
        push_state(&mut out, &values[k], &waits[k]);
        assert(vs[k as int] == views(values@[k as int]@));
        assert(out@ =~= body_start + skl_states(vs, ws, k + 1));
    }
    push_str(&mut out, "ENDSKILL\n\n");
    push_str(&mut out, "REFLECTSKILL SKILL_");
    push_all(&mut out, skill);
    push_str(&mut out, "_LEFT_LEG SKILL_");
    push_all(&mut out, skill);
    push_str(&mut out, "_RIGHT_LEG");
    assert(out@ =~= skl_spec(skill@, vs, ws));
    out
}

/// The joint values of frames given as rows of 21 texts: the first 20 texts of each row.
pub open spec fn row_values(rows: Seq<Seq<Seq<char>>>) -> Seq<Seq<Seq<char>>> {
    Seq::new(rows.len(), |k: int| rows[k].subrange(0, 20))
}

/// The waiting times of frames given as rows of 21 texts: the last text of each row.
pub open spec fn row_waits(rows: Seq<Seq<Seq<char>>>) -> Seq<Seq<char>> {
    Seq::new(rows.len(), |k: int| rows[k][20])
}

/// The skill file of `Target::into_skl`: skill `TEST`, each frame's joint values written in place.
pub open spec fn into_skl_spec(rows: Seq<Seq<Seq<char>>>) -> Seq<char> {
    skl_spec("TEST"@, row_values(rows), row_waits(rows))
}

/// The joint values and waiting times of rows of texts, as character vectors.
fn split_rows(rows: &Vec<Vec<String>>) -> (res: (Vec<Vec<Vec<char>>>, Vec<Vec<char>>))
    requires
        forall|i: int| 0 <= i < rows.len() ==> (#[trigger] rows@[i]).len() == 21,
    ensures
        views2(res.0@) == row_values(rows.deep_view()),
        views(res.1@) == row_waits(rows.deep_view()),
        res.0.len() == res.1.len(),
        forall|k: int| 0 <= k < res.0.len() ==> (#[trigger] res.0@[k]).len() == 20,
{
    let ghost rs = rows.deep_view();
    let mut values: Vec<Vec<Vec<char>>> = Vec::new();
    let mut waits: Vec<Vec<char>> = Vec::new();
    for k in 0..rows.len()
        invariant
            rs == rows.deep_view(),
            forall|i: int| 0 <= i < rows.len() ==> (#[trigger] rows@[i]).len() == 21,
            values.len() == k,
            waits.len() == k,
            forall|i: int| 0 <= i < k ==> (#[trigger] values@[i]).len() == 20,
            forall|i: int| 0 <= i < k ==> views(#[trigger] values@[i]@) == rs[i].subrange(0, 20),
            forall|i: int| 0 <= i < k ==> (#[trigger] waits@[i])@ == rs[i][20],
    {
        let row = &rows[k];
        let ghost r = rs[k as int];
        let mut vs: Vec<Vec<char>> = Vec::new();
        for j in 0..20usize
            invariant
                row.len() == 21,
                r == row.deep_view(),
                vs.len() == j,
                views(vs@) == r.subrange(0, j as int),
        {
            let v = chars_of(row[j].as_str());
            let ghost before = views(vs@);
            vs.push(v);
            assert(views(vs@) =~= before.push(r[j as int]));
            assert(views(vs@) =~= r.subrange(0, j + 1));
        }
        values.push(vs);
        waits.push(chars_of(row[20].as_str()));
    }
    assert(views2(values@) =~= row_values(rs));
    assert(views(waits@) =~= row_waits(rs));
    (values, waits)
}

/// The skill file of frames (the logic of `Target::into_skl`), each frame given as the texts of
/// its 20 joint values in joint order, then of its waiting time.
pub fn into_skl_text(rows: &Vec<Vec<String>>) -> (text: String)
    requires
        forall|i: int| 0 <= i < rows.len() ==> (#[trigger] rows@[i]).len() == 21,
    ensures
        text@ == into_skl_spec(rows.deep_view()),
{
    let (values, waits) = split_rows(rows);
    let skill = chars_of("TEST");
    let out = skl_file(&skill, &values, &waits);
    string_of(out.as_slice())
}

/// The key of joint `j` of frame `k` in a params file: the file name, `_s`, the frame number,
/// `_`, the joint name.
pub open spec fn param_key(name: Seq<char>, k: nat, j: int) -> Seq<char> {
    name + seq!['_', 's'] + decimal(k) + seq!['_'] + joint_names()[j]
}

/// The params line of joint `j` of frame `k`: its key, a tab, the value.
pub open spec fn param_line(name: Seq<char>, k: nat, j: int, value: Seq<char>) -> Seq<char> {
    param_key(name, k, j) + seq!['\t'] + value
}

/// The params lines of the first `n` frames: 20 per frame, in joint order.
pub open spec fn param_lines(name: Seq<char>, rows: Seq<Seq<Seq<char>>>, n: nat) -> Seq<Seq<char>>
    decreases n,
{
    if n == 0 {
        Seq::empty()
    } else {
        param_lines(name, rows, (n - 1) as nat) + Seq::new(
            20,
            |j: int| param_line(name, (n - 1) as nat, j, rows[n - 1][j]),
        )
    }
}

/// The params file that `Target::into_skl_txt` writes: each params line followed by a newline.
pub open spec fn params_file_spec(name: Seq<char>, rows: Seq<Seq<Seq<char>>>) -> Seq<char> {
    terminated_spec(param_lines(name, rows, rows.len()), '\n')
}

/// The reference to joint `j` of frame `k` that the skill file of `Target::into_skl_txt` writes
/// in place of the value: `$` and the joint's params key.
pub open spec fn joint_ref(name: Seq<char>, k: nat, j: int) -> Seq<char> {
    seq!['$'] + param_key(name, k, j)
}

/// The skill file that `Target::into_skl_txt` writes, for the upper-case file name `upper`.
pub open spec fn skl_txt_spec(name: Seq<char>, upper: Seq<char>, rows: Seq<Seq<Seq<char>>>) -> Seq<
    char,
> {
    skl_spec(
        upper,
        Seq::new(rows.len(), |k: int| Seq::new(20, |j: int| joint_ref(name, k as nat, j))),
        row_waits(rows),
    )
}

/// The params key of joint `j` of frame `k`.
fn param_key_chars(name: &Vec<char>, k: usize, j: usize) -> (key: Vec<char>)
    requires
        j < 20,
    ensures
        key@ == param_key(name@, k as nat, j as int),
{
    let mut key: Vec<char> = Vec::new();
    push_all(&mut key, name);
    key.push('_');
    key.push('s');
    let d = decimal_of(k);
    push_all(&mut key, &d);
    key.push('_');
    let joint = joint_name_chars(j);
    push_all(&mut key, &joint);
    assert(key@ =~= param_key(name@, k as nat, j as int));
    key
}

/// The params file and the skill file of frames (the logic of `Target::into_skl_txt`), for the
/// file name `name` and its upper-case form `upper`; each frame is given as the texts of its 20
/// joint values in joint order, then of its waiting time in seconds.
pub fn skl_txt_texts(rows: &Vec<Vec<String>>, name: &str, upper: &str) -> (texts: (String, String))
    requires
        forall|i: int| 0 <= i < rows.len() ==> (#[trigger] rows@[i]).len() == 21,
    ensures
        texts.0@ == params_file_spec(name@, rows.deep_view()),
        texts.1@ == skl_txt_spec(name@, upper@, rows.deep_view()),
{
    let ghost rs = rows.deep_view();
    let name_chars = chars_of(name);
    let mut txt: Vec<char> = Vec::new();
    let mut refs: Vec<Vec<Vec<char>>> = Vec::new();
    let mut waits: Vec<Vec<char>> = Vec::new();
    for k in 0..rows.len()
        invariant
            rs == rows.deep_view(),
            name_chars@ == name@,
            forall|i: int| 0 <= i < rows.len() ==> (#[trigger] rows@[i]).len() == 21,
            txt@ == terminated_spec(param_lines(name@, rs, k as nat), '\n'),
            refs.len() == k,
            waits.len() == k,
            forall|i: int| 0 <= i < k ==> (#[trigger] refs@[i]).len() == 20,
            forall|i: int|
                0 <= i < k ==> views(#[trigger] refs@[i]@) == Seq::new(
                    20,
                    |j: int| joint_ref(name@, i as nat, j),
                ),
            forall|i: int| 0 <= i < k ==> (#[trigger] waits@[i])@ == rs[i][20],
    {
        let row = &rows[k];
        let ghost r = rs[k as int];
        let ghost frame_lines = Seq::new(20, |j: int| param_line(name@, k as nat, j, r[j]));
        let ghost txt_start = txt@;
        let mut frame_refs: Vec<Vec<char>> = Vec::new();
        for j in 0..20usize
            invariant
                row.len() == 21,
                r == row.deep_view(),
                name_chars@ == name@,
                frame_lines == Seq::new(20, |j: int| param_line(name@, k as nat, j, r[j])),
                txt@ == txt_start + terminated_spec(frame_lines.take(j as int), '\n'),
                frame_refs.len() == j,
                views(frame_refs@) == Seq::new(j as nat, |i: int| joint_ref(name@, k as nat, i)),
        {
            let key = param_key_chars(&name_chars, k, j);
            let mut jref: Vec<char> = Vec::new();
            jref.push('$');
            push_all(&mut jref, &key);
            assert(jref@ =~= joint_ref(name@, k as nat, j as int));
            let ghost before_refs = views(frame_refs@);
            frame_refs.push(jref);
            assert(views(frame_refs@) =~= before_refs.push(joint_ref(name@, k as nat, j as int)));
            assert(views(frame_refs@) =~= Seq::new(
                (j + 1) as nat,
                |i: int| joint_ref(name@, k as nat, i),
            ));
            let ghost before = txt@;
            push_all(&mut txt, &key);
            txt.push('\t');
            let value = chars_of(row[j].as_str());
            push_all(&mut txt, &value);
            txt.push('\n');
            assert(frame_lines.take(j + 1).drop_last() =~= frame_lines.take(j as int));
            assert(txt@ =~= txt_start + terminated_spec(frame_lines.take(j + 1), '\n'));
        }
        proof {
            assert(frame_lines.take(20) =~= frame_lines);
            lemma_terminated_concat(param_lines(name@, rs, k as nat), frame_lines, '\n');
            assert(param_lines(name@, rs, (k + 1) as nat) == param_lines(name@, rs, k as nat)
                + frame_lines);
        }
        refs.push(frame_refs);
        waits.push(chars_of(row[20].as_str()));
    }
    let upper_chars = chars_of(upper);
    let out = skl_file(&upper_chars, &refs, &waits);
    assert(views2(refs@) =~= Seq::new(
        rows.len() as nat,
        |k: int| Seq::new(20, |j: int| joint_ref(name@, k as nat, j)),
    ));
    assert(views(waits@) =~= row_waits(rs));
    (string_of(txt.as_slice()), string_of(out.as_slice()))
}

/// Terminating a concatenation of pieces is terminating each part.
pub proof fn lemma_terminated_concat(a: Seq<Seq<char>>, b: Seq<Seq<char>>, sep: char)
    ensures
        terminated_spec(a + b, sep) == terminated_spec(a, sep) + terminated_spec(b, sep),
    decreases b.len(),
{
    if b.len() == 0 {
        assert(a + b =~= a);
        assert(terminated_spec(b, sep) =~= Seq::<char>::empty());
        assert(terminated_spec(a, sep) + Seq::<char>::empty() =~= terminated_spec(a, sep));
    } else {
        lemma_terminated_concat(a, b.drop_last(), sep);
        assert((a + b).drop_last() =~= a + b.drop_last());
        assert((a + b).last() == b.last());
        assert(terminated_spec(a + b, sep) =~= terminated_spec(a, sep) + terminated_spec(b, sep));
    }
}

} // verus!

verus! {

/// The upper-case form of a text: the name of what `str::to_uppercase` returns for it.
pub uninterp spec fn upper_case(s: Seq<char>) -> Seq<char>;

/// The upper case of an ASCII character: `a` to `z` become `A` to `Z`, other characters stay.
pub open spec fn ascii_upper(c: char) -> char {
    if 97 <= (c as u32) && (c as u32) <= 122 {
        ((c as u32) - 32) as char
    } else {
        c
    }
}

/// The upper case of an ASCII text, character by character.
pub open spec fn ascii_upper_text(s: Seq<char>) -> Seq<char> {
    Seq::new(s.len(), |i: int| ascii_upper(s[i]))
}

/// `str::to_uppercase`, whose result the contract calls `upper_case` of the text. Of the Unicode
/// case mapping it applies, the contract states the ASCII part: an ASCII text keeps its length and
/// each lower-case letter becomes its upper-case letter, every other character staying as it is.
#[verifier::external_body]
fn to_upper(s: &str) -> (u: String)
    ensures
        u@ == upper_case(s@),
        is_ascii_chars(s@) ==> u@ == ascii_upper_text(s@),
{
    s.to_uppercase()
}

/// The params file and the skill file of frames (the logic of `Target::into_skl_txt`) for the
/// file name `name`; the skill is named after the upper-case file name. Frame numbers are `i32`
/// counters of `Target::into_skl_txt`, so there are at most `i32::MAX` frames.
pub fn into_skl_txt_texts(rows: &Vec<Vec<String>>, name: &str) -> (texts: (String, String))
    requires
        forall|i: int| 0 <= i < rows.len() ==> (#[trigger] rows@[i]).len() == 21,
        rows.len() <= i32::MAX,
    ensures
        texts.0@ == params_file_spec(name@, rows.deep_view()),
        texts.1@ == skl_txt_spec(name@, upper_case(name@), rows.deep_view()),
        is_ascii_chars(name@) ==> texts.1@ == skl_txt_spec(
            name@,
            ascii_upper_text(name@),
            rows.deep_view(),
        ),
{
    let upper = to_upper(name);
    skl_txt_texts(rows, name, upper.as_str())
}

} // verus!

verus! {

/// The end of a skill file: `ENDSKILL` and the line that reflects the skill.
pub open spec fn skl_end(skill: Seq<char>) -> Seq<char> {
    "ENDSKILL\n\n"@ + "REFLECTSKILL SKILL_"@ + skill + "_LEFT_LEG SKILL_"@ + skill + "_RIGHT_LEG"@
}

/// A skill file ends with its end part, and one more frame adds its state just before that end.
proof fn lemma_skl_spec_push(
    skill: Seq<char>,
    values: Seq<Seq<Seq<char>>>,
    waits: Seq<Seq<char>>,
    v: Seq<Seq<char>>,
    w: Seq<char>,
)
    requires
        values.len() == waits.len(),
    ensures
        ({
            let f = skl_spec(skill, values, waits);
            let e = skl_end(skill);
            &&& e.len() <= f.len()
            &&& f.subrange(f.len() - e.len(), f.len() as int) == e
            &&& skl_spec(skill, values.push(v), waits.push(w)) == f.subrange(
                0,
                f.len() - e.len(),
            ) + skl_state(v, w) + e
        }),
{
    let f = skl_spec(skill, values, waits);
    let e = skl_end(skill);
    let head = "STARTSKILL SKILL_"@ + skill + "_LEFT_LEG\n\n"@;
    let n = values.len() as int;
    assert(values.push(v).len() == n + 1);
    assert(skl_states(values.push(v), waits.push(w), n) == skl_states(values, waits, n)) by {
        lemma_skl_states_prefix(values.push(v), waits.push(w), values, waits, n);
    }
    assert(values.push(v)[n] == v && waits.push(w)[n] == w);
    assert(skl_states(values.push(v), waits.push(w), n + 1) == skl_states(values, waits, n)
        + skl_state(v, w));
    assert(f =~= (head + skl_states(values, waits, n)) + e);
    assert(f.subrange(f.len() - e.len(), f.len() as int) =~= e);
    assert(f.subrange(0, f.len() - e.len()) =~= head + skl_states(values, waits, n));
    assert(skl_spec(skill, values.push(v), waits.push(w)) =~= f.subrange(0, f.len() - e.len())
        + skl_state(v, w) + e);
}

proof fn lemma_skl_states_prefix(
    v1: Seq<Seq<Seq<char>>>,
    w1: Seq<Seq<char>>,
    v2: Seq<Seq<Seq<char>>>,
    w2: Seq<Seq<char>>,
    n: int,
)
    requires
        0 <= n <= v1.len(),
        n <= v2.len(),
        n <= w1.len(),
        n <= w2.len(),
        forall|i: int| 0 <= i < n ==> v1[i] == v2[i] && w1[i] == w2[i],
    ensures
        skl_states(v1, w1, n) == skl_states(v2, w2, n),
    decreases n,
{
    if n > 0 {
        lemma_skl_states_prefix(v1, w1, v2, w2, n - 1);
        assert(v1[n - 1] == v2[n - 1] && w1[n - 1] == w2[n - 1]);
    }
}

/// The skill file of `into_skl_text` keeps the frames' order: the file for one more frame is the
/// file for the frames before, with the new frame's state (its 20 joint values and its waiting
/// time) inserted just before `ENDSKILL`.
pub proof fn lemma_into_skl_push(rows: Seq<Seq<Seq<char>>>, r: Seq<Seq<char>>)
    ensures
        ({
            let f = into_skl_spec(rows);
            let e = skl_end("TEST"@);
            &&& e.len() <= f.len()
            &&& f.subrange(f.len() - e.len(), f.len() as int) == e
            &&& into_skl_spec(rows.push(r)) == f.subrange(0, f.len() - e.len()) + skl_state(
                r.subrange(0, 20),
                r[20],
            ) + e
        }),
{
    lemma_skl_spec_push("TEST"@, row_values(rows), row_waits(rows), r.subrange(0, 20), r[20]);
    assert(row_values(rows.push(r)) =~= row_values(rows).push(r.subrange(0, 20)));
    assert(row_waits(rows.push(r)) =~= row_waits(rows).push(r[20]));
}

/// The skill file of `into_skl_txt_texts` keeps the frames' order: the file for one more frame is
/// the file for the frames before, with a state that refers to the new frame's params keys
/// (numbered after the frames before) and holds its waiting time, inserted just before
/// `ENDSKILL`.
pub proof fn lemma_skl_txt_push(
    name: Seq<char>,
    upper: Seq<char>,
    rows: Seq<Seq<Seq<char>>>,
    r: Seq<Seq<char>>,
)
    ensures
        ({
            let f = skl_txt_spec(name, upper, rows);
            let e = skl_end(upper);
            &&& e.len() <= f.len()
            &&& f.subrange(f.len() - e.len(), f.len() as int) == e
            &&& skl_txt_spec(name, upper, rows.push(r)) == f.subrange(0, f.len() - e.len())
                + skl_state(
                Seq::new(20, |j: int| joint_ref(name, rows.len(), j)),
                r[20],
            ) + e
        }),
{
    let refs = Seq::new(
        rows.len(),
        |k: int| Seq::new(20, |j: int| joint_ref(name, k as nat, j)),
    );
    let new_refs = Seq::new(20, |j: int| joint_ref(name, rows.len(), j));
    lemma_skl_spec_push(upper, refs, row_waits(rows), new_refs, r[20]);
    assert(Seq::new(
        rows.push(r).len(),
        |k: int| Seq::new(20, |j: int| joint_ref(name, k as nat, j)),
    ) =~= refs.push(new_refs));
    assert(row_waits(rows.push(r)) =~= row_waits(rows).push(r[20]));
}

/// The params file keeps the frames' order: the file for one more frame is the file for the
/// frames before, followed by the new frame's 20 lines, numbered after the frames before, each
/// with its newline.
pub proof fn lemma_params_file_push(name: Seq<char>, rows: Seq<Seq<Seq<char>>>, r: Seq<Seq<char>>)
    ensures
        params_file_spec(name, rows.push(r)) == params_file_spec(name, rows) + terminated_spec(
            Seq::new(20, |j: int| param_line(name, rows.len(), j, r[j])),
            '\n',
        ),
{
    let n = rows.len();
    lemma_param_lines_prefix(name, rows.push(r), rows, n);
    assert(rows.push(r)[n as int] == r);
    let new_lines = Seq::new(20, |j: int| param_line(name, n, j, r[j]));
    assert(param_lines(name, rows.push(r), n + 1) =~= param_lines(name, rows, n) + new_lines);
    lemma_terminated_concat(param_lines(name, rows, n), new_lines, '\n');
}

proof fn lemma_param_lines_prefix(
    name: Seq<char>,
    r1: Seq<Seq<Seq<char>>>,
    r2: Seq<Seq<Seq<char>>>,
    n: nat,
)
    requires
        n <= r1.len(),
        n <= r2.len(),
        forall|i: int| 0 <= i < n ==> r1[i] == r2[i],
    ensures
        param_lines(name, r1, n) == param_lines(name, r2, n),
    decreases n,
{
    if n > 0 {
        lemma_param_lines_prefix(name, r1, r2, (n - 1) as nat);
        assert(r1[n - 1] == r2[n - 1]);
        assert(param_lines(name, r1, n) =~= param_lines(name, r2, n));
    }
}

} // verus!
