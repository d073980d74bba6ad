use vstd::prelude::*;
use vstd::utf8::{encode_scalar, encode_utf8, is_ascii_chars};

use crate::frames::{empty_frame, frames_view, new_frame, set_cell, Frame};
use crate::joints::{joint_index, joint_index_of, lemma_joint_index_range, NO_JOINT};
use crate::text::{
    chars_of, find_exec, find_from, find_spec, replace_exec, replace_spec, split_char, split_spec, views,
};

verus! {

/// The length in bytes of the UTF-8 encoding of a text, which is what `str::len` counts.
pub open spec fn utf8_len(s: Seq<char>) -> nat {
    encode_utf8(s).len()
}

/// The space-separated tokens of a message line.
pub open spec fn line_tokens(line: Seq<char>) -> Seq<Seq<char>> {
    split_spec(line, ' ')
}

/// A message line names a joint value when it is a name of four bytes and a value.
pub open spec fn is_joint_line(line: Seq<char>) -> bool {
    line_tokens(line).len() == 2 && utf8_len(line_tokens(line)[0]) == 4
}

/// The joint name that a four-character name stands for: the name without its third character
/// (`laj1` and `lae1` both stand for `la1`).
pub open spec fn short_name(token: Seq<char>) -> Seq<char> {
    seq![token[0], token[1], token[3]]
}

/// The toe joints, at which reading a message stops.
pub open spec fn is_toe(name: Seq<char>) -> bool {
    name =~= seq!['l', 'l', '7'] || name =~= seq!['r', 'l', '7']
}

/// Reading one message line into a frame: a joint line that does not name a toe joint sets its
/// joint's cell to its value; toe joints (`ll7`, `rl7`) and other lines change nothing.
pub open spec fn format_step(frame: Seq<Option<Seq<char>>>, line: Seq<char>) -> Seq<
    Option<Seq<char>>,
> {
    if is_joint_line(line) && !is_toe(short_name(line_tokens(line)[0])) {
        frame.update(joint_index(short_name(line_tokens(line)[0])), Some(line_tokens(line)[1]))
    } else {
        frame
    }
}

/// The frame after reading the lines in order, starting from `frame`.
pub open spec fn format_over(frame: Seq<Option<Seq<char>>>, lines: Seq<Seq<char>>) -> Seq<
    Option<Seq<char>>,
>
    decreases lines.len(),
{
    if lines.len() == 0 {
        frame
    } else {
        format_step(format_over(frame, lines.drop_last()), lines.last())
    }
}

/// The frame of message lines (the logic of `format_data`).
pub open spec fn format_spec(lines: Seq<Seq<char>>) -> Seq<Option<Seq<char>>> {
    format_over(empty_frame(), lines)
}

/// Reading a message line is defined: the name of a joint line is ASCII and is a toe joint or
/// stands for a joint.
pub open spec fn format_line_ok(line: Seq<char>) -> bool {
    is_joint_line(line) ==> {
        let t0 = line_tokens(line)[0];
        is_ascii_chars(t0) && (is_toe(short_name(t0)) || joint_index(short_name(t0))
            != usize::MAX as int)
    }
}

/// Reading message lines is defined: reading each of them is.
pub open spec fn format_defined(lines: Seq<Seq<char>>) -> bool {
    forall|i: int| 0 <= i < lines.len() ==> format_line_ok(#[trigger] lines[i])
}

/// An encoding is at least as long as the text.
proof fn lemma_utf8_len_bound(s: Seq<char>)
    ensures
        utf8_len(s) >= s.len(),
    decreases s.len(),
{
    if s.len() > 0 {
        lemma_utf8_len_bound(s.drop_first());
        assert(encode_scalar(s[0] as u32).len() >= 1);
    }
}

/// An ASCII text encodes to as many bytes as it has characters.
proof fn lemma_utf8_len_ascii(s: Seq<char>)
    requires
        is_ascii_chars(s),
    ensures
        utf8_len(s) == s.len(),
{
    vstd::utf8::is_ascii_chars_encode_utf8(s);
}

/// The number of bytes in the UTF-8 encoding of `c`.
fn char_width(c: char) -> (w: usize)
    ensures
        w == encode_scalar(c as u32).len(),
{
    let u = c as u32;
    proof {
        vstd::utf8::char_is_scalar(c);
    }
    if u <= 0x7f {
        1
    } else if u <= 0x7ff {
        2
    } else if u <= 0xffff {
        3
    } else {
        4
    }
}

/// Whether a text is four bytes long in UTF-8.
fn utf8_len_is_four(t: &Vec<char>) -> (b: bool)
    ensures
        b == (utf8_len(t@) == 4),
{
    proof {
        lemma_utf8_len_bound(t@);
    }
    if t.len() > 4 {
        return false;
    }
    let mut total: usize = 0;
    let mut i = t.len();
    assert(t@.subrange(i as int, t.len() as int) =~= Seq::<char>::empty());
    while i > 0
        invariant
            t.len() <= 4,
            i <= t.len(),
            total == utf8_len(t@.subrange(i as int, t.len() as int)),
            total <= 4 * (t.len() - i),
        decreases i,
    {
        i = i - 1;
        let w = char_width(t[i]);
        let ghost rest = t@.subrange(i as int, t.len() as int);
        assert(rest[0] == t@[i as int]);
        assert(rest.drop_first() =~= t@.subrange(i + 1, t.len() as int));
        total = total + w;
    }
    assert(t@.subrange(0, t.len() as int) =~= t@);
    total == 4
}

/// Whether all characters of a text are ASCII.
fn all_ascii(t: &Vec<char>) -> (b: bool)
    ensures
        b == is_ascii_chars(t@),
{
    for i in 0..t.len()
        invariant
            forall|k: int| 0 <= k < i ==> '\0' <= #[trigger] t@[k] <= '\u{7f}',
    {
        let c = t[i];
        if !('\0' <= c && c <= '\u{7f}') {
            return false;
        }
    }
    true
}

/// Reads message lines; the flag tells whether reading is defined, and the frame is that of
/// `format_spec` when it is.
fn format_lines(lines: &Vec<Vec<char>>) -> (res: (bool, Frame))
    ensures
        res.0 == format_defined(views(lines@)),
        res.0 ==> res.1.deep_view() == format_spec(views(lines@)),
{
    let ghost ls = views(lines@);
    let mut frame = new_frame();
    for i in 0..lines.len()
        invariant
            ls == views(lines@),
            frame.len() == 21,
            frame.deep_view() == format_over(empty_frame(), ls.take(i as int)),
            forall|j: int| 0 <= j < i ==> format_line_ok(#[trigger] ls[j]),
    {
        let line = &lines[i];
        assert(line@ == ls[i as int]);
        assert(ls.take(i + 1).drop_last() =~= ls.take(i as int));
        assert(ls.take(i + 1).last() == ls[i as int]);
        let toks = split_char(line, ' ');
        if toks.len() == 2 && utf8_len_is_four(&toks[0]) {
            let t0 = &toks[0];
            assert(t0@ == line_tokens(ls[i as int])[0]);
            if !all_ascii(t0) {
                return (false, Vec::new());
            }
            proof {
                lemma_utf8_len_ascii(t0@);
            }
            let mut name: Vec<char> = Vec::new();
            name.push(t0[0]);
            name.push(t0[1]);
            name.push(t0[3]);
            assert(name@ =~= short_name(t0@));
            if !((name[0] == 'l' || name[0] == 'r') && name[1] == 'l' && name[2] == '7') {
                let idx = joint_index_of(name.as_slice());
                proof {
                    lemma_joint_index_range(name@);
                }
                if idx == NO_JOINT {
                    return (false, Vec::new());
                }
                assert(toks@[1]@ == line_tokens(ls[i as int])[1]);
                set_cell(&mut frame, idx, &toks[1]);
            }
        }
    }
    assert(ls.take(lines.len() as int) =~= ls);
    (true, frame)
}

/// The frame that message lines give (the logic of `format_data`): each line of two
/// space-separated tokens whose first token is four bytes long names a joint by that token
/// without its third character and sets the joint's cell to the second token; toe joints
/// (`ll7`, `rl7`) are left out.
pub fn format_data(msg: Vec<&str>) -> (frame: Frame)
    requires
        format_defined(msg.deep_view()),
    ensures
        frame.deep_view() == format_spec(msg.deep_view()),
{
    let lines = lines_of(&msg);
    format_lines(&lines).1
}

/// Whether `format_data` is defined on the lines: every four-byte name is ASCII and stands for a
/// joint or a toe joint.
pub fn format_data_defined(msg: &Vec<&str>) -> (ok: bool)
    ensures
        ok == format_defined(msg.deep_view()),
{
    let lines = lines_of(msg);
    format_lines(&lines).0
}

fn lines_of(msg: &Vec<&str>) -> (lines: Vec<Vec<char>>)
    ensures
        views(lines@) == msg.deep_view(),
{
    let mut lines: Vec<Vec<char>> = Vec::new();
    for i in 0..msg.len()
        invariant
            lines.len() == i,
            forall|k: int| 0 <= k < i ==> (#[trigger] lines@[k])@ == msg@[k]@,
    {
        lines.push(chars_of(msg[i]));
    }
    assert(views(lines@) =~= msg.deep_view());
    lines
}

} // verus!

verus! {

/// The part of a received message (one that holds `(time (now`) from its first `(HJ` on; none
/// for other messages.
pub open spec fn received_part(msg: Seq<char>) -> Option<Seq<char>> {
    if find_spec(msg, "(time (now"@) is Some {
        Some(msg.subrange(find_spec(msg, "(HJ"@)->0, msg.len() as int))
    } else {
        None
    }
}

/// The part of a sent message (one that is not received and holds `(he1`) from its first `(he1`
/// up to its first `(syn)`; none for other messages.
pub open spec fn sent_part(msg: Seq<char>) -> Option<Seq<char>> {
    if find_spec(msg, "(time (now"@) is None && find_spec(msg, "(he1"@) is Some {
        Some(msg.subrange(find_spec(msg, "(he1"@)->0, find_spec(msg, "(syn)"@)->0))
    } else {
        None
    }
}

/// The parts are there: a received message holds `(HJ`, and a sent one holds `(syn)` at or after
/// its `(he1`.
pub open spec fn message_ok(msg: Seq<char>) -> bool {
    &&& find_spec(msg, "(time (now"@) is Some ==> find_spec(msg, "(HJ"@) is Some
    &&& (find_spec(msg, "(time (now"@) is None && find_spec(msg, "(he1"@) is Some) ==> (find_spec(
        msg,
        "(syn)"@,
    ) is Some && find_spec(msg, "(he1"@)->0 <= find_spec(msg, "(syn)"@)->0)
}

/// The received parts of the first `n` messages, in order.
pub open spec fn received_parts(msgs: Seq<Seq<char>>, n: nat) -> Seq<Seq<char>>
    decreases n,
{
    if n == 0 {
        Seq::empty()
    } else {
        let prev = received_parts(msgs, (n - 1) as nat);
        match received_part(msgs[n - 1]) {
            Some(p) => prev.push(p),
            None => prev,
        }
    }
}

/// The sent parts of the first `n` messages, in order.
pub open spec fn sent_parts(msgs: Seq<Seq<char>>, n: nat) -> Seq<Seq<char>>
    decreases n,
{
    if n == 0 {
        Seq::empty()
    } else {
        let prev = sent_parts(msgs, (n - 1) as nat);
        match sent_part(msgs[n - 1]) {
            Some(p) => prev.push(p),
            None => prev,
        }
    }
}

/// The lines of a received part: without `(HJ (n ` and `) (ax`, with `))` made `)`, split at `)`.
pub open spec fn sensor_lines(part: Seq<char>) -> Seq<Seq<char>> {
    split_spec(
        replace_spec(
            replace_spec(replace_spec(part, "(HJ (n "@, ""@), ") (ax"@, ""@),
            "))"@,
            ")"@,
        ),
        ')',
    )
}

/// The lines of a sent part: without `)`, split at `(`.
pub open spec fn speed_lines(part: Seq<char>) -> Seq<Seq<char>> {
    split_spec(replace_spec(part, ")"@, ""@), '(')
}

/// The frames of the messages: one per received message (the sensor values), then one per sent
/// message (the speeds), each in message order.
pub open spec fn messages_spec(msgs: Seq<Seq<char>>) -> (
    Seq<Seq<Option<Seq<char>>>>,
    Seq<Seq<Option<Seq<char>>>>,
) {
    let r = received_parts(msgs, msgs.len());
    let s = sent_parts(msgs, msgs.len());
    (
        Seq::new(r.len(), |i: int| format_spec(sensor_lines(r[i]))),
        Seq::new(s.len(), |i: int| format_spec(speed_lines(s[i]))),
    )
}

/// Reading the messages is defined: each has its parts, and reading the lines of each part is.
pub open spec fn messages_defined(msgs: Seq<Seq<char>>) -> bool {
    &&& forall|i: int| 0 <= i < msgs.len() ==> message_ok(#[trigger] msgs[i])
    &&& forall|i: int|
        0 <= i < received_parts(msgs, msgs.len()).len() ==> format_defined(
            sensor_lines(#[trigger] received_parts(msgs, msgs.len())[i]),
        )
    &&& forall|i: int|
        0 <= i < sent_parts(msgs, msgs.len()).len() ==> format_defined(
            speed_lines(#[trigger] sent_parts(msgs, msgs.len())[i]),
        )
}

/// The characters of `s` from `a` up to `b`.
fn sub_chars(s: &Vec<char>, a: usize, b: usize) -> (v: Vec<char>)
    requires
        a <= b <= s.len(),
    ensures
        v@ == s@.subrange(a as int, b as int),
{
    let mut v: Vec<char> = Vec::new();
    for i in a..b
        invariant
            a <= b <= s.len(),
            v@ == s@.subrange(a as int, i as int),
    {
        v.push(s[i]);
        assert(v@ =~= s@.subrange(a as int, i + 1));
    }
    v
}

/// A pattern given as a literal, as characters.
fn pattern(p: &str) -> (v: Vec<char>)
    ensures
        v@ == p@,
{
    chars_of(p)
}

/// The frame of a received part.
fn sensor_frame(part: &Vec<char>) -> (res: (bool, Frame))
    ensures
        res.0 == format_defined(sensor_lines(part@)),
        res.0 ==> res.1.deep_view() == format_spec(sensor_lines(part@)),
{
    let p1 = pattern("(HJ (n ");
    let p2 = pattern(") (ax");
    let p3 = pattern("))");
    let empty = pattern("");
    let close = pattern(")");
    proof {
        reveal_strlit("(HJ (n ");
        reveal_strlit(") (ax");
        reveal_strlit("))");
    }
    let m1 = replace_exec(part, &p1, &empty);
    let m2 = replace_exec(&m1, &p2, &empty);
    let m3 = replace_exec(&m2, &p3, &close);
    let lines = split_char(&m3, ')');
    format_lines(&lines)
}

/// The frame of a sent part.
fn speed_frame(part: &Vec<char>) -> (res: (bool, Frame))
    ensures
        res.0 == format_defined(speed_lines(part@)),
        res.0 ==> res.1.deep_view() == format_spec(speed_lines(part@)),
{
    let close = pattern(")");
    let empty = pattern("");
    proof {
        reveal_strlit(")");
    }
    let m = replace_exec(part, &close, &empty);
    let lines = split_char(&m, '(');
    format_lines(&lines)
}

/// The parts of one message: whether they are there, then the received and the sent part.
fn message_parts(msg: &Vec<char>) -> (res: (bool, Option<Vec<char>>, Option<Vec<char>>))
    ensures
        res.0 == message_ok(msg@),
        res.0 ==> match res.1 {
            Some(p) => received_part(msg@) == Some(p@),
            None => received_part(msg@) is None,
        },
        res.0 ==> match res.2 {
            Some(p) => sent_part(msg@) == Some(p@),
            None => sent_part(msg@) is None,
        },
{
    let time = pattern("(time (now");
    let hj = pattern("(HJ");
    let he1 = pattern("(he1");
    let syn = pattern("(syn)");
    if find_exec(msg, &time, 0).is_some() {
        match find_exec(msg, &hj, 0) {
            Some(start) => {
                proof {
                    lemma_find_in_range(msg@, hj@, 0);
                }
                (true, Some(sub_chars(msg, start, msg.len())), None)
            },
            None => (false, None, None),
        }
    } else if let Some(start) = find_exec(msg, &he1, 0) {
        match find_exec(msg, &syn, 0) {
            Some(end) => {
                proof {
                    lemma_find_in_range(msg@, syn@, 0);
                }
                if start <= end {
                    (true, None, Some(sub_chars(msg, start, end)))
                } else {
                    (false, None, None)
                }
            },
            None => (false, None, None),
        }
    } else {
        (true, None, None)
    }
}

/// A position that `find_from` reports lies at or after the start and leaves room for the
/// pattern.
pub proof fn lemma_find_in_range(s: Seq<char>, p: Seq<char>, k: int)
    ensures
        find_from(s, p, k) matches Some(i) ==> k <= i && i + p.len() <= s.len() && crate::text::matches_at(s, p, i),
    decreases s.len() + 1 - k,
{
    if !(k < 0 || k + p.len() > s.len()) && !crate::text::matches_at(s, p, k) {
        lemma_find_in_range(s, p, k + 1);
    }
}

/// Reads the messages; the flag tells whether reading is defined, and the frames are those of
/// `messages_spec` when it is.
pub(crate) fn read_messages(msgs: &Vec<String>) -> (res: (bool, Vec<Frame>, Vec<Frame>))
    ensures
        res.0 == messages_defined(msgs.deep_view()),
        res.0 ==> (frames_view(res.1@), frames_view(res.2@)) == messages_spec(msgs.deep_view()),
{
    let ghost ms = msgs.deep_view();
    let mut sensors: Vec<Frame> = Vec::new();
    let mut speeds: Vec<Frame> = Vec::new();
    // First every message must have its parts; the frames are read after.
    let mut received: Vec<Vec<char>> = Vec::new();
    let mut sent: Vec<Vec<char>> = Vec::new();
    for i in 0..msgs.len()
        invariant
            ms == msgs.deep_view(),
            forall|j: int| 0 <= j < i ==> message_ok(#[trigger] ms[j]),
            views(received@) == received_parts(ms, i as nat),
            views(sent@) == sent_parts(ms, i as nat),
    {
        let msg = chars_of(msgs[i].as_str());
        assert(msg@ == ms[i as int]);
        let (ok, r, s) = message_parts(&msg);
        if !ok {
            return (false, Vec::new(), Vec::new());
        }
        match r {
            Some(p) => {
                let ghost before = views(received@);
                received.push(p);
                assert(views(received@) =~= before.push(received_part(ms[i as int])->0));
            },
            None => {},
        }
        match s {
            Some(p) => {
                let ghost before = views(sent@);
                sent.push(p);
                assert(views(sent@) =~= before.push(sent_part(ms[i as int])->0));
            },
            None => {},
        }
    }
    let ghost rs = received_parts(ms, ms.len());
    let ghost ss = sent_parts(ms, ms.len());
    for i in 0..received.len()
        invariant
            ms == msgs.deep_view(),
            rs == received_parts(ms, ms.len()),
            views(received@) == rs,
            sensors.len() == i,
            forall|j: int| 0 <= j < i ==> format_defined(sensor_lines(#[trigger] rs[j])),
            forall|j: int|
                0 <= j < i ==> (#[trigger] sensors@[j]).deep_view() == format_spec(
                    sensor_lines(rs[j]),
                ),
    {
        let (ok, f) = sensor_frame(&received[i]);
        assert(received@[i as int]@ == rs[i as int]);
        if !ok {
            assert(!format_defined(sensor_lines(received_parts(ms, ms.len())[i as int])));
            return (false, Vec::new(), Vec::new());
        }
        sensors.push(f);
    }
    for i in 0..sent.len()
        invariant
            ms == msgs.deep_view(),
            ss == sent_parts(ms, ms.len()),
            views(sent@) == ss,
            speeds.len() == i,
            forall|j: int| 0 <= j < i ==> format_defined(speed_lines(#[trigger] ss[j])),
            forall|j: int|
                0 <= j < i ==> (#[trigger] speeds@[j]).deep_view() == format_spec(speed_lines(ss[j])),
    {
        let (ok, f) = speed_frame(&sent[i]);
        assert(sent@[i as int]@ == ss[i as int]);
        if !ok {
            assert(!format_defined(speed_lines(sent_parts(ms, ms.len())[i as int])));
            return (false, Vec::new(), Vec::new());
        }
        speeds.push(f);
    }
    assert(frames_view(sensors@) =~= messages_spec(ms).0);
    assert(frames_view(speeds@) =~= messages_spec(ms).1);
    (true, sensors, speeds)
}

/// The frames that captured messages give (the logic of `parser` after the capture is read): a
/// message that holds `(time (now` is one the agent received, and its part from `(HJ` on gives a
/// frame of sensor values; a message that holds `(he1` is one the agent sent, and its part from
/// `(he1` up to `(syn)` gives a frame of speeds.
pub fn parse_messages(msgs: &Vec<String>) -> (frames: (Vec<Frame>, Vec<Frame>))
    requires
        messages_defined(msgs.deep_view()),
    ensures
        (frames_view(frames.0@), frames_view(frames.1@)) == messages_spec(msgs.deep_view()),
{
    let (_, sensors, speeds) = read_messages(msgs);
    (sensors, speeds)
}

/// Whether `parse_messages` is defined on the messages.
pub fn messages_defined_exec(msgs: &Vec<String>) -> (ok: bool)
    ensures
        ok == messages_defined(msgs.deep_view()),
{
    read_messages(msgs).0
}

} // verus!

verus! {

/// Reading message lines from a frame of 21 cells keeps 21 cells and never sets the waiting
/// time: joint names of three characters index joints only.
proof fn lemma_format_over_keeps_wait(frame: Seq<Option<Seq<char>>>, lines: Seq<Seq<char>>)
    requires
        frame.len() == 21,
        format_defined(lines),
    ensures
        format_over(frame, lines).len() == 21,
        format_over(frame, lines)[20] == frame[20],
    decreases lines.len(),
{
    if lines.len() > 0 {
        let front = lines.drop_last();
        assert forall|i: int| 0 <= i < front.len() implies format_line_ok(#[trigger] front[i]) by {
            assert(front[i] == lines[i]);
        }
        lemma_format_over_keeps_wait(frame, front);
        let line = lines.last();
        assert(format_line_ok(lines[lines.len() - 1]));
        lemma_joint_index_range(short_name(line_tokens(line)[0]));
    }
}

/// A frame read from message lines has 21 cells, and its waiting time is never read: messages
/// carry joint values only.
pub proof fn lemma_format_no_wait(lines: Seq<Seq<char>>)
    requires
        format_defined(lines),
    ensures
        format_spec(lines).len() == 21,
        format_spec(lines)[20] is None,
{
    lemma_format_over_keeps_wait(empty_frame(), lines);
}

/// Reading two runs of lines one after the other is reading the first, then the second.
pub proof fn lemma_format_over_concat(
    frame: Seq<Option<Seq<char>>>,
    a: Seq<Seq<char>>,
    b: Seq<Seq<char>>,
)
    ensures
        format_over(frame, a + b) == format_over(format_over(frame, a), b),
    decreases b.len(),
{
    if b.len() == 0 {
        assert(a + b =~= a);
    } else {
        lemma_format_over_concat(frame, a, b.drop_last());
        assert((a + b).drop_last() =~= a + b.drop_last());
        assert((a + b).last() == b.last());
    }
}

/// A message line that is not a four-byte name and a value changes nothing: inserting it
/// anywhere among the lines gives the same frame, and leaves reading as defined as it was.
pub proof fn lemma_format_ignores_other_lines(a: Seq<Seq<char>>, x: Seq<char>, b: Seq<Seq<char>>)
    requires
        !is_joint_line(x),
    ensures
        format_spec(a.push(x) + b) == format_spec(a + b),
        format_defined(a.push(x) + b) == format_defined(a + b),
{
    lemma_format_over_concat(empty_frame(), a.push(x), b);
    lemma_format_over_concat(empty_frame(), a, b);
    assert(a.push(x).drop_last() =~= a);
    let l1 = a.push(x) + b;
    let l2 = a + b;
    if format_defined(l2) {
        assert forall|i: int| 0 <= i < l1.len() implies format_line_ok(#[trigger] l1[i]) by {
            if i < a.len() {
                assert(l1[i] == l2[i]);
            } else if i > a.len() {
                assert(l1[i] == l2[i - 1]);
            }
        }
    }
    if format_defined(l1) {
        assert forall|i: int| 0 <= i < l2.len() implies format_line_ok(#[trigger] l2[i]) by {
            if i < a.len() {
                assert(l2[i] == l1[i]);
            } else {
                assert(l2[i] == l1[i + 1]);
            }
        }
    }
}

} // verus!

verus! {

proof fn lemma_parts_prefix(m1: Seq<Seq<char>>, m2: Seq<Seq<char>>, n: nat)
    requires
        n <= m1.len(),
        n <= m2.len(),
        forall|i: int| 0 <= i < n ==> m1[i] == m2[i],
    ensures
        received_parts(m1, n) == received_parts(m2, n),
        sent_parts(m1, n) == sent_parts(m2, n),
    decreases n,
{
    if n > 0 {
        lemma_parts_prefix(m1, m2, (n - 1) as nat);
        assert(m1[n - 1] == m2[n - 1]);
    }
}

proof fn lemma_parts_concat(a: Seq<Seq<char>>, b: Seq<Seq<char>>, k: nat)
    requires
        k <= b.len(),
    ensures
        received_parts(a + b, a.len() + k) == received_parts(a, a.len()) + received_parts(b, k),
        sent_parts(a + b, a.len() + k) == sent_parts(a, a.len()) + sent_parts(b, k),
    decreases k,
{
    if k == 0 {
        lemma_parts_prefix(a + b, a, a.len());
        assert(received_parts(a, a.len()) + received_parts(b, 0) =~= received_parts(a, a.len()));
        assert(sent_parts(a, a.len()) + sent_parts(b, 0) =~= sent_parts(a, a.len()));
    } else {
        lemma_parts_concat(a, b, (k - 1) as nat);
        assert((a + b)[a.len() + k - 1] == b[k - 1]);
        let ra = received_parts(a, a.len());
        let rb = received_parts(b, (k - 1) as nat);
        let sa = sent_parts(a, a.len());
        let sb = sent_parts(b, (k - 1) as nat);
        match received_part(b[k - 1]) {
            Some(p) => {
                assert((ra + rb).push(p) =~= ra + rb.push(p));
            },
            None => {},
        }
        match sent_part(b[k - 1]) {
            Some(p) => {
                assert((sa + sb).push(p) =~= sa + sb.push(p));
            },
            None => {},
        }
    }
}

/// The frames of messages read one run after another are the frames of the first run followed
/// by those of the second, for the sensor values and for the speeds alike: frames follow the
/// order of the messages.
pub proof fn lemma_messages_concat(a: Seq<Seq<char>>, b: Seq<Seq<char>>)
    ensures
        messages_spec(a + b).0 == messages_spec(a).0 + messages_spec(b).0,
        messages_spec(a + b).1 == messages_spec(a).1 + messages_spec(b).1,
{
    lemma_parts_concat(a, b, b.len());
    assert((a + b).len() == a.len() + b.len());
    assert(messages_spec(a + b).0 =~= messages_spec(a).0 + messages_spec(b).0);
    assert(messages_spec(a + b).1 =~= messages_spec(a).1 + messages_spec(b).1);
}

/// A single message gives the frame of its received part as a sensor frame, or the frame of its
/// sent part as a speed frame, or no frame.
pub proof fn lemma_message_frames(m: Seq<char>)
    ensures
        messages_spec(seq![m]).0 == (match received_part(m) {
            Some(p) => seq![format_spec(sensor_lines(p))],
            None => Seq::empty(),
        }),
        messages_spec(seq![m]).1 == (match sent_part(m) {
            Some(p) => seq![format_spec(speed_lines(p))],
            None => Seq::empty(),
        }),
{
    assert(seq![m][0] == m);
    assert(received_parts(seq![m], 0) =~= Seq::<Seq<char>>::empty());
    assert(sent_parts(seq![m], 0) =~= Seq::<Seq<char>>::empty());
    assert(messages_spec(seq![m]).0 =~= (match received_part(m) {
        Some(p) => seq![format_spec(sensor_lines(p))],
        None => Seq::empty(),
    }));
    assert(messages_spec(seq![m]).1 =~= (match sent_part(m) {
        Some(p) => seq![format_spec(speed_lines(p))],
        None => Seq::empty(),
    }));
}

/// The `i`-th sensor frame is the frame of the `i`-th received message, counted in message order;
/// the same holds of the speed frames and the sent messages.
pub proof fn lemma_messages_push(ms: Seq<Seq<char>>, m: Seq<char>)
    ensures
        messages_spec(ms.push(m)).0 == messages_spec(ms).0 + messages_spec(seq![m]).0,
        messages_spec(ms.push(m)).1 == messages_spec(ms).1 + messages_spec(seq![m]).1,
{
    assert(ms.push(m) =~= ms + seq![m]);
    lemma_messages_concat(ms, seq![m]);
}

} // verus!

verus! {

/// Lines are read in order and a later line wins: after a line that gives joint `j` (not a toe)
/// the value `v`, the frame holds `v` for `j`, and every other cell is as before that line.
pub proof fn lemma_format_last_line_wins(a: Seq<Seq<char>>, x: Seq<char>)
    requires
        is_joint_line(x),
        !is_toe(short_name(line_tokens(x)[0])),
        joint_index(short_name(line_tokens(x)[0])) != usize::MAX as int,
        format_defined(a),
    ensures
        format_spec(a.push(x))[joint_index(short_name(line_tokens(x)[0]))] == Some(
            line_tokens(x)[1],
        ),
        forall|c: int|
            0 <= c < 21 && c != joint_index(short_name(line_tokens(x)[0])) ==> #[trigger] format_spec(
                a.push(x),
            )[c] == format_spec(a)[c],
        format_spec(a.push(x)).len() == 21,
{
    lemma_format_no_wait(a);
    lemma_joint_index_range(short_name(line_tokens(x)[0]));
    assert(a.push(x).drop_last() =~= a);
    assert(a.push(x).last() == x);
}

} // verus!
