use vstd::prelude::*;

verus! {

broadcast use vstd::string::group_string_axioms;

/// The pieces of `s` between the occurrences of `sep`, in order, as `str::split` with a
/// one-character pattern gives them: `k` occurrences give `k + 1` pieces, empty ones included.
pub open spec fn split_spec(s: Seq<char>, sep: char) -> Seq<Seq<char>>
    decreases s.len(),
{
    if s.len() == 0 {
        seq![Seq::<char>::empty()]
    } else {
        let prev = split_spec(s.drop_last(), sep);
        if s.last() == sep {
            prev.push(Seq::<char>::empty())
        } else {
            prev.update(prev.len() - 1, prev.last().push(s.last()))
        }
    }
}

/// `p` occurs in `s` starting at position `i`.
pub open spec fn matches_at(s: Seq<char>, p: Seq<char>, i: int) -> bool {
    0 <= i && i + p.len() <= s.len() && s.subrange(i, i + p.len()) == p
}

/// The first position at or after `k` where `p` occurs in `s`, as `str::find` reports it
/// for the suffix that starts at `k`.
pub open spec fn find_from(s: Seq<char>, p: Seq<char>, k: int) -> Option<int>
    decreases s.len() + 1 - k,
{
    if k < 0 || k + p.len() > s.len() {
        None
    } else if matches_at(s, p, k) {
        Some(k)
    } else {
        find_from(s, p, k + 1)
    }
}

/// The first position where `p` occurs in `s`.
pub open spec fn find_spec(s: Seq<char>, p: Seq<char>) -> Option<int> {
    find_from(s, p, 0)
}

/// `s` from position `pos` on, with every occurrence of `p` replaced by `r`, scanning from the
/// left and skipping over each replaced occurrence, as `str::replace` does.
pub open spec fn replace_from(s: Seq<char>, p: Seq<char>, r: Seq<char>, pos: int) -> Seq<char>
    decreases s.len() - pos,
{
    if pos < 0 || pos >= s.len() {
        Seq::<char>::empty()
    } else if p.len() > 0 && matches_at(s, p, pos) {
        r + replace_from(s, p, r, pos + p.len())
    } else {
        seq![s[pos]] + replace_from(s, p, r, pos + 1)
    }
}

/// `s` with every occurrence of the non-empty pattern `p` replaced by `r`.
pub open spec fn replace_spec(s: Seq<char>, p: Seq<char>, r: Seq<char>) -> Seq<char> {
    replace_from(s, p, r, 0)
}

/// The pieces joined with `sep` between each two of them.
pub open spec fn join_spec(pieces: Seq<Seq<char>>, sep: char) -> Seq<char>
    decreases pieces.len(),
{
    if pieces.len() == 0 {
        Seq::<char>::empty()
    } else if pieces.len() == 1 {
        pieces[0]
    } else {
        join_spec(pieces.drop_last(), sep) + seq![sep] + pieces.last()
    }
}

/// The pieces, each followed by `sep`.
pub open spec fn terminated_spec(pieces: Seq<Seq<char>>, sep: char) -> Seq<char>
    decreases pieces.len(),
{
    if pieces.len() == 0 {
        Seq::<char>::empty()
    } else {
        terminated_spec(pieces.drop_last(), sep) + pieces.last() + seq![sep]
    }
}

/// No piece holds `sep`.
pub open spec fn free_of(pieces: Seq<Seq<char>>, sep: char) -> bool {
    forall|i: int| 0 <= i < pieces.len() ==> !(#[trigger] pieces[i]).contains(sep)
}

/// The decimal digits `0` to `9`.
pub open spec fn digit_chars() -> Seq<char> {
    seq!['0', '1', '2', '3', '4', '5', '6', '7', '8', '9']
}

/// The decimal representation of `n`, without sign or leading zeros.
pub open spec fn decimal(n: nat) -> Seq<char>
    decreases n,
{
    if n < 10 {
        seq![digit_chars()[n as int]]
    } else {
        decimal(n / 10).push(digit_chars()[(n % 10) as int])
    }
}

/// The views of a sequence of character vectors.
pub open spec fn views(v: Seq<Vec<char>>) -> Seq<Seq<char>> {
    Seq::new(v.len(), |i: int| v[i]@)
}

/// The characters of `s`, in order.
pub fn chars_of(s: &str) -> (v: Vec<char>)
    ensures
        v@ == s@,
{
    let mut v: Vec<char> = Vec::new();
    for c in it: s.chars()
        invariant
            v@ == it.seq().take(it.index() as int),
            it.seq() == s@,
    {
        v.push(c);
    }
    v
}

/// A `String` holding the characters of `v`; the call is `FromIterator::from_iter`
/// (through `collect`) over the slice's characters, whose documented result is the
/// string of those characters in order.
#[verifier::external_body]
pub(crate) fn string_of(v: &[char]) -> (s: String)
    ensures
        s@ == v@,
{
    v.iter().collect()
}

/// A copy of `v`.
pub fn copy_chars(v: &Vec<char>) -> (w: Vec<char>)
    ensures
        w@ == v@,
{
    let mut w: Vec<char> = Vec::new();
    for i in 0..v.len()
        invariant
            w@ == v@.take(i as int),
    {
        w.push(v[i]);
        assert(v@.take(i + 1) =~= v@.take(i as int).push(v@[i as int]));
    }
    assert(v@.take(v.len() as int) =~= v@);
    w
}

/// Appends the characters of `src` to `dst`.
pub fn push_all(dst: &mut Vec<char>, src: &Vec<char>)
    ensures
        final(dst)@ == old(dst)@ + src@,
{
    let ghost start = dst@;
    for i in 0..src.len()
        invariant
            dst@ == start + src@.take(i as int),
    {
        dst.push(src[i]);
        assert(src@.take(i + 1) =~= src@.take(i as int).push(src@[i as int]));
    }
    assert(src@.take(src.len() as int) =~= src@);
}

/// Appends the characters of the string slice `src` to `dst`.
pub fn push_str(dst: &mut Vec<char>, src: &str)
    ensures
        final(dst)@ == old(dst)@ + src@,
{
    let cs = chars_of(src);
    push_all(dst, &cs);
}

/// The pieces of `s` between the occurrences of `sep`, as `str::split` gives them.
pub fn split_char(s: &Vec<char>, sep: char) -> (pieces: Vec<Vec<char>>)
    ensures
        views(pieces@) == split_spec(s@, sep),
{
    let mut pieces: Vec<Vec<char>> = Vec::new();
    let mut cur: Vec<char> = Vec::new();
    for i in 0..s.len()
        invariant
            views(pieces@).push(cur@) == split_spec(s@.take(i as int), sep),
    {
        let ghost before = views(pieces@).push(cur@);
        assert(s@.take(i + 1).drop_last() =~= s@.take(i as int));
        if s[i] == sep {
            pieces.push(cur);
            cur = Vec::new();
            assert(views(pieces@).push(cur@) =~= before.push(Seq::<char>::empty()));
        } else {
            cur.push(s[i]);
            assert(views(pieces@).push(cur@) =~= before.update(
                before.len() - 1,
                before.last().push(s@[i as int]),
            ));
        }
    }
    assert(s@.take(s.len() as int) =~= s@);
    pieces.push(cur);
    assert(views(pieces@) =~= split_spec(s@, sep));
    pieces
}

/// Splitting gives at least one piece.
pub proof fn lemma_split_nonempty(s: Seq<char>, sep: char)
    ensures
        split_spec(s, sep).len() >= 1,
    decreases s.len(),
{
    if s.len() > 0 {
        lemma_split_nonempty(s.drop_last(), sep);
    }
}

/// Appending a separator to a text adds an empty last piece.
pub proof fn lemma_split_push_sep(s: Seq<char>, sep: char)
    ensures
        split_spec(s.push(sep), sep) == split_spec(s, sep).push(Seq::<char>::empty()),
{
    assert(s.push(sep).drop_last() =~= s);
}

/// Appending text without the separator extends the last piece.
pub proof fn lemma_split_extend(s: Seq<char>, w: Seq<char>, sep: char)
    requires
        !w.contains(sep),
    ensures
        split_spec(s + w, sep) == split_spec(s, sep).update(
            split_spec(s, sep).len() - 1,
            split_spec(s, sep).last() + w,
        ),
    decreases w.len(),
{
    lemma_split_nonempty(s, sep);
    if w.len() == 0 {
        assert(s + w =~= s);
        assert(split_spec(s, sep).last() + w =~= split_spec(s, sep).last());
        assert(split_spec(s, sep).update(split_spec(s, sep).len() - 1, split_spec(s, sep).last())
            =~= split_spec(s, sep));
    } else {
        let w1 = w.drop_last();
        assert(!w1.contains(sep)) by {
            if w1.contains(sep) {
                let k = choose|k: int| 0 <= k < w1.len() && w1[k] == sep;
                assert(w[k] == sep);
            }
        }
        assert(w.last() != sep) by {
            assert(w[w.len() - 1] == w.last());
        }
        lemma_split_extend(s, w1, sep);
        assert((s + w).drop_last() =~= s + w1);
        assert((s + w).last() == w.last());
        lemma_split_nonempty(s + w1, sep);
        let p = split_spec(s, sep);
        assert(p.last() + w =~= (p.last() + w1).push(w.last()));
        assert(split_spec(s + w, sep) =~= p.update(p.len() - 1, p.last() + w));
    }
}

/// A text with a separator in it splits into the pieces before the separator, then the pieces
/// after it.
pub proof fn lemma_split_concat(a: Seq<char>, b: Seq<char>, sep: char)
    ensures
        split_spec(a.push(sep) + b, sep) == split_spec(a, sep) + split_spec(b, sep),
    decreases b.len(),
{
    lemma_split_nonempty(a, sep);
    if b.len() == 0 {
        assert(a.push(sep) + b =~= a.push(sep));
        lemma_split_push_sep(a, sep);
        assert(split_spec(b, sep) =~= seq![Seq::<char>::empty()]);
        assert(split_spec(a, sep).push(Seq::<char>::empty()) =~= split_spec(a, sep) + split_spec(b, sep));
    } else {
        let b1 = b.drop_last();
        lemma_split_concat(a, b1, sep);
        lemma_split_nonempty(b1, sep);
        assert((a.push(sep) + b).drop_last() =~= a.push(sep) + b1);
        assert((a.push(sep) + b).last() == b.last());
        let pa = split_spec(a, sep);
        let pb = split_spec(b1, sep);
        if b.last() == sep {
            assert((pa + pb).push(Seq::<char>::empty()) =~= pa + pb.push(Seq::<char>::empty()));
        } else {
            assert((pa + pb).update((pa + pb).len() - 1, (pa + pb).last().push(b.last())) =~= pa + pb.update(
                pb.len() - 1,
                pb.last().push(b.last()),
            ));
        }
    }
}

/// A text without the separator is one piece.
pub proof fn lemma_split_free(w: Seq<char>, sep: char)
    requires
        !w.contains(sep),
    ensures
        split_spec(w, sep) == seq![w],
{
    let e = Seq::<char>::empty();
    lemma_split_extend(e, w, sep);
    assert(e + w =~= w);
    assert(split_spec(e, sep) =~= seq![e]);
    assert(seq![e].update(0, e + w) =~= seq![w]);
}

/// A text split after each piece gives back the pieces, then an empty one.
pub proof fn lemma_split_terminated(pieces: Seq<Seq<char>>, sep: char)
    requires
        free_of(pieces, sep),
    ensures
        split_spec(terminated_spec(pieces, sep), sep) == pieces.push(Seq::<char>::empty()),
    decreases pieces.len(),
{
    if pieces.len() == 0 {
        assert(split_spec(Seq::<char>::empty(), sep) =~= seq![Seq::<char>::empty()]);
        assert(pieces.push(Seq::<char>::empty()) =~= seq![Seq::<char>::empty()]);
    } else {
        let front = pieces.drop_last();
        assert(free_of(front, sep)) by {
            assert forall|i: int| 0 <= i < front.len() implies !(#[trigger] front[i]).contains(sep) by {
                assert(front[i] == pieces[i]);
            }
        }
        assert(!pieces.last().contains(sep)) by {
            assert(pieces[pieces.len() - 1] == pieces.last());
        }
        lemma_split_terminated(front, sep);
        let t = terminated_spec(front, sep);
        lemma_split_extend(t, pieces.last(), sep);
        lemma_split_push_sep(t + pieces.last(), sep);
        let e = Seq::<char>::empty();
        assert(e + pieces.last() =~= pieces.last());
        assert(front.push(e).update(front.len() as int, e + pieces.last()) =~= pieces);
        assert(terminated_spec(pieces, sep) == (t + pieces.last()).push(sep));
    }
}

/// Splitting joined pieces gives back the pieces.
pub proof fn lemma_split_join(pieces: Seq<Seq<char>>, sep: char)
    requires
        pieces.len() > 0,
        free_of(pieces, sep),
    ensures
        split_spec(join_spec(pieces, sep), sep) == pieces,
    decreases pieces.len(),
{
    if pieces.len() == 1 {
        assert(!pieces[0].contains(sep));
        lemma_split_extend(Seq::<char>::empty(), pieces[0], sep);
        assert(Seq::<char>::empty() + pieces[0] =~= pieces[0]);
        assert(split_spec(Seq::<char>::empty(), sep) =~= seq![Seq::<char>::empty()]);
        assert(seq![Seq::<char>::empty()].update(0, Seq::<char>::empty() + pieces[0]) =~= pieces);
    } else {
        let front = pieces.drop_last();
        assert(free_of(front, sep)) by {
            assert forall|i: int| 0 <= i < front.len() implies !(#[trigger] front[i]).contains(sep) by {
                assert(front[i] == pieces[i]);
            }
        }
        assert(!pieces.last().contains(sep)) by {
            assert(pieces[pieces.len() - 1] == pieces.last());
        }
        lemma_split_join(front, sep);
        let j = join_spec(front, sep);
        lemma_split_push_sep(j, sep);
        lemma_split_extend(j.push(sep), pieces.last(), sep);
        let e = Seq::<char>::empty();
        assert(e + pieces.last() =~= pieces.last());
        assert(front.push(e).update(front.len() as int, e + pieces.last()) =~= pieces);
        assert(join_spec(pieces, sep) =~= j.push(sep) + pieces.last());
    }
}

/// A character that is in neither part is not in their concatenation.
pub proof fn lemma_concat_free(a: Seq<char>, b: Seq<char>, x: char)
    requires
        !a.contains(x),
        !b.contains(x),
    ensures
        !(a + b).contains(x),
{
    if (a + b).contains(x) {
        let k = choose|k: int| 0 <= k < (a + b).len() && (a + b)[k] == x;
        if k < a.len() {
            assert(a[k] == x);
        } else {
            assert(b[k - a.len()] == x);
        }
    }
}

/// Joining pieces that lack a character other than the separator gives a text that lacks it.
pub proof fn lemma_join_free(pieces: Seq<Seq<char>>, sep: char, x: char)
    requires
        x != sep,
        free_of(pieces, x),
    ensures
        !join_spec(pieces, sep).contains(x),
    decreases pieces.len(),
{
    if pieces.len() == 0 {
    } else if pieces.len() == 1 {
        assert(!pieces[0].contains(x));
    } else {
        let front = pieces.drop_last();
        assert(free_of(front, x)) by {
            assert forall|i: int| 0 <= i < front.len() implies !(#[trigger] front[i]).contains(x) by {
                assert(front[i] == pieces[i]);
            }
        }
        lemma_join_free(front, sep, x);
        assert(!pieces.last().contains(x)) by {
            assert(pieces[pieces.len() - 1] == pieces.last());
        }
        assert(!seq![sep].contains(x)) by {
            if seq![sep].contains(x) {
                let k = choose|k: int| 0 <= k < 1 && seq![sep][k] == x;
            }
        }
        lemma_concat_free(join_spec(front, sep), seq![sep], x);
        lemma_concat_free(join_spec(front, sep) + seq![sep], pieces.last(), x);
    }
}

/// Appends the pieces to `out`, joined with `sep`.
pub fn push_joined(out: &mut Vec<char>, pieces: &Vec<Vec<char>>, sep: char)
    ensures
        final(out)@ == old(out)@ + join_spec(views(pieces@), sep),
{
    let ghost start = out@;
    let ghost ps = views(pieces@);
    for i in 0..pieces.len()
        invariant
            ps == views(pieces@),
            out@ == start + join_spec(ps.take(i as int), sep),
    {
        let ghost before = out@;
        if i > 0 {
            out.push(sep);
        }
        push_all(out, &pieces[i]);
        proof {
            let t = ps.take(i + 1);
            assert(t.drop_last() =~= ps.take(i as int));
            assert(t.last() == pieces@[i as int]@);
            if i == 0 {
                assert(t.len() == 1);
                assert(join_spec(ps.take(0), sep) =~= Seq::<char>::empty());
                assert(out@ =~= start + join_spec(t, sep));
            } else {
                assert(out@ =~= start + join_spec(t, sep));
            }
        }
    }
    assert(ps.take(pieces.len() as int) =~= ps);
}

/// The digit character of `d` (below 10).
pub fn digit_char(d: usize) -> (c: char)
    requires
        d < 10,
    ensures
        c == digit_chars()[d as int],
{
    match d {
        0 => '0',
        1 => '1',
        2 => '2',
        3 => '3',
        4 => '4',
        5 => '5',
        6 => '6',
        7 => '7',
        8 => '8',
        _ => '9',
    }
}

/// The decimal representation of `n`, as `usize::to_string` writes it.
pub fn decimal_of(n: usize) -> (v: Vec<char>)
    ensures
        v@ == decimal(n as nat),
    decreases n,
{
    if n < 10 {
        let mut v: Vec<char> = Vec::new();
        v.push(digit_char(n));
        assert(v@ =~= decimal(n as nat));
        v
    } else {
        let mut v = decimal_of(n / 10);
        v.push(digit_char(n % 10));
        v
    }
}

/// A decimal representation is never empty, and it holds only digits.
pub proof fn lemma_decimal_digits(n: nat)
    ensures
        decimal(n).len() >= 1,
        forall|i: int| 0 <= i < decimal(n).len() ==> digit_chars().contains(#[trigger] decimal(n)[i]),
    decreases n,
{
    if n < 10 {
        assert(decimal(n)[0] == digit_chars()[n as int]);
    } else {
        lemma_decimal_digits(n / 10);
        let d = decimal(n);
        assert forall|i: int| 0 <= i < d.len() implies digit_chars().contains(#[trigger] d[i]) by {
            if i < d.len() - 1 {
                assert(d[i] == decimal(n / 10)[i]);
            } else {
                assert(d[i] == digit_chars()[(n % 10) as int]);
            }
        }
    }
}

/// Different digits are different characters.
pub proof fn lemma_digit_injective(x: int, y: int)
    requires
        0 <= x < 10,
        0 <= y < 10,
        digit_chars()[x] == digit_chars()[y],
    ensures
        x == y,
{
    let d = digit_chars();
    assert(d[0] == '0' && d[1] == '1' && d[2] == '2' && d[3] == '3' && d[4] == '4');
    assert(d[5] == '5' && d[6] == '6' && d[7] == '7' && d[8] == '8' && d[9] == '9');
}

/// Different numbers have different decimal representations.
pub proof fn lemma_decimal_injective(a: nat, b: nat)
    requires
        decimal(a) == decimal(b),
    ensures
        a == b,
    decreases a,
{
    lemma_decimal_digits(a);
    lemma_decimal_digits(b);
    if a < 10 && b < 10 {
        assert(decimal(a)[0] == decimal(b)[0]);
        assert(decimal(a)[0] == digit_chars()[a as int]);
        assert(decimal(b)[0] == digit_chars()[b as int]);
        lemma_digit_injective(a as int, b as int);
    } else if a < 10 {
        lemma_decimal_digits(b / 10);
        assert(decimal(b).len() >= 2);
    } else if b < 10 {
        lemma_decimal_digits(a / 10);
        assert(decimal(a).len() >= 2);
    } else {
        assert(decimal(a).last() == decimal(b).last());
        assert(decimal(a).last() == digit_chars()[(a % 10) as int]);
        assert(decimal(b).last() == digit_chars()[(b % 10) as int]);
        lemma_digit_injective((a % 10) as int, (b % 10) as int);
        assert(decimal(a / 10) =~= decimal(a).drop_last());
        assert(decimal(b / 10) =~= decimal(b).drop_last());
        lemma_decimal_injective(a / 10, b / 10);
    }
}

/// Whether two character sequences are equal.
pub fn chars_eq(a: &Vec<char>, b: &Vec<char>) -> (eq: bool)
    ensures
        eq == (a@ == b@),
{
    if a.len() != b.len() {
        return false;
    }
    for i in 0..a.len()
        invariant
            a.len() == b.len(),
            forall|k: int| 0 <= k < i ==> a@[k] == b@[k],
    {
        if a[i] != b[i] {
            return false;
        }
    }
    assert(a@ =~= b@);
    true
}

/// Whether `p` occurs in `s` at position `i`.
pub fn matches_at_exec(s: &Vec<char>, p: &Vec<char>, i: usize) -> (b: bool)
    ensures
        b == matches_at(s@, p@, i as int),
{
    if i > s.len() || p.len() > s.len() - i {
        return false;
    }
    let mut j: usize = 0;
    while j < p.len()
        invariant
            i + p.len() <= s.len(),
            j <= p.len(),
            forall|k: int| 0 <= k < j ==> s@[i + k] == p@[k],
        decreases p.len() - j,
    {
        if s[i + j] != p[j] {
            assert(s@.subrange(i as int, i + p.len())[j as int] != p@[j as int]);
            return false;
        }
        j = j + 1;
    }
    assert(s@.subrange(i as int, i + p.len()) =~= p@);
    true
}

/// The first position at or after `k` where `p` occurs in `s`.
pub fn find_exec(s: &Vec<char>, p: &Vec<char>, k: usize) -> (r: Option<usize>)
    ensures
        match r {
            Some(i) => find_from(s@, p@, k as int) == Some(i as int),
            None => find_from(s@, p@, k as int) is None,
        },
{
    let mut i = k;
    while i <= s.len() && p.len() <= s.len() - i
        invariant
            k <= i,
            find_from(s@, p@, k as int) == find_from(s@, p@, i as int),
        decreases s.len() + 1 - i,
    {
        if matches_at_exec(s, p, i) {
            return Some(i);
        }
        proof {
            if i == s.len() {
                assert(s@.subrange(i as int, i as int) =~= p@);
            }
        }
        i = i + 1;
    }
    None
}

/// `s` with every occurrence of the non-empty pattern `p` replaced by `r`, as `str::replace`
/// gives it.
pub fn replace_exec(s: &Vec<char>, p: &Vec<char>, r: &Vec<char>) -> (out: Vec<char>)
    requires
        p@.len() > 0,
    ensures
        out@ == replace_spec(s@, p@, r@),
{
    let mut out: Vec<char> = Vec::new();
    let mut pos: usize = 0;
    while pos < s.len()
        invariant
            p@.len() > 0,
            pos <= s.len(),
            out@ + replace_from(s@, p@, r@, pos as int) == replace_spec(s@, p@, r@),
        decreases s.len() - pos,
    {
        let ghost before = out@;
        if matches_at_exec(s, p, pos) {
            push_all(&mut out, r);
            assert(before + replace_from(s@, p@, r@, pos as int) =~= out@ + replace_from(
                s@,
                p@,
                r@,
                pos + p@.len(),
            ));
            pos = pos + p.len();
        } else {
            out.push(s[pos]);
            assert(before + replace_from(s@, p@, r@, pos as int) =~= out@ + replace_from(
                s@,
                p@,
                r@,
                pos + 1,
            ));
            pos = pos + 1;
        }
    }
    out
}

} // verus!
