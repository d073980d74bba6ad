use vstd::prelude::*;

use crate::text::{chars_eq, chars_of, split_char, split_spec, string_of};

verus! {

/// Where a target is loaded from, chosen by the extension of the chosen file.
#[derive(Debug, Clone, Copy, PartialEq, Eq)]
pub enum Source {
    /// An editor file (`.edit`), read by `Target::from_editor`.
    Editor,
    /// A params file (`.txt`), read by `Target::from_params`.
    Params,
    /// A capture (`.pcapng`), read by `Target::from_pcap`.
    Capture,
    /// Any other file: the target becomes empty.
    Empty,
}

/// What the window writes the target as, by the choice in its list.
#[derive(Debug, Clone, Copy, PartialEq, Eq)]
pub enum Export {
    /// Choice 1: a skill file (`Target::into_skl`).
    Skl,
    /// Choice 2: an editor file (`Target::into_editor`).
    Editor,
    /// Choice 3: a params file and a skill file (`Target::into_skl_txt`).
    SklTxt,
}

/// The path that stands for "no file chosen".
pub open spec fn none_path() -> Seq<char> {
    seq!['n', 'o', 'n', 'e']
}

/// The suffix that marks a file as loaded.
pub open spec fn old_suffix() -> Seq<char> {
    seq!['.', 'o', 'l', 'd']
}

/// `s` ends with `suffix`.
pub open spec fn ends_with(s: Seq<char>, suffix: Seq<char>) -> bool {
    suffix.len() <= s.len() && s.subrange(s.len() - suffix.len(), s.len() as int) == suffix
}

/// The chosen path, `none` when there is none.
pub open spec fn current_path(file_path: Option<Seq<char>>) -> Seq<char> {
    match file_path {
        Some(p) => p,
        None => none_path(),
    }
}

/// The source for a file extension.
pub open spec fn source_of(ext: Seq<char>) -> Source {
    if ext =~= seq!['e', 'd', 'i', 't'] {
        Source::Editor
    } else if ext =~= seq!['t', 'x', 't'] {
        Source::Params
    } else if ext =~= seq!['p', 'c', 'a', 'p', 'n', 'g'] {
        Source::Capture
    } else {
        Source::Empty
    }
}

/// Updating the target: a chosen path that is not marked loaded is loaded from the source its
/// last `.`-separated part names, and is then marked loaded; otherwise nothing is loaded. The
/// result is the new path and the source to load from, if any.
pub open spec fn update_spec(file_path: Option<Seq<char>>) -> (Seq<char>, Option<Source>) {
    let p = current_path(file_path);
    if p != none_path() && !ends_with(p, old_suffix()) {
        (p + old_suffix(), Some(source_of(split_spec(p, '.').last())))
    } else {
        (p, None)
    }
}

/// Whether `s` ends with `suffix`.
fn ends_with_exec(s: &Vec<char>, suffix: &Vec<char>) -> (b: bool)
    ensures
        b == ends_with(s@, suffix@),
{
    if suffix.len() > s.len() {
        return false;
    }
    let start = s.len() - suffix.len();
    for i in 0..suffix.len()
        invariant
            start == s.len() - suffix.len(),
            suffix.len() <= s.len(),
            forall|k: int| 0 <= k < i ==> s@[start + k] == suffix@[k],
    {
        if s[start + i] != suffix[i] {
            assert(s@.subrange(start as int, s.len() as int)[i as int] != suffix@[i as int]);
            return false;
        }
    }
    assert(s@.subrange(start as int, s.len() as int) =~= suffix@);
    true
}

/// Updating the target for the chosen path (if any): the path to keep, and the source to load the
/// target from, if it is to be loaded.
pub fn update_target(file_path: &Option<String>) -> (plan: (String, Option<Source>))
    ensures
        (plan.0@, plan.1) == update_spec(file_path.deep_view()),
{
    let p: Vec<char> = match file_path {
        Some(s) => chars_of(s.as_str()),
        None => {
            let mut v: Vec<char> = Vec::new();
            v.push('n');
            v.push('o');
            v.push('n');
            v.push('e');
            assert(v@ =~= none_path());
            v
        },
    };
    let mut none: Vec<char> = Vec::new();
    none.push('n');
    none.push('o');
    none.push('n');
    none.push('e');
    let mut old: Vec<char> = Vec::new();
    old.push('.');
    old.push('o');
    old.push('l');
    old.push('d');
    assert(none@ =~= none_path());
    assert(old@ =~= old_suffix());
    if !chars_eq(&p, &none) && !ends_with_exec(&p, &old) {
        let parts = split_char(&p, '.');
        proof {
            crate::text::lemma_split_nonempty(p@, '.');
        }
        let ext = &parts[parts.len() - 1];
        assert(ext@ == split_spec(p@, '.').last());
        let source = source_for(ext);
        let mut marked = p;
        crate::text::push_all(&mut marked, &old);
        (string_of(marked.as_slice()), Some(source))
    } else {
        (string_of(p.as_slice()), None)
    }
}

fn source_for(ext: &Vec<char>) -> (s: Source)
    ensures
        s == source_of(ext@),
{
    let edit = literal_chars4('e', 'd', 'i', 't');
    let mut txt: Vec<char> = Vec::new();
    txt.push('t');
    txt.push('x');
    txt.push('t');
    let mut pcapng: Vec<char> = Vec::new();
    pcapng.push('p');
    pcapng.push('c');
    pcapng.push('a');
    pcapng.push('p');
    pcapng.push('n');
    pcapng.push('g');
    assert(txt@ =~= seq!['t', 'x', 't']);
    assert(pcapng@ =~= seq!['p', 'c', 'a', 'p', 'n', 'g']);
    if chars_eq(ext, &edit) {
        Source::Editor
    } else if chars_eq(ext, &txt) {
        Source::Params
    } else if chars_eq(ext, &pcapng) {
        Source::Capture
    } else {
        Source::Empty
    }
}

fn literal_chars4(a: char, b: char, c: char, d: char) -> (v: Vec<char>)
    ensures
        v@ == seq![a, b, c, d],
{
    let mut v: Vec<char> = Vec::new();
    v.push(a);
    v.push(b);
    v.push(c);
    v.push(d);
    assert(v@ =~= seq![a, b, c, d]);
    v
}

/// A target is loaded at most once per chosen file: after an update, a second update loads
/// nothing and keeps the path.
pub proof fn lemma_update_once(file_path: Option<Seq<char>>)
    ensures
        update_spec(Some(update_spec(file_path).0)).1 is None,
        update_spec(Some(update_spec(file_path).0)).0 == update_spec(file_path).0,
{
    let p = current_path(file_path);
    if p != none_path() && !ends_with(p, old_suffix()) {
        let q = p + old_suffix();
        assert(q.subrange(q.len() - 4, q.len() as int) =~= old_suffix());
    }
}

/// The path separator of the platform: `\` on Windows, `/` elsewhere.
pub open spec fn separator(windows: bool) -> char {
    if windows {
        '\\'
    } else {
        '/'
    }
}

/// The name of the file to write: the last path component of the third `.`-separated part from
/// the end of the (loaded) path.
pub open spec fn export_name(path: Seq<char>, windows: bool) -> Seq<char> {
    let parts = split_spec(path, '.');
    split_spec(parts[parts.len() - 3], separator(windows)).last()
}

/// The export for a choice in the window's list.
pub open spec fn export_of(selection: Option<usize>) -> Option<Export> {
    match selection {
        Some(1) => Some(Export::Skl),
        Some(2) => Some(Export::Editor),
        Some(3) => Some(Export::SklTxt),
        _ => None,
    }
}

/// What running the export does: nothing when no file was chosen; otherwise the chosen export,
/// if any, under the file's name.
pub open spec fn execute_spec(path: Seq<char>, selection: Option<usize>, windows: bool) -> Option<
    (Export, Seq<char>),
> {
    if path == none_path() {
        None
    } else {
        match export_of(selection) {
            Some(e) => Some((e, export_name(path, windows))),
            None => None,
        }
    }
}

/// A chosen path has at least three `.`-separated parts.
pub open spec fn execute_defined(path: Seq<char>) -> bool {
    path == none_path() || split_spec(path, '.').len() >= 3
}

/// Running the export, for the path after the update, the choice in the window's list and whether
/// the platform is Windows: the export to run and the file name to write under.
pub fn execute(path: &str, selection: Option<usize>, windows: bool) -> (action: Option<
    (Export, String),
>)
    requires
        execute_defined(path@),
    ensures
        match action {
            Some((e, name)) => execute_spec(path@, selection, windows) == Some((e, name@)),
            None => execute_spec(path@, selection, windows) is None,
        },
{
    let p = chars_of(path);
    let none = literal_chars4('n', 'o', 'n', 'e');
    if chars_eq(&p, &none) {
        return None;
    }
    let parts = split_char(&p, '.');
    let base = &parts[parts.len() - 3];
    let sep = if windows {
        '\\'
    } else {
        '/'
    };
    let comps = split_char(base, sep);
    proof {
        crate::text::lemma_split_nonempty(base@, sep);
    }
    let name = &comps[comps.len() - 1];
    assert(name@ == export_name(path@, windows));
    let export = match selection {
        Some(1) => Some(Export::Skl),
        Some(2) => Some(Export::Editor),
        Some(3) => Some(Export::SklTxt),
        _ => None,
    };
    match export {
        Some(e) => Some((e, string_of(name.as_slice()))),
        None => None,
    }
}

} // verus!
