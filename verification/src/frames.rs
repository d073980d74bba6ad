use vstd::prelude::*;

use crate::text::string_of;

verus! {

/// The number of cells of a frame: one per joint, then the waiting time.
pub const FRAME_LEN: usize = 21;

/// A frame of the reading functions: for each cell the text of the value that was read for it,
/// or `None` where nothing was read and the cell keeps its default (0 for a joint, 0.02 for the
/// waiting time).
pub type Frame = Vec<Option<String>>;

/// The frame in which nothing was read.
pub open spec fn empty_frame() -> Seq<Option<Seq<char>>> {
    Seq::new(21, |i: int| None::<Seq<char>>)
}

/// The view of a sequence of frames.
pub open spec fn frames_view(fs: Seq<Frame>) -> Seq<Seq<Option<Seq<char>>>> {
    Seq::new(fs.len(), |i: int| fs[i].deep_view())
}

/// A frame in which nothing was read.
pub fn new_frame() -> (f: Frame)
    ensures
        f.deep_view() == empty_frame(),
        f.len() == FRAME_LEN,
{
    let mut f: Frame = Vec::new();
    for i in 0..FRAME_LEN
        invariant
            f.len() == i,
            forall|k: int| 0 <= k < i ==> f@[k] is None,
    {
        f.push(None);
    }
    assert(f.deep_view() =~= empty_frame());
    f
}

/// A copy of the frame `f`.
pub fn copy_frame(f: &Frame) -> (g: Frame)
    ensures
        g.deep_view() == f.deep_view(),
{
    let mut g: Frame = Vec::new();
    for i in 0..f.len()
        invariant
            g.len() == i,
            forall|k: int| 0 <= k < i ==> (#[trigger] g@[k]).deep_view() == f@[k].deep_view(),
    {
        let c: Option<String> = match &f[i] {
            Some(s) => Some(s.clone()),
            None => None,
        };
        g.push(c);
    }
    assert(g.deep_view() =~= f.deep_view());
    g
}

/// Records `text` as the value read for cell `idx` of `f`.
pub fn set_cell(f: &mut Frame, idx: usize, text: &Vec<char>)
    requires
        idx < old(f).len(),
    ensures
        final(f).deep_view() == old(f).deep_view().update(idx as int, Some(text@)),
        final(f).len() == old(f).len(),
{
    let s = string_of(text.as_slice());
    f.set(idx, Some(s));
    assert(f.deep_view() =~= old(f).deep_view().update(idx as int, Some(text@)));
}

} // verus!
