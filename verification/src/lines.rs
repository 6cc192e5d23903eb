//! The readers that the subtitle line iterators draw on, whatever their
//! format, and the splitting of converted text into lines.
use crate::ass::it::{IterState as AssIterState, RegularAssLines};
use crate::srt::it::{IterState as SrtIterState, RegularSrtLines};
use crate::vtt::it::{BodyState, CurrentState, RegularVttLines};
use crate::ass::lines::AssLines;
use crate::srt::it::SrtLines;
use crate::vtt::it::VttLines;
use vstd::prelude::*;

verus! {

/// A reader of lines in one of the three formats.
pub enum SourceLines {
    Ass(RegularAssLines),
    Srt(RegularSrtLines),
    Vtt(RegularVttLines),
}

/// A reader as the specifications see it: its bytes, position and states.
pub enum SourceModel {
    Ass(Seq<u8>, int, AssIterState),
    Srt(Seq<u8>, int, SrtIterState),
    Vtt(Seq<u8>, int, BodyState, CurrentState),
}

impl SourceLines {
    pub open spec fn wf(&self) -> bool {
        match self {
            SourceLines::Ass(l) => l.wf(),
            SourceLines::Srt(l) => l.wf(),
            SourceLines::Vtt(l) => l.wf(),
        }
    }

    pub open spec fn model(&self) -> SourceModel {
        match self {
            SourceLines::Ass(l) => SourceModel::Ass(l.lines.data(), l.lines.pos(), l.state),
            SourceLines::Srt(l) => SourceModel::Srt(l.lines.data(), l.lines.pos(), l.state),
            SourceLines::Vtt(l) => SourceModel::Vtt(
                l.lines.data(),
                l.lines.pos(),
                l.body_state,
                l.current_state,
            ),
        }
    }
}

impl SourceModel {
    /// The position of the reader is within its bytes (or just past them).
    pub open spec fn in_bounds(self) -> bool {
        match self {
            SourceModel::Ass(d, p, _) => 0 <= p <= d.len() + 1,
            SourceModel::Srt(d, p, _) => 0 <= p <= d.len() + 1,
            SourceModel::Vtt(d, p, _, _) => 0 <= p <= d.len() + 1,
        }
    }

    /// A measure of the reading left: it drops with every line read.
    pub open spec fn remaining(self) -> nat {
        match self {
            SourceModel::Ass(d, p, _) => (d.len() + 1 - p) as nat,
            SourceModel::Srt(d, p, _) => (d.len() + 1 - p) as nat,
            SourceModel::Vtt(d, p, _, _) => (d.len() + 1 - p) as nat,
        }
    }
}

/// Lines converted to another format and back read their source afresh, as
/// lines made from it directly do: a round trip through another format
/// keeps the source whole.
pub proof fn lemma_convert_round_trip(src: SourceModel)
    ensures
        AssLines::fresh(SrtLines::fresh(src).source) == AssLines::fresh(src),
        AssLines::fresh(VttLines::fresh(src).source) == AssLines::fresh(src),
        SrtLines::fresh(AssLines::fresh(src).source) == SrtLines::fresh(src),
        SrtLines::fresh(VttLines::fresh(src).source) == SrtLines::fresh(src),
        VttLines::fresh(AssLines::fresh(src).source) == VttLines::fresh(src),
        VttLines::fresh(SrtLines::fresh(src).source) == VttLines::fresh(src),
{
}

/// Where the text line of `buf` that starts at `i` ends: at the first
/// backslash followed by `N` or `n` (a line break of SubStation Alpha text),
/// or at the end.
pub open spec fn seg_end(buf: Seq<u8>, i: int) -> int
    decreases buf.len() - i,
{
    if i < 0 || i + 1 >= buf.len() {
        buf.len() as int
    } else if buf[i] == 0x5Cu8 && (buf[i + 1] == 0x4Eu8 || buf[i + 1] == 0x6Eu8) {
        i
    } else {
        seg_end(buf, i + 1)
    }
}

pub proof fn lemma_seg_end_bounds(buf: Seq<u8>, i: int)
    requires
        0 <= i <= buf.len(),
    ensures
        i <= seg_end(buf, i) <= buf.len(),
    decreases buf.len() - i,
{
    if i + 1 < buf.len() && !(buf[i] == 0x5Cu8 && (buf[i + 1] == 0x4Eu8 || buf[i + 1] == 0x6Eu8)) {
        lemma_seg_end_bounds(buf, i + 1);
    }
}

/// Where the text line of `buf` that starts at `start` ends (see
/// [`seg_end`]).
pub fn segment_end(buf: &[u8], start: usize) -> (r: usize)
    requires
        start <= buf@.len(),
    ensures
        r as int == seg_end(buf@, start as int),
        start <= r <= buf@.len(),
{
    proof {
        lemma_seg_end_bounds(buf@, start as int);
    }
    let mut i = start;
    while i < buf.len() && i + 1 < buf.len()
        invariant
            start <= i <= buf@.len(),
            seg_end(buf@, start as int) == seg_end(buf@, i as int),
        decreases buf@.len() - i,
    {
        if buf[i] == 0x5Cu8 && (buf[i + 1] == 0x4Eu8 || buf[i + 1] == 0x6Eu8) {
            return i;
        }
        i += 1;
    }
    buf.len()
}

} // verus!
