//! Iteration over items that borrow from the iterator itself.
use crate::ass::line::AssLine;
use crate::ass::lines::{ass_lines_next, opt_ass_model, AssLines};
use crate::byte_lines::{line_at, next_line_start, ByteLines};
use crate::srt::it::{opt_srt_model, srt_lines_next, SrtLines};
use crate::srt::line::SrtLine;
use crate::vtt::it::{opt_vtt_model, vtt_lines_next, VttLines};
use crate::vtt::line::VttLine;
use vstd::prelude::*;

verus! {

/// An iterator whose items may borrow from the iterator itself, so that one
/// buffer serves every item.
pub trait StreamingIterator {
    type Item<'a> where Self: 'a;

    /// The iterator is in a state it can go on from.
    spec fn inv(&self) -> bool;

    /// The next item, or `None` after the last one.
    fn next<'a>(&'a mut self) -> (r: Option<Self::Item<'a>>)
        requires
            old(self).inv(),
        ensures
            final(self).inv(),
    ;
}

impl StreamingIterator for ByteLines {
    type Item<'a> = &'a [u8];

    open spec fn inv(&self) -> bool {
        self.wf()
    }

    fn next<'a>(&'a mut self) -> (r: Option<&'a [u8]>)
        ensures
            final(self).data() == old(self).data(),
            old(self).pos() >= old(self).data().len() ==> r is None && final(self).pos() == old(
                self,
            ).pos(),
            old(self).pos() < old(self).data().len() ==> {
                &&& r matches Some(line)
                &&& line@ == line_at(old(self).data(), old(self).pos())
                &&& final(self).pos() == next_line_start(old(self).data(), old(self).pos())
            },
    {
        ByteLines::next(self)
    }
}

impl StreamingIterator for SrtLines {
    type Item<'a> = SrtLine;

    open spec fn inv(&self) -> bool {
        self.wf()
    }

    fn next<'a>(&'a mut self) -> (r: Option<SrtLine>)
        ensures
            (opt_srt_model(r), final(self).model()) == srt_lines_next(old(self).model()),
    {
        SrtLines::next(self)
    }
}

impl StreamingIterator for VttLines {
    type Item<'a> = VttLine;

    open spec fn inv(&self) -> bool {
        self.wf()
    }

    fn next<'a>(&'a mut self) -> (r: Option<VttLine>)
        ensures
            (opt_vtt_model(r), final(self).model()) == vtt_lines_next(old(self).model()),
    {
        VttLines::next(self)
    }
}

impl StreamingIterator for AssLines {
    type Item<'a> = AssLine;

    open spec fn inv(&self) -> bool {
        self.wf()
    }

    fn next<'a>(&'a mut self) -> (r: Option<AssLine>)
        ensures
            (opt_ass_model(r), final(self).model()) == ass_lines_next(old(self).model()),
    {
        AssLines::next(self)
    }
}

} // verus!
