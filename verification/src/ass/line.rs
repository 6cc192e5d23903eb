//! One line of SubStation Alpha scripts.
pub mod comment;
pub mod event;
pub mod info;
pub mod mark;
pub mod style;

pub use comment::Comment;
pub use event::format::{EventFormat, EventFormatPositions};
pub use event::{Effect, Event, EventModel, EventType};
pub use info::{ScriptInfo, ScriptInfoKind, ScriptType, Title, WrapStyle};
pub use mark::SectionMark;
pub use style::StyleLine;

use vstd::prelude::*;

verus! {

/// One line of a SubStation Alpha script.
#[derive(Clone, Debug, PartialEq)]
pub enum AssLine {
    Blank,
    SectionMark(SectionMark),
    Comment(Comment),
    ScriptInfo(ScriptInfo),
    EventFormat(EventFormat),
    Event(Event),
    Unrecognized(Vec<u8>),
}

/// A line as the specifications see it.
pub enum AssLineModel {
    Blank,
    SectionMark(SectionMark),
    Comment((Seq<u8>, Seq<u8>)),
    ScriptInfo((ScriptInfoKind, Seq<u8>)),
    EventFormat((Seq<u8>, EventFormatPositions)),
    Event(EventModel),
    Unrecognized(Seq<u8>),
}

impl DeepView for AssLine {
    type V = AssLineModel;

    open spec fn deep_view(&self) -> AssLineModel {
        match self {
            AssLine::Blank => AssLineModel::Blank,
            AssLine::SectionMark(m) => AssLineModel::SectionMark(*m),
            AssLine::Comment(c) => AssLineModel::Comment(c.deep_view()),
            AssLine::ScriptInfo(i) => AssLineModel::ScriptInfo(i.deep_view()),
            AssLine::EventFormat(f) => AssLineModel::EventFormat(f.deep_view()),
            AssLine::Event(e) => AssLineModel::Event(e.deep_view()),
            AssLine::Unrecognized(b) => AssLineModel::Unrecognized(b@),
        }
    }
}

impl AssLineModel {
    /// The source bytes of a line: the mark line of a section, nothing for a
    /// blank line, the line itself otherwise.
    pub open spec fn bytes_spec(&self) -> Seq<u8> {
        match self {
            AssLineModel::Blank => seq![],
            AssLineModel::SectionMark(m) => m.bytes_spec(),
            AssLineModel::Comment(c) => c.0,
            AssLineModel::ScriptInfo(i) => i.1,
            AssLineModel::EventFormat(f) => f.0,
            AssLineModel::Event(e) => e.bytes,
            AssLineModel::Unrecognized(b) => *b,
        }
    }
}

impl AssLine {
    /// Returns the source bytes `as is`, correctness is not guaranteed.
    pub fn as_bytes(&self) -> (r: Vec<u8>)
        ensures
            r@ == self.deep_view().bytes_spec(),
    {
        match self {
            AssLine::Blank => Vec::new(),
            AssLine::SectionMark(x) => x.as_bytes(),
            AssLine::Comment(x) => vstd::slice::slice_to_vec(x.as_bytes()),
            AssLine::ScriptInfo(x) => vstd::slice::slice_to_vec(x.as_bytes()),
            AssLine::EventFormat(x) => vstd::slice::slice_to_vec(x.as_bytes()),
            AssLine::Event(x) => vstd::slice::slice_to_vec(x.bytes.as_slice()),
            AssLine::Unrecognized(bytes) => vstd::slice::slice_to_vec(bytes.as_slice()),
        }
    }
}

} // verus!
