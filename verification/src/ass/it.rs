//! Reading SubStation Alpha lines one after another.
use crate::ass::line::comment::{comment_spec, Comment};
use crate::ass::line::event::format::{format_spec, lemma_format_spec_wf, EventFormat, EventFormatPositions};
use crate::ass::line::event::{event_spec, Event};
use crate::ass::line::info::{info_spec, ScriptInfo};
use crate::ass::line::mark::{mark_from_spec, SectionMark};
use crate::ass::line::{AssLine, AssLineModel};
use crate::byte_helpers::{bytes_eq, trim, trim_bom, trim_bom_spec, trim_spec};
use crate::byte_lines::{lemma_next_line_start_bounds, line_at, next_line_start, ByteLines};
use crate::ass::line::event::EventModel;
use crate::lits::{script_info_mark, script_info_mark_bytes};
use crate::time::Time;
use vstd::prelude::*;

verus! {

/// Where a reader is in a SubStation Alpha script.
#[derive(Copy, Clone, Debug, PartialEq, Eq, Structural)]
pub enum IterState {
    /// Nothing read yet.
    Init,
    /// In the `[Script Info]` section.
    ScriptInfo,
    /// After a blank line.
    Blank,
    /// Right after a section mark.
    SectionMark(SectionMark),
    /// Among events of the given format.
    Events(EventFormatPositions),
    /// After a line that was not understood.
    Unrecognized,
}

/// The state of producing SubStation Alpha lines from another format.
#[derive(Copy, Clone, Debug, PartialEq, Eq, Structural)]
pub enum TransIterState {
    /// `[Script Info]` comes next.
    Init,
    /// A line of the script info header comes next.
    Header(TransIterStateHeader),
    /// The blank line after the header comes next.
    Blank,
    /// A part of the events section comes next.
    Events(TransIterStateEvents),
}

/// Which header line comes next.
#[derive(Copy, Clone, Debug, PartialEq, Eq, Structural)]
pub enum TransIterStateHeader {
    ScriptType,
    WrapStyle,
}

/// Which part of the events section comes next.
#[derive(Copy, Clone, Debug, PartialEq, Eq, Structural)]
pub enum TransIterStateEvents {
    /// `[Events]`.
    Mark,
    /// The format line.
    Format,
    /// Events, none of whose times was read yet.
    AfterFormat,
    /// Events; the next one has these times.
    TimeRange(Time, Time),
}

impl IterState {
    /// An events state holds positions that are all before the text.
    pub open spec fn wf(self) -> bool {
        self matches IterState::Events(p) ==> p.wf()
    }
}

/// What a trimmed line is, and the state after it, in state `st` (the first
/// line already handled).
pub open spec fn ass_classify(st: IterState, line: Seq<u8>) -> (AssLineModel, IterState) {
    if line.len() == 0 {
        (AssLineModel::Blank, IterState::Blank)
    } else if comment_spec(line) is Some {
        (AssLineModel::Comment(comment_spec(line).unwrap()), st)
    } else if line[0] == 0x5Bu8 && line.last() == 0x5Du8 {
        match mark_from_spec(line.subrange(1, line.len() - 1)) {
            Some(m) => (AssLineModel::SectionMark(m), IterState::SectionMark(m)),
            None => (AssLineModel::Unrecognized(line), IterState::Unrecognized),
        }
    } else if st is Unrecognized {
        (AssLineModel::Unrecognized(line), st)
    } else if st is ScriptInfo || st == IterState::SectionMark(SectionMark::ScriptInfo) {
        match info_spec(line) {
            Some(i) => (AssLineModel::ScriptInfo(i), IterState::ScriptInfo),
            None => (AssLineModel::Unrecognized(line), IterState::ScriptInfo),
        }
    } else if st == IterState::SectionMark(SectionMark::Events) {
        match format_spec(line) {
            Some(p) => (AssLineModel::EventFormat((line, p)), IterState::Events(p)),
            None => (AssLineModel::Unrecognized(line), IterState::Unrecognized),
        }
    } else {
        match st {
            IterState::Events(p) => match event_spec(line, p) {
                Some(e) => (AssLineModel::Event(e), st),
                None => (AssLineModel::Unrecognized(line), IterState::Unrecognized),
            },
            _ => (AssLineModel::Unrecognized(line), IterState::Unrecognized),
        }
    }
}

/// What the line `raw` of a script is, and the state after it. The first
/// line loses a byte order mark and is `[Script Info]` or is read as if
/// inside that section; every line is trimmed of whitespace.
pub open spec fn ass_step(st: IterState, raw: Seq<u8>) -> (AssLineModel, IterState) {
    if st is Init {
        let line = trim_spec(trim_bom_spec(raw));
        if line == script_info_mark() {
            (AssLineModel::SectionMark(SectionMark::ScriptInfo), IterState::ScriptInfo)
        } else {
            ass_classify(IterState::ScriptInfo, line)
        }
    } else {
        ass_classify(st, trim_spec(raw))
    }
}

pub proof fn lemma_ass_step_wf(st: IterState, raw: Seq<u8>)
    requires
        st.wf(),
    ensures
        ass_step(st, raw).1.wf(),
{
    lemma_format_spec_wf(trim_spec(raw));
    lemma_format_spec_wf(trim_spec(trim_bom_spec(raw)));
}

/// The next line of a reader over `data` at `pos` in state `st`, with the
/// position and state after it.
pub open spec fn ass_next(data: Seq<u8>, pos: int, st: IterState) -> Option<
    (AssLineModel, int, IterState),
> {
    if pos < 0 || pos >= data.len() {
        None
    } else {
        let (m, s) = ass_step(st, line_at(data, pos));
        Some((m, next_line_start(data, pos), s))
    }
}

/// The first event that a reader over `data` at `pos` in state `st` reads,
/// with the position and state after it; `None`, with the end position and
/// state, if no event is left.
pub open spec fn ass_find_event(data: Seq<u8>, pos: int, st: IterState) -> (
    Option<EventModel>,
    int,
    IterState,
)
    decreases data.len() + 1 - pos,
{
    match ass_next(data, pos, st) {
        None => (None, pos, st),
        Some((m, p2, s2)) => {
            proof {
                lemma_next_line_start_bounds(data, pos);
            }
            match m {
                AssLineModel::Event(e) => (Some(e), p2, s2),
                _ => ass_find_event(data, p2, s2),
            }
        },
    }
}

/// Finding an event moves forward, and past at least one line when it
/// finds one.
pub proof fn lemma_ass_find_event_progress(data: Seq<u8>, pos: int, st: IterState)
    requires
        0 <= pos <= data.len() + 1,
    ensures
        ({
            let (e, p2, s2) = ass_find_event(data, pos, st);
            &&& pos <= p2 <= data.len() + 1
            &&& e is Some ==> pos < p2
        }),
    decreases data.len() + 1 - pos,
{
    if pos < data.len() {
        lemma_next_line_start_bounds(data, pos);
        let (m, p2, s2) = ass_next(data, pos, st).unwrap();
        if !(m is Event) {
            lemma_ass_find_event_progress(data, p2, s2);
        }
    }
}

/// SubStation Alpha lines read from bytes.
pub struct RegularAssLines {
    pub lines: ByteLines,
    pub state: IterState,
}

impl RegularAssLines {
    pub open spec fn wf(&self) -> bool {
        self.lines.wf() && self.state.wf()
    }

    /// The next line and the reader after it, or `None` at the end.
    pub open spec fn next_spec(&self) -> Option<(AssLineModel, int, IterState)> {
        ass_next(self.lines.data(), self.lines.pos(), self.state)
    }

    /// A reader at the start of `bytes`.
    pub fn new(bytes: &[u8]) -> (r: RegularAssLines)
        requires
            bytes@.len() < usize::MAX,
        ensures
            r.wf(),
            r.lines.data() == bytes@,
            r.lines.pos() == 0,
            r.state == IterState::Init,
    {
        RegularAssLines { lines: ByteLines::from_bytes(bytes), state: IterState::Init }
    }

    /// Reads the next line.
    pub fn next(&mut self) -> (r: Option<AssLine>)
        requires
            old(self).wf(),
        ensures
            final(self).wf(),
            final(self).lines.data() == old(self).lines.data(),
            match old(self).next_spec() {
                None => {
                    &&& r is None
                    &&& final(self).lines.pos() == old(self).lines.pos()
                    &&& final(self).state == old(self).state
                },
                Some((m, p, s)) => {
                    &&& r matches Some(l) && l.deep_view() == m
                    &&& final(self).lines.pos() == p
                    &&& final(self).state == s
                },
            },
            r is Some ==> final(self).lines.remaining() < old(self).lines.remaining(),
    {
        let raw = match self.lines.next() {
            Some(l) => l,
            None => return None,
        };
        proof {
            lemma_ass_step_wf(self.state, raw@);
        }
        let (line, state) = next_regular(self.state, raw);
        self.state = state;
        Some(line)
    }
}

impl RegularAssLines {
    /// Reads lines up to and including the next event, and returns it.
    pub fn find_event(&mut self) -> (r: Option<Event>)
        requires
            old(self).wf(),
        ensures
            final(self).wf(),
            final(self).lines.data() == old(self).lines.data(),
            ({
                let (e, p, s) = ass_find_event(
                    old(self).lines.data(),
                    old(self).lines.pos(),
                    old(self).state,
                );
                &&& final(self).lines.pos() == p
                &&& final(self).state == s
                &&& match r {
                    Some(ev) => e == Some(ev.deep_view()),
                    None => e is None,
                }
            }),
    {
        let ghost data = self.lines.data();
        loop
            invariant
                self.wf(),
                self.lines.data() == data,
                data == old(self).lines.data(),
                ass_find_event(data, old(self).lines.pos(), old(self).state) == ass_find_event(
                    data,
                    self.lines.pos(),
                    self.state,
                ),
            decreases self.lines.remaining(),
        {
            match self.next() {
                None => return None,
                Some(AssLine::Event(e)) => return Some(e),
                Some(_) => {},
            }
        }
    }
}

/// Classifies one line of a script (see [`ass_step`]).
pub fn next_regular(state: IterState, raw: &[u8]) -> (r: (AssLine, IterState))
    requires
        state.wf(),
    ensures
        (r.0.deep_view(), r.1) == ass_step(state, raw@),
{
    if let IterState::Init = state {
        let line = trim(trim_bom(raw));
        if bytes_eq(line, script_info_mark_bytes().as_slice()) {
            return (AssLine::SectionMark(SectionMark::ScriptInfo), IterState::ScriptInfo);
        }
        classify(IterState::ScriptInfo, line)
    } else {
        classify(state, trim(raw))
    }
}

fn classify(state: IterState, line: &[u8]) -> (r: (AssLine, IterState))
    requires
        state.wf(),
    ensures
        (r.0.deep_view(), r.1) == ass_classify(state, line@),
{
    let n = line.len();
    if n == 0 {
        return (AssLine::Blank, IterState::Blank);
    }
    if let Some(comment) = Comment::get_new(line) {
        return (AssLine::Comment(comment), state);
    }
    if line[0] == 0x5Bu8 && line[n - 1] == 0x5Du8 {
        return match SectionMark::get_from_bytes(&line[1..n - 1]) {
            Some(mark) => (AssLine::SectionMark(mark), IterState::SectionMark(mark)),
            None => (
                AssLine::Unrecognized(vstd::slice::slice_to_vec(line)),
                IterState::Unrecognized,
            ),
        };
    }
    match state {
        IterState::Unrecognized => {
            return (AssLine::Unrecognized(vstd::slice::slice_to_vec(line)), state);
        },
        IterState::ScriptInfo | IterState::SectionMark(SectionMark::ScriptInfo) => {
            return match ScriptInfo::get_new(line) {
                Some(info) => (AssLine::ScriptInfo(info), IterState::ScriptInfo),
                None => (
                    AssLine::Unrecognized(vstd::slice::slice_to_vec(line)),
                    IterState::ScriptInfo,
                ),
            };
        },
        IterState::SectionMark(SectionMark::Events) => {
            return match EventFormat::get_new(line) {
                Some(format) => {
                    let p = format.positions;
                    (AssLine::EventFormat(format), IterState::Events(p))
                },
                None => (
                    AssLine::Unrecognized(vstd::slice::slice_to_vec(line)),
                    IterState::Unrecognized,
                ),
            };
        },
        IterState::Events(p) => {
            return match Event::get_new(line, p) {
                Some(event) => (AssLine::Event(event), state),
                None => (
                    AssLine::Unrecognized(vstd::slice::slice_to_vec(line)),
                    IterState::Unrecognized,
                ),
            };
        },
        _ => {},
    }
    (AssLine::Unrecognized(vstd::slice::slice_to_vec(line)), IterState::Unrecognized)
}

} // verus!
