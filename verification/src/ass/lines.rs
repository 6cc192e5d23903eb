//! SubStation Alpha lines read from a script, or made from the blocks of
//! SubRip subtitles or the cues of a WebVTT file.
use crate::ass::it::{ass_next, RegularAssLines, TransIterState, TransIterStateEvents, TransIterStateHeader};
use crate::ass::line::event::{default_event, EventModel};
use crate::ass::line::event::format::default_positions;
use crate::ass::line::info::{ScriptInfoKind, ScriptType, WrapStyle};
use crate::ass::line::{AssLine, AssLineModel, Event, EventFormat, ScriptInfo, SectionMark};
use crate::byte_helpers::{push_all, trim, trim_spec};
use crate::byte_lines::lemma_next_line_start_bounds;
use crate::lines::{SourceLines, SourceModel};
use crate::lits::{format_line, script_type_line, script_type_line_bytes, wrap_style_line, wrap_style_line_bytes};
use crate::srt::it::{srt_next, IterState as SrtIterState, RegularSrtLines};
use crate::srt::line::SrtLineType;
use crate::time::Time;
use crate::vtt::it::{vtt_next, BodyState, CurrentState, RegularVttLines};
use crate::vtt::line::VttLineType;
use crate::srt::it::SrtLines;
use crate::vtt::it::VttLines;
use vstd::prelude::*;

verus! {

/// The time zero.
pub open spec fn zero_time() -> Time {
    Time { hours: 0, mins: 0, secs: 0, millis: 0 }
}

/// `\n`, the line break of event text.
pub open spec fn text_break() -> Seq<u8> {
    seq![0x5Cu8, 0x6Eu8]
}

/// `buf` with one more line of text: after a line break if some text was
/// already gathered.
pub open spec fn add_text_line(buf: Seq<u8>, has_text: bool, line: Seq<u8>) -> Seq<u8> {
    if has_text {
        buf + text_break() + line
    } else {
        buf + line
    }
}

/// The outcome of gathering an event: its start, end and text if one was
/// gathered; the time range that was read after it, if gathering stopped
/// there.
pub type Gathered = (Option<(Time, Time, Seq<u8>)>, Option<(Time, Time)>);

/// What a blank, a time range or a text line does to an event being
/// gathered (`times`; `timed`: whether they were read; `has_text`, `buf`:
/// the text so far). `Ok` carries the gathering on; `Err` ends it.
pub open spec fn gather_step(
    kind: GatherLine,
    times: (Time, Time),
    timed: bool,
    has_text: bool,
    buf: Seq<u8>,
) -> Result<((Time, Time), bool, bool, Seq<u8>), Gathered> {
    match kind {
        GatherLine::Blank => if has_text {
            Err((Some((times.0, times.1, buf)), None))
        } else if timed {
            Ok(((zero_time(), zero_time()), false, false, buf))
        } else {
            Ok((times, timed, has_text, buf))
        },
        GatherLine::TimeRange(r) => if has_text {
            Err((Some((times.0, times.1, buf)), Some(r)))
        } else {
            Ok((r, true, false, buf))
        },
        GatherLine::Text(t) => if timed {
            Ok((times, timed, true, add_text_line(buf, has_text, t)))
        } else {
            Ok((times, timed, has_text, buf))
        },
        GatherLine::Other => Ok((times, timed, has_text, buf)),
    }
}

/// A source line as the gathering of an event sees it.
pub enum GatherLine {
    Blank,
    TimeRange((Time, Time)),
    Text(Seq<u8>),
    Other,
}

/// How the gathering sees a SubRip line: its text trimmed.
pub open spec fn srt_gather_line(l: (Seq<u8>, SrtLineType)) -> GatherLine {
    match l.1 {
        SrtLineType::Blank => GatherLine::Blank,
        SrtLineType::TimeRange(r) => GatherLine::TimeRange(r),
        SrtLineType::Text => GatherLine::Text(trim_spec(l.0)),
        SrtLineType::Number => GatherLine::Other,
    }
}

/// How the gathering sees a WebVTT line.
pub open spec fn vtt_gather_line(l: (Seq<u8>, VttLineType)) -> GatherLine {
    match l.1 {
        VttLineType::Blank => GatherLine::Blank,
        VttLineType::TimeRangeAndStyle(r) => GatherLine::TimeRange(r),
        VttLineType::Text => GatherLine::Text(l.0),
        _ => GatherLine::Other,
    }
}

/// Reads SubRip lines over `data` from `pos` in state `st` to gather the
/// next event (see [`gather_step`]); at the end, the text gathered so far
/// makes the event. Also gives the position and state after it.
pub open spec fn srt_gather(
    data: Seq<u8>,
    pos: int,
    st: SrtIterState,
    times: (Time, Time),
    timed: bool,
    has_text: bool,
    buf: Seq<u8>,
) -> (Gathered, int, SrtIterState)
    decreases data.len() + 1 - pos,
{
    match srt_next(data, pos, st) {
        None => (
            (if has_text {
                Some((times.0, times.1, buf))
            } else {
                None
            }, None),
            pos,
            st,
        ),
        Some((l, p2, s2)) => {
            proof {
                lemma_next_line_start_bounds(data, pos);
            }
            match gather_step(srt_gather_line(l), times, timed, has_text, buf) {
                Err(g) => (g, p2, s2),
                Ok((t2, tm2, h2, b2)) => srt_gather(data, p2, s2, t2, tm2, h2, b2),
            }
        },
    }
}

/// Reads WebVTT lines to gather the next event, as [`srt_gather`] does.
pub open spec fn vtt_gather(
    data: Seq<u8>,
    pos: int,
    b: BodyState,
    c: CurrentState,
    times: (Time, Time),
    timed: bool,
    has_text: bool,
    buf: Seq<u8>,
) -> (Gathered, int, BodyState, CurrentState)
    decreases data.len() + 1 - pos,
{
    match vtt_next(data, pos, b, c) {
        None => (
            (if has_text {
                Some((times.0, times.1, buf))
            } else {
                None
            }, None),
            pos,
            b,
            c,
        ),
        Some((l, p2, b2, c2)) => {
            proof {
                lemma_next_line_start_bounds(data, pos);
            }
            match gather_step(vtt_gather_line(l), times, timed, has_text, buf) {
                Err(g) => (g, p2, b2, c2),
                Ok((t2, tm2, h2, b3)) => vtt_gather(data, p2, b2, c2, t2, tm2, h2, b3),
            }
        },
    }
}

/// Gathering an event moves forward; where it reads no line it gathers no
/// more than it was given.
pub proof fn lemma_srt_gather_progress(
    data: Seq<u8>,
    pos: int,
    st: SrtIterState,
    times: (Time, Time),
    timed: bool,
    has_text: bool,
    buf: Seq<u8>,
)
    requires
        0 <= pos <= data.len() + 1,
    ensures
        ({
            let (g, p2, s2) = srt_gather(data, pos, st, times, timed, has_text, buf);
            &&& pos <= p2 <= data.len() + 1
            &&& p2 == pos && !has_text ==> g.0 is None
        }),
    decreases data.len() + 1 - pos,
{
    if pos < data.len() {
        lemma_next_line_start_bounds(data, pos);
        let (l, p2, s2) = srt_next(data, pos, st).unwrap();
        match gather_step(srt_gather_line(l), times, timed, has_text, buf) {
            Err(_) => {},
            Ok((t2, tm2, h2, b2)) => lemma_srt_gather_progress(data, p2, s2, t2, tm2, h2, b2),
        }
    }
}

/// Gathering an event from WebVTT lines moves forward, as
/// [`lemma_srt_gather_progress`] says of SubRip lines.
pub proof fn lemma_vtt_gather_progress(
    data: Seq<u8>,
    pos: int,
    b: BodyState,
    c: CurrentState,
    times: (Time, Time),
    timed: bool,
    has_text: bool,
    buf: Seq<u8>,
)
    requires
        0 <= pos <= data.len() + 1,
    ensures
        ({
            let (g, p2, b2, c2) = vtt_gather(data, pos, b, c, times, timed, has_text, buf);
            &&& pos <= p2 <= data.len() + 1
            &&& p2 == pos && !has_text ==> g.0 is None
        }),
    decreases data.len() + 1 - pos,
{
    if pos < data.len() {
        lemma_next_line_start_bounds(data, pos);
        let (l, p2, b2, c2) = vtt_next(data, pos, b, c).unwrap();
        match gather_step(vtt_gather_line(l), times, timed, has_text, buf) {
            Err(_) => {},
            Ok((t2, tm2, h2, b3)) => lemma_vtt_gather_progress(data, p2, b2, c2, t2, tm2, h2, b3),
        }
    }
}

/// The header line that a conversion state gives, with the state after it:
/// `[Script Info]`, the script type, the wrap style, a blank line,
/// `[Events]` and the default format line; `None` once events come.
pub open spec fn ass_header_step(t: TransIterState) -> Option<(AssLineModel, TransIterState)> {
    match t {
        TransIterState::Init => Some(
            (
                AssLineModel::SectionMark(SectionMark::ScriptInfo),
                TransIterState::Header(TransIterStateHeader::ScriptType),
            ),
        ),
        TransIterState::Header(TransIterStateHeader::ScriptType) => Some(
            (
                AssLineModel::ScriptInfo((ScriptInfoKind::ScriptType, script_type_line())),
                TransIterState::Header(TransIterStateHeader::WrapStyle),
            ),
        ),
        TransIterState::Header(TransIterStateHeader::WrapStyle) => Some(
            (
                AssLineModel::ScriptInfo((ScriptInfoKind::WrapStyle, wrap_style_line())),
                TransIterState::Blank,
            ),
        ),
        TransIterState::Blank => Some(
            (AssLineModel::Blank, TransIterState::Events(TransIterStateEvents::Mark)),
        ),
        TransIterState::Events(TransIterStateEvents::Mark) => Some(
            (
                AssLineModel::SectionMark(SectionMark::Events),
                TransIterState::Events(TransIterStateEvents::Format),
            ),
        ),
        TransIterState::Events(TransIterStateEvents::Format) => Some(
            (
                AssLineModel::EventFormat((format_line(), default_positions())),
                TransIterState::Events(TransIterStateEvents::AfterFormat),
            ),
        ),
        _ => None,
    }
}

/// The times an event starts from: those of the time range read last, or
/// zero (and not yet read) right after the format line.
pub open spec fn gather_start(t: TransIterState) -> ((Time, Time), bool) {
    match t {
        TransIterState::Events(TransIterStateEvents::TimeRange(s, e)) => ((s, e), true),
        _ => ((zero_time(), zero_time()), false),
    }
}

/// The default event with these times and text.
pub open spec fn gathered_event(s: Time, e: Time, text: Seq<u8>) -> EventModel {
    EventModel { start: s, end: e, text: text, ..default_event() }
}

/// The line and conversion state after a gathering: the event, if one was
/// gathered; the state moves to a time range read after it.
pub open spec fn after_gather(g: Gathered, t: TransIterState) -> (Option<AssLineModel>, TransIterState) {
    match g.0 {
        None => (None, t),
        Some((s, e, text)) => (
            Some(AssLineModel::Event(gathered_event(s, e, text))),
            match g.1 {
                Some(r) => TransIterState::Events(TransIterStateEvents::TimeRange(r.0, r.1)),
                None => t,
            },
        ),
    }
}

/// SubStation Alpha lines as the specifications see them.
pub struct AssLinesModel {
    pub source: SourceModel,
    pub trans: TransIterState,
}

/// The next line and what the iterator becomes: a script is read as it is;
/// from another format come the header lines (see [`ass_header_step`]) and
/// then one event per gathered subtitle (see [`srt_gather`],
/// [`vtt_gather`]).
pub open spec fn ass_lines_next(m: AssLinesModel) -> (Option<AssLineModel>, AssLinesModel) {
    match m.source {
        SourceModel::Ass(d, p, s) => match ass_next(d, p, s) {
            None => (None, m),
            Some((l, p2, s2)) => (Some(l), AssLinesModel { source: SourceModel::Ass(d, p2, s2), ..m }),
        },
        SourceModel::Srt(d, p, s) => match ass_header_step(m.trans) {
            Some((l, t2)) => (Some(l), AssLinesModel { trans: t2, ..m }),
            None => {
                let (tm, timed) = gather_start(m.trans);
                let (g, p2, s2) = srt_gather(d, p, s, tm, timed, false, seq![]);
                let (l, t2) = after_gather(g, m.trans);
                (l, AssLinesModel { source: SourceModel::Srt(d, p2, s2), trans: t2 })
            },
        },
        SourceModel::Vtt(d, p, b, c) => match ass_header_step(m.trans) {
            Some((l, t2)) => (Some(l), AssLinesModel { trans: t2, ..m }),
            None => {
                let (tm, timed) = gather_start(m.trans);
                let (g, p2, b2, c2) = vtt_gather(d, p, b, c, tm, timed, false, seq![]);
                let (l, t2) = after_gather(g, m.trans);
                (l, AssLinesModel { source: SourceModel::Vtt(d, p2, b2, c2), trans: t2 })
            },
        },
    }
}

/// A measure of the header lines that a conversion state still gives.
pub open spec fn ass_trans_rank(t: TransIterState) -> nat {
    match t {
        TransIterState::Init => 6,
        TransIterState::Header(TransIterStateHeader::ScriptType) => 5,
        TransIterState::Header(TransIterStateHeader::WrapStyle) => 4,
        TransIterState::Blank => 3,
        TransIterState::Events(TransIterStateEvents::Mark) => 2,
        TransIterState::Events(TransIterStateEvents::Format) => 1,
        TransIterState::Events(_) => 0,
    }
}

/// Every line that SubStation Alpha lines give brings them closer to their
/// end: the reader moves forward, or it stays and fewer header lines are
/// left.
pub proof fn lemma_ass_lines_next_progress(m: AssLinesModel)
    requires
        m.source.in_bounds(),
    ensures
        ({
            let (l, m2) = ass_lines_next(m);
            &&& m2.source.remaining() <= m.source.remaining()
            &&& l is Some ==> (m2.source.remaining() < m.source.remaining() || ass_trans_rank(
                m2.trans,
            ) < ass_trans_rank(m.trans))
        }),
{
    let (tm, timed) = gather_start(m.trans);
    match m.source {
        SourceModel::Ass(d, p, s) => {
            if p < d.len() {
                lemma_next_line_start_bounds(d, p);
            }
        },
        SourceModel::Srt(d, p, s) => {
            lemma_srt_gather_progress(d, p, s, tm, timed, false, seq![]);
        },
        SourceModel::Vtt(d, p, b, c) => {
            lemma_vtt_gather_progress(d, p, b, c, tm, timed, false, seq![]);
        },
    }
}

/// The deep view of an optional line.
pub open spec fn opt_ass_model(l: Option<AssLine>) -> Option<AssLineModel> {
    match l {
        Some(x) => Some(x.deep_view()),
        None => None,
    }
}

/// What a gathering returned, as the specifications see it.
pub open spec fn gathered_view(r: (Option<(Time, Time, Vec<u8>)>, Option<(Time, Time)>)) -> Gathered {
    (
        match r.0 {
            Some(x) => Some((x.0, x.1, x.2@)),
            None => None,
        },
        r.1,
    )
}

/// SubStation Alpha lines: read from a script, or converted from the blocks
/// of SubRip subtitles or the cues of a WebVTT file.
pub struct AssLines {
    pub source: SourceLines,
    pub trans_state: TransIterState,
}

impl AssLines {
    pub open spec fn wf(&self) -> bool {
        self.source.wf()
    }

    pub open spec fn model(&self) -> AssLinesModel {
        AssLinesModel { source: self.source.model(), trans: self.trans_state }
    }

    /// Lines read from a copy of `bytes`.
    pub fn from_bytes(bytes: &[u8]) -> (r: AssLines)
        requires
            bytes@.len() < usize::MAX,
        ensures
            r.wf(),
            r.model() == (AssLinesModel {
                source: SourceModel::Ass(bytes@, 0, crate::ass::it::IterState::Init),
                trans: TransIterState::Init,
            }),
    {
        AssLines::with_source(SourceLines::Ass(RegularAssLines::new(bytes)))
    }

    /// Lines converted from (or read from) the reader `source`.
    pub fn with_source(source: SourceLines) -> (r: AssLines)
        requires
            source.wf(),
        ensures
            r.wf(),
            r.model() == (AssLinesModel { source: source.model(), trans: TransIterState::Init }),
    {
        AssLines { source, trans_state: TransIterState::Init }
    }

    /// Reads the next line.
    pub fn next(&mut self) -> (r: Option<AssLine>)
        requires
            old(self).wf(),
        ensures
            final(self).wf(),
            (opt_ass_model(r), final(self).model()) == ass_lines_next(old(self).model()),
    {
        match &mut self.source {
            SourceLines::Ass(l) => l.next(),
            SourceLines::Srt(l) => next_from_srt(l, &mut self.trans_state),
            SourceLines::Vtt(l) => next_from_vtt(l, &mut self.trans_state),
        }
    }
}

/// The next line made from SubRip lines: a header line, or an event.
fn next_from_srt(lines: &mut RegularSrtLines, trans_state: &mut TransIterState) -> (r: Option<AssLine>)
    requires
        old(lines).wf(),
    ensures
        final(lines).wf(),
        ({
            let m = AssLinesModel {
                source: SourceModel::Srt(old(lines).lines.data(), old(lines).lines.pos(), old(lines).state),
                trans: *old(trans_state),
            };
            let m2 = AssLinesModel {
                source: SourceModel::Srt(final(lines).lines.data(), final(lines).lines.pos(), final(lines).state),
                trans: *final(trans_state),
            };
            (opt_ass_model(r), m2) == ass_lines_next(m)
        }),
{
    if let Some(line) = next_header(trans_state) {
        return Some(line);
    }
    let (times, timed) = start_of_gathering(*trans_state);
    let g = next_from_srt_event(lines, times, timed);
    finish_gathering(g, trans_state)
}

/// The next line made from WebVTT lines: a header line, or an event.
fn next_from_vtt(lines: &mut RegularVttLines, trans_state: &mut TransIterState) -> (r: Option<AssLine>)
    requires
        old(lines).wf(),
    ensures
        final(lines).wf(),
        ({
            let m = AssLinesModel {
                source: SourceModel::Vtt(
                    old(lines).lines.data(),
                    old(lines).lines.pos(),
                    old(lines).body_state,
                    old(lines).current_state,
                ),
                trans: *old(trans_state),
            };
            let m2 = AssLinesModel {
                source: SourceModel::Vtt(
                    final(lines).lines.data(),
                    final(lines).lines.pos(),
                    final(lines).body_state,
                    final(lines).current_state,
                ),
                trans: *final(trans_state),
            };
            (opt_ass_model(r), m2) == ass_lines_next(m)
        }),
{
    if let Some(line) = next_header(trans_state) {
        return Some(line);
    }
    let (times, timed) = start_of_gathering(*trans_state);
    let g = next_from_vtt_event(lines, times, timed);
    finish_gathering(g, trans_state)
}

/// The header line the conversion state gives (see [`ass_header_step`]).
fn next_header(t: &mut TransIterState) -> (r: Option<AssLine>)
    ensures
        match ass_header_step(*old(t)) {
            None => r is None && *final(t) == *old(t),
            Some((l, t2)) => r matches Some(x) && x.deep_view() == l && *final(t) == t2,
        },
{
    match *t {
        TransIterState::Init => {
            *t = TransIterState::Header(TransIterStateHeader::ScriptType);
            Some(AssLine::SectionMark(SectionMark::ScriptInfo))
        },
        TransIterState::Header(TransIterStateHeader::ScriptType) => {
            *t = TransIterState::Header(TransIterStateHeader::WrapStyle);
            Some(AssLine::ScriptInfo(ScriptInfo::ScriptType(ScriptType { bytes: script_type_line_bytes() })))
        },
        TransIterState::Header(TransIterStateHeader::WrapStyle) => {
            *t = TransIterState::Blank;
            Some(AssLine::ScriptInfo(ScriptInfo::WrapStyle(WrapStyle { bytes: wrap_style_line_bytes() })))
        },
        TransIterState::Blank => {
            *t = TransIterState::Events(TransIterStateEvents::Mark);
            Some(AssLine::Blank)
        },
        TransIterState::Events(TransIterStateEvents::Mark) => {
            *t = TransIterState::Events(TransIterStateEvents::Format);
            Some(AssLine::SectionMark(SectionMark::Events))
        },
        TransIterState::Events(TransIterStateEvents::Format) => {
            *t = TransIterState::Events(TransIterStateEvents::AfterFormat);
            Some(AssLine::EventFormat(EventFormat::new()))
        },
        _ => None,
    }
}

/// Where gathering starts (see [`gather_start`]).
fn start_of_gathering(t: TransIterState) -> (r: ((Time, Time), bool))
    ensures
        r == gather_start(t),
{
    match t {
        TransIterState::Events(TransIterStateEvents::TimeRange(s, e)) => ((s, e), true),
        _ => ((Time::zero(), Time::zero()), false),
    }
}

/// The event of a gathering, and the state after it (see [`after_gather`]).
fn finish_gathering(
    g: (Option<(Time, Time, Vec<u8>)>, Option<(Time, Time)>),
    t: &mut TransIterState,
) -> (r: Option<AssLine>)
    ensures
        (opt_ass_model(r), *final(t)) == after_gather(gathered_view(g), *old(t)),
{
    let (ev, next) = g;
    match ev {
        None => None,
        Some((start, end, text)) => {
            if let Some((s, e)) = next {
                *t = TransIterState::Events(TransIterStateEvents::TimeRange(s, e));
            }
            let mut event = Event::new();
            event.start = start;
            event.end = end;
            event.text = text;
            Some(AssLine::Event(event))
        },
    }
}


/// Reads SubRip lines to gather the next event (see [`srt_gather`]).
fn next_from_srt_event(lines: &mut RegularSrtLines, start: (Time, Time), timed0: bool) -> (r: (
    Option<(Time, Time, Vec<u8>)>,
    Option<(Time, Time)>,
))
    requires
        old(lines).wf(),
    ensures
        final(lines).wf(),
        final(lines).lines.data() == old(lines).lines.data(),
        ({
            let res = srt_gather(old(lines).lines.data(), old(lines).lines.pos(), old(lines).state, start, timed0, false, seq![]);
            &&& gathered_view(r) == res.0
            &&& final(lines).lines.pos() == res.1 && final(lines).state == res.2
        }),
{
    let mut times = start;
    let mut timed = timed0;
    let mut has_text = false;
    let mut buf: Vec<u8> = Vec::new();
    loop
        invariant
            lines.wf(),
            lines.lines.data() == old(lines).lines.data(),
            srt_gather(old(lines).lines.data(), old(lines).lines.pos(), old(lines).state, start, timed0, false, seq![]) == srt_gather(lines.lines.data(), lines.lines.pos(), lines.state, times, timed, has_text, buf@),
        decreases lines.lines.remaining(),
    {
        let ghost buf0 = buf@;
        let l = match lines.next() {
            Some(l) => l,
            None => {
                if has_text {
                    return (Some((times.0, times.1, buf)), None);
                }
                return (None, None);
            },
        };
        match l.ty {
            SrtLineType::Blank => {
                if has_text {
                    return (Some((times.0, times.1, buf)), None);
                } else if timed {
                    times = (Time::zero(), Time::zero());
                    timed = false;
                }
            },
            SrtLineType::TimeRange(r) => {
                if has_text {
                    return (Some((times.0, times.1, buf)), Some(r));
                }
                times = r;
                timed = true;
            },
            SrtLineType::Text => {
                if timed {
                    if has_text {
                        buf.push(0x5Cu8);
                        buf.push(0x6Eu8);
                    }
                    push_all(&mut buf, trim(l.raw.as_slice()));
                    assert(buf@ =~= add_text_line(buf0, has_text, trim_spec(l.raw@)));
                    has_text = true;
                }
            },
            SrtLineType::Number => {},
        }
    }
}

/// Reads WebVTT lines to gather the next event (see [`vtt_gather`]).
fn next_from_vtt_event(lines: &mut RegularVttLines, start: (Time, Time), timed0: bool) -> (r: (
    Option<(Time, Time, Vec<u8>)>,
    Option<(Time, Time)>,
))
    requires
        old(lines).wf(),
    ensures
        final(lines).wf(),
        final(lines).lines.data() == old(lines).lines.data(),
        ({
            let res = vtt_gather(old(lines).lines.data(), old(lines).lines.pos(), old(lines).body_state, old(lines).current_state, start, timed0, false, seq![]);
            &&& gathered_view(r) == res.0
            &&& final(lines).lines.pos() == res.1 && final(lines).body_state == res.2 && final(lines).current_state == res.3
        }),
{
    let mut times = start;
    let mut timed = timed0;
    let mut has_text = false;
    let mut buf: Vec<u8> = Vec::new();
    loop
        invariant
            lines.wf(),
            lines.lines.data() == old(lines).lines.data(),
            vtt_gather(old(lines).lines.data(), old(lines).lines.pos(), old(lines).body_state, old(lines).current_state, start, timed0, false, seq![]) == vtt_gather(lines.lines.data(), lines.lines.pos(), lines.body_state, lines.current_state, times, timed, has_text, buf@),
        decreases lines.lines.remaining(),
    {
        let ghost buf0 = buf@;
        let l = match lines.next() {
            Some(l) => l,
            None => {
                if has_text {
                    return (Some((times.0, times.1, buf)), None);
                }
                return (None, None);
            },
        };
        match l.ty {
            VttLineType::Blank => {
                if has_text {
                    return (Some((times.0, times.1, buf)), None);
                } else if timed {
                    times = (Time::zero(), Time::zero());
                    timed = false;
                }
            },
            VttLineType::TimeRangeAndStyle(r) => {
                if has_text {
                    return (Some((times.0, times.1, buf)), Some(r));
                }
                times = r;
                timed = true;
            },
            VttLineType::Text => {
                if timed {
                    if has_text {
                        buf.push(0x5Cu8);
                        buf.push(0x6Eu8);
                    }
                    push_all(&mut buf, l.raw.as_slice());
                    assert(buf@ =~= add_text_line(buf0, has_text, l.raw@));
                    has_text = true;
                }
            },
            _ => {},
        }
    }
}

impl AssLines {
    /// Lines that are about to read from a reader in state `src`.
    pub open spec fn fresh(src: SourceModel) -> AssLinesModel {
        AssLinesModel { source: src, trans: TransIterState::Init }
    }

    /// Lines converted from what `lines` reads (its own conversion state is
    /// dropped; a reader of this format is read as it is).
    pub fn from_srt(lines: SrtLines) -> (r: AssLines)
        requires
            lines.wf(),
        ensures
            r.wf(),
            r.model() == AssLines::fresh(lines.source.model()),
    {
        AssLines::with_source(lines.source)
    }

    /// Lines converted from what `lines` reads (its own conversion state is
    /// dropped; a reader of this format is read as it is).
    pub fn from_vtt(lines: VttLines) -> (r: AssLines)
        requires
            lines.wf(),
        ensures
            r.wf(),
            r.model() == AssLines::fresh(lines.source.model()),
    {
        AssLines::with_source(lines.source)
    }
}

} // verus!
