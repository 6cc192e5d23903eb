//! Reading WebVTT lines one after another.
use crate::byte_helpers::{
    bytes_eq, skip_ws, starts_with, starts_with_spec, trim, trim_bom, trim_bom_spec, trim_spec,
    trim_start_spec,
};
use crate::ass::it::{ass_find_event, lemma_ass_find_event_progress, RegularAssLines};
use crate::byte_lines::{lemma_next_line_start_bounds, line_at, next_line_start, ByteLines};
use crate::lines::{lemma_seg_end_bounds, seg_end, segment_end, SourceLines, SourceModel};
use crate::lits::{webvtt, webvtt_bytes};
use crate::srt::it::{srt_next, trans_wf as srt_trans_wf, RegularSrtLines, IterState as SrtIterState};
use crate::srt::line::{SrtLineModel, SrtLineType};
use crate::srt::line::parse_time_range;
use crate::time::Time;
use crate::vtt::line::{get_time_range_and_style, VttLine, VttLineModel, VttLineType};
use crate::ass::lines::AssLines;
use crate::srt::it::SrtLines;
use vstd::prelude::*;

verus! {

/// Where a reader is in a WebVTT file.
#[derive(Copy, Clone, Debug, PartialEq, Eq, Structural)]
pub enum BodyState {
    /// Nothing read yet.
    Init,
    /// In the header, where regions and style sheets stand.
    RegionsAndStyles,
    /// Among the cues.
    Cues,
}

/// What the current run of lines is.
#[derive(Copy, Clone, Debug, PartialEq, Eq, Structural)]
pub enum CurrentState {
    Outside,
    InRegion,
    InStyle,
    InComment,
    InCue,
    InMetadata,
    InText,
}

/// The state of producing WebVTT lines from another format.
#[derive(Copy, Clone, Debug, PartialEq, Eq, Structural)]
pub enum TransIterState {
    /// The file mark comes next.
    Init,
    /// Between cues.
    Outside,
    /// The timings of a cue come next.
    TimeRange(Time, Time),
    /// The text line that starts at this index of the buffer comes next.
    Text(usize),
    /// The blank line after a cue comes next.
    Blank,
}

/// `WEBVTT`.
pub open spec fn webvtt_spec() -> Seq<u8> {
    seq![0x57u8, 0x45, 0x42, 0x56, 0x54, 0x54]
}

/// `NOTE`.
pub open spec fn note_spec() -> Seq<u8> {
    seq![0x4Eu8, 0x4F, 0x54, 0x45]
}

/// `REGION`.
pub open spec fn region_spec() -> Seq<u8> {
    seq![0x52u8, 0x45, 0x47, 0x49, 0x4F, 0x4E]
}

/// `STYLE`.
pub open spec fn style_spec() -> Seq<u8> {
    seq![0x53u8, 0x54, 0x59, 0x4C, 0x45]
}

/// Where the text of a `NOTE` line starts: after `NOTE` and the whitespace
/// that follows it.
pub open spec fn note_text_offset(b: Seq<u8>) -> int {
    b.len() - trim_start_spec(b.skip(4)).len()
}

/// What a trimmed line is, and the states after it, once the file mark is
/// behind.
pub open spec fn vtt_classify(body: BodyState, cur: CurrentState, b: Seq<u8>) -> (
    VttLineModel,
    BodyState,
    CurrentState,
) {
    if b.len() == 0 {
        ((b, VttLineType::Blank), body, CurrentState::Outside)
    } else if cur is InComment {
        ((b, VttLineType::Comment(0)), body, cur)
    } else if starts_with_spec(b, note_spec()) {
        ((b, VttLineType::Comment(note_text_offset(b) as usize)), body, CurrentState::InComment)
    } else if body is RegionsAndStyles {
        match cur {
            CurrentState::Outside => if b == region_spec() {
                ((b, VttLineType::RegionMark), body, CurrentState::InRegion)
            } else if b == style_spec() {
                ((b, VttLineType::StyleMark), body, CurrentState::InStyle)
            } else {
                match parse_time_range(b) {
                    Some(r) => (
                        (b, VttLineType::TimeRangeAndStyle(r)),
                        BodyState::Cues,
                        CurrentState::InCue,
                    ),
                    None => ((b, VttLineType::CueId), BodyState::Cues, cur),
                }
            },
            CurrentState::InRegion => ((b, VttLineType::Region), body, cur),
            CurrentState::InStyle => ((b, VttLineType::Style), body, cur),
            _ => ((b, VttLineType::Unrecognized), body, cur),
        }
    } else if cur is InText {
        ((b, VttLineType::Text), body, cur)
    } else if cur is InMetadata {
        ((b, VttLineType::Metadata), body, cur)
    } else if cur is InCue {
        if b[0] == 0x7Bu8 {
            ((b, VttLineType::Metadata), body, CurrentState::InMetadata)
        } else {
            ((b, VttLineType::Text), body, CurrentState::InText)
        }
    } else {
        match parse_time_range(b) {
            Some(r) => ((b, VttLineType::TimeRangeAndStyle(r)), BodyState::Cues, CurrentState::InCue),
            None => ((b, VttLineType::Unrecognized), body, cur),
        }
    }
}

/// What the line `raw` of a WebVTT file is, and the states after it. The
/// first line loses a byte order mark; a first line that starts with
/// `WEBVTT` is the file mark; every line is trimmed of whitespace.
pub open spec fn vtt_step(body: BodyState, cur: CurrentState, raw: Seq<u8>) -> (
    VttLineModel,
    BodyState,
    CurrentState,
) {
    if body is Init {
        let b = trim_spec(trim_bom_spec(raw));
        if starts_with_spec(b, webvtt_spec()) {
            ((b, VttLineType::VttFileMark), BodyState::RegionsAndStyles, cur)
        } else {
            vtt_classify(BodyState::RegionsAndStyles, cur, b)
        }
    } else {
        vtt_classify(body, cur, trim_spec(raw))
    }
}

/// The next line of a reader over `data` at `pos` in the given states, with
/// the position and states after it.
pub open spec fn vtt_next(data: Seq<u8>, pos: int, body: BodyState, cur: CurrentState) -> Option<
    (VttLineModel, int, BodyState, CurrentState),
> {
    if pos < 0 || pos >= data.len() {
        None
    } else {
        let (m, b, c) = vtt_step(body, cur, line_at(data, pos));
        Some((m, next_line_start(data, pos), b, c))
    }
}

/// WebVTT lines read from bytes.
pub struct RegularVttLines {
    pub lines: ByteLines,
    pub body_state: BodyState,
    pub current_state: CurrentState,
}

impl RegularVttLines {
    pub open spec fn wf(&self) -> bool {
        self.lines.wf()
    }

    /// The next line and the reader after it, or `None` at the end.
    pub open spec fn next_spec(&self) -> Option<(VttLineModel, int, BodyState, CurrentState)> {
        vtt_next(self.lines.data(), self.lines.pos(), self.body_state, self.current_state)
    }

    /// A reader at the start of `bytes`.
    pub fn new(bytes: &[u8]) -> (r: RegularVttLines)
        requires
            bytes@.len() < usize::MAX,
        ensures
            r.wf(),
            r.lines.data() == bytes@,
            r.lines.pos() == 0,
            r.body_state == BodyState::Init,
            r.current_state == CurrentState::Outside,
    {
        RegularVttLines {
            lines: ByteLines::from_bytes(bytes),
            body_state: BodyState::Init,
            current_state: CurrentState::Outside,
        }
    }

    /// Reads the next line.
    pub fn next(&mut self) -> (r: Option<VttLine>)
        requires
            old(self).wf(),
        ensures
            final(self).wf(),
            final(self).lines.data() == old(self).lines.data(),
            match old(self).next_spec() {
                None => {
                    &&& r is None
                    &&& final(self).lines.pos() == old(self).lines.pos()
                    &&& final(self).body_state == old(self).body_state
                    &&& final(self).current_state == old(self).current_state
                },
                Some((m, p, b, c)) => {
                    &&& r matches Some(l) && l.deep_view() == m
                    &&& final(self).lines.pos() == p
                    &&& final(self).body_state == b
                    &&& final(self).current_state == c
                },
            },
            r is Some ==> final(self).lines.remaining() < old(self).lines.remaining(),
    {
        let raw = match self.lines.next() {
            Some(l) => l,
            None => return None,
        };
        let (line, body, cur) = next_regular(self.body_state, self.current_state, raw);
        self.body_state = body;
        self.current_state = cur;
        Some(line)
    }
}

/// Classifies one line of a WebVTT file (see [`vtt_step`]).
pub fn next_regular(body_state: BodyState, current_state: CurrentState, raw: &[u8]) -> (r: (
    VttLine,
    BodyState,
    CurrentState,
))
    ensures
        (r.0.deep_view(), r.1, r.2) == vtt_step(body_state, current_state, raw@),
{
    let webvtt = [0x57u8, 0x45, 0x42, 0x56, 0x54, 0x54];
    if let BodyState::Init = body_state {
        let bytes = trim(trim_bom(raw));
        assert(webvtt@ =~= webvtt_spec());
        if starts_with(bytes, &webvtt) {
            return (
                VttLine::new_with_ty(bytes, VttLineType::VttFileMark),
                BodyState::RegionsAndStyles,
                current_state,
            );
        }
        classify(BodyState::RegionsAndStyles, current_state, bytes)
    } else {
        classify(body_state, current_state, trim(raw))
    }
}

fn classify(body: BodyState, cur: CurrentState, bytes: &[u8]) -> (r: (
    VttLine,
    BodyState,
    CurrentState,
))
    ensures
        (r.0.deep_view(), r.1, r.2) == vtt_classify(body, cur, bytes@),
{
    let note = [0x4Eu8, 0x4F, 0x54, 0x45];
    let region = [0x52u8, 0x45, 0x47, 0x49, 0x4F, 0x4E];
    let style = [0x53u8, 0x54, 0x59, 0x4C, 0x45];
    assert(note@ =~= note_spec());
    assert(region@ =~= region_spec());
    assert(style@ =~= style_spec());
    if bytes.len() == 0 {
        return (VttLine::new_with_ty(bytes, VttLineType::Blank), body, CurrentState::Outside);
    }
    if let CurrentState::InComment = cur {
        return (VttLine::new_with_ty(bytes, VttLineType::Comment(0)), body, cur);
    }
    if starts_with(bytes, &note) {
        let off = skip_ws(bytes, 4);
        proof {
            assert(bytes@.skip(4).skip(off - 4) =~= bytes@.skip(off as int));
        }
        return (
            VttLine::new_with_ty(bytes, VttLineType::Comment(off)),
            body,
            CurrentState::InComment,
        );
    }
    if let BodyState::RegionsAndStyles = body {
        return match cur {
            CurrentState::Outside => {
                if bytes_eq(bytes, &region) {
                    (VttLine::new_with_ty(bytes, VttLineType::RegionMark), body, CurrentState::InRegion)
                } else if bytes_eq(bytes, &style) {
                    (VttLine::new_with_ty(bytes, VttLineType::StyleMark), body, CurrentState::InStyle)
                } else {
                    match get_time_range_and_style(bytes) {
                        Some(r) => (
                            VttLine::new_with_ty(bytes, VttLineType::TimeRangeAndStyle(r)),
                            BodyState::Cues,
                            CurrentState::InCue,
                        ),
                        None => (VttLine::new_with_ty(bytes, VttLineType::CueId), BodyState::Cues, cur),
                    }
                }
            },
            CurrentState::InRegion => (VttLine::new_with_ty(bytes, VttLineType::Region), body, cur),
            CurrentState::InStyle => (VttLine::new_with_ty(bytes, VttLineType::Style), body, cur),
            _ => (VttLine::new_with_ty(bytes, VttLineType::Unrecognized), body, cur),
        };
    }
    if let CurrentState::InText = cur {
        return (VttLine::new_with_ty(bytes, VttLineType::Text), body, cur);
    }
    if let CurrentState::InMetadata = cur {
        return (VttLine::new_with_ty(bytes, VttLineType::Metadata), body, cur);
    }
    if let CurrentState::InCue = cur {
        return if bytes[0] == 0x7Bu8 {
            (VttLine::new_with_ty(bytes, VttLineType::Metadata), body, CurrentState::InMetadata)
        } else {
            (VttLine::new_with_ty(bytes, VttLineType::Text), body, CurrentState::InText)
        };
    }
    match get_time_range_and_style(bytes) {
        Some(r) => (
            VttLine::new_with_ty(bytes, VttLineType::TimeRangeAndStyle(r)),
            BodyState::Cues,
            CurrentState::InCue,
        ),
        None => (VttLine::new_with_ty(bytes, VttLineType::Unrecognized), body, cur),
    }
}

/// A conversion state fits its buffer.
pub open spec fn vtt_trans_wf(buf: Seq<u8>, t: TransIterState) -> bool {
    t matches TransIterState::Text(s) ==> s <= buf.len()
}

/// The line that a conversion state gives before more source lines are
/// read, with the state after it: first the file mark and a blank line; then
/// for each cue its timings, its text lines (the text of an event split at
/// its `\N` and `\n` breaks) and a blank line; `None` between cues.
pub open spec fn vtt_trans_step(buf: Seq<u8>, t: TransIterState) -> Option<
    (VttLineModel, TransIterState),
> {
    match t {
        TransIterState::Init => Some(((webvtt(), VttLineType::VttFileMark), TransIterState::Blank)),
        TransIterState::Outside => None,
        TransIterState::TimeRange(s, e) => Some(
            ((seq![], VttLineType::TimeRangeAndStyle((s, e))), TransIterState::Text(0)),
        ),
        TransIterState::Text(start) => if buf.len() == 0 {
            Some(((seq![], VttLineType::Text), TransIterState::Blank))
        } else {
            let e = seg_end(buf, start as int);
            Some(
                (
                    (buf.subrange(start as int, e), VttLineType::Text),
                    if e + 2 < buf.len() {
                        TransIterState::Text((e + 2) as usize)
                    } else {
                        TransIterState::Blank
                    },
                ),
            )
        },
        TransIterState::Blank => Some(((seq![], VttLineType::Blank), TransIterState::Outside)),
    }
}

/// The WebVTT line for a SubRip line: a number is a cue identifier, a time
/// range gives the cue timings, text is text and a blank line is blank; the
/// bytes are trimmed of whitespace.
pub open spec fn vtt_from_srt_line(l: SrtLineModel) -> VttLineModel {
    (
        trim_spec(l.0),
        match l.1 {
            SrtLineType::Blank => VttLineType::Blank,
            SrtLineType::Number => VttLineType::CueId,
            SrtLineType::TimeRange(r) => VttLineType::TimeRangeAndStyle(r),
            SrtLineType::Text => VttLineType::Text,
        },
    )
}

/// WebVTT lines: read from WebVTT bytes, or converted from the events of a
/// SubStation Alpha script or the lines of SubRip subtitles.
pub struct VttLines {
    pub source: SourceLines,
    pub buf: Vec<u8>,
    pub trans_state: TransIterState,
}

/// WebVTT lines as the specifications see them.
pub struct VttLinesModel {
    pub source: SourceModel,
    pub buf: Seq<u8>,
    pub trans: TransIterState,
}

/// The next line and what the iterator becomes: WebVTT bytes are read as
/// they are; a script gives the lines of [`vtt_trans_step`], each event
/// giving a cue; SubRip lines follow the converted file mark and blank line,
/// each mapped by [`vtt_from_srt_line`].
pub open spec fn vtt_lines_next(m: VttLinesModel) -> (Option<VttLineModel>, VttLinesModel) {
    match m.source {
        SourceModel::Vtt(d, p, b, c) => match vtt_next(d, p, b, c) {
            None => (None, m),
            Some((l, p2, b2, c2)) => (
                Some(l),
                VttLinesModel { source: SourceModel::Vtt(d, p2, b2, c2), ..m },
            ),
        },
        SourceModel::Ass(d, p, s) => match vtt_trans_step(m.buf, m.trans) {
            Some((l, t2)) => (Some(l), VttLinesModel { trans: t2, ..m }),
            None => {
                let (ev, p2, s2) = ass_find_event(d, p, s);
                match ev {
                    None => (None, VttLinesModel { source: SourceModel::Ass(d, p2, s2), ..m }),
                    Some(e) => (
                        Some((seq![], VttLineType::TimeRangeAndStyle((e.start, e.end)))),
                        VttLinesModel {
                            source: SourceModel::Ass(d, p2, s2),
                            buf: e.text,
                            trans: TransIterState::Text(0),
                        },
                    ),
                }
            },
        },
        SourceModel::Srt(d, p, s) => match vtt_trans_step(m.buf, m.trans) {
            Some((l, t2)) => (Some(l), VttLinesModel { trans: t2, ..m }),
            None => match srt_next(d, p, s) {
                None => (None, m),
                Some((l, p2, s2)) => (
                    Some(vtt_from_srt_line(l)),
                    VttLinesModel { source: SourceModel::Srt(d, p2, s2), ..m },
                ),
            },
        },
    }
}

/// A measure of the lines that a conversion state gives before more source
/// lines are read.
pub open spec fn vtt_trans_rank(buf: Seq<u8>, t: TransIterState) -> nat {
    match t {
        TransIterState::Outside => 0,
        TransIterState::Blank => 1,
        TransIterState::Text(s) => (2 + buf.len() - s) as nat,
        TransIterState::TimeRange(_, _) => buf.len() + 3,
        TransIterState::Init => buf.len() + 4,
    }
}

impl VttLinesModel {
    /// The reader is within its bytes and the conversion state fits its
    /// buffer.
    pub open spec fn in_bounds(self) -> bool {
        self.source.in_bounds() && vtt_trans_wf(self.buf, self.trans)
    }
}

/// Every line that WebVTT lines give brings them closer to their end: the
/// reader moves forward, or it stays and the conversion state has fewer
/// lines left to give.
pub proof fn lemma_vtt_lines_next_progress(m: VttLinesModel)
    requires
        m.in_bounds(),
        m.buf.len() <= usize::MAX,
    ensures
        ({
            let (l, m2) = vtt_lines_next(m);
            &&& m2.source.remaining() <= m.source.remaining()
            &&& l is Some ==> (m2.source.remaining() < m.source.remaining() || vtt_trans_rank(
                m2.buf,
                m2.trans,
            ) < vtt_trans_rank(m.buf, m.trans))
        }),
{
    if let TransIterState::Text(start) = m.trans {
        lemma_seg_end_bounds(m.buf, start as int);
    }
    match m.source {
        SourceModel::Vtt(d, p, b, c) => {
            if p < d.len() {
                lemma_next_line_start_bounds(d, p);
            }
        },
        SourceModel::Ass(d, p, s) => {
            lemma_ass_find_event_progress(d, p, s);
        },
        SourceModel::Srt(d, p, s) => {
            if p < d.len() {
                lemma_next_line_start_bounds(d, p);
            }
        },
    }
}

/// The deep view of an optional line.
pub open spec fn opt_vtt_model(l: Option<VttLine>) -> Option<VttLineModel> {
    match l {
        Some(x) => Some(x.deep_view()),
        None => None,
    }
}

impl VttLines {
    pub open spec fn wf(&self) -> bool {
        self.source.wf() && vtt_trans_wf(self.buf@, self.trans_state)
    }

    pub open spec fn model(&self) -> VttLinesModel {
        VttLinesModel { source: self.source.model(), buf: self.buf@, trans: self.trans_state }
    }

    /// Lines read from a copy of `bytes`.
    pub fn from_bytes(bytes: &[u8]) -> (r: VttLines)
        requires
            bytes@.len() < usize::MAX,
        ensures
            r.wf(),
            r.model() == (VttLinesModel {
                source: SourceModel::Vtt(bytes@, 0, BodyState::Init, CurrentState::Outside),
                buf: seq![],
                trans: TransIterState::Init,
            }),
    {
        VttLines::with_source(SourceLines::Vtt(RegularVttLines::new(bytes)))
    }

    /// Lines converted from (or read from) the reader `source`.
    pub fn with_source(source: SourceLines) -> (r: VttLines)
        requires
            source.wf(),
        ensures
            r.wf(),
            r.model() == (VttLinesModel {
                source: source.model(),
                buf: seq![],
                trans: TransIterState::Init,
            }),
    {
        VttLines { source, buf: Vec::new(), trans_state: TransIterState::Init }
    }

    /// Reads the next line.
    pub fn next(&mut self) -> (r: Option<VttLine>)
        requires
            old(self).wf(),
        ensures
            final(self).wf(),
            (opt_vtt_model(r), final(self).model()) == vtt_lines_next(old(self).model()),
    {
        match &mut self.source {
            SourceLines::Vtt(l) => l.next(),
            SourceLines::Ass(l) => next_from_ass(l, &mut self.buf, &mut self.trans_state),
            SourceLines::Srt(l) => next_from_srt(l, &mut self.buf, &mut self.trans_state),
        }
    }
}

/// The line that the conversion state gives (see [`vtt_trans_step`]).
fn next_from_trans_state(buf: &Vec<u8>, trans_state: &mut TransIterState) -> (r: Option<VttLine>)
    requires
        vtt_trans_wf(buf@, *old(trans_state)),
    ensures
        vtt_trans_wf(buf@, *final(trans_state)),
        match vtt_trans_step(buf@, *old(trans_state)) {
            None => r is None && *final(trans_state) == *old(trans_state),
            Some((l, t2)) => r matches Some(x) && x.deep_view() == l && *final(trans_state) == t2,
        },
{
    match *trans_state {
        TransIterState::Init => {
            *trans_state = TransIterState::Blank;
            Some(VttLine { raw: webvtt_bytes(), ty: VttLineType::VttFileMark })
        },
        TransIterState::Outside => None,
        TransIterState::TimeRange(start, end) => {
            *trans_state = TransIterState::Text(0);
            Some(VttLine { raw: Vec::new(), ty: VttLineType::TimeRangeAndStyle((start, end)) })
        },
        TransIterState::Text(start) => {
            if buf.len() == 0 {
                *trans_state = TransIterState::Blank;
                return Some(VttLine { raw: Vec::new(), ty: VttLineType::Text });
            }
            let end = segment_end(buf.as_slice(), start);
            *trans_state = if end < buf.len() && buf.len() - end > 2 {
                TransIterState::Text(end + 2)
            } else {
                TransIterState::Blank
            };
            Some(VttLine::new_with_ty(&buf.as_slice()[start..end], VttLineType::Text))
        },
        TransIterState::Blank => {
            *trans_state = TransIterState::Outside;
            Some(VttLine { raw: Vec::new(), ty: VttLineType::Blank })
        },
    }
}

fn next_from_ass(
    lines: &mut RegularAssLines,
    buf: &mut Vec<u8>,
    trans_state: &mut TransIterState,
) -> (r: Option<VttLine>)
    requires
        old(lines).wf(),
        vtt_trans_wf(old(buf)@, *old(trans_state)),
    ensures
        final(lines).wf(),
        vtt_trans_wf(final(buf)@, *final(trans_state)),
        ({
            let m = VttLinesModel {
                source: SourceModel::Ass(old(lines).lines.data(), old(lines).lines.pos(), old(lines).state),
                buf: old(buf)@,
                trans: *old(trans_state),
            };
            let m2 = VttLinesModel {
                source: SourceModel::Ass(final(lines).lines.data(), final(lines).lines.pos(), final(lines).state),
                buf: final(buf)@,
                trans: *final(trans_state),
            };
            (opt_vtt_model(r), m2) == vtt_lines_next(m)
        }),
{
    if let Some(line) = next_from_trans_state(buf, trans_state) {
        return Some(line);
    }
    let event = match lines.find_event() {
        Some(e) => e,
        None => return None,
    };
    *trans_state = TransIterState::TimeRange(event.start, event.end);
    *buf = event.text;
    next_from_trans_state(buf, trans_state)
}

fn next_from_srt(
    lines: &mut RegularSrtLines,
    buf: &mut Vec<u8>,
    trans_state: &mut TransIterState,
) -> (r: Option<VttLine>)
    requires
        old(lines).wf(),
        vtt_trans_wf(old(buf)@, *old(trans_state)),
    ensures
        final(lines).wf(),
        vtt_trans_wf(final(buf)@, *final(trans_state)),
        ({
            let m = VttLinesModel {
                source: SourceModel::Srt(old(lines).lines.data(), old(lines).lines.pos(), old(lines).state),
                buf: old(buf)@,
                trans: *old(trans_state),
            };
            let m2 = VttLinesModel {
                source: SourceModel::Srt(final(lines).lines.data(), final(lines).lines.pos(), final(lines).state),
                buf: final(buf)@,
                trans: *final(trans_state),
            };
            (opt_vtt_model(r), m2) == vtt_lines_next(m)
        }),
{
    if let Some(line) = next_from_trans_state(buf, trans_state) {
        return Some(line);
    }
    match lines.next() {
        None => None,
        Some(l) => {
            let bytes = trim(l.as_bytes());
            let ty = match l.ty {
                SrtLineType::Blank => VttLineType::Blank,
                SrtLineType::Number => VttLineType::CueId,
                SrtLineType::TimeRange(r) => VttLineType::TimeRangeAndStyle(r),
                SrtLineType::Text => VttLineType::Text,
            };
            Some(VttLine::new_with_ty(bytes, ty))
        },
    }
}

impl VttLines {
    /// Lines that are about to read from a reader in state `src`.
    pub open spec fn fresh(src: SourceModel) -> VttLinesModel {
        VttLinesModel { source: src, buf: seq![], trans: TransIterState::Init }
    }

    /// Lines converted from what `lines` reads (its own conversion state is
    /// dropped; a reader of this format is read as it is).
    pub fn from_ass(lines: AssLines) -> (r: VttLines)
        requires
            lines.wf(),
        ensures
            r.wf(),
            r.model() == VttLines::fresh(lines.source.model()),
    {
        VttLines::with_source(lines.source)
    }

    /// Lines converted from what `lines` reads (its own conversion state is
    /// dropped; a reader of this format is read as it is).
    pub fn from_srt(lines: SrtLines) -> (r: VttLines)
        requires
            lines.wf(),
        ensures
            r.wf(),
            r.model() == VttLines::fresh(lines.source.model()),
    {
        VttLines::with_source(lines.source)
    }
}

} // verus!
