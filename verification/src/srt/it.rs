//! Reading SubRip lines one after another.
use crate::ass::it::{ass_find_event, lemma_ass_find_event_progress, RegularAssLines};
use crate::byte_helpers::{push_all, trim_bom, trim_bom_spec, words_spec};
use crate::byte_lines::{lemma_next_line_start_bounds, line_at, next_line_start, ByteLines};
use crate::lines::{lemma_seg_end_bounds, seg_end, segment_end, SourceLines, SourceModel};
use crate::srt::line::{srt_line_type, SrtLine, SrtLineModel, SrtLineType};
use crate::time::Time;
use crate::vtt::it::{vtt_next, BodyState, CurrentState, RegularVttLines};
use crate::vtt::line::{VttLine, VttLineType};
use crate::ass::lines::AssLines;
use crate::vtt::it::VttLines;
use vstd::prelude::*;

verus! {

/// Where a reader is in a SubRip file.
#[derive(Copy, Clone, Debug, PartialEq, Eq, Structural)]
pub enum IterState {
    /// Nothing read yet.
    Init,
    /// Between blocks.
    Outside,
    /// After the time range of a block.
    InBlock,
}

/// The state of producing SubRip lines from another format.
#[derive(Copy, Clone, Debug, PartialEq, Eq, Structural)]
pub enum TransIterState {
    /// Between blocks.
    Outside,
    /// The time range of a block comes next.
    TimeRange(Time, Time),
    /// The text line that starts at this index of the buffer comes next.
    Text(usize),
    /// The blank line after a block comes next.
    Blank,
}

/// What the line `raw` of a SubRip file is, and the state after it: the
/// first line loses a byte order mark; a blank line leaves a block, a time
/// range enters one, and inside a block a number is text.
pub open spec fn srt_step(st: IterState, raw: Seq<u8>) -> (SrtLineModel, IterState) {
    let line = if st is Init {
        trim_bom_spec(raw)
    } else {
        raw
    };
    let st1 = if st is Init {
        IterState::Outside
    } else {
        st
    };
    let ty = srt_line_type(line);
    let st2 = match ty {
        SrtLineType::Blank => IterState::Outside,
        SrtLineType::TimeRange(_) => IterState::InBlock,
        _ => st1,
    };
    let ty2 = if st2 is InBlock && ty is Number {
        SrtLineType::Text
    } else {
        ty
    };
    ((line, ty2), st2)
}

/// The next line of a SubRip reader over `data` at `pos` in state `st`, with
/// the position and state after it.
pub open spec fn srt_next(data: Seq<u8>, pos: int, st: IterState) -> Option<
    (SrtLineModel, int, IterState),
> {
    if pos < 0 || pos >= data.len() {
        None
    } else {
        let (m, s) = srt_step(st, line_at(data, pos));
        Some((m, next_line_start(data, pos), s))
    }
}

/// SubRip lines read from bytes.
pub struct RegularSrtLines {
    pub lines: ByteLines,
    pub state: IterState,
}

impl RegularSrtLines {
    pub open spec fn wf(&self) -> bool {
        self.lines.wf()
    }

    /// The next line and the reader after it, or `None` at the end.
    pub open spec fn next_spec(&self) -> Option<(SrtLineModel, int, IterState)> {
        srt_next(self.lines.data(), self.lines.pos(), self.state)
    }

    /// A reader at the start of `bytes`.
    pub fn new(bytes: &[u8]) -> (r: RegularSrtLines)
        requires
            bytes@.len() < usize::MAX,
        ensures
            r.wf(),
            r.lines.data() == bytes@,
            r.lines.pos() == 0,
            r.state == IterState::Init,
    {
        RegularSrtLines { lines: ByteLines::from_bytes(bytes), state: IterState::Init }
    }

    /// Reads the next line.
    pub fn next(&mut self) -> (r: Option<SrtLine>)
        requires
            old(self).wf(),
        ensures
            final(self).wf(),
            final(self).lines.data() == old(self).lines.data(),
            match old(self).next_spec() {
                None => {
                    &&& r is None
                    &&& final(self).lines.pos() == old(self).lines.pos()
                    &&& final(self).state == old(self).state
                },
                Some((m, p, s)) => {
                    &&& r matches Some(l) && l.deep_view() == m
                    &&& final(self).lines.pos() == p
                    &&& final(self).state == s
                },
            },
            r is Some ==> final(self).lines.remaining() < old(self).lines.remaining(),
    {
        let raw = match self.lines.next() {
            Some(l) => l,
            None => return None,
        };
        let (line, state) = next_regular(self.state, raw);
        self.state = state;
        Some(line)
    }
}

/// Classifies one line of a SubRip file (see [`srt_step`]).
pub fn next_regular(state: IterState, raw: &[u8]) -> (r: (SrtLine, IterState))
    ensures
        (r.0.deep_view(), r.1) == srt_step(state, raw@),
{
    let (line, st1) = if let IterState::Init = state {
        (trim_bom(raw), IterState::Outside)
    } else {
        (raw, state)
    };
    let mut l = SrtLine::new(line);
    let st2 = match l.ty {
        SrtLineType::Blank => IterState::Outside,
        SrtLineType::TimeRange(_) => IterState::InBlock,
        _ => st1,
    };
    if let IterState::InBlock = st2 {
        if let SrtLineType::Number = l.ty {
            l.ty = SrtLineType::Text;
        }
    }
    (l, st2)
}

/// The line that a conversion state gives before more source lines are
/// read, with the state after it: the time range of a block, then its text
/// lines (the text of an event split at its `\N` and `\n` breaks), then a
/// blank line; `None` between blocks.
pub open spec fn srt_trans_step(buf: Seq<u8>, t: TransIterState) -> Option<
    (SrtLineModel, TransIterState),
> {
    match t {
        TransIterState::Outside => None,
        TransIterState::TimeRange(s, e) => Some(
            ((seq![], SrtLineType::TimeRange((s, e))), TransIterState::Text(0)),
        ),
        TransIterState::Text(start) => if buf.len() == 0 {
            Some(((seq![], SrtLineType::Text), TransIterState::Blank))
        } else {
            let e = seg_end(buf, start as int);
            Some(
                (
                    (buf.subrange(start as int, e), SrtLineType::Text),
                    if e + 2 < buf.len() {
                        TransIterState::Text((e + 2) as usize)
                    } else {
                        TransIterState::Blank
                    },
                ),
            )
        },
        TransIterState::Blank => Some(((seq![], SrtLineType::Blank), TransIterState::Outside)),
    }
}

/// A conversion state fits its buffer.
pub open spec fn trans_wf(buf: Seq<u8>, t: TransIterState) -> bool {
    t matches TransIterState::Text(s) ==> s <= buf.len()
}

/// The words `ws`, each followed by a space.
pub open spec fn join_words(ws: Seq<Seq<u8>>) -> Seq<u8>
    decreases ws.len(),
{
    if ws.len() == 0 {
        seq![]
    } else {
        join_words(ws.drop_last()) + ws.last() + seq![0x20u8]
    }
}

/// `buf` with the words of a cue text line added: after a `\N` break if
/// `buf` is not empty, each word followed by a space.
pub open spec fn append_vtt_text(buf: Seq<u8>, text: Seq<u8>) -> Seq<u8> {
    (if buf.len() > 0 {
        buf + seq![0x5Cu8, 0x4Eu8]
    } else {
        buf
    }) + join_words(words_spec(text))
}

/// Reads WebVTT lines to gather the next cue: the times of the last time
/// range read and the text of the text lines after it. It stops at the end,
/// or at the first line that is neither a time range nor text once a cue
/// with text is gathered; such a line before any text drops the times.
pub open spec fn vtt_collect(
    data: Seq<u8>,
    pos: int,
    b: BodyState,
    c: CurrentState,
    tr: Option<(Time, Time)>,
    buf: Seq<u8>,
) -> (Option<(Time, Time)>, Seq<u8>, int, BodyState, CurrentState)
    decreases data.len() + 1 - pos,
{
    match vtt_next(data, pos, b, c) {
        None => (tr, buf, pos, b, c),
        Some((m, p2, b2, c2)) => {
            proof {
                lemma_next_line_start_bounds(data, pos);
            }
            match m.1 {
                VttLineType::TimeRangeAndStyle(r) => vtt_collect(data, p2, b2, c2, Some(r), buf),
                VttLineType::Text => if tr is Some {
                    vtt_collect(data, p2, b2, c2, tr, append_vtt_text(buf, m.0))
                } else {
                    vtt_collect(data, p2, b2, c2, None, buf)
                },
                _ => if tr is Some && buf.len() > 0 {
                    (tr, buf, p2, b2, c2)
                } else {
                    vtt_collect(data, p2, b2, c2, None, buf)
                },
            }
        },
    }
}

/// Gathering a cue moves forward; where it reads no line it returns what it
/// was given.
pub proof fn lemma_vtt_collect_progress(
    data: Seq<u8>,
    pos: int,
    b: BodyState,
    c: CurrentState,
    tr: Option<(Time, Time)>,
    buf: Seq<u8>,
)
    requires
        0 <= pos <= data.len() + 1,
    ensures
        ({
            let (tr2, buf2, p2, b2, c2) = vtt_collect(data, pos, b, c, tr, buf);
            &&& pos <= p2 <= data.len() + 1
            &&& p2 == pos ==> tr2 == tr && buf2 == buf
        }),
    decreases data.len() + 1 - pos,
{
    if pos < data.len() {
        lemma_next_line_start_bounds(data, pos);
        let (m, p2, b2, c2) = vtt_next(data, pos, b, c).unwrap();
        match m.1 {
            VttLineType::TimeRangeAndStyle(r) => lemma_vtt_collect_progress(data, p2, b2, c2, Some(r), buf),
            VttLineType::Text => if tr is Some {
                lemma_vtt_collect_progress(data, p2, b2, c2, tr, append_vtt_text(buf, m.0))
            } else {
                lemma_vtt_collect_progress(data, p2, b2, c2, None, buf)
            },
            _ => if !(tr is Some && buf.len() > 0) {
                lemma_vtt_collect_progress(data, p2, b2, c2, None, buf)
            },
        }
    }
}

/// SubRip lines: read from SubRip bytes, or converted from the events of a
/// SubStation Alpha script or the cues of a WebVTT file.
pub struct SrtLines {
    pub source: SourceLines,
    pub buf: Vec<u8>,
    pub trans_state: TransIterState,
}

/// SubRip lines as the specifications see them.
pub struct SrtLinesModel {
    pub source: SourceModel,
    pub buf: Seq<u8>,
    pub trans: TransIterState,
}

/// The next line and what the iterator becomes: SubRip bytes are read as they
/// are; an event of a script gives an empty number line, then (see
/// [`srt_trans_step`]) its time range, text lines and a blank line; a cue
/// gathered from WebVTT lines (see [`vtt_collect`]) does the same.
pub open spec fn srt_lines_next(m: SrtLinesModel) -> (Option<SrtLineModel>, SrtLinesModel) {
    match m.source {
        SourceModel::Srt(d, p, s) => match srt_next(d, p, s) {
            None => (None, m),
            Some((l, p2, s2)) => (Some(l), SrtLinesModel { source: SourceModel::Srt(d, p2, s2), ..m }),
        },
        SourceModel::Ass(d, p, s) => match srt_trans_step(m.buf, m.trans) {
            Some((l, t2)) => (Some(l), SrtLinesModel { trans: t2, ..m }),
            None => {
                let (ev, p2, s2) = ass_find_event(d, p, s);
                match ev {
                    None => (None, SrtLinesModel { source: SourceModel::Ass(d, p2, s2), ..m }),
                    Some(e) => (
                        Some((seq![], SrtLineType::Number)),
                        SrtLinesModel {
                            source: SourceModel::Ass(d, p2, s2),
                            buf: e.text,
                            trans: TransIterState::TimeRange(e.start, e.end),
                        },
                    ),
                }
            },
        },
        SourceModel::Vtt(d, p, b, c) => match srt_trans_step(m.buf, m.trans) {
            Some((l, t2)) => (Some(l), SrtLinesModel { trans: t2, ..m }),
            None => {
                let (tr, buf2, p2, b2, c2) = vtt_collect(d, p, b, c, None, seq![]);
                let src = SourceModel::Vtt(d, p2, b2, c2);
                match tr {
                    Some(r) => if buf2.len() > 0 {
                        (
                            Some((seq![], SrtLineType::Number)),
                            SrtLinesModel {
                                source: src,
                                buf: buf2,
                                trans: TransIterState::TimeRange(r.0, r.1),
                            },
                        )
                    } else {
                        (None, SrtLinesModel { source: src, buf: buf2, trans: m.trans })
                    },
                    None => (None, SrtLinesModel { source: src, buf: buf2, trans: m.trans }),
                }
            },
        },
    }
}

/// A measure of the lines that a conversion state gives before more source
/// lines are read.
pub open spec fn srt_trans_rank(buf: Seq<u8>, t: TransIterState) -> nat {
    match t {
        TransIterState::Outside => 0,
        TransIterState::Blank => 1,
        TransIterState::Text(s) => (2 + buf.len() - s) as nat,
        TransIterState::TimeRange(_, _) => buf.len() + 3,
    }
}

impl SrtLinesModel {
    /// The reader is within its bytes and the conversion state fits its
    /// buffer.
    pub open spec fn in_bounds(self) -> bool {
        self.source.in_bounds() && trans_wf(self.buf, self.trans)
    }
}

/// Every line that SubRip lines give brings them closer to their end: the
/// reader moves forward, or it stays and the conversion state has fewer
/// lines left to give.
pub proof fn lemma_srt_lines_next_progress(m: SrtLinesModel)
    requires
        m.in_bounds(),
        m.buf.len() <= usize::MAX,
    ensures
        ({
            let (l, m2) = srt_lines_next(m);
            &&& m2.source.remaining() <= m.source.remaining()
            &&& l is Some ==> (m2.source.remaining() < m.source.remaining() || srt_trans_rank(
                m2.buf,
                m2.trans,
            ) < srt_trans_rank(m.buf, m.trans))
        }),
{
    if let TransIterState::Text(start) = m.trans {
        lemma_seg_end_bounds(m.buf, start as int);
    }
    match m.source {
        SourceModel::Srt(d, p, s) => {
            if p < d.len() {
                lemma_next_line_start_bounds(d, p);
            }
        },
        SourceModel::Ass(d, p, s) => {
            lemma_ass_find_event_progress(d, p, s);
        },
        SourceModel::Vtt(d, p, b, c) => {
            lemma_vtt_collect_progress(d, p, b, c, None, seq![]);
        },
    }
}

/// The deep view of an optional line.
pub open spec fn opt_srt_model(l: Option<SrtLine>) -> Option<SrtLineModel> {
    match l {
        Some(x) => Some(x.deep_view()),
        None => None,
    }
}

impl SrtLines {
    pub open spec fn wf(&self) -> bool {
        self.source.wf() && trans_wf(self.buf@, self.trans_state)
    }

    pub open spec fn model(&self) -> SrtLinesModel {
        SrtLinesModel { source: self.source.model(), buf: self.buf@, trans: self.trans_state }
    }

    /// Lines read from a copy of `bytes`.
    pub fn from_bytes(bytes: &[u8]) -> (r: SrtLines)
        requires
            bytes@.len() < usize::MAX,
        ensures
            r.wf(),
            r.model() == (SrtLinesModel {
                source: SourceModel::Srt(bytes@, 0, IterState::Init),
                buf: seq![],
                trans: TransIterState::Outside,
            }),
    {
        SrtLines::with_source(SourceLines::Srt(RegularSrtLines::new(bytes)))
    }

    /// Lines converted from (or read from) the reader `source`.
    pub fn with_source(source: SourceLines) -> (r: SrtLines)
        requires
            source.wf(),
        ensures
            r.wf(),
            r.model() == (SrtLinesModel {
                source: source.model(),
                buf: seq![],
                trans: TransIterState::Outside,
            }),
    {
        SrtLines { source, buf: Vec::new(), trans_state: TransIterState::Outside }
    }

    /// Reads the next line.
    pub fn next(&mut self) -> (r: Option<SrtLine>)
        requires
            old(self).wf(),
        ensures
            final(self).wf(),
            (opt_srt_model(r), final(self).model()) == srt_lines_next(old(self).model()),
    {
        match &mut self.source {
            SourceLines::Srt(l) => l.next(),
            SourceLines::Ass(l) => next_from_ass(l, &mut self.buf, &mut self.trans_state),
            SourceLines::Vtt(l) => next_from_vtt(l, &mut self.buf, &mut self.trans_state),
        }
    }
}

/// The line that the conversion state gives (see [`srt_trans_step`]).
fn next_from_trans_state(buf: &Vec<u8>, trans_state: &mut TransIterState) -> (r: Option<SrtLine>)
    requires
        trans_wf(buf@, *old(trans_state)),
    ensures
        trans_wf(buf@, *final(trans_state)),
        match srt_trans_step(buf@, *old(trans_state)) {
            None => r is None && *final(trans_state) == *old(trans_state),
            Some((l, t2)) => r matches Some(x) && x.deep_view() == l && *final(trans_state) == t2,
        },
{
    match *trans_state {
        TransIterState::Outside => None,
        TransIterState::TimeRange(start, end) => {
            *trans_state = TransIterState::Text(0);
            Some(SrtLine::empty(SrtLineType::TimeRange((start, end))))
        },
        TransIterState::Text(start) => {
            if buf.len() == 0 {
                *trans_state = TransIterState::Blank;
                return Some(SrtLine::empty(SrtLineType::Text));
            }
            let end = segment_end(buf.as_slice(), start);
            *trans_state = if end < buf.len() && buf.len() - end > 2 {
                TransIterState::Text(end + 2)
            } else {
                TransIterState::Blank
            };
            Some(SrtLine::new_with_ty(&buf.as_slice()[start..end], SrtLineType::Text))
        },
        TransIterState::Blank => {
            *trans_state = TransIterState::Outside;
            Some(SrtLine::empty(SrtLineType::Blank))
        },
    }
}

fn next_from_ass(
    lines: &mut RegularAssLines,
    buf: &mut Vec<u8>,
    trans_state: &mut TransIterState,
) -> (r: Option<SrtLine>)
    requires
        old(lines).wf(),
        trans_wf(old(buf)@, *old(trans_state)),
    ensures
        final(lines).wf(),
        trans_wf(final(buf)@, *final(trans_state)),
        ({
            let m = SrtLinesModel {
                source: SourceModel::Ass(old(lines).lines.data(), old(lines).lines.pos(), old(lines).state),
                buf: old(buf)@,
                trans: *old(trans_state),
            };
            let m2 = SrtLinesModel {
                source: SourceModel::Ass(final(lines).lines.data(), final(lines).lines.pos(), final(lines).state),
                buf: final(buf)@,
                trans: *final(trans_state),
            };
            (opt_srt_model(r), m2) == srt_lines_next(m)
        }),
{
    if let Some(line) = next_from_trans_state(buf, trans_state) {
        return Some(line);
    }
    let event = match lines.find_event() {
        Some(e) => e,
        None => return None,
    };
    *trans_state = TransIterState::TimeRange(event.start, event.end);
    *buf = event.text;
    Some(SrtLine::empty(SrtLineType::Number))
}

/// Adds the words of a cue text line to `buf` (see [`append_vtt_text`]).
fn push_vtt_text(buf: &mut Vec<u8>, line: &VttLine)
    ensures
        final(buf)@ == append_vtt_text(old(buf)@, line.raw@),
{
    if buf.len() > 0 {
        buf.push(0x5Cu8);
        buf.push(0x4Eu8);
    }
    let ghost start = buf@;
    assert(start == (if old(buf)@.len() > 0 { old(buf)@ + seq![0x5Cu8, 0x4Eu8] } else { old(buf)@ }));
    let ws = line.text();
    let ghost wv = ws@.map_values(|w: Vec<u8>| w@);
    let mut i: usize = 0;
    while i < ws.len()
        invariant
            i <= ws@.len(),
            wv == ws@.map_values(|w: Vec<u8>| w@),
            wv == words_spec(line.raw@),
            buf@ == start + join_words(wv.take(i as int)),
        decreases ws@.len() - i,
    {
        push_all(buf, ws[i].as_slice());
        buf.push(0x20u8);
        proof {
            assert(wv.take(i + 1).drop_last() =~= wv.take(i as int));
            assert(wv[i as int] == ws@[i as int]@);
        }
        i += 1;
        assert(buf@ =~= start + join_words(wv.take(i as int)));
    }
    assert(wv.take(ws@.len() as int) =~= wv);
}

/// Gathers the next cue (see [`vtt_collect`]).
fn collect_vtt_cue(lines: &mut RegularVttLines, buf: &mut Vec<u8>) -> (r: Option<(Time, Time)>)
    requires
        old(lines).wf(),
    ensures
        final(lines).wf(),
        final(lines).lines.data() == old(lines).lines.data(),
        vtt_collect(
            old(lines).lines.data(),
            old(lines).lines.pos(),
            old(lines).body_state,
            old(lines).current_state,
            None,
            old(buf)@,
        ) == (
            r,
            final(buf)@,
            final(lines).lines.pos(),
            final(lines).body_state,
            final(lines).current_state,
        ),
{
    let ghost data = lines.lines.data();
    let mut time_range: Option<(Time, Time)> = None;
    loop
        invariant
            lines.wf(),
            lines.lines.data() == data,
            data == old(lines).lines.data(),
            vtt_collect(
                data,
                old(lines).lines.pos(),
                old(lines).body_state,
                old(lines).current_state,
                None,
                old(buf)@,
            ) == vtt_collect(data, lines.lines.pos(), lines.body_state, lines.current_state, time_range, buf@),
        decreases lines.lines.remaining(),
    {
        let l = match lines.next() {
            Some(l) => l,
            None => return time_range,
        };
        match l.ty {
            VttLineType::TimeRangeAndStyle(r) => {
                time_range = Some(r);
            },
            VttLineType::Text => {
                if time_range.is_some() {
                    push_vtt_text(buf, &l);
                } else {
                    time_range = None;
                }
            },
            _ => {
                if time_range.is_some() && buf.len() > 0 {
                    return time_range;
                }
                time_range = None;
            },
        }
    }
}

fn next_from_vtt(
    lines: &mut RegularVttLines,
    buf: &mut Vec<u8>,
    trans_state: &mut TransIterState,
) -> (r: Option<SrtLine>)
    requires
        old(lines).wf(),
        trans_wf(old(buf)@, *old(trans_state)),
    ensures
        final(lines).wf(),
        trans_wf(final(buf)@, *final(trans_state)),
        ({
            let m = SrtLinesModel {
                source: SourceModel::Vtt(
                    old(lines).lines.data(),
                    old(lines).lines.pos(),
                    old(lines).body_state,
                    old(lines).current_state,
                ),
                buf: old(buf)@,
                trans: *old(trans_state),
            };
            let m2 = SrtLinesModel {
                source: SourceModel::Vtt(
                    final(lines).lines.data(),
                    final(lines).lines.pos(),
                    final(lines).body_state,
                    final(lines).current_state,
                ),
                buf: final(buf)@,
                trans: *final(trans_state),
            };
            (opt_srt_model(r), m2) == srt_lines_next(m)
        }),
{
    if let Some(line) = next_from_trans_state(buf, trans_state) {
        return Some(line);
    }
    buf.clear();
    let time_range = collect_vtt_cue(lines, buf);
    match time_range {
        Some((start, end)) => {
            if buf.len() > 0 {
                *trans_state = TransIterState::TimeRange(start, end);
                Some(SrtLine::empty(SrtLineType::Number))
            } else {
                None
            }
        },
        None => None,
    }
}

impl SrtLines {
    /// Lines that are about to read from a reader in state `src`.
    pub open spec fn fresh(src: SourceModel) -> SrtLinesModel {
        SrtLinesModel { source: src, buf: seq![], trans: TransIterState::Outside }
    }

    /// Lines converted from what `lines` reads (its own conversion state is
    /// dropped; a reader of this format is read as it is).
    pub fn from_ass(lines: AssLines) -> (r: SrtLines)
        requires
            lines.wf(),
        ensures
            r.wf(),
            r.model() == SrtLines::fresh(lines.source.model()),
    {
        SrtLines::with_source(lines.source)
    }

    /// Lines converted from what `lines` reads (its own conversion state is
    /// dropped; a reader of this format is read as it is).
    pub fn from_vtt(lines: VttLines) -> (r: SrtLines)
        requires
            lines.wf(),
        ensures
            r.wf(),
            r.model() == SrtLines::fresh(lines.source.model()),
    {
        SrtLines::with_source(lines.source)
    }
}

} // verus!
