//! Writing SubStation Alpha scripts: lines as they are, events written anew
//! in the order of the last format line, runs of blank lines made one.
use crate::ass::line::event::format::{default_positions, EventFormatPositions};
use crate::ass::line::event::{Event, EventModel, EventTag};
use crate::ass::line::{AssLine, AssLineModel};
use crate::ass::lines::{ass_lines_next, ass_trans_rank, lemma_ass_lines_next_progress, AssLines, AssLinesModel};
use crate::byte_helpers::{dec_digits, push_all, push_decimal};
use crate::error::Result;
use crate::lits::{command, comment, dialogue, movie, picture, sound};
use crate::options::{fault_error, fault_message, WriteFault, WriteOptions};
use crate::srt::write::newline;
use crate::time::bufs::{ass_time_spec, fits_fixed_width, push_ass_time};
use crate::time::Time;
use vstd::prelude::*;

verus! {

/// The name of an event kind, as written before the colon; an unknown kind
/// keeps the name it was read with.
pub open spec fn event_type_bytes(ty: (EventTag, Seq<u8>)) -> Seq<u8> {
    match ty.0 {
        EventTag::Dialogue => dialogue(),
        EventTag::Comment => comment(),
        EventTag::Picture => picture(),
        EventTag::Sound => sound(),
        EventTag::Movie => movie(),
        EventTag::Command => command(),
        EventTag::Unrecognized => ty.1,
    }
}

/// The field of event `e` written at place `i` of the format `p`: the first
/// field, in the order layer, start, end, style, name, margins left, right
/// and vertical, effect, whose place is `i`; `None` if none is.
pub open spec fn event_field(e: EventModel, p: EventFormatPositions, i: u8) -> Option<Seq<u8>> {
    if i == p.layer {
        Some(dec_digits(e.layer as nat))
    } else if i == p.start {
        Some(ass_time_spec(e.start))
    } else if i == p.end {
        Some(ass_time_spec(e.end))
    } else if i == p.style_name {
        Some(e.style_name)
    } else if i == p.character_name {
        Some(e.character_name)
    } else if i == p.margin_l {
        Some(dec_digits(e.margin_l as nat))
    } else if i == p.margin_r {
        Some(dec_digits(e.margin_r as nat))
    } else if i == p.margin_v {
        Some(dec_digits(e.margin_v as nat))
    } else if i == p.effect {
        Some(e.effect.bytes_spec())
    } else {
        None
    }
}

/// The fields at places below `n`, each followed by a comma.
pub open spec fn event_fields(e: EventModel, p: EventFormatPositions, n: nat) -> Seq<u8>
    decreases n,
{
    if n == 0 {
        seq![]
    } else {
        event_fields(e, p, (n - 1) as nat) + match event_field(e, p, (n - 1) as u8) {
            Some(b) => b + seq![0x2Cu8],
            None => seq![],
        }
    }
}

/// The line of event `e` in the format `p`: the kind, `: `, the nine fields
/// and the text.
pub open spec fn event_line(e: EventModel, p: EventFormatPositions) -> Seq<u8> {
    event_type_bytes(e.ty) + seq![0x3Au8, 0x20u8] + event_fields(e, p, 9) + e.text + newline()
}

/// Where a SubStation Alpha writer is: whether the last line written is
/// blank, and the field places of the last format line.
#[derive(Copy, Clone, Debug)]
pub struct AssWriteState {
    pub written_blank: bool,
    pub positions: EventFormatPositions,
}

impl AssWriteState {
    /// Before the first line: the default format.
    pub open spec fn initial() -> AssWriteState {
        AssWriteState { written_blank: false, positions: default_positions() }
    }

    /// Before the first line (see [`Self::initial`]).
    pub fn new() -> (r: AssWriteState)
        ensures
            r == AssWriteState::initial(),
    {
        AssWriteState { written_blank: false, positions: EventFormatPositions::new() }
    }
}

/// What writing the line `l` in state `ws` adds to the output, and the state
/// after it. Runs of blank lines become one; a format line sets the field
/// places; an event left out by `opts` is dropped, another is moved by
/// `opts` and written anew (see [`event_line`]); other lines are written as
/// they are.
pub open spec fn ass_write_step(ws: AssWriteState, l: AssLineModel, opts: WriteOptions) -> core::result::Result<
    (Seq<u8>, AssWriteState),
    WriteFault,
> {
    let keep = AssWriteState { written_blank: false, ..ws };
    match l {
        AssLineModel::Blank => if !ws.written_blank {
            Ok((newline(), AssWriteState { written_blank: true, ..ws }))
        } else {
            Ok((seq![], ws))
        },
        AssLineModel::EventFormat((b, p)) => Ok(
            (b + newline(), AssWriteState { written_blank: false, positions: p }),
        ),
        AssLineModel::Event(e) => if opts.skips(e.start, e.end) {
            Ok((seq![], ws))
        } else {
            match (opts.shift_spec(e.start), opts.shift_spec(e.end)) {
                (Some(s2), Some(e2)) => if fits_fixed_width(s2) && fits_fixed_width(e2) {
                    Ok(
                        (
                            event_line(EventModel { start: s2, end: e2, ..e }, ws.positions),
                            keep,
                        ),
                    )
                } else {
                    Err(WriteFault::TimeOutOfRange)
                },
                _ => Err(WriteFault::TimeOutOfRange),
            }
        },
        _ => Ok((l.bytes_spec() + newline(), keep)),
    }
}

/// The output of writing the lines `ls` with `opts`, and the state after
/// them; the first fault stops it.
pub open spec fn ass_write_lines(ls: Seq<AssLineModel>, opts: WriteOptions) -> core::result::Result<
    (Seq<u8>, AssWriteState),
    WriteFault,
>
    decreases ls.len(),
{
    if ls.len() == 0 {
        Ok((opts.prefix(), AssWriteState::initial()))
    } else {
        match ass_write_lines(ls.drop_last(), opts) {
            Err(f) => Err(f),
            Ok((out, ws)) => match ass_write_step(ws, ls.last(), opts) {
                Err(f) => Err(f),
                Ok((more, ws2)) => Ok((out + more, ws2)),
            },
        }
    }
}

/// The first `n` lines that lines in state `m` give, and their state after
/// them; `None` if they end before.
pub open spec fn ass_run(m: AssLinesModel, n: nat) -> Option<(Seq<AssLineModel>, AssLinesModel)>
    decreases n,
{
    if n == 0 {
        Some((seq![], m))
    } else {
        match ass_run(m, (n - 1) as nat) {
            None => None,
            Some((ls, m1)) => match ass_lines_next(m1) {
                (Some(l), m2) => Some((ls.push(l), m2)),
                (None, _) => None,
            },
        }
    }
}

impl Event {
    /// Appends the line of this event with the times `start` and `end` in the
    /// format `p` (see [`event_line`]).
    pub fn write_into(&self, out: &mut Vec<u8>, start: Time, end: Time, p: &EventFormatPositions)
        requires
            fits_fixed_width(start),
            fits_fixed_width(end),
        ensures
            final(out)@ == old(out)@ + event_line(
                EventModel { start: start, end: end, ..self.deep_view() },
                *p,
            ),
    {
        let ghost em = EventModel { start: start, end: end, ..self.deep_view() };
        let ghost first = old(out)@;
        push_all(out, self.ty.as_bytes().as_slice());
        out.push(0x3Au8);
        out.push(0x20u8);
        assert(out@ =~= first + event_type_bytes(em.ty) + seq![0x3Au8, 0x20u8]);
        let ghost head = out@;
        let mut i: u8 = 0;
        while i < 9
            invariant
                i <= 9,
                fits_fixed_width(start),
                fits_fixed_width(end),
                em == (EventModel { start: start, end: end, ..self.deep_view() }),
                out@ == head + event_fields(em, *p, i as nat),
            decreases 9 - i,
        {
            let ghost before = out@;
            let mut wrote = true;
            if i == p.layer {
                push_decimal(out, self.layer as u64);
            } else if i == p.start {
                push_ass_time(out, start);
            } else if i == p.end {
                push_ass_time(out, end);
            } else if i == p.style_name {
                push_all(out, self.style_name.as_slice());
            } else if i == p.character_name {
                push_all(out, self.character_name.as_slice());
            } else if i == p.margin_l {
                push_decimal(out, self.margin_l as u64);
            } else if i == p.margin_r {
                push_decimal(out, self.margin_r as u64);
            } else if i == p.margin_v {
                push_decimal(out, self.margin_v as u64);
            } else if i == p.effect {
                push_all(out, self.effect.as_bytes().as_slice());
            } else {
                wrote = false;
            }
            if wrote {
                out.push(0x2Cu8);
            }
            assert(out@ =~= before + match event_field(em, *p, i) {
                Some(b) => b + seq![0x2Cu8],
                None => seq![],
            });
            i = i + 1;
        }
        let ghost fields = out@;
        push_all(out, self.text.as_slice());
        out.push(0x0Au8);
        assert(out@ =~= fields + em.text + newline());
        assert(out@ =~= first + event_line(em, *p));
    }
}

/// Writes the line `line` in state `ws` (see [`ass_write_step`]).
pub fn ass_write_line(
    ws: &mut AssWriteState,
    line: &AssLine,
    opts: &WriteOptions,
    out: &mut Vec<u8>,
) -> (r: core::result::Result<(), WriteFault>)
    ensures
        match ass_write_step(*old(ws), line.deep_view(), *opts) {
            Ok((more, ws2)) => r is Ok && final(out)@ == old(out)@ + more && *final(ws) == ws2,
            Err(f) => r == Err::<(), WriteFault>(f),
        },
{
    match line {
        AssLine::Blank => {
            if !ws.written_blank {
                out.push(0x0Au8);
                ws.written_blank = true;
            }
            return Ok(());
        },
        AssLine::EventFormat(f) => {
            ws.positions = *f.positions();
        },
        AssLine::Event(e) => {
            if opts.skips_range(e.start, e.end) {
                return Ok(());
            }
            let (s2, e2) = match (opts.shift(e.start), opts.shift(e.end)) {
                (Some(s2), Some(e2)) => (s2, e2),
                _ => {
                    return Err(WriteFault::TimeOutOfRange);
                },
            };
            if !(s2.mins < 100 && s2.secs < 100 && s2.millis < 1000) || !(e2.mins < 100
                && e2.secs < 100 && e2.millis < 1000) {
                return Err(WriteFault::TimeOutOfRange);
            }
            e.write_into(out, s2, e2, &ws.positions);
            ws.written_blank = false;
            return Ok(());
        },
        _ => {},
    }
    let ghost before = out@;
    push_all(out, line.as_bytes().as_slice());
    out.push(0x0Au8);
    assert(out@ =~= before + (line.deep_view().bytes_spec() + newline()));
    ws.written_blank = false;
    Ok(())
}

impl AssLines {
    /// Writes all lines that are left, with `opts`, and returns the bytes:
    /// the byte order mark if asked for, then each line as
    /// [`ass_write_step`] says. Stops at the first fault, with a value
    /// validation error that names it.
    pub fn write_to_bytes_with(&mut self, opts: &WriteOptions) -> (r: Result<Vec<u8>>)
        requires
            old(self).wf(),
        ensures
            final(self).wf(),
            exists|n: nat|
                #![trigger ass_run(old(self).model(), n)]
                {
                    &&& ass_run(old(self).model(), n) matches Some((ls, m))
                    &&& match ass_write_lines(ls, *opts) {
                        Ok((out, _)) => {
                            &&& ass_lines_next(m).0 is None
                            &&& final(self).model() == ass_lines_next(m).1
                            &&& r matches Ok(v) && v@ == out
                        },
                        Err(f) => {
                            &&& n > 0
                            &&& ass_write_lines(ls.drop_last(), *opts) is Ok
                            &&& final(self).model() == m
                            &&& r matches Err(e) && e.is_validation(fault_message(f))
                        },
                    }
                },
    {
        let mut out = opts.prefix_bytes();
        let mut ws = AssWriteState::new();
        let ghost mut n: nat = 0;
        let ghost mut ls: Seq<AssLineModel> = seq![];
        loop
            invariant
                self.wf(),
                ass_run(old(self).model(), n) == Some((ls, self.model())),
                ass_write_lines(ls, *opts) == Ok::<(Seq<u8>, AssWriteState), WriteFault>((out@, ws)),
            decreases self.model().source.remaining(), ass_trans_rank(self.model().trans),
        {
            let ghost m = self.model();
            proof {
                lemma_ass_lines_next_progress(m);
            }
            let line = match self.next() {
                Some(l) => l,
                None => {
                    assert(ass_run(old(self).model(), n) == Some((ls, m)));
                    return Ok(out);
                },
            };
            proof {
                assert(ls.push(line.deep_view()).drop_last() =~= ls);
                n = n + 1;
                ls = ls.push(line.deep_view());
            }
            match ass_write_line(&mut ws, &line, opts, &mut out) {
                Ok(()) => {},
                Err(f) => {
                    assert(ass_run(old(self).model(), n) == Some((ls, self.model())));
                    return Err(fault_error(f));
                },
            }
        }
    }
}

/// An event is kept exactly when it meets the write window: with no time
/// moves, an event from `s` to `e` is written as its line unless it is over
/// by `start` (`e <= start`) or has not begun by `end` (`end <= s`), in
/// which case nothing is written.
pub proof fn lemma_ass_write_window(ws: AssWriteState, ev: EventModel, opts: WriteOptions)
    requires
        opts.add_time is None,
        opts.sub_time is None,
        fits_fixed_width(ev.start),
        fits_fixed_width(ev.end),
    ensures
        ass_write_step(ws, AssLineModel::Event(ev), opts) == Ok::<(Seq<u8>, AssWriteState), WriteFault>(
            if (opts.start matches Some(t) && !t.spec_lt(ev.end)) || (opts.end matches Some(t) && !ev.start.spec_lt(
                t,
            )) {
                (seq![], ws)
            } else {
                (event_line(ev, ws.positions), AssWriteState { written_blank: false, ..ws })
            },
        ),
{
    assert(EventModel { start: ev.start, end: ev.end, ..ev } == ev);
}

} // verus!
