//! Writing WebVTT files: the file mark, then the lines, with runs of blank
//! lines made one.
use crate::error::Result;
use crate::lines::{SourceLines, SourceModel};
use crate::lits::{arrow, arrow_bytes, webvtt_header, webvtt_header_bytes};
use crate::options::{fault_error, fault_message, WriteFault, WriteOptions};
use crate::byte_helpers::push_all;
use crate::srt::write::newline;
use crate::time::Time;
use crate::time::bufs::{fits_fixed_width, push_vtt_time, vtt_time_spec};
use crate::vtt::it::{lemma_vtt_lines_next_progress, vtt_lines_next, vtt_trans_rank, VttLines, VttLinesModel};
use crate::vtt::line::{VttLine, VttLineModel, VttLineType};
use vstd::prelude::*;

verus! {

/// Where a WebVTT writer is: whether the last line written is blank (or
/// nothing but the header is written), whether the timings of the current
/// cue are written, and the held identifier of the next cue.
pub struct VttWriteState {
    pub written_blank: bool,
    pub written_cue_time: bool,
    pub cue_id: Vec<u8>,
}

/// A WebVTT writer's state as the specifications see it.
pub struct VttWriteModel {
    pub written_blank: bool,
    pub written_cue_time: bool,
    pub cue_id: Seq<u8>,
}

impl View for VttWriteState {
    type V = VttWriteModel;

    open spec fn view(&self) -> VttWriteModel {
        VttWriteModel {
            written_blank: self.written_blank,
            written_cue_time: self.written_cue_time,
            cue_id: self.cue_id@,
        }
    }
}

impl VttWriteModel {
    /// Right after the header.
    pub open spec fn initial() -> VttWriteModel {
        VttWriteModel { written_blank: true, written_cue_time: false, cue_id: seq![] }
    }
}

impl VttWriteState {
    /// Right after the header (see [`VttWriteModel::initial`]).
    pub fn new() -> (r: VttWriteState)
        ensures
            r@ == VttWriteModel::initial(),
    {
        VttWriteState { written_blank: true, written_cue_time: false, cue_id: Vec::new() }
    }
}

/// What writing the line `l` in state `ws` adds to the output, and the state
/// after it; `regular` tells whether the lines are read from a WebVTT file.
/// File marks are dropped and runs of blank lines become one. With time
/// settings in `opts`, a cue identifier is held until the timings of its
/// cue, a cue left out by `opts` is dropped with its text and metadata, and
/// the timings are moved by `opts` and written anew; without them, converted
/// timings are written anew and all other lines as they are.
pub open spec fn vtt_write_step(
    ws: VttWriteModel,
    l: VttLineModel,
    opts: WriteOptions,
    regular: bool,
) -> core::result::Result<(Seq<u8>, VttWriteModel), WriteFault> {
    let timed = opts.has_time_settings();
    match l.1 {
        VttLineType::VttFileMark => Ok((seq![], ws)),
        VttLineType::Blank => if !ws.written_blank {
            Ok(
                (
                    newline(),
                    VttWriteModel { written_blank: true, written_cue_time: false, cue_id: seq![] },
                ),
            )
        } else {
            Ok((seq![], ws))
        },
        VttLineType::CueId if timed => Ok((seq![], VttWriteModel { cue_id: l.0, ..ws })),
        VttLineType::TimeRangeAndStyle((s, e)) if !regular || timed => if opts.skips(s, e) {
            Ok((seq![], VttWriteModel { cue_id: seq![], ..ws }))
        } else {
            match (opts.shift_spec(s), opts.shift_spec(e)) {
                (Some(s2), Some(e2)) => if fits_fixed_width(s2) && fits_fixed_width(e2) {
                    Ok(
                        (
                            (if ws.cue_id.len() > 0 {
                                ws.cue_id + newline()
                            } else {
                                seq![]
                            }) + vtt_time_spec(s2) + arrow() + vtt_time_spec(e2) + newline(),
                            VttWriteModel {
                                written_blank: false,
                                written_cue_time: true,
                                cue_id: seq![],
                            },
                        ),
                    )
                } else {
                    Err(WriteFault::TimeOutOfRange)
                },
                _ => Err(WriteFault::TimeOutOfRange),
            }
        },
        VttLineType::Text if timed && !ws.written_cue_time => Ok((seq![], ws)),
        VttLineType::Metadata if timed && !ws.written_cue_time => Ok((seq![], ws)),
        _ => Ok((l.0 + newline(), VttWriteModel { written_blank: false, ..ws })),
    }
}

/// The output of writing the lines `ls` with `opts`, and the state after
/// them; the first fault stops it.
pub open spec fn vtt_write_lines(ls: Seq<VttLineModel>, opts: WriteOptions, regular: bool) -> core::result::Result<
    (Seq<u8>, VttWriteModel),
    WriteFault,
>
    decreases ls.len(),
{
    if ls.len() == 0 {
        Ok((opts.prefix() + webvtt_header(), VttWriteModel::initial()))
    } else {
        match vtt_write_lines(ls.drop_last(), opts, regular) {
            Err(f) => Err(f),
            Ok((out, ws)) => match vtt_write_step(ws, ls.last(), opts, regular) {
                Err(f) => Err(f),
                Ok((more, ws2)) => Ok((out + more, ws2)),
            },
        }
    }
}

/// The first `n` lines that lines in state `m` give, and their state after
/// them; `None` if they end before.
pub open spec fn vtt_run(m: VttLinesModel, n: nat) -> Option<(Seq<VttLineModel>, VttLinesModel)>
    decreases n,
{
    if n == 0 {
        Some((seq![], m))
    } else {
        match vtt_run(m, (n - 1) as nat) {
            None => None,
            Some((ls, m1)) => match vtt_lines_next(m1) {
                (Some(l), m2) => Some((ls.push(l), m2)),
                (None, _) => None,
            },
        }
    }
}

/// Writes the line `line` in state `ws` (see [`vtt_write_step`]).
pub fn vtt_write_line(
    ws: &mut VttWriteState,
    line: &VttLine,
    opts: &WriteOptions,
    regular: bool,
    out: &mut Vec<u8>,
) -> (r: core::result::Result<(), WriteFault>)
    ensures
        match vtt_write_step(old(ws)@, line.deep_view(), *opts, regular) {
            Ok((more, ws2)) => r is Ok && final(out)@ == old(out)@ + more && final(ws)@ == ws2,
            Err(f) => r == Err::<(), WriteFault>(f),
        },
{
    let timed = opts.has_time_settings_exec();
    match line.ty {
        VttLineType::VttFileMark => {
            return Ok(());
        },
        VttLineType::Blank => {
            if !ws.written_blank {
                out.push(0x0Au8);
                ws.cue_id = Vec::new();
                ws.written_blank = true;
                ws.written_cue_time = false;
                assert(ws@ =~= (VttWriteModel {
                    written_blank: true,
                    written_cue_time: false,
                    cue_id: seq![],
                }));
            }
            return Ok(());
        },
        VttLineType::CueId => {
            if timed {
                ws.cue_id = vstd::slice::slice_to_vec(line.raw.as_slice());
                return Ok(());
            }
        },
        VttLineType::TimeRangeAndStyle((s, e)) => {
            if !regular || timed {
                if opts.skips_range(s, e) {
                    ws.cue_id = Vec::new();
                    return Ok(());
                }
                let (s2, e2) = match (opts.shift(s), opts.shift(e)) {
                    (Some(s2), Some(e2)) => (s2, e2),
                    _ => {
                        return Err(WriteFault::TimeOutOfRange);
                    },
                };
                if !(s2.mins < 100 && s2.secs < 100 && s2.millis < 1000) || !(e2.mins < 100
                    && e2.secs < 100 && e2.millis < 1000) {
                    return Err(WriteFault::TimeOutOfRange);
                }
                let ghost before = out@;
                if ws.cue_id.len() > 0 {
                    push_all(out, ws.cue_id.as_slice());
                    out.push(0x0Au8);
                }
                push_vtt_time(out, s2);
                push_all(out, arrow_bytes().as_slice());
                push_vtt_time(out, e2);
                out.push(0x0Au8);
                assert(out@ =~= before + ((if old(ws)@.cue_id.len() > 0 {
                    old(ws)@.cue_id + newline()
                } else {
                    seq![]
                }) + vtt_time_spec(s2) + arrow() + vtt_time_spec(e2) + newline()));
                ws.cue_id = Vec::new();
                ws.written_blank = false;
                ws.written_cue_time = true;
                return Ok(());
            }
        },
        VttLineType::Text => {
            if timed && !ws.written_cue_time {
                return Ok(());
            }
        },
        VttLineType::Metadata => {
            if timed && !ws.written_cue_time {
                return Ok(());
            }
        },
        _ => {},
    }
    let ghost before = out@;
    push_all(out, line.raw.as_slice());
    out.push(0x0Au8);
    assert(out@ =~= before + (line.raw@ + newline()));
    ws.written_blank = false;
    Ok(())
}

impl VttLines {
    /// Writes all lines that are left, with `opts`, and returns the bytes:
    /// the byte order mark if asked for and the file mark with a blank line,
    /// then each line as [`vtt_write_step`] says. Stops at the first fault,
    /// with a value validation error that names it.
    pub fn write_to_bytes_with(&mut self, opts: &WriteOptions) -> (r: Result<Vec<u8>>)
        requires
            old(self).wf(),
        ensures
            final(self).wf(),
            exists|n: nat|
                #![trigger vtt_run(old(self).model(), n)]
                {
                    let regular = old(self).model().source is Vtt;
                    &&& vtt_run(old(self).model(), n) matches Some((ls, m))
                    &&& match vtt_write_lines(ls, *opts, regular) {
                        Ok((out, _)) => {
                            &&& vtt_lines_next(m).0 is None
                            &&& final(self).model() == vtt_lines_next(m).1
                            &&& r matches Ok(v) && v@ == out
                        },
                        Err(f) => {
                            &&& n > 0
                            &&& vtt_write_lines(ls.drop_last(), *opts, regular) is Ok
                            &&& final(self).model() == m
                            &&& r matches Err(e) && e.is_validation(fault_message(f))
                        },
                    }
                },
    {
        let regular = match &self.source {
            SourceLines::Vtt(_) => true,
            _ => false,
        };
        let mut out = opts.prefix_bytes();
        push_all(&mut out, webvtt_header_bytes().as_slice());
        let mut ws = VttWriteState::new();
        let ghost mut n: nat = 0;
        let ghost mut ls: Seq<VttLineModel> = seq![];
        loop
            invariant
                self.wf(),
                regular == (old(self).model().source is Vtt),
                vtt_run(old(self).model(), n) == Some((ls, self.model())),
                vtt_write_lines(ls, *opts, regular) == Ok::<(Seq<u8>, VttWriteModel), WriteFault>(
                    (out@, ws@),
                ),
            decreases self.model().source.remaining(), vtt_trans_rank(self.model().buf, self.model().trans),
        {
            let ghost m = self.model();
            proof {
                assert(self.buf@.len() == self.buf.len());
                lemma_vtt_lines_next_progress(m);
            }
            let line = match self.next() {
                Some(l) => l,
                None => {
                    assert(vtt_run(old(self).model(), n) == Some((ls, m)));
                    return Ok(out);
                },
            };
            proof {
                assert(ls.push(line.deep_view()).drop_last() =~= ls);
                n = n + 1;
                ls = ls.push(line.deep_view());
            }
            match vtt_write_line(&mut ws, &line, opts, regular, &mut out) {
                Ok(()) => {},
                Err(f) => {
                    assert(vtt_run(old(self).model(), n) == Some((ls, self.model())));
                    return Err(fault_error(f));
                },
            }
        }
    }
}

/// A cue is kept exactly when it meets the write window: with a window and
/// no time moves, the timings of a cue from `s` to `e` are written unless
/// the cue is over by `start` (`e <= start`) or has not begun by `end`
/// (`end <= s`), in which case nothing is written for them.
pub proof fn lemma_vtt_write_window(ws: VttWriteModel, raw: Seq<u8>, s: Time, e: Time, opts: WriteOptions, regular: bool)
    requires
        opts.start is Some || opts.end is Some,
        opts.add_time is None,
        opts.sub_time is None,
        fits_fixed_width(s),
        fits_fixed_width(e),
    ensures
        vtt_write_step(ws, (raw, VttLineType::TimeRangeAndStyle((s, e))), opts, regular) matches Ok((out, _))
            && (out.len() == 0 <==> (opts.start matches Some(t) && !t.spec_lt(e)) || (opts.end matches Some(t)
            && !s.spec_lt(t))),
{
}

} // verus!
