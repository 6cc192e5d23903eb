//! Writing SubRip subtitles: numbered blocks, each with its time range and
//! text lines, separated by blank lines.
use crate::byte_helpers::{dec_digits, push_all, push_decimal, trim, trim_spec};
use crate::error::Result;
use crate::lits::{arrow, arrow_bytes};
use crate::options::{fault_error, fault_message, WriteFault, WriteOptions};
use crate::srt::it::{lemma_srt_lines_next_progress, srt_lines_next, srt_trans_rank, SrtLines, SrtLinesModel};
use crate::srt::line::{SrtLine, SrtLineModel, SrtLineType};
use crate::time::bufs::{fits_fixed_width, push_srt_time, srt_time_spec};
use crate::time::Time;
use vstd::prelude::*;

verus! {

/// Where a SubRip writer is: the number of the next block, whether the
/// header of the current block is written, and the (moved) time range of
/// the current block.
#[derive(Copy, Clone, Debug)]
pub struct SrtWriteState {
    pub number: usize,
    pub header: bool,
    pub range: Option<(Time, Time)>,
}

impl SrtWriteState {
    /// Before the first line: block 1, nothing written.
    pub open spec fn initial() -> SrtWriteState {
        SrtWriteState { number: 1, header: false, range: None }
    }

    /// Before the first line (see [`Self::initial`]).
    pub fn new() -> (r: SrtWriteState)
        ensures
            r == SrtWriteState::initial(),
    {
        SrtWriteState { number: 1, header: false, range: None }
    }
}

/// `\n`.
pub open spec fn newline() -> Seq<u8> {
    seq![0x0Au8]
}

/// The header of block `number`: a blank line before every block but the
/// first, the number, and the time range.
pub open spec fn srt_header(number: usize, start: Time, end: Time) -> Seq<u8> {
    (if number > 1 {
        newline()
    } else {
        seq![]
    }) + dec_digits(number as nat) + newline() + srt_time_spec(start) + arrow() + srt_time_spec(
        end,
    ) + newline()
}

/// What writing the line `l` in state `ws` adds to the output, and the state
/// after it. A blank line ends a block. A time range left out by `opts`
/// drops the block; another is moved by `opts` and starts a block. A number
/// or text line of a block is written trimmed, after the block header if
/// that is not written yet; outside a block it is dropped.
pub open spec fn srt_write_step(ws: SrtWriteState, l: SrtLineModel, opts: WriteOptions) -> core::result::Result<
    (Seq<u8>, SrtWriteState),
    WriteFault,
> {
    match l.1 {
        SrtLineType::Blank => Ok((seq![], SrtWriteState { header: false, range: None, ..ws })),
        SrtLineType::TimeRange((s, e)) => if opts.skips(s, e) {
            Ok((seq![], SrtWriteState { header: false, range: None, ..ws }))
        } else {
            match (opts.shift_spec(s), opts.shift_spec(e)) {
                (Some(s2), Some(e2)) => Ok(
                    (seq![], SrtWriteState { range: Some((s2, e2)), ..ws }),
                ),
                _ => Err(WriteFault::TimeOutOfRange),
            }
        },
        _ => {
            let text = trim_spec(l.0) + newline();
            if ws.header {
                Ok((text, ws))
            } else {
                match ws.range {
                    None => Ok((seq![], ws)),
                    Some((s, e)) => if !fits_fixed_width(s) || !fits_fixed_width(e) {
                        Err(WriteFault::TimeOutOfRange)
                    } else if ws.number == usize::MAX {
                        Err(WriteFault::TooManyBlocks)
                    } else {
                        Ok(
                            (
                                srt_header(ws.number, s, e) + text,
                                SrtWriteState {
                                    number: (ws.number + 1) as usize,
                                    header: true,
                                    ..ws
                                },
                            ),
                        )
                    },
                }
            }
        },
    }
}

/// The output of writing the lines `ls` with `opts`, and the state after
/// them; the first fault stops it.
pub open spec fn srt_write_lines(ls: Seq<SrtLineModel>, opts: WriteOptions) -> core::result::Result<
    (Seq<u8>, SrtWriteState),
    WriteFault,
>
    decreases ls.len(),
{
    if ls.len() == 0 {
        Ok((opts.prefix(), SrtWriteState::initial()))
    } else {
        match srt_write_lines(ls.drop_last(), opts) {
            Err(f) => Err(f),
            Ok((out, ws)) => match srt_write_step(ws, ls.last(), opts) {
                Err(f) => Err(f),
                Ok((more, ws2)) => Ok((out + more, ws2)),
            },
        }
    }
}

/// The first `n` lines that lines in state `m` give, and their state after
/// them; `None` if they end before.
pub open spec fn srt_run(m: SrtLinesModel, n: nat) -> Option<(Seq<SrtLineModel>, SrtLinesModel)>
    decreases n,
{
    if n == 0 {
        Some((seq![], m))
    } else {
        match srt_run(m, (n - 1) as nat) {
            None => None,
            Some((ls, m1)) => match srt_lines_next(m1) {
                (Some(l), m2) => Some((ls.push(l), m2)),
                (None, _) => None,
            },
        }
    }
}

/// Writes the line `line` in state `ws` (see [`srt_write_step`]).
pub fn srt_write_line(
    ws: &mut SrtWriteState,
    line: &SrtLine,
    opts: &WriteOptions,
    out: &mut Vec<u8>,
) -> (r: core::result::Result<(), WriteFault>)
    ensures
        match srt_write_step(*old(ws), line.deep_view(), *opts) {
            Ok((more, ws2)) => r is Ok && final(out)@ == old(out)@ + more && *final(ws) == ws2,
            Err(f) => r == Err::<(), WriteFault>(f),
        },
{
    match line.ty {
        SrtLineType::Blank => {
            ws.header = false;
            ws.range = None;
            Ok(())
        },
        SrtLineType::TimeRange((s, e)) => {
            if opts.skips_range(s, e) {
                ws.header = false;
                ws.range = None;
                return Ok(());
            }
            match (opts.shift(s), opts.shift(e)) {
                (Some(s2), Some(e2)) => {
                    ws.range = Some((s2, e2));
                    Ok(())
                },
                _ => Err(WriteFault::TimeOutOfRange),
            }
        },
        _ => {
            if !ws.header {
                match ws.range {
                    None => return Ok(()),
                    Some((s, e)) => {
                        if !(s.mins < 100 && s.secs < 100 && s.millis < 1000) || !(e.mins < 100
                            && e.secs < 100 && e.millis < 1000) {
                            return Err(WriteFault::TimeOutOfRange);
                        }
                        if ws.number == usize::MAX {
                            return Err(WriteFault::TooManyBlocks);
                        }
                        let ghost before = out@;
                        if ws.number > 1 {
                            out.push(0x0Au8);
                        }
                        push_decimal(out, ws.number as u64);
                        out.push(0x0Au8);
                        push_srt_time(out, s);
                        push_all(out, arrow_bytes().as_slice());
                        push_srt_time(out, e);
                        out.push(0x0Au8);
                        assert(out@ =~= before + srt_header(ws.number, s, e));
                        ws.number = ws.number + 1;
                        ws.header = true;
                    },
                }
            }
            let ghost before = out@;
            push_all(out, trim(line.raw.as_slice()));
            out.push(0x0Au8);
            assert(out@ =~= before + (trim_spec(line.raw@) + newline()));
            Ok(())
        },
    }
}

impl SrtLines {
    /// Writes all lines that are left, with `opts`, and returns the bytes:
    /// the byte order mark if asked for, then each line as
    /// [`srt_write_step`] says. Stops at the first fault, with a value
    /// validation error that names it.
    pub fn write_to_bytes_with(&mut self, opts: &WriteOptions) -> (r: Result<Vec<u8>>)
        requires
            old(self).wf(),
        ensures
            final(self).wf(),
            exists|n: nat|
                #![trigger srt_run(old(self).model(), n)]
                {
                    &&& srt_run(old(self).model(), n) matches Some((ls, m))
                    &&& match srt_write_lines(ls, *opts) {
                        Ok((out, _)) => {
                            &&& srt_lines_next(m).0 is None
                            &&& final(self).model() == srt_lines_next(m).1
                            &&& r matches Ok(v) && v@ == out
                        },
                        Err(f) => {
                            &&& n > 0
                            &&& srt_write_lines(ls.drop_last(), *opts) is Ok
                            &&& final(self).model() == m
                            &&& r matches Err(e) && e.is_validation(fault_message(f))
                        },
                    }
                },
    {
        let mut out = opts.prefix_bytes();
        let mut ws = SrtWriteState::new();
        let ghost mut n: nat = 0;
        let ghost mut ls: Seq<SrtLineModel> = seq![];
        loop
            invariant
                self.wf(),
                srt_run(old(self).model(), n) == Some((ls, self.model())),
                srt_write_lines(ls, *opts) == Ok::<(Seq<u8>, SrtWriteState), WriteFault>((out@, ws)),
            decreases self.model().source.remaining(), srt_trans_rank(self.model().buf, self.model().trans),
        {
            let ghost m = self.model();
            proof {
                assert(self.buf@.len() == self.buf.len());
                lemma_srt_lines_next_progress(m);
            }
            let line = match self.next() {
                Some(l) => l,
                None => {
                    assert(srt_run(old(self).model(), n) == Some((ls, m)));
                    return Ok(out);
                },
            };
            proof {
                assert(ls.push(line.deep_view()).drop_last() =~= ls);
                n = n + 1;
                ls = ls.push(line.deep_view());
            }
            match srt_write_line(&mut ws, &line, opts, &mut out) {
                Ok(()) => {},
                Err(f) => {
                    assert(srt_run(old(self).model(), n) == Some((ls, self.model())));
                    return Err(fault_error(f));
                },
            }
        }
    }
}

/// A block is kept exactly when it meets the write window: with no time
/// moves, a time range from `s` to `e` starts a block to be written (its
/// times kept) unless it is over by `start` (`e <= start`) or has not begun
/// by `end` (`end <= s`), in which case the block is dropped.
pub proof fn lemma_srt_write_window(ws: SrtWriteState, raw: Seq<u8>, s: Time, e: Time, opts: WriteOptions)
    requires
        opts.add_time is None,
        opts.sub_time is None,
    ensures
        srt_write_step(ws, (raw, SrtLineType::TimeRange((s, e))), opts) == Ok::<(Seq<u8>, SrtWriteState), WriteFault>(
            (
                seq![],
                if (opts.start matches Some(t) && !t.spec_lt(e)) || (opts.end matches Some(t) && !s.spec_lt(t)) {
                    SrtWriteState { header: false, range: None, ..ws }
                } else {
                    SrtWriteState { range: Some((s, e)), ..ws }
                },
            ),
        ),
{
}

} // verus!
