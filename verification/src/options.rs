//! Options of the subtitle writers.
use crate::lits::{bom, bom_bytes};
use crate::time::{lemma_order_is_length_order, Time};
use vstd::prelude::*;

verus! {

/// A subtitles write options.
#[derive(Copy, Clone, Debug)]
#[non_exhaustive]
pub struct WriteOptions {
    /// Write the UTF-8 byte order mark (BOM).
    pub bom: bool,
    /// Write events that end after `start`. Write all if `start` is None.
    pub start: Option<Time>,
    /// Write events that begin before `end`. Write all if `end` is None.
    pub end: Option<Time>,
    /// Add a time to timestamps.
    pub add_time: Option<Time>,
    /// Sub a time from timestamps.
    pub sub_time: Option<Time>,
}

impl WriteOptions {
    /// Options that write everything as it is, without a byte order mark.
    pub open spec fn is_plain(&self) -> bool {
        &&& !self.bom
        &&& self.start is None
        &&& self.end is None
        &&& self.add_time is None
        &&& self.sub_time is None
    }

    /// The options that write everything as it is, without a byte order mark.
    pub open spec fn plain() -> WriteOptions {
        WriteOptions { bom: false, start: None, end: None, add_time: None, sub_time: None }
    }

    /// Options that write everything as it is, without a byte order mark.
    pub fn new() -> (r: WriteOptions)
        ensures
            r.is_plain(),
            r == WriteOptions::plain(),
    {
        WriteOptions { bom: false, start: None, end: None, add_time: None, sub_time: None }
    }
}

impl WriteOptions {
    /// Whether any of the time settings is given.
    pub open spec fn has_time_settings(&self) -> bool {
        self.start is Some || self.end is Some || self.add_time is Some || self.sub_time is Some
    }

    /// Whether a subtitle from `start` to `end` is left out: it ends at or
    /// before `self.start`, or begins at or after `self.end`.
    pub open spec fn skips(&self, start: Time, end: Time) -> bool {
        ||| self.start matches Some(t) && end.spec_le(t)
        ||| self.end matches Some(t) && t.spec_le(start)
    }

    /// `t` moved by `add_time` and then by `sub_time`; `None` where a move
    /// leaves the range of the field types.
    pub open spec fn shift_spec(&self, t: Time) -> Option<Time> {
        let a = match self.add_time {
            Some(x) => if t.add_fits(x) {
                Some(t.add_spec(x))
            } else {
                None
            },
            None => Some(t),
        };
        match a {
            None => None,
            Some(a) => match self.sub_time {
                Some(y) => if a.sub_fits(y) {
                    Some(a.sub_spec(y))
                } else {
                    None
                },
                None => Some(a),
            },
        }
    }

    /// What the output starts with: the byte order mark if asked for.
    pub open spec fn prefix(&self) -> Seq<u8> {
        if self.bom {
            bom()
        } else {
            seq![]
        }
    }

    /// Whether any of the time settings is given.
    pub fn has_time_settings_exec(&self) -> (r: bool)
        ensures
            r == self.has_time_settings(),
    {
        self.start.is_some() || self.end.is_some() || self.add_time.is_some() || self.sub_time.is_some()
    }

    /// Whether a subtitle from `start` to `end` is left out (see [`Self::skips`]).
    pub fn skips_range(&self, start: Time, end: Time) -> (r: bool)
        ensures
            r == self.skips(start, end),
    {
        let before = match self.start {
            Some(t) => end.is_at_or_before(&t),
            None => false,
        };
        let after = match self.end {
            Some(t) => t.is_at_or_before(&start),
            None => false,
        };
        before || after
    }

    /// Moves `t` by the time settings (see [`Self::shift_spec`]).
    pub fn shift(&self, t: Time) -> (r: Option<Time>)
        ensures
            r == self.shift_spec(t),
    {
        let a = match self.add_time {
            Some(x) => t.checked_add(x),
            None => Some(t),
        };
        match a {
            None => None,
            Some(a) => match self.sub_time {
                Some(y) => a.checked_sub(y),
                None => Some(a),
            },
        }
    }

    /// The output prefix (see [`Self::prefix`]).
    pub fn prefix_bytes(&self) -> (r: Vec<u8>)
        ensures
            r@ == self.prefix(),
    {
        if self.bom {
            bom_bytes()
        } else {
            Vec::new()
        }
    }
}

/// Why writing subtitles stopped.
#[derive(Copy, Clone, Debug, PartialEq, Eq, Structural)]
pub enum WriteFault {
    /// A moved timestamp left the range of its field types, or a timestamp
    /// to be written has minutes or seconds above 99 or milliseconds above 999.
    TimeOutOfRange,
    /// The block counter reached the largest `usize`.
    TooManyBlocks,
}

/// The error message of each fault.
pub open spec fn fault_message(f: WriteFault) -> &'static str {
    match f {
        WriteFault::TimeOutOfRange => "time out of range",
        WriteFault::TooManyBlocks => "too many subtitle blocks",
    }
}

/// The library error of a fault.
pub fn fault_error(f: WriteFault) -> (r: crate::error::Error)
    ensures
        r.is_validation(fault_message(f)),
{
    match f {
        WriteFault::TimeOutOfRange => crate::error::Error::ValueValidation("time out of range"),
        WriteFault::TooManyBlocks => crate::error::Error::ValueValidation("too many subtitle blocks"),
    }
}

impl Default for WriteOptions {
    fn default() -> (r: WriteOptions)
        ensures
            r.is_plain(),
    {
        WriteOptions::new()
    }
}

/// The write window: a subtitle from `s` to `e` is left out exactly when
/// it is over by the start of the window (it ends at or before `start`) or
/// has not begun by its end (it begins at or after `end`). So a subtitle
/// that begins before `start` and is still on screen after it is written.
pub proof fn lemma_skips_window(opts: WriteOptions, s: Time, e: Time)
    ensures
        opts.skips(s, e) <==> (opts.start matches Some(t) && !t.spec_lt(e)) || (opts.end matches Some(
            t,
        ) && !s.spec_lt(t)),
{
}

/// The write window in milliseconds: on well-formed times a subtitle is
/// left out exactly when `e <= start` or `end <= s`.
pub proof fn lemma_skips_window_millis(opts: WriteOptions, s: Time, e: Time)
    requires
        s.is_valid(),
        e.is_valid(),
        opts.start matches Some(t) ==> t.is_valid(),
        opts.end matches Some(t) ==> t.is_valid(),
    ensures
        opts.skips(s, e) <==> (opts.start matches Some(t) && e.total_millis() <= t.total_millis()) || (
        opts.end matches Some(t) && t.total_millis() <= s.total_millis()),
{
    if let Some(t) = opts.start {
        lemma_order_is_length_order(e, t);
    }
    if let Some(t) = opts.end {
        lemma_order_is_length_order(t, s);
    }
}

} // verus!
