//! One line of SubRip subtitles and the parsing of its timestamps.
use crate::byte_helpers::{
    find_byte, find_byte_from, all_digits, get_u16, get_u8, is_all_digits, parse_u16_spec, parse_u8_spec, trim, trim_end,
    trim_end_spec, trim_spec, trim_start, trim_start_spec,
};
use crate::error::{Error, Result};
use crate::time::Time;
use vstd::prelude::*;

verus! {

/// What a SubRip line is.
#[derive(Copy, Clone, Debug, PartialEq, Eq)]
pub enum SrtLineType {
    /// Only whitespace.
    Blank,
    /// Only decimal digits once trimmed: a block number.
    Number,
    /// `start --> end`.
    TimeRange((Time, Time)),
    /// Anything else.
    Text,
}

/// One line of SubRip subtitles: its bytes as they were read, and what they are.
#[derive(Clone, Debug, PartialEq)]
pub struct SrtLine {
    pub raw: Vec<u8>,
    pub ty: SrtLineType,
}

/// A line as the specifications see it: its bytes and its type.
pub type SrtLineModel = (Seq<u8>, SrtLineType);

impl DeepView for SrtLine {
    type V = SrtLineModel;

    open spec fn deep_view(&self) -> SrtLineModel {
        (self.raw@, self.ty)
    }
}

/// Whether a byte separates seconds from milliseconds: a comma or a full stop.
pub open spec fn is_millis_sep(b: u8) -> bool {
    b == 0x2Cu8 || b == 0x2Eu8
}

/// Index of the first comma or full stop in `s[i..]`, or the length of `s`.
pub open spec fn find_millis_sep(s: Seq<u8>, i: int) -> int
    decreases s.len() - i,
{
    if i >= s.len() {
        s.len() as int
    } else if is_millis_sep(s[i]) {
        i
    } else {
        find_millis_sep(s, i + 1)
    }
}

/// Whether `-->` starts at index `k` of `s`.
pub open spec fn is_arrow_at(s: Seq<u8>, k: int) -> bool {
    0 <= k && k + 3 <= s.len() && s[k] == 0x2Du8 && s[k + 1] == 0x2Du8 && s[k + 2] == 0x3Eu8
}

/// Index of the first `-->` in `s[i..]`, or -1.
pub open spec fn find_arrow(s: Seq<u8>, i: int) -> int
    decreases s.len() - i,
{
    if i < 0 || i + 3 > s.len() {
        -1
    } else if is_arrow_at(s, i) {
        i
    } else {
        find_arrow(s, i + 1)
    }
}

/// A timestamp `H:M:S,mmm` (or `H:M:S.mmm`): the text is split at colons;
/// the first part is the hours, the second the minutes, the third holds the
/// seconds, then a comma or full stop, then up to three digits of
/// milliseconds; anything after a third colon is ignored. The fields must be
/// numbers in range (minutes and seconds below 60, milliseconds below 1000).
pub open spec fn parse_srt_time(s: Seq<u8>) -> Option<Time> {
    let c1 = find_byte(s, 0x3Au8, 0);
    let c2 = find_byte(s, 0x3Au8, c1 + 1);
    let c3 = find_byte(s, 0x3Au8, c2 + 1);
    if c1 >= s.len() || c2 >= s.len() {
        None
    } else {
        let sec_ms = s.subrange(c2 + 1, c3);
        let sep = find_millis_sep(sec_ms, 0);
        if sep >= sec_ms.len() {
            None
        } else {
            let millis_b = sec_ms.subrange(sep, sec_ms.len() as int);
            let mend: int = if millis_b.len() < 4 {
                millis_b.len() as int
            } else {
                4
            };
            match (
                parse_u16_spec(s.subrange(0, c1)),
                parse_u8_spec(s.subrange(c1 + 1, c2)),
                parse_u8_spec(sec_ms.subrange(0, sep)),
                parse_u16_spec(millis_b.subrange(1, mend)),
            ) {
                (Some(h), Some(m), Some(sec), Some(ms)) => if m < 60 && sec < 60 && ms < 1000 {
                    Some(Time { hours: h, mins: m, secs: sec, millis: ms })
                } else {
                    None
                },
                _ => None,
            }
        }
    }
}

/// A time range `start --> end`: the text before the first `-->` and the
/// text after it, each trimmed of whitespace next to the arrow, must be
/// timestamps; the text from the arrow on must be at least eight bytes long.
pub open spec fn parse_time_range(t: Seq<u8>) -> Option<(Time, Time)> {
    let p = find_arrow(t, 0);
    if p < 0 || t.len() - p < 8 {
        None
    } else {
        let left = trim_end_spec(t.subrange(0, p));
        let right = trim_start_spec(t.subrange(p + 3, t.len() as int));
        match (parse_srt_time(left), parse_srt_time(right)) {
            (Some(a), Some(b)) => Some((a, b)),
            _ => None,
        }
    }
}

/// What a SubRip line is, judged on its bytes without surrounding whitespace:
/// nothing left is a blank line; only digits is a number; a time range is a
/// time range; anything else is text.
pub open spec fn srt_line_type(raw: Seq<u8>) -> SrtLineType {
    let t = trim_spec(raw);
    if t.len() == 0 {
        SrtLineType::Blank
    } else if all_digits(t) {
        SrtLineType::Number
    } else {
        match parse_time_range(t) {
            Some(r) => SrtLineType::TimeRange(r),
            None => SrtLineType::Text,
        }
    }
}

/// The length of the line break that ends `s`: two for `\r\n`, one for
/// `\n` or `\r`, zero if there is none.
pub open spec fn line_break_len(s: Seq<u8>) -> int {
    if s.len() >= 2 && s[s.len() - 2] == 0x0Du8 && s[s.len() - 1] == 0x0Au8 {
        2
    } else if s.len() >= 1 && (s[s.len() - 1] == 0x0Au8 || s[s.len() - 1] == 0x0Du8) {
        1
    } else {
        0
    }
}

/// `s` holds a line break before its final one.
pub open spec fn has_inner_line_break(s: Seq<u8>) -> bool {
    exists|k: int|
        0 <= k < s.len() - line_break_len(s) && (#[trigger] s[k] == 0x0Au8 || s[k] == 0x0Du8)
}

/// A time range follows the standard: its start is not after its end and
/// both hours are below 100.
pub open spec fn is_standard_range(r: (Time, Time)) -> bool {
    r.0.hours < 100 && r.1.hours < 100 && r.0.spec_le(r.1)
}

/// What is wrong with a time range, checked in this order: hours of 100 or
/// more, or a start after the end; `None` for a standard one.
pub open spec fn range_fault(r: (Time, Time)) -> Option<&'static str> {
    if r.0.hours >= 100 || r.1.hours >= 100 {
        Some("hours part >= 100")
    } else if !r.0.spec_le(r.1) {
        Some("start time > end time")
    } else {
        None
    }
}

/// The message of a failed check that names `msg`.
pub open spec fn fails_with<T>(r: Result<T>, msg: &'static str) -> bool {
    r matches Err(e) && e.is_validation(msg)
}

fn find_millis_sep_in(data: &[u8]) -> (r: usize)
    ensures
        r as int == find_millis_sep(data@, 0),
        r <= data@.len(),
{
    let mut i: usize = 0;
    while i < data.len() && data[i] != 0x2Cu8 && data[i] != 0x2Eu8
        invariant
            i <= data@.len(),
            find_millis_sep(data@, 0) == find_millis_sep(data@, i as int),
        decreases data@.len() - i,
    {
        i += 1;
    }
    i
}

/// Index of the first `-->` in `data`, if there is one.
pub fn find_arrow_in(data: &[u8]) -> (r: Option<usize>)
    ensures
        r matches Some(p) ==> p as int == find_arrow(data@, 0) && is_arrow_at(data@, p as int),
        r is None ==> find_arrow(data@, 0) == -1,
{
    if data.len() < 3 {
        return None;
    }
    let mut i: usize = 0;
    while i < data.len() - 2
        invariant
            data@.len() >= 3,
            i <= data@.len() - 2,
            find_arrow(data@, 0) == find_arrow(data@, i as int),
        decreases data@.len() - i,
    {
        if data[i] == 0x2Du8 && data[i + 1] == 0x2Du8 && data[i + 2] == 0x3Eu8 {
            return Some(i);
        }
        i += 1;
    }
    None
}

/// Parses a timestamp `H:M:S,mmm` (see [`parse_srt_time`]).
pub fn get_time(data: &[u8]) -> (r: Option<Time>)
    ensures
        r == parse_srt_time(data@),
{
    let c1 = find_byte_from(data, 0x3Au8, 0);
    if c1 >= data.len() {
        return None;
    }
    let c2 = find_byte_from(data, 0x3Au8, c1 + 1);
    if c2 >= data.len() {
        return None;
    }
    let c3 = find_byte_from(data, 0x3Au8, c2 + 1);
    let sec_ms = &data[c2 + 1..c3];
    let sep = find_millis_sep_in(sec_ms);
    if sep >= sec_ms.len() {
        return None;
    }
    let millis_b = &sec_ms[sep..sec_ms.len()];
    let mend = if millis_b.len() < 4 {
        millis_b.len()
    } else {
        4
    };
    let hours = match get_u16(&data[0..c1]) {
        Some(v) => v,
        None => return None,
    };
    let mins = match get_u8(&data[c1 + 1..c2]) {
        Some(v) => v,
        None => return None,
    };
    let secs = match get_u8(&sec_ms[0..sep]) {
        Some(v) => v,
        None => return None,
    };
    let millis = match get_u16(&millis_b[1..mend]) {
        Some(v) => v,
        None => return None,
    };
    match Time::new(hours, mins, secs, millis) {
        Ok(t) => Some(t),
        Err(_) => None,
    }
}

/// Parses a time range `start --> end` (see [`parse_time_range`]).
pub fn get_time_range(data: &[u8]) -> (r: Option<(Time, Time)>)
    ensures
        r == parse_time_range(data@),
{
    let p = match find_arrow_in(data) {
        Some(p) => p,
        None => return None,
    };
    if data.len() - p < 8 {
        return None;
    }
    let left = trim_end(&data[0..p]);
    let right = trim_start(&data[p + 3..data.len()]);
    let a = match get_time(left) {
        Some(t) => t,
        None => return None,
    };
    let b = match get_time(right) {
        Some(t) => t,
        None => return None,
    };
    Some((a, b))
}

/// Length of the line break that ends `data` (see [`line_break_len`]).
fn get_line_break_len(data: &[u8]) -> (r: usize)
    ensures
        r as int == line_break_len(data@),
{
    let n = data.len();
    if n >= 2 && data[n - 2] == 0x0Du8 && data[n - 1] == 0x0Au8 {
        2
    } else if n >= 1 && (data[n - 1] == 0x0Au8 || data[n - 1] == 0x0Du8) {
        1
    } else {
        0
    }
}

/// Whether `data` holds a line break before its final one.
fn holds_inner_line_break(data: &[u8]) -> (r: bool)
    ensures
        r == has_inner_line_break(data@),
{
    let end = data.len() - get_line_break_len(data);
    let mut i: usize = 0;
    while i < end
        invariant
            end == data@.len() - line_break_len(data@),
            i <= end,
            forall|k: int| 0 <= k < i ==> !(#[trigger] data@[k] == 0x0Au8 || data@[k] == 0x0Du8),
        decreases end - i,
    {
        if data[i] == 0x0Au8 || data[i] == 0x0Du8 {
            return true;
        }
        i += 1;
    }
    false
}

impl SrtLine {
    /// The line as [`SrtLine::try_new`] accepts it: one line that ends with
    /// its line break, whose time range (if it is one) is standard.
    pub open spec fn is_standard_line(raw: Seq<u8>) -> bool {
        &&& line_break_len(raw) > 0
        &&& !has_inner_line_break(raw)
        &&& (srt_line_type(raw) matches SrtLineType::TimeRange(r) ==> is_standard_range(r))
    }

    /// Constructs a line and infers its type.
    pub fn new(bytes: &[u8]) -> (r: SrtLine)
        ensures
            r.raw@ == bytes@,
            r.ty == srt_line_type(bytes@),
    {
        let t = trim(bytes);
        let ty = if t.len() == 0 {
            SrtLineType::Blank
        } else if is_all_digits(t) {
            SrtLineType::Number
        } else {
            match get_time_range(t) {
                Some(r) => SrtLineType::TimeRange(r),
                None => SrtLineType::Text,
            }
        };
        SrtLine { raw: vstd::slice::slice_to_vec(bytes), ty }
    }

    /// An empty line of a given type.
    pub fn empty(ty: SrtLineType) -> (r: SrtLine)
        ensures
            r.raw@ == Seq::<u8>::empty(),
            r.ty == ty,
            r.deep_view() == (Seq::<u8>::empty(), ty),
    {
        SrtLine { raw: Vec::new(), ty }
    }

    /// Constructs a line of a given type.
    pub fn new_with_ty(bytes: &[u8], ty: SrtLineType) -> (r: SrtLine)
        ensures
            r.raw@ == bytes@,
            r.ty == ty,
    {
        SrtLine { raw: vstd::slice::slice_to_vec(bytes), ty }
    }

    /// Constructs a line and infers its type, checking that it is one whole
    /// line of standard subtitles.
    ///
    /// # Errors
    /// Returns an error, in this order, if the bytes do not end with a line
    /// break, if they hold a line break before it, or if they are a time
    /// range that is not standard (see [`SrtLine::time_range_validate`]).
    pub fn try_new(bytes: &[u8]) -> (r: Result<SrtLine>)
        ensures
            r matches Ok(l) ==> l.raw@ == bytes@ && l.ty == srt_line_type(bytes@),
            r is Ok <==> Self::is_standard_line(bytes@),
            line_break_len(bytes@) == 0 ==> (r matches Err(e) && e.is_validation(
                "line does not end with a line break",
            )),
            line_break_len(bytes@) > 0 && has_inner_line_break(bytes@) ==> (r matches Err(e)
                && e.is_validation("line holds more than one line break")),
            line_break_len(bytes@) > 0 && !has_inner_line_break(bytes@) ==> match srt_line_type(
                bytes@,
            ) {
                SrtLineType::TimeRange(tr) => match range_fault(tr) {
                    Some(m) => fails_with(r, m),
                    None => r is Ok,
                },
                _ => r is Ok,
            },
    {
        if get_line_break_len(bytes) == 0 {
            return Err(Error::ValueValidation("line does not end with a line break"));
        }
        if holds_inner_line_break(bytes) {
            return Err(Error::ValueValidation("line holds more than one line break"));
        }
        let line = Self::new(bytes);
        match line.time_range_validate() {
            Ok(()) => Ok(line),
            Err(e) => Err(e),
        }
    }

    /// Checks a time range line: its start must not be after its end and both
    /// hours must be below 100. Other lines pass.
    pub fn time_range_validate(&self) -> (r: Result<()>)
        ensures
            r is Ok <==> (self.ty matches SrtLineType::TimeRange(tr) ==> is_standard_range(tr)),
            match self.ty {
                SrtLineType::TimeRange(tr) => match range_fault(tr) {
                    Some(m) => fails_with(r, m),
                    None => r is Ok,
                },
                _ => r is Ok,
            },
    {
        match self.ty {
            SrtLineType::TimeRange((start, end)) => {
                if start.hours >= 100 || end.hours >= 100 {
                    Err(Error::ValueValidation("hours part >= 100"))
                } else if !start.is_at_or_before(&end) {
                    Err(Error::ValueValidation("start time > end time"))
                } else {
                    Ok(())
                }
            },
            _ => Ok(()),
        }
    }

    /// Returns bytes of source line.
    pub fn as_bytes(&self) -> (r: &[u8])
        ensures
            r@ == self.raw@,
    {
        self.raw.as_slice()
    }

    /// Gets subtitle start time if line is a time range.
    pub fn get_start(&self) -> (r: Option<Time>)
        ensures
            r == (match self.ty {
                SrtLineType::TimeRange(tr) => Some(tr.0),
                _ => None::<Time>,
            }),
    {
        match self.ty {
            SrtLineType::TimeRange((start, _)) => Some(start),
            _ => None,
        }
    }

    /// Gets subtitle end time if line is a time range.
    pub fn get_end(&self) -> (r: Option<Time>)
        ensures
            r == (match self.ty {
                SrtLineType::TimeRange(tr) => Some(tr.1),
                _ => None::<Time>,
            }),
    {
        match self.ty {
            SrtLineType::TimeRange((_, end)) => Some(end),
            _ => None,
        }
    }
}

impl SrtLineType {
    pub fn is_blank(&self) -> (r: bool)
        ensures
            r == (*self is Blank),
    {
        matches!(self, SrtLineType::Blank)
    }

    pub fn is_number(&self) -> (r: bool)
        ensures
            r == (*self is Number),
    {
        matches!(self, SrtLineType::Number)
    }

    pub fn is_text(&self) -> (r: bool)
        ensures
            r == (*self is Text),
    {
        matches!(self, SrtLineType::Text)
    }

    /// A time range that follows the standard (see [`is_standard_range`]).
    pub fn is_standard_time_range(&self) -> (r: bool)
        ensures
            r == (*self matches SrtLineType::TimeRange(tr) && is_standard_range(tr)),
    {
        match self {
            SrtLineType::TimeRange((start, end)) => start.hours < 100 && end.hours < 100
                && start.is_at_or_before(end),
            _ => false,
        }
    }
}

} // verus!
