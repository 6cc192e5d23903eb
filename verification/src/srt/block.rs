//! A block of SubRip lines: number, time range, text, blank.
use crate::error::{Error, Result};
use crate::srt::line::{fails_with, is_standard_range, range_fault, SrtLine, SrtLineModel, SrtLineType};
use crate::time::Time;
use vstd::prelude::*;

verus! {

/// A convenient SubRip subtitles organization. Is minimal playable part.
#[derive(Clone, Debug, PartialEq)]
pub struct SrtBlock<'a>(pub &'a [SrtLine]);

/// Index of the first line of `b[i..]` that is not text, or the length of `b`.
pub open spec fn first_non_text(b: Seq<SrtLineModel>, i: int) -> int
    decreases b.len() - i,
{
    if i >= b.len() {
        b.len() as int
    } else if b[i].1 is Text {
        first_non_text(b, i + 1)
    } else {
        i
    }
}

/// Every line of `b[i..]` is blank.
pub open spec fn all_blank_from(b: Seq<SrtLineModel>, i: int) -> bool {
    forall|k: int| i <= k < b.len() ==> (#[trigger] b[k]).1 is Blank
}

/// A standard block: a number, a standard time range, one or more text lines,
/// then one or more blank lines.
pub open spec fn block_is_standard(b: Seq<SrtLineModel>) -> bool {
    &&& b.len() >= 4
    &&& b[0].1 is Number
    &&& (b[1].1 matches SrtLineType::TimeRange(r) && is_standard_range(r))
    &&& b[2].1 is Text
    &&& b.last().1 is Blank
    &&& b[first_non_text(b, 3)].1 is Blank
    &&& all_blank_from(b, first_non_text(b, 3))
}

/// What is wrong with a block, checked in this order (see
/// [`block_is_standard`]); `None` for a standard one.
pub open spec fn block_fault(b: Seq<SrtLineModel>) -> Option<&'static str> {
    if b.len() < 4 {
        Some("length < 4")
    } else if !(b[0].1 is Number) {
        Some("first line is not number")
    } else if !(b[1].1 is TimeRange) {
        Some("second line is not time range")
    } else if range_fault(b[1].1->TimeRange_0) is Some {
        range_fault(b[1].1->TimeRange_0)
    } else if !(b[2].1 is Text) {
        Some("third line is not text")
    } else if !(b.last().1 is Blank) {
        Some("last line is not blank")
    } else if !(b[first_non_text(b, 3)].1 is Blank) {
        Some("not text or blank line after text")
    } else if !all_blank_from(b, first_non_text(b, 3)) {
        Some("not blank line after blank")
    } else {
        None
    }
}

/// The time range of the first time range line of `b[i..]`.
pub open spec fn first_time_range(b: Seq<SrtLineModel>, i: int) -> Option<(Time, Time)>
    decreases b.len() - i,
{
    if i < 0 || i >= b.len() {
        None
    } else {
        match b[i].1 {
            SrtLineType::TimeRange(r) => Some(r),
            _ => first_time_range(b, i + 1),
        }
    }
}

impl<'a> SrtBlock<'a> {
    /// The lines of the block.
    pub open spec fn lines(&self) -> Seq<SrtLineModel> {
        self.0.deep_view()
    }

    /// Returns `true` if block is non-empty and all block lines is blank.
    pub fn is_blank(&self) -> (r: bool)
        ensures
            r == (self.lines().len() > 0 && all_blank_from(self.lines(), 0)),
    {
        if self.0.len() == 0 {
            return false;
        }
        let mut i: usize = 0;
        while i < self.0.len()
            invariant
                i <= self.lines().len(),
                self.lines().len() == self.0@.len(),
                forall|k: int| 0 <= k < i ==> (#[trigger] self.lines()[k]).1 is Blank,
            decreases self.0@.len() - i,
        {
            if !self.0[i].ty.is_blank() {
                assert(!(self.lines()[i as int].1 is Blank));
                return false;
            }
            i += 1;
        }
        true
    }

    /// Same as [`SrtBlock::validate_standard`] but returns bool.
    pub fn is_standard(&self) -> (r: bool)
        ensures
            r == block_is_standard(self.lines()),
    {
        self.validate_standard().is_ok()
    }

    /// Validates a block standard.
    ///
    /// Does not checks raws.
    ///
    /// # Errors
    /// Returns an error if any following conditions is not true, checked in
    /// this order:
    /// 1. Block has at least 4 lines.
    /// 2. First block line is "number".
    /// 3. Second block line is "time range" AND start time <= end time AND
    ///    hours part < 100.
    /// 4. Third block line is "text".
    /// 5. Last block line is "blank".
    /// 6. All other block lines before a "blank" line is "text".
    /// 7. All other block lines is "blank".
    #[verifier::loop_isolation(false)]
    pub fn validate_standard(&self) -> (r: Result<()>)
        ensures
            r is Ok <==> block_is_standard(self.lines()),
            match block_fault(self.lines()) {
                Some(m) => fails_with(r, m),
                None => r is Ok,
            },
    {
        let ghost b = self.lines();
        let n = self.0.len();
        if n < 4 {
            return Err(Error::ValueValidation("length < 4"));
        }
        if !self.0[0].ty.is_number() {
            return Err(Error::ValueValidation("first line is not number"));
        }
        match self.0[1].ty {
            SrtLineType::TimeRange(_) => {
                match self.0[1].time_range_validate() {
                    Ok(()) => {},
                    Err(e) => return Err(e),
                }
            },
            _ => return Err(Error::ValueValidation("second line is not time range")),
        }
        if !self.0[2].ty.is_text() {
            return Err(Error::ValueValidation("third line is not text"));
        }
        if !self.0[n - 1].ty.is_blank() {
            return Err(Error::ValueValidation("last line is not blank"));
        }
        let mut pos: usize = 3;
        loop
            invariant
                3 <= pos < n,
                n == b.len(),
                b == self.lines(),
                b.last().1 is Blank,
                first_non_text(b, 3) == first_non_text(b, pos as int),
            decreases n - pos,
        {
            match self.0[pos].ty {
                SrtLineType::Blank => break,
                SrtLineType::Text => pos += 1,
                _ => {
                    return Err(Error::ValueValidation("not text or blank line after text"));
                },
            }
        }
        assert(first_non_text(b, 3) == pos);
        let mut k = pos;
        while k < n
            invariant
                pos <= k <= n,
                n == b.len(),
                b == self.lines(),
                forall|j: int| pos <= j < k ==> (#[trigger] b[j]).1 is Blank,
            decreases n - k,
        {
            if !self.0[k].ty.is_blank() {
                assert(!(b[k as int].1 is Blank));
                return Err(Error::ValueValidation("not blank line after blank"));
            }
            k += 1;
        }
        Ok(())
    }

    /// Like [`SrtBlock::validate_standard`], but a validation error names the
    /// line at which the block starts.
    pub fn validate_standard_at(&self, start_line: usize) -> (r: Result<()>)
        ensures
            r is Ok <==> block_is_standard(self.lines()),
            match block_fault(self.lines()) {
                Some(m) => r matches Err(Error::NonStandardBlock(p)) && p.0 == start_line && p.1@
                    == m@,
                None => r is Ok,
            },
    {
        match self.validate_standard() {
            Ok(()) => Ok(()),
            Err(Error::ValueValidation(s)) => Err(Error::NonStandardBlock((start_line, s))),
            Err(e) => Err(e),
        }
    }

    /// The time range of the first time range line of the block.
    pub fn get_time_range(&self) -> (r: Option<(Time, Time)>)
        ensures
            r == first_time_range(self.lines(), 0),
    {
        let mut i: usize = 0;
        while i < self.0.len()
            invariant
                i <= self.0@.len(),
                self.lines().len() == self.0@.len(),
                first_time_range(self.lines(), 0) == first_time_range(self.lines(), i as int),
            decreases self.0@.len() - i,
        {
            match self.0[i].ty {
                SrtLineType::TimeRange(r) => return Some(r),
                _ => {},
            }
            i += 1;
        }
        None
    }
}

} // verus!
