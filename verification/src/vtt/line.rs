//! One line of WebVTT subtitles.
use crate::byte_helpers::{words, words_spec};
use crate::srt::line::{get_time_range, parse_time_range};
use crate::time::Time;
use vstd::prelude::*;

verus! {

/// What a WebVTT line is.
#[derive(Copy, Clone, Debug, PartialEq, Eq)]
pub enum VttLineType {
    /// The `WEBVTT` line that opens a file.
    VttFileMark,
    /// Only whitespace.
    Blank,
    /// A `NOTE` line or a line inside a note; the text of the note starts at
    /// the given index of the line.
    Comment(usize),
    /// `REGION`.
    RegionMark,
    /// `STYLE`.
    StyleMark,
    /// A line inside a region definition.
    Region,
    /// A line inside a style sheet.
    Style,
    /// The identifier of a cue.
    CueId,
    /// The timings of a cue, with its settings.
    TimeRangeAndStyle((Time, Time)),
    /// A line of cue text.
    Text,
    /// A line of cue metadata.
    Metadata,
    /// Anything else.
    Unrecognized,
}

/// One line of WebVTT subtitles: its bytes and what they are.
#[derive(Clone, Debug, PartialEq)]
pub struct VttLine {
    pub raw: Vec<u8>,
    pub ty: VttLineType,
}

/// A line as the specifications see it: its bytes and its type.
pub type VttLineModel = (Seq<u8>, VttLineType);

impl DeepView for VttLine {
    type V = VttLineModel;

    open spec fn deep_view(&self) -> VttLineModel {
        (self.raw@, self.ty)
    }
}

impl VttLine {
    /// A line of the given type over a copy of `bytes`.
    pub fn new_with_ty(bytes: &[u8], ty: VttLineType) -> (r: VttLine)
        ensures
            r.deep_view() == (bytes@, ty),
    {
        VttLine { raw: vstd::slice::slice_to_vec(bytes), ty }
    }

    /// Returns bytes of source line.
    pub fn as_bytes(&self) -> (r: &[u8])
        ensures
            r@ == self.raw@,
    {
        self.raw.as_slice()
    }

    /// The text of a comment line.
    pub fn comment_text(&self) -> (r: Option<&[u8]>)
        ensures
            r matches Some(t) ==> (self.ty matches VttLineType::Comment(off) && off <= self.raw@.len()
                && t@ == self.raw@.skip(off as int)),
            r is None ==> !(self.ty is Comment) || (self.ty matches VttLineType::Comment(off)
                && off > self.raw@.len()),
    {
        match self.ty {
            VttLineType::Comment(off) => if off <= self.raw.len() {
                Some(&self.raw.as_slice()[off..self.raw.len()])
            } else {
                None
            },
            _ => None,
        }
    }

    /// The words of a text line.
    pub fn text(&self) -> (r: Vec<Vec<u8>>)
        ensures
            r@.map_values(|w: Vec<u8>| w@) == words_spec(self.raw@),
    {
        words(self.raw.as_slice())
    }

    /// Gets cue start time if line is a time range.
    pub fn get_start(&self) -> (r: Option<Time>)
        ensures
            r == (match self.ty {
                VttLineType::TimeRangeAndStyle(tr) => Some(tr.0),
                _ => None::<Time>,
            }),
    {
        match self.ty {
            VttLineType::TimeRangeAndStyle((start, _)) => Some(start),
            _ => None,
        }
    }

    /// Gets cue end time if line is a time range.
    pub fn get_end(&self) -> (r: Option<Time>)
        ensures
            r == (match self.ty {
                VttLineType::TimeRangeAndStyle(tr) => Some(tr.1),
                _ => None::<Time>,
            }),
    {
        match self.ty {
            VttLineType::TimeRangeAndStyle((_, end)) => Some(end),
            _ => None,
        }
    }
}

/// The cue timings of a line, if it holds a time range (see
/// [`parse_time_range`]).
pub fn get_time_range_and_style(bytes: &[u8]) -> (r: Option<(Time, Time)>)
    ensures
        r == parse_time_range(bytes@),
{
    get_time_range(bytes)
}

} // verus!
