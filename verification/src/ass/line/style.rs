//! The fields of style lines of SubStation Alpha scripts.
use vstd::prelude::*;

verus! {

/// A field of a `Style:` line, in the order of the `V4+ Styles` format.
#[derive(Copy, Clone, Debug, PartialEq, Eq, Structural)]
pub enum StyleLine {
    Name,
    FontName,
    FontSize,
    PrimaryColour,
    SecondaryColour,
    OutlineColor,
    BackColour,
    Bold,
    Italic,
    Underline,
    Strikeout,
    ScaleX,
    ScaleY,
    Spacing,
    Angle,
    BorderStyle,
    Outline,
    Shadow,
    Alignment,
    AlignmentAfterNumpad,
    MarginL,
    MarginR,
    MarginV,
    AlphaLevel,
    Encoding,
}

} // verus!
