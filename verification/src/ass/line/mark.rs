//! Section marks of SubStation Alpha scripts.
use crate::byte_helpers::bytes_eq;
use crate::lits::{events, events_bytes, events_mark, events_mark_bytes, fonts, fonts_bytes, fonts_mark, fonts_mark_bytes, graphics, graphics_bytes, graphics_mark, graphics_mark_bytes, script_info, script_info_bytes, script_info_mark, script_info_mark_bytes, v4_plus_styles, v4_plus_styles_bytes, v4_plus_styles_mark, v4_plus_styles_mark_bytes, v4_styles, v4_styles_bytes, v4_styles_mark, v4_styles_mark_bytes, v4_styles_plus, v4_styles_plus_bytes, v4_styles_plus_mark, v4_styles_plus_mark_bytes};
use vstd::prelude::*;

verus! {

/// A section of a SubStation Alpha script. The styles section of version
/// 4+ is written `[v4 Styles+]` or `[V4+ Styles]`; each spelling is kept.
#[derive(Copy, Clone, Debug, PartialEq, Eq, Structural)]
pub enum SectionMark {
    ScriptInfo,
    V4Styles,
    V4StylesPlus,
    V4PlusStyles,
    Events,
    Fonts,
    Graphics,
}

/// The section that the name between the brackets of a mark names.
pub open spec fn mark_from_spec(bs: Seq<u8>) -> Option<SectionMark> {
    if bs == v4_styles() {
        Some(SectionMark::V4Styles)
    } else if bs == v4_styles_plus() {
        Some(SectionMark::V4StylesPlus)
    } else if bs == v4_plus_styles() {
        Some(SectionMark::V4PlusStyles)
    } else if bs == events() {
        Some(SectionMark::Events)
    } else if bs == fonts() {
        Some(SectionMark::Fonts)
    } else if bs == graphics() {
        Some(SectionMark::Graphics)
    } else if bs == script_info() {
        Some(SectionMark::ScriptInfo)
    } else {
        None
    }
}

impl SectionMark {
    /// The line that opens the section.
    pub open spec fn bytes_spec(self) -> Seq<u8> {
        match self {
            SectionMark::ScriptInfo => script_info_mark(),
            SectionMark::V4Styles => v4_styles_mark(),
            SectionMark::V4StylesPlus => v4_styles_plus_mark(),
            SectionMark::V4PlusStyles => v4_plus_styles_mark(),
            SectionMark::Events => events_mark(),
            SectionMark::Fonts => fonts_mark(),
            SectionMark::Graphics => graphics_mark(),
        }
    }

    /// The section that `bs`, the text between the brackets, names.
    pub fn get_from_bytes(bs: &[u8]) -> (r: Option<SectionMark>)
        ensures
            r == mark_from_spec(bs@),
    {
        if bytes_eq(bs, v4_styles_bytes().as_slice()) {
            Some(SectionMark::V4Styles)
        } else if bytes_eq(bs, v4_styles_plus_bytes().as_slice()) {
            Some(SectionMark::V4StylesPlus)
        } else if bytes_eq(bs, v4_plus_styles_bytes().as_slice()) {
            Some(SectionMark::V4PlusStyles)
        } else if bytes_eq(bs, events_bytes().as_slice()) {
            Some(SectionMark::Events)
        } else if bytes_eq(bs, fonts_bytes().as_slice()) {
            Some(SectionMark::Fonts)
        } else if bytes_eq(bs, graphics_bytes().as_slice()) {
            Some(SectionMark::Graphics)
        } else if bytes_eq(bs, script_info_bytes().as_slice()) {
            Some(SectionMark::ScriptInfo)
        } else {
            None
        }
    }

    /// The line that opens the section.
    pub fn as_bytes(&self) -> (r: Vec<u8>)
        ensures
            r@ == self.bytes_spec(),
    {
        match self {
            SectionMark::ScriptInfo => script_info_mark_bytes(),
            SectionMark::V4Styles => v4_styles_mark_bytes(),
            SectionMark::V4StylesPlus => v4_styles_plus_mark_bytes(),
            SectionMark::V4PlusStyles => v4_plus_styles_mark_bytes(),
            SectionMark::Events => events_mark_bytes(),
            SectionMark::Fonts => fonts_mark_bytes(),
            SectionMark::Graphics => graphics_mark_bytes(),
        }
    }
}

} // verus!
