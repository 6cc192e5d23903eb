//! Script info lines of SubStation Alpha scripts.
use crate::byte_helpers::{bytes_eq, find_byte, find_byte_from};
use crate::lits::{collisions, collisions_bytes, original_editing, original_editing_bytes, original_script, original_script_bytes, original_timing, original_timing_bytes, original_translation, original_translation_bytes, play_depth, play_depth_bytes, play_res_x, play_res_x_bytes, play_res_y, play_res_y_bytes, script_type, script_type_bytes, script_updated_by, script_updated_by_bytes, synch_point, synch_point_bytes, timer, timer_bytes, title, title_bytes, update_details, update_details_bytes, wrap_style, wrap_style_bytes};
use vstd::prelude::*;

verus! {

/// Which script info property a line sets.
#[derive(Copy, Clone, Debug, PartialEq, Eq, Structural)]
pub enum ScriptInfoKind {
    Title,
    OriginalScript,
    OriginalTranslation,
    OriginalEditing,
    OriginalTiming,
    SynchPoint,
    ScriptUpdatedBy,
    UpdateDetails,
    ScriptType,
    Collisions,
    PlayResY,
    PlayResX,
    PlayDepth,
    Timer,
    WrapStyle,
}

/// A `Title:` line.
#[derive(Clone, Debug, PartialEq)]
pub struct Title {
    pub bytes: Vec<u8>,
}

/// A `ScriptType:` line.
#[derive(Clone, Debug, PartialEq)]
pub struct ScriptType {
    pub bytes: Vec<u8>,
}

/// A `WrapStyle:` line.
#[derive(Clone, Debug, PartialEq)]
pub struct WrapStyle {
    pub bytes: Vec<u8>,
}

/// A line of the `[Script Info]` section that sets a known property; each
/// variant holds the whole line.
#[derive(Clone, Debug, PartialEq)]
pub enum ScriptInfo {
    Title(Title),
    OriginalScript(Vec<u8>),
    OriginalTranslation(Vec<u8>),
    OriginalEditing(Vec<u8>),
    OriginalTiming(Vec<u8>),
    SynchPoint(Vec<u8>),
    ScriptUpdatedBy(Vec<u8>),
    UpdateDetails(Vec<u8>),
    ScriptType(ScriptType),
    Collisions(Vec<u8>),
    PlayResY(Vec<u8>),
    PlayResX(Vec<u8>),
    PlayDepth(Vec<u8>),
    Timer(Vec<u8>),
    WrapStyle(WrapStyle),
}

impl DeepView for ScriptInfo {
    type V = (ScriptInfoKind, Seq<u8>);

    open spec fn deep_view(&self) -> (ScriptInfoKind, Seq<u8>) {
        match self {
            ScriptInfo::Title(x) => (ScriptInfoKind::Title, x.bytes@),
            ScriptInfo::OriginalScript(x) => (ScriptInfoKind::OriginalScript, x@),
            ScriptInfo::OriginalTranslation(x) => (ScriptInfoKind::OriginalTranslation, x@),
            ScriptInfo::OriginalEditing(x) => (ScriptInfoKind::OriginalEditing, x@),
            ScriptInfo::OriginalTiming(x) => (ScriptInfoKind::OriginalTiming, x@),
            ScriptInfo::SynchPoint(x) => (ScriptInfoKind::SynchPoint, x@),
            ScriptInfo::ScriptUpdatedBy(x) => (ScriptInfoKind::ScriptUpdatedBy, x@),
            ScriptInfo::UpdateDetails(x) => (ScriptInfoKind::UpdateDetails, x@),
            ScriptInfo::ScriptType(x) => (ScriptInfoKind::ScriptType, x.bytes@),
            ScriptInfo::Collisions(x) => (ScriptInfoKind::Collisions, x@),
            ScriptInfo::PlayResY(x) => (ScriptInfoKind::PlayResY, x@),
            ScriptInfo::PlayResX(x) => (ScriptInfoKind::PlayResX, x@),
            ScriptInfo::PlayDepth(x) => (ScriptInfoKind::PlayDepth, x@),
            ScriptInfo::Timer(x) => (ScriptInfoKind::Timer, x@),
            ScriptInfo::WrapStyle(x) => (ScriptInfoKind::WrapStyle, x.bytes@),
        }
    }
}

/// The property that the key `key` names.
pub open spec fn info_kind_spec(key: Seq<u8>) -> Option<ScriptInfoKind> {
    if key == title() {
        Some(ScriptInfoKind::Title)
    } else if key == original_script() {
        Some(ScriptInfoKind::OriginalScript)
    } else if key == original_translation() {
        Some(ScriptInfoKind::OriginalTranslation)
    } else if key == original_editing() {
        Some(ScriptInfoKind::OriginalEditing)
    } else if key == original_timing() {
        Some(ScriptInfoKind::OriginalTiming)
    } else if key == synch_point() {
        Some(ScriptInfoKind::SynchPoint)
    } else if key == script_updated_by() {
        Some(ScriptInfoKind::ScriptUpdatedBy)
    } else if key == update_details() {
        Some(ScriptInfoKind::UpdateDetails)
    } else if key == script_type() {
        Some(ScriptInfoKind::ScriptType)
    } else if key == collisions() {
        Some(ScriptInfoKind::Collisions)
    } else if key == play_res_y() {
        Some(ScriptInfoKind::PlayResY)
    } else if key == play_res_x() {
        Some(ScriptInfoKind::PlayResX)
    } else if key == play_depth() {
        Some(ScriptInfoKind::PlayDepth)
    } else if key == timer() {
        Some(ScriptInfoKind::Timer)
    } else if key == wrap_style() {
        Some(ScriptInfoKind::WrapStyle)
    } else {
        None
    }
}

/// A script info line: a key before the first colon that names a known
/// property.
pub open spec fn info_spec(bytes: Seq<u8>) -> Option<(ScriptInfoKind, Seq<u8>)> {
    let c = find_byte(bytes, 0x3Au8, 0);
    if c >= bytes.len() {
        None
    } else {
        match info_kind_spec(bytes.take(c)) {
            Some(k) => Some((k, bytes)),
            None => None,
        }
    }
}

/// The property that the key `key` names.
fn get_info_kind(key: &[u8]) -> (r: Option<ScriptInfoKind>)
    ensures
        r == info_kind_spec(key@),
{
    if bytes_eq(key, title_bytes().as_slice()) {
        Some(ScriptInfoKind::Title)
    } else if bytes_eq(key, original_script_bytes().as_slice()) {
        Some(ScriptInfoKind::OriginalScript)
    } else if bytes_eq(key, original_translation_bytes().as_slice()) {
        Some(ScriptInfoKind::OriginalTranslation)
    } else if bytes_eq(key, original_editing_bytes().as_slice()) {
        Some(ScriptInfoKind::OriginalEditing)
    } else if bytes_eq(key, original_timing_bytes().as_slice()) {
        Some(ScriptInfoKind::OriginalTiming)
    } else if bytes_eq(key, synch_point_bytes().as_slice()) {
        Some(ScriptInfoKind::SynchPoint)
    } else if bytes_eq(key, script_updated_by_bytes().as_slice()) {
        Some(ScriptInfoKind::ScriptUpdatedBy)
    } else if bytes_eq(key, update_details_bytes().as_slice()) {
        Some(ScriptInfoKind::UpdateDetails)
    } else if bytes_eq(key, script_type_bytes().as_slice()) {
        Some(ScriptInfoKind::ScriptType)
    } else if bytes_eq(key, collisions_bytes().as_slice()) {
        Some(ScriptInfoKind::Collisions)
    } else if bytes_eq(key, play_res_y_bytes().as_slice()) {
        Some(ScriptInfoKind::PlayResY)
    } else if bytes_eq(key, play_res_x_bytes().as_slice()) {
        Some(ScriptInfoKind::PlayResX)
    } else if bytes_eq(key, play_depth_bytes().as_slice()) {
        Some(ScriptInfoKind::PlayDepth)
    } else if bytes_eq(key, timer_bytes().as_slice()) {
        Some(ScriptInfoKind::Timer)
    } else if bytes_eq(key, wrap_style_bytes().as_slice()) {
        Some(ScriptInfoKind::WrapStyle)
    } else {
        None
    }
}

impl ScriptInfo {
    /// A script info line of the given kind over a copy of `bytes`.
    pub fn from_kind(kind: ScriptInfoKind, bytes: &[u8]) -> (r: ScriptInfo)
        ensures
            r.deep_view() == (kind, bytes@),
    {
        let b = vstd::slice::slice_to_vec(bytes);
        match kind {
            ScriptInfoKind::Title => ScriptInfo::Title(Title { bytes: b }),
            ScriptInfoKind::OriginalScript => ScriptInfo::OriginalScript(b),
            ScriptInfoKind::OriginalTranslation => ScriptInfo::OriginalTranslation(b),
            ScriptInfoKind::OriginalEditing => ScriptInfo::OriginalEditing(b),
            ScriptInfoKind::OriginalTiming => ScriptInfo::OriginalTiming(b),
            ScriptInfoKind::SynchPoint => ScriptInfo::SynchPoint(b),
            ScriptInfoKind::ScriptUpdatedBy => ScriptInfo::ScriptUpdatedBy(b),
            ScriptInfoKind::UpdateDetails => ScriptInfo::UpdateDetails(b),
            ScriptInfoKind::ScriptType => ScriptInfo::ScriptType(ScriptType { bytes: b }),
            ScriptInfoKind::Collisions => ScriptInfo::Collisions(b),
            ScriptInfoKind::PlayResY => ScriptInfo::PlayResY(b),
            ScriptInfoKind::PlayResX => ScriptInfo::PlayResX(b),
            ScriptInfoKind::PlayDepth => ScriptInfo::PlayDepth(b),
            ScriptInfoKind::Timer => ScriptInfo::Timer(b),
            ScriptInfoKind::WrapStyle => ScriptInfo::WrapStyle(WrapStyle { bytes: b }),
        }
    }

    /// Reads a script info line (see [`info_spec`]).
    pub fn get_new(bytes: &[u8]) -> (r: Option<ScriptInfo>)
        ensures
            match r {
                Some(i) => info_spec(bytes@) == Some(i.deep_view()),
                None => info_spec(bytes@) is None,
            },
    {
        let c = find_byte_from(bytes, 0x3Au8, 0);
        if c >= bytes.len() {
            return None;
        }
        match get_info_kind(&bytes[0..c]) {
            Some(k) => Some(Self::from_kind(k, bytes)),
            None => None,
        }
    }

    /// The whole line.
    pub fn as_bytes(&self) -> (r: &[u8])
        ensures
            r@ == self.deep_view().1,
    {
        match self {
            ScriptInfo::Title(x) => x.bytes.as_slice(),
            ScriptInfo::OriginalScript(x) => x.as_slice(),
            ScriptInfo::OriginalTranslation(x) => x.as_slice(),
            ScriptInfo::OriginalEditing(x) => x.as_slice(),
            ScriptInfo::OriginalTiming(x) => x.as_slice(),
            ScriptInfo::SynchPoint(x) => x.as_slice(),
            ScriptInfo::ScriptUpdatedBy(x) => x.as_slice(),
            ScriptInfo::UpdateDetails(x) => x.as_slice(),
            ScriptInfo::ScriptType(x) => x.bytes.as_slice(),
            ScriptInfo::Collisions(x) => x.as_slice(),
            ScriptInfo::PlayResY(x) => x.as_slice(),
            ScriptInfo::PlayResX(x) => x.as_slice(),
            ScriptInfo::PlayDepth(x) => x.as_slice(),
            ScriptInfo::Timer(x) => x.as_slice(),
            ScriptInfo::WrapStyle(x) => x.bytes.as_slice(),
        }
    }
}

} // verus!
