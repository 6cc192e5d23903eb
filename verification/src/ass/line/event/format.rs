//! The `Format:` line of the `[Events]` section.
use crate::byte_helpers::{
    bytes_eq, split_bytes, split_spec, starts_with, starts_with_spec, trim_start, trim_start_spec,
};
use crate::lits::{
    effect, effect_bytes, end, end_bytes, format_line, format_line_bytes, format_prefix,
    format_prefix_bytes, layer, layer_bytes, margin_l, margin_l_bytes, margin_r, margin_r_bytes,
    margin_v, margin_v_bytes, name, name_bytes, start, start_bytes, style, style_bytes,
};
use vstd::prelude::*;

verus! {

/// The format of an event line: at which comma-separated position each
/// field stands.
#[derive(Copy, Clone, Debug, PartialEq, Eq, Structural)]
#[non_exhaustive]
pub struct EventFormatPositions {
    pub layer: u8,
    pub start: u8,
    pub end: u8,
    pub style_name: u8,
    pub character_name: u8,
    pub margin_l: u8,
    pub margin_r: u8,
    pub margin_v: u8,
    pub effect: u8,
}

/// The format line: its bytes and the positions it gives.
#[derive(Clone, Debug, PartialEq)]
pub struct EventFormat {
    pub bytes: Vec<u8>,
    pub positions: EventFormatPositions,
}

impl DeepView for EventFormat {
    type V = (Seq<u8>, EventFormatPositions);

    open spec fn deep_view(&self) -> (Seq<u8>, EventFormatPositions) {
        (self.bytes@, self.positions)
    }
}

/// A field of an event line, before the text.
#[derive(Copy, Clone, Debug, PartialEq, Eq, Structural)]
pub enum FormatField {
    Layer,
    Start,
    End,
    Style,
    Name,
    MarginL,
    MarginR,
    MarginV,
    Effect,
}

/// The positions of the default format:
/// `Layer, Start, End, Style, Name, MarginL, MarginR, MarginV, Effect, Text`.
pub open spec fn default_positions() -> EventFormatPositions {
    EventFormatPositions {
        layer: 0,
        start: 1,
        end: 2,
        style_name: 3,
        character_name: 4,
        margin_l: 5,
        margin_r: 6,
        margin_v: 7,
        effect: 8,
    }
}

/// The field that a format name names.
pub open spec fn field_of(n: Seq<u8>) -> Option<FormatField> {
    if n == layer() {
        Some(FormatField::Layer)
    } else if n == start() {
        Some(FormatField::Start)
    } else if n == end() {
        Some(FormatField::End)
    } else if n == style() {
        Some(FormatField::Style)
    } else if n == name() {
        Some(FormatField::Name)
    } else if n == margin_l() {
        Some(FormatField::MarginL)
    } else if n == margin_r() {
        Some(FormatField::MarginR)
    } else if n == margin_v() {
        Some(FormatField::MarginV)
    } else if n == effect() {
        Some(FormatField::Effect)
    } else {
        None
    }
}

/// `p` with field `f` at position `k`.
pub open spec fn set_field(p: EventFormatPositions, f: FormatField, k: u8) -> EventFormatPositions {
    match f {
        FormatField::Layer => EventFormatPositions { layer: k, ..p },
        FormatField::Start => EventFormatPositions { start: k, ..p },
        FormatField::End => EventFormatPositions { end: k, ..p },
        FormatField::Style => EventFormatPositions { style_name: k, ..p },
        FormatField::Name => EventFormatPositions { character_name: k, ..p },
        FormatField::MarginL => EventFormatPositions { margin_l: k, ..p },
        FormatField::MarginR => EventFormatPositions { margin_r: k, ..p },
        FormatField::MarginV => EventFormatPositions { margin_v: k, ..p },
        FormatField::Effect => EventFormatPositions { effect: k, ..p },
    }
}

/// Reads the names `parts[k..9]`, each trimmed of leading whitespace, into
/// `p`: each name sets its field to its position. Every one of the first
/// nine names must be known and there must be nine of them.
pub open spec fn format_fold(parts: Seq<Seq<u8>>, k: nat, p: EventFormatPositions) -> Option<
    EventFormatPositions,
>
    decreases 9 - k,
{
    if k >= 9 {
        Some(p)
    } else if k >= parts.len() {
        None
    } else {
        match field_of(trim_start_spec(parts[k as int])) {
            None => None,
            Some(f) => format_fold(parts, k + 1, set_field(p, f, k as u8)),
        }
    }
}

/// The positions a format line gives: a line of at least 16 bytes that
/// starts with `Format:`, followed by the field names separated by commas.
pub open spec fn format_spec(line: Seq<u8>) -> Option<EventFormatPositions> {
    if line.len() < 16 || !starts_with_spec(line, format_prefix()) {
        None
    } else {
        format_fold(split_spec(trim_start_spec(line.skip(7)), 0x2Cu8), 0, default_positions())
    }
}

impl EventFormatPositions {
    /// Every position is one of the nine before the text.
    pub open spec fn wf(&self) -> bool {
        &&& self.layer < 9
        &&& self.start < 9
        &&& self.end < 9
        &&& self.style_name < 9
        &&& self.character_name < 9
        &&& self.margin_l < 9
        &&& self.margin_r < 9
        &&& self.margin_v < 9
        &&& self.effect < 9
    }

    /// The positions of the default format.
    pub fn new() -> (r: EventFormatPositions)
        ensures
            r == default_positions(),
            r.wf(),
    {
        EventFormatPositions {
            layer: 0,
            start: 1,
            end: 2,
            style_name: 3,
            character_name: 4,
            margin_l: 5,
            margin_r: 6,
            margin_v: 7,
            effect: 8,
        }
    }

    /// Returns `layer` position.
    pub fn layer(&self) -> (r: u8)
        ensures
            r == self.layer,
    {
        self.layer
    }

    /// Returns `start` position.
    pub fn start(&self) -> (r: u8)
        ensures
            r == self.start,
    {
        self.start
    }

    /// Returns `end` position.
    pub fn end(&self) -> (r: u8)
        ensures
            r == self.end,
    {
        self.end
    }

    /// Returns `style_name` position.
    pub fn style_name(&self) -> (r: u8)
        ensures
            r == self.style_name,
    {
        self.style_name
    }

    /// Returns `character_name` position.
    pub fn character_name(&self) -> (r: u8)
        ensures
            r == self.character_name,
    {
        self.character_name
    }

    /// Returns `margin_l` position.
    pub fn margin_l(&self) -> (r: u8)
        ensures
            r == self.margin_l,
    {
        self.margin_l
    }

    /// Returns `margin_r` position.
    pub fn margin_r(&self) -> (r: u8)
        ensures
            r == self.margin_r,
    {
        self.margin_r
    }

    /// Returns `margin_v` position.
    pub fn margin_v(&self) -> (r: u8)
        ensures
            r == self.margin_v,
    {
        self.margin_v
    }

    /// Returns `effect` position.
    pub fn effect(&self) -> (r: u8)
        ensures
            r == self.effect,
    {
        self.effect
    }
}

proof fn lemma_format_fold_wf(parts: Seq<Seq<u8>>, k: nat, p: EventFormatPositions)
    requires
        p.wf(),
    ensures
        format_fold(parts, k, p) matches Some(q) ==> q.wf(),
    decreases 9 - k,
{
    if k < 9 && k < parts.len() {
        match field_of(trim_start_spec(parts[k as int])) {
            None => {},
            Some(f) => lemma_format_fold_wf(parts, k + 1, set_field(p, f, k as u8)),
        }
    }
}

/// A format line gives positions that are all before the text.
pub proof fn lemma_format_spec_wf(line: Seq<u8>)
    ensures
        format_spec(line) matches Some(q) ==> q.wf(),
{
    if !(line.len() < 16 || !starts_with_spec(line, format_prefix())) {
        lemma_format_fold_wf(
            split_spec(trim_start_spec(line.skip(7)), 0x2Cu8),
            0,
            default_positions(),
        );
    }
}

fn get_field(n: &[u8]) -> (r: Option<FormatField>)
    ensures
        r == field_of(n@),
{
    if bytes_eq(n, layer_bytes().as_slice()) {
        Some(FormatField::Layer)
    } else if bytes_eq(n, start_bytes().as_slice()) {
        Some(FormatField::Start)
    } else if bytes_eq(n, end_bytes().as_slice()) {
        Some(FormatField::End)
    } else if bytes_eq(n, style_bytes().as_slice()) {
        Some(FormatField::Style)
    } else if bytes_eq(n, name_bytes().as_slice()) {
        Some(FormatField::Name)
    } else if bytes_eq(n, margin_l_bytes().as_slice()) {
        Some(FormatField::MarginL)
    } else if bytes_eq(n, margin_r_bytes().as_slice()) {
        Some(FormatField::MarginR)
    } else if bytes_eq(n, margin_v_bytes().as_slice()) {
        Some(FormatField::MarginV)
    } else if bytes_eq(n, effect_bytes().as_slice()) {
        Some(FormatField::Effect)
    } else {
        None
    }
}

fn put_field(p: &mut EventFormatPositions, f: FormatField, k: u8)
    ensures
        *final(p) == set_field(*old(p), f, k),
{
    match f {
        FormatField::Layer => p.layer = k,
        FormatField::Start => p.start = k,
        FormatField::End => p.end = k,
        FormatField::Style => p.style_name = k,
        FormatField::Name => p.character_name = k,
        FormatField::MarginL => p.margin_l = k,
        FormatField::MarginR => p.margin_r = k,
        FormatField::MarginV => p.margin_v = k,
        FormatField::Effect => p.effect = k,
    }
}

impl EventFormat {
    /// The default format line.
    pub fn new() -> (r: EventFormat)
        ensures
            r.deep_view() == (format_line(), default_positions()),
    {
        EventFormat { bytes: format_line_bytes(), positions: EventFormatPositions::new() }
    }

    /// Reads a format line (see [`format_spec`]).
    pub fn get_new(line: &[u8]) -> (r: Option<EventFormat>)
        ensures
            match r {
                Some(f) => f.bytes@ == line@ && format_spec(line@) == Some(f.positions),
                None => format_spec(line@) is None,
            },
            r matches Some(f) ==> f.positions.wf(),
    {
        proof {
            lemma_format_spec_wf(line@);
        }
        if line.len() < 16 || !starts_with(line, format_prefix_bytes().as_slice()) {
            return None;
        }
        let remainder = trim_start(&line[7..line.len()]);
        let parts = split_bytes(remainder, 0x2Cu8);
        let ghost ps = parts@.map_values(|q: Vec<u8>| q@);
        let mut positions = EventFormatPositions::new();
        let mut k: usize = 0;
        while k < 9
            invariant
                k <= 9,
                ps == parts@.map_values(|q: Vec<u8>| q@),
                ps == split_spec(trim_start_spec(line@.skip(7)), 0x2Cu8),
                format_spec(line@) == format_fold(ps, k as nat, positions),
            decreases 9 - k,
        {
            if k >= parts.len() {
                return None;
            }
            let n = trim_start(parts[k].as_slice());
            assert(parts@[k as int]@ == ps[k as int]);
            match get_field(n) {
                None => return None,
                Some(f) => put_field(&mut positions, f, k as u8),
            }
            k += 1;
        }
        Some(EventFormat { bytes: vstd::slice::slice_to_vec(line), positions })
    }

    pub fn as_bytes(&self) -> (r: &[u8])
        ensures
            r@ == self.bytes@,
    {
        self.bytes.as_slice()
    }

    pub fn positions(&self) -> (r: &EventFormatPositions)
        ensures
            *r == self.positions,
    {
        &self.positions
    }
}

} // verus!
