//! Event lines of SubStation Alpha scripts.
pub mod format;

use crate::byte_helpers::{
    bytes_eq, find_byte, find_byte_from, get_u16, get_u8, parse_u16_spec, parse_u8_spec, split_bytes,
    split_spec, trim_start, trim_start_spec,
};
use crate::lits::{
    command, command_bytes, comment, comment_bytes, default_style, default_style_bytes, dialogue,
    dialogue_bytes, karaoke, karaoke_bytes, movie, movie_bytes, picture, picture_bytes, sound,
    sound_bytes,
};
use crate::time::Time;
use format::EventFormatPositions;
use vstd::prelude::*;

verus! {

/// The kind of an event line, named before its first colon.
#[derive(Clone, Debug, PartialEq)]
pub enum EventType {
    Dialogue,
    Comment,
    Picture,
    Sound,
    Movie,
    Command,
    /// An unknown kind; holds the name with its colon.
    Unrecognized(Vec<u8>),
}

/// The kind of an event line without its bytes.
#[derive(Copy, Clone, Debug, PartialEq, Eq, Structural)]
pub enum EventTag {
    Dialogue,
    Comment,
    Picture,
    Sound,
    Movie,
    Command,
    Unrecognized,
}

impl DeepView for EventType {
    type V = (EventTag, Seq<u8>);

    open spec fn deep_view(&self) -> (EventTag, Seq<u8>) {
        match self {
            EventType::Dialogue => (EventTag::Dialogue, seq![]),
            EventType::Comment => (EventTag::Comment, seq![]),
            EventType::Picture => (EventTag::Picture, seq![]),
            EventType::Sound => (EventTag::Sound, seq![]),
            EventType::Movie => (EventTag::Movie, seq![]),
            EventType::Command => (EventTag::Command, seq![]),
            EventType::Unrecognized(b) => (EventTag::Unrecognized, b@),
        }
    }
}

/// A transition effect of an event.
#[derive(Copy, Clone, Debug, PartialEq, Eq, Structural)]
pub enum Effect {
    Empty,
    Karaoke,
    ScrollUp,
    Banner,
}

/// An event line: a subtitle with its timing and style.
#[derive(Clone, Debug, PartialEq)]
pub struct Event {
    pub ty: EventType,
    /// Subtitles having different layer number will be ignored during the
    /// collusion detection. Higher numbered layers will be drawn over the
    /// lower numbered.
    pub layer: u16,
    pub start: Time,
    pub end: Time,
    pub style_name: Vec<u8>,
    /// Character name. This is the name of the character who speaks the
    /// dialogue. It is for information only.
    pub character_name: Vec<u8>,
    pub margin_l: u16,
    pub margin_r: u16,
    pub margin_v: u16,
    pub effect: Effect,
    /// Subtitle Text: everything after the 9th comma, so it can include
    /// commas; `\n` codes in it are line breaks.
    pub text: Vec<u8>,
    /// The line the event was read from (empty for an event built here).
    pub bytes: Vec<u8>,
}

/// An event as the specifications see it.
pub struct EventModel {
    pub ty: (EventTag, Seq<u8>),
    pub layer: u16,
    pub start: Time,
    pub end: Time,
    pub style_name: Seq<u8>,
    pub character_name: Seq<u8>,
    pub margin_l: u16,
    pub margin_r: u16,
    pub margin_v: u16,
    pub effect: Effect,
    pub text: Seq<u8>,
    pub bytes: Seq<u8>,
}

impl DeepView for Event {
    type V = EventModel;

    open spec fn deep_view(&self) -> EventModel {
        EventModel {
            ty: self.ty.deep_view(),
            layer: self.layer,
            start: self.start,
            end: self.end,
            style_name: self.style_name@,
            character_name: self.character_name@,
            margin_l: self.margin_l,
            margin_r: self.margin_r,
            margin_v: self.margin_v,
            effect: self.effect,
            text: self.text@,
            bytes: self.bytes@,
        }
    }
}

/// The event an event line is built from: a dialogue at zero, style
/// `Default`, no name, margins or effect, empty text.
pub open spec fn default_event() -> EventModel {
    EventModel {
        ty: (EventTag::Dialogue, seq![]),
        layer: 0,
        start: Time { hours: 0, mins: 0, secs: 0, millis: 0 },
        end: Time { hours: 0, mins: 0, secs: 0, millis: 0 },
        style_name: default_style(),
        character_name: seq![],
        margin_l: 0,
        margin_r: 0,
        margin_v: 0,
        effect: Effect::Empty,
        text: seq![],
        bytes: seq![],
    }
}

/// The kind of event that `name` (the text before the colon) names; `named`
/// is that text with its colon, kept for an unknown kind.
pub open spec fn event_type_of(name: Seq<u8>, named: Seq<u8>) -> (EventTag, Seq<u8>) {
    if name == dialogue() {
        (EventTag::Dialogue, seq![])
    } else if name == comment() {
        (EventTag::Comment, seq![])
    } else if name == picture() {
        (EventTag::Picture, seq![])
    } else if name == sound() {
        (EventTag::Sound, seq![])
    } else if name == movie() {
        (EventTag::Movie, seq![])
    } else if name == command() {
        (EventTag::Command, seq![])
    } else {
        (EventTag::Unrecognized, named)
    }
}

/// Index of the first comma or colon in `s[i..]`, or the length of `s`.
pub open spec fn find_comma_or_colon(s: Seq<u8>, i: int) -> int
    decreases s.len() - i,
{
    if i < 0 || i >= s.len() {
        s.len() as int
    } else if s[i] == 0x2Cu8 || s[i] == 0x3Au8 {
        i
    } else {
        find_comma_or_colon(s, i + 1)
    }
}

/// The kind of an event line and what follows its colon: a colon must come
/// before any comma and must not end the line.
pub open spec fn event_type_and_rest(line: Seq<u8>) -> Option<((EventTag, Seq<u8>), Seq<u8>)> {
    let c = find_comma_or_colon(line, 0);
    if c >= line.len() || line[c] == 0x2Cu8 || c + 1 >= line.len() {
        None
    } else {
        Some((event_type_of(line.take(c), line.take(c + 1)), line.skip(c + 1)))
    }
}

/// Cuts `n` comma-terminated parts off the front of `rem`; after each comma
/// the leading whitespace of the rest is dropped, and a comma may not end
/// the line. Gives the parts and what is left.
pub open spec fn cut_parts(rem: Seq<u8>, n: nat) -> Option<(Seq<Seq<u8>>, Seq<u8>)>
    decreases n,
{
    if n == 0 {
        Some((seq![], rem))
    } else {
        let c = find_byte(rem, 0x2Cu8, 0);
        if c >= rem.len() || rem.len() <= c + 1 {
            None
        } else {
            match cut_parts(trim_start_spec(rem.skip(c + 1)), (n - 1) as nat) {
                Some((ps, r)) => Some((seq![rem.take(c)] + ps, r)),
                None => None,
            }
        }
    }
}

/// A SubStation Alpha timestamp as this library reads it: the text before
/// the first full stop is split at colons and the last four parts are the
/// hours, minutes, seconds and hundredths.
pub open spec fn ass_time_parse(data: Seq<u8>) -> Option<Time> {
    let d = data.take(find_byte(data, 0x2Eu8, 0));
    let parts = split_spec(d, 0x3Au8);
    let n = parts.len();
    if n < 4 {
        None
    } else {
        match (
            parse_u16_spec(parts[n - 1]),
            parse_u8_spec(parts[n - 2]),
            parse_u8_spec(parts[n - 3]),
            parse_u16_spec(parts[n - 4]),
        ) {
            (Some(c), Some(s), Some(m), Some(h)) => if c < 100 && s < 60 && m < 60 {
                Some(Time { hours: h, mins: m, secs: s, millis: (c * 10) as u16 })
            } else {
                None
            },
            _ => None,
        }
    }
}

/// An event line read with the format `f`.
pub open spec fn event_spec(line: Seq<u8>, f: EventFormatPositions) -> Option<EventModel> {
    match event_type_and_rest(line) {
        None => None,
        Some((ty, rem)) => match cut_parts(rem, 9) {
            None => None,
            Some((ps0, text)) => {
                let ps = ps0.update(0, trim_start_spec(ps0[0]));
                match (
                    parse_u16_spec(ps[f.layer as int]),
                    ass_time_parse(ps[f.start as int]),
                    ass_time_parse(ps[f.end as int]),
                    parse_u16_spec(ps[f.margin_l as int]),
                    parse_u16_spec(ps[f.margin_r as int]),
                    parse_u16_spec(ps[f.margin_v as int]),
                ) {
                    (Some(layer), Some(start), Some(end), Some(ml), Some(mr), Some(mv)) => Some(
                        EventModel {
                            ty,
                            layer,
                            start,
                            end,
                            style_name: ps[f.style_name as int],
                            character_name: ps[f.character_name as int],
                            margin_l: ml,
                            margin_r: mr,
                            margin_v: mv,
                            effect: Effect::Empty,
                            text,
                            bytes: line,
                        },
                    ),
                    _ => None,
                }
            },
        },
    }
}

impl EventType {
    /// The name of the kind, as written before the colon.
    pub open spec fn bytes_spec(&self) -> Seq<u8> {
        match self {
            EventType::Dialogue => dialogue(),
            EventType::Comment => comment(),
            EventType::Picture => picture(),
            EventType::Sound => sound(),
            EventType::Movie => movie(),
            EventType::Command => command(),
            EventType::Unrecognized(b) => b@,
        }
    }

    pub fn as_bytes(&self) -> (r: Vec<u8>)
        ensures
            r@ == self.bytes_spec(),
    {
        match self {
            EventType::Dialogue => dialogue_bytes(),
            EventType::Comment => comment_bytes(),
            EventType::Picture => picture_bytes(),
            EventType::Sound => sound_bytes(),
            EventType::Movie => movie_bytes(),
            EventType::Command => command_bytes(),
            EventType::Unrecognized(b) => vstd::slice::slice_to_vec(b.as_slice()),
        }
    }
}

impl Effect {
    /// How the effect is written: `Karaoke` for karaoke, nothing otherwise.
    pub open spec fn bytes_spec(&self) -> Seq<u8> {
        match self {
            Effect::Karaoke => karaoke(),
            _ => seq![],
        }
    }

    pub fn as_bytes(&self) -> (r: Vec<u8>)
        ensures
            r@ == self.bytes_spec(),
    {
        match self {
            Effect::Karaoke => karaoke_bytes(),
            _ => Vec::new(),
        }
    }
}

fn get_event_type(name: &[u8], named: &[u8]) -> (r: EventType)
    ensures
        r.deep_view() == event_type_of(name@, named@),
{
    if bytes_eq(name, dialogue_bytes().as_slice()) {
        EventType::Dialogue
    } else if bytes_eq(name, comment_bytes().as_slice()) {
        EventType::Comment
    } else if bytes_eq(name, picture_bytes().as_slice()) {
        EventType::Picture
    } else if bytes_eq(name, sound_bytes().as_slice()) {
        EventType::Sound
    } else if bytes_eq(name, movie_bytes().as_slice()) {
        EventType::Movie
    } else if bytes_eq(name, command_bytes().as_slice()) {
        EventType::Command
    } else {
        EventType::Unrecognized(vstd::slice::slice_to_vec(named))
    }
}

/// The kind of an event line and what follows its colon (see
/// [`event_type_and_rest`]).
pub fn get_event_type_and_trim_line(line: &[u8]) -> (r: Option<(EventType, &[u8])>)
    ensures
        match r {
            Some((t, rest)) => event_type_and_rest(line@) == Some((t.deep_view(), rest@)),
            None => event_type_and_rest(line@) is None,
        },
{
    let mut pos: usize = 0;
    while pos < line.len()
        invariant
            pos <= line@.len(),
            find_comma_or_colon(line@, 0) == find_comma_or_colon(line@, pos as int),
        decreases line@.len() - pos,
    {
        if line[pos] == 0x2Cu8 {
            return None;
        }
        if line[pos] == 0x3Au8 {
            if !(pos + 1 < line.len()) {
                return None;
            }
            let ty = get_event_type(&line[0..pos], &line[0..pos + 1]);
            return Some((ty, &line[pos + 1..line.len()]));
        }
        pos += 1;
    }
    None
}

/// Reads a SubStation Alpha timestamp (see [`ass_time_parse`]).
pub fn get_time(data: &[u8]) -> (r: Option<Time>)
    ensures
        r == ass_time_parse(data@),
{
    let dot = find_byte_from(data, 0x2Eu8, 0);
    let parts = split_bytes(&data[0..dot], 0x3Au8);
    let ghost ps = parts@.map_values(|q: Vec<u8>| q@);
    let n = parts.len();
    if n < 4 {
        return None;
    }
    assert(parts@[n - 1]@ == ps[n - 1]);
    assert(parts@[n - 2]@ == ps[n - 2]);
    assert(parts@[n - 3]@ == ps[n - 3]);
    assert(parts@[n - 4]@ == ps[n - 4]);
    let hundredths = match get_u16(parts[n - 1].as_slice()) {
        Some(v) => v,
        None => return None,
    };
    let secs = match get_u8(parts[n - 2].as_slice()) {
        Some(v) => v,
        None => return None,
    };
    let mins = match get_u8(parts[n - 3].as_slice()) {
        Some(v) => v,
        None => return None,
    };
    let hours = match get_u16(parts[n - 4].as_slice()) {
        Some(v) => v,
        None => return None,
    };
    if hundredths >= 100 || secs >= 60 || mins >= 60 {
        return None;
    }
    Some(Time::new_unchecked(hours, mins, secs, hundredths * 10))
}

/// Cuts the nine comma-terminated fields off an event line (see
/// [`cut_parts`]).
fn cut_fields(rem0: &[u8]) -> (r: Option<(Vec<Vec<u8>>, &[u8])>)
    ensures
        match r {
            Some((ps, text)) => cut_parts(rem0@, 9) == Some((ps@.map_values(|q: Vec<u8>| q@), text@)),
            None => cut_parts(rem0@, 9) is None,
        },
        r matches Some((ps, _)) ==> ps@.len() == 9,
{
    let mut parts: Vec<Vec<u8>> = Vec::new();
    let mut rem = rem0;
    let mut i: usize = 0;
    while i < 9
        invariant
            i <= 9,
            parts@.len() == i,
            cut_parts(rem0@, 9) == match cut_parts(rem@, (9 - i) as nat) {
                Some((ps, r)) => Some((parts@.map_values(|q: Vec<u8>| q@) + ps, r)),
                None => None,
            },
        decreases 9 - i,
    {
        let c = find_byte_from(rem, 0x2Cu8, 0);
        if c >= rem.len() || rem.len() <= c + 1 {
            return None;
        }
        let ghost before = parts@.map_values(|q: Vec<u8>| q@);
        let ghost old_rem = rem@;
        let part = vstd::slice::slice_to_vec(&rem[0..c]);
        parts.push(part);
        rem = trim_start(&rem[c + 1..rem.len()]);
        proof {
            assert(parts@.map_values(|q: Vec<u8>| q@) =~= before.push(old_rem.take(c as int)));
            assert(old_rem.subrange(c + 1, old_rem.len() as int) =~= old_rem.skip(c + 1));
            match cut_parts(rem@, (9 - i - 1) as nat) {
                Some((ps, r)) => {
                    assert(before + (seq![old_rem.take(c as int)] + ps) =~= parts@.map_values(
                        |q: Vec<u8>| q@,
                    ) + ps);
                },
                None => {},
            }
        }
        i += 1;
    }
    assert(parts@.map_values(|q: Vec<u8>| q@) + Seq::<Seq<u8>>::empty() =~= parts@.map_values(
        |q: Vec<u8>| q@,
    ));
    Some((parts, rem))
}

impl Event {
    /// The event an event line is built from (see [`default_event`]).
    pub fn new() -> (r: Event)
        ensures
            r.deep_view() == default_event(),
    {
        Event {
            ty: EventType::Dialogue,
            layer: 0,
            start: Time::zero(),
            end: Time::zero(),
            style_name: default_style_bytes(),
            character_name: Vec::new(),
            margin_l: 0,
            margin_r: 0,
            margin_v: 0,
            effect: Effect::Empty,
            text: Vec::new(),
            bytes: Vec::new(),
        }
    }

    /// Reads an event line with the format `format` (see [`event_spec`]).
    pub fn get_new(line: &[u8], format: EventFormatPositions) -> (r: Option<Event>)
        requires
            format.wf(),
        ensures
            match r {
                Some(e) => event_spec(line@, format) == Some(e.deep_view()),
                None => event_spec(line@, format) is None,
            },
    {
        let (ty, rem) = match get_event_type_and_trim_line(line) {
            Some(x) => x,
            None => return None,
        };
        let (parts, text) = match cut_fields(rem) {
            Some(x) => x,
            None => return None,
        };
        let ghost ps0 = parts@.map_values(|q: Vec<u8>| q@);
        let first = trim_start(parts[0].as_slice());
        let ghost ps = ps0.update(0, first@);
        assert(forall|j: int| 1 <= j < 9 ==> parts@[j]@ == #[trigger] ps[j]);
        let layer = match get_u16(Self::part(&parts, first, format.layer)) {
            Some(v) => v,
            None => return None,
        };
        let start = match get_time(Self::part(&parts, first, format.start)) {
            Some(v) => v,
            None => return None,
        };
        let end = match get_time(Self::part(&parts, first, format.end)) {
            Some(v) => v,
            None => return None,
        };
        let margin_l = match get_u16(Self::part(&parts, first, format.margin_l)) {
            Some(v) => v,
            None => return None,
        };
        let margin_r = match get_u16(Self::part(&parts, first, format.margin_r)) {
            Some(v) => v,
            None => return None,
        };
        let margin_v = match get_u16(Self::part(&parts, first, format.margin_v)) {
            Some(v) => v,
            None => return None,
        };
        let style_name = vstd::slice::slice_to_vec(Self::part(&parts, first, format.style_name));
        let character_name = vstd::slice::slice_to_vec(
            Self::part(&parts, first, format.character_name),
        );
        Some(Event {
            ty,
            layer,
            start,
            end,
            style_name,
            character_name,
            margin_l,
            margin_r,
            margin_v,
            effect: Effect::Empty,
            text: vstd::slice::slice_to_vec(text),
            bytes: vstd::slice::slice_to_vec(line),
        })
    }

    /// Field `k` of an event line whose first field, trimmed, is `first`.
    fn part<'a>(parts: &'a Vec<Vec<u8>>, first: &'a [u8], k: u8) -> (r: &'a [u8])
        requires
            parts@.len() == 9,
            k < 9,
        ensures
            r@ == parts@.map_values(|q: Vec<u8>| q@).update(0, first@)[k as int],
    {
        if k == 0 {
            first
        } else {
            parts[k as usize].as_slice()
        }
    }
}

} // verus!
