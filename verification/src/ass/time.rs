//! A SubStation Alpha timestamp ready to be written.
use crate::ass::line::event::ass_time_parse;
use crate::byte_helpers::{digits_value, find_byte, split_from, split_spec};
use crate::srt::canonical::{lemma_find_byte_at, lemma_two_digits};
use crate::time::bufs::{ass_fields_spec, ass_time_spec, fits_fixed_width, push_ass_fields, two_digits};
use crate::time::Time;
use vstd::prelude::*;

verus! {

/// A timestamp prepared for the SubStation Alpha form `H:MM:SS:CC`: its
/// hours are capped at 9 and its milliseconds are kept as whole hundredths
/// of a second.
pub struct AssTime {
    buf: Vec<u8>,
    time: Time,
}

impl AssTime {
    /// The prepared timestamp.
    pub closed spec fn time(&self) -> Time {
        self.time
    }

    /// Prepares `time`.
    pub fn new(time: Time) -> (r: AssTime)
        ensures
            r.time() == (Time {
                hours: if time.hours > 9 { 9 } else { time.hours },
                millis: (time.millis / 10) as u16,
                ..time
            }),
    {
        let mut t = time;
        if t.hours > 9 {
            t.hours = 9;
        }
        t.millis = t.millis / 10;
        AssTime { buf: Vec::new(), time: t }
    }

    /// Writes the timestamp, its millisecond field holding hundredths, and
    /// returns its bytes.
    pub fn format_using(&mut self) -> (r: &[u8])
        requires
            old(self).time().hours < 10,
            old(self).time().mins < 100,
            old(self).time().secs < 100,
            old(self).time().millis < 100,
        ensures
            r@ == ass_fields_spec(
                old(self).time().hours as nat,
                old(self).time().mins as nat,
                old(self).time().secs as nat,
                old(self).time().millis as nat,
            ),
            final(self).time() == old(self).time(),
    {
        let mut buf: Vec<u8> = Vec::new();
        let t = self.time;
        push_ass_fields(&mut buf, t.hours, t.mins as u16, t.secs as u16, t.millis);
        self.buf = buf;
        self.buf.as_slice()
    }
}

/// The parts of a written event time between its colons.
proof fn lemma_ass_fields_split(h: nat, m: nat, s: nat, c: nat)
    requires
        h < 10,
        m < 100,
        s < 100,
        c < 100,
    ensures
        find_byte(ass_fields_spec(h, m, s, c), 0x2Eu8, 0) == 10,
        split_spec(ass_fields_spec(h, m, s, c), 0x3Au8) == seq![
            seq![(0x30 + h) as u8],
            two_digits(m),
            two_digits(s),
            two_digits(c),
        ],
{
    let x = ass_fields_spec(h, m, s, c);
    assert(x.len() == 10);
    lemma_find_byte_at(x, 0x2Eu8, 0, 10);
    lemma_find_byte_at(x, 0x3Au8, 0, 1);
    lemma_find_byte_at(x, 0x3Au8, 2, 4);
    lemma_find_byte_at(x, 0x3Au8, 5, 7);
    lemma_find_byte_at(x, 0x3Au8, 8, 10);
    assert(split_from(x, 0x3Au8, 8) == seq![x.subrange(8, 10)]);
    assert(split_from(x, 0x3Au8, 5) == seq![x.subrange(5, 7)] + split_from(x, 0x3Au8, 8));
    assert(split_from(x, 0x3Au8, 2) == seq![x.subrange(2, 4)] + split_from(x, 0x3Au8, 5));
    assert(split_from(x, 0x3Au8, 0) == seq![x.subrange(0, 1)] + split_from(x, 0x3Au8, 2));
    assert(x.subrange(0, 1) =~= seq![(0x30 + h) as u8]);
    assert(x.subrange(2, 4) =~= two_digits(m));
    assert(x.subrange(5, 7) =~= two_digits(s));
    assert(x.subrange(8, 10) =~= two_digits(c));
    assert(split_spec(x, 0x3Au8) =~= seq![
        seq![(0x30 + h) as u8],
        two_digits(m),
        two_digits(s),
        two_digits(c),
    ]);
}

/// An event time is written back as it was read: `H:MM:SS:CC`, read as a
/// timestamp with `CC` hundredths of a second, gives the same bytes.
pub proof fn lemma_ass_time_round_trip(h: nat, m: nat, s: nat, c: nat)
    requires
        h < 10,
        m < 60,
        s < 60,
        c < 100,
    ensures
        ass_time_parse(ass_fields_spec(h, m, s, c)) == Some(
            Time { hours: h as u16, mins: m as u8, secs: s as u8, millis: (c * 10) as u16 },
        ),
        ass_time_parse(ass_fields_spec(h, m, s, c)) matches Some(t) && fits_fixed_width(t)
            && ass_time_spec(t) == ass_fields_spec(h, m, s, c),
{
    let x = ass_fields_spec(h, m, s, c);
    lemma_ass_fields_split(h, m, s, c);
    assert(x.take(10) =~= x);
    lemma_two_digits(m);
    lemma_two_digits(s);
    lemma_two_digits(c);
    let hd = seq![(0x30 + h) as u8];
    assert(hd.drop_last() =~= Seq::<u8>::empty());
    assert(digits_value(Seq::<u8>::empty()) == 0);
    assert(digits_value(hd) == h);
    let t = Time { hours: h as u16, mins: m as u8, secs: s as u8, millis: (c * 10) as u16 };
    assert(ass_time_parse(x) == Some(t));
    assert(ass_time_spec(t) =~= x);
}

} // verus!
