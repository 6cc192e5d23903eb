//! Fixed-width text forms of a [`Time`] for the subtitle formats.
use crate::time::Time;
use vstd::prelude::*;

verus! {

/// Two decimal digits of `v` (which is below one hundred).
pub open spec fn two_digits(v: nat) -> Seq<u8> {
    seq![(0x30 + v / 10) as u8, (0x30 + v % 10) as u8]
}

/// Three decimal digits of `v` (which is below one thousand).
pub open spec fn three_digits(v: nat) -> Seq<u8> {
    seq![(0x30 + v / 100) as u8, (0x30 + (v / 10) % 10) as u8, (0x30 + v % 10) as u8]
}

/// The fields of `t` are small enough for the fixed-width forms: minutes and
/// seconds below one hundred, milliseconds below one thousand.
pub open spec fn fits_fixed_width(t: Time) -> bool {
    t.mins < 100 && t.secs < 100 && t.millis < 1000
}

/// `HH:MM:SS<sep>mmm`, with the hours capped at 99: the SubRip form with
/// `sep` a comma, the WebVTT form with `sep` a full stop.
pub open spec fn hms_millis_spec(t: Time, sep1: u8, sep2: u8, sep3: u8) -> Seq<u8> {
    let h: nat = if t.hours > 99 { 99 } else { t.hours as nat };
    two_digits(h) + seq![sep1] + two_digits(t.mins as nat) + seq![sep2] + two_digits(
        t.secs as nat,
    ) + seq![sep3] + three_digits(t.millis as nat)
}

/// The SubRip form of a timestamp: `HH:MM:SS,mmm`.
pub open spec fn srt_time_spec(t: Time) -> Seq<u8> {
    hms_millis_spec(t, 0x3Au8, 0x3Au8, 0x2Cu8)
}

/// The WebVTT form of a timestamp: `HH:MM:SS.mmm`.
pub open spec fn vtt_time_spec(t: Time) -> Seq<u8> {
    hms_millis_spec(t, 0x3Au8, 0x3Au8, 0x2Eu8)
}

/// `H:MM:SS:CC` from one digit of hours, two of minutes, two of seconds and
/// two of hundredths.
pub open spec fn ass_fields_spec(h: nat, m: nat, s: nat, c: nat) -> Seq<u8> {
    seq![(0x30 + h) as u8, 0x3Au8] + two_digits(m) + seq![0x3Au8] + two_digits(s) + seq![0x3Au8]
        + two_digits(c)
}

/// The SubStation Alpha form of a timestamp: `H:MM:SS:CC`, with the hours
/// capped at 9 and the milliseconds shown as whole hundredths of a second.
pub open spec fn ass_time_spec(t: Time) -> Seq<u8> {
    let h: nat = if t.hours > 9 { 9 } else { t.hours as nat };
    ass_fields_spec(h, t.mins as nat, t.secs as nat, (t.millis / 10) as nat)
}

/// Appends two decimal digits of `v`.
pub fn push_two_digits(out: &mut Vec<u8>, v: u16)
    requires
        v < 100,
    ensures
        final(out)@ == old(out)@ + two_digits(v as nat),
{
    out.push((0x30 + v / 10) as u8);
    out.push((0x30 + v % 10) as u8);
    assert(final(out)@ =~= old(out)@ + two_digits(v as nat));
}

/// Appends three decimal digits of `v`.
pub fn push_three_digits(out: &mut Vec<u8>, v: u16)
    requires
        v < 1000,
    ensures
        final(out)@ == old(out)@ + three_digits(v as nat),
{
    out.push((0x30 + v / 100) as u8);
    out.push((0x30 + (v / 10) % 10) as u8);
    out.push((0x30 + v % 10) as u8);
    assert(final(out)@ =~= old(out)@ + three_digits(v as nat));
}

/// Appends the SubRip form of `t`.
pub fn push_srt_time(out: &mut Vec<u8>, t: Time)
    requires
        fits_fixed_width(t),
    ensures
        final(out)@ == old(out)@ + srt_time_spec(t),
{
    push_hms_millis(out, t, 0x3Au8, 0x3Au8, 0x2Cu8);
}

/// Appends the WebVTT form of `t`.
pub fn push_vtt_time(out: &mut Vec<u8>, t: Time)
    requires
        fits_fixed_width(t),
    ensures
        final(out)@ == old(out)@ + vtt_time_spec(t),
{
    push_hms_millis(out, t, 0x3Au8, 0x3Au8, 0x2Eu8);
}

fn push_hms_millis(out: &mut Vec<u8>, t: Time, sep1: u8, sep2: u8, sep3: u8)
    requires
        fits_fixed_width(t),
    ensures
        final(out)@ == old(out)@ + hms_millis_spec(t, sep1, sep2, sep3),
{
    let h: u16 = if t.hours > 99 {
        99
    } else {
        t.hours
    };
    push_two_digits(out, h);
    out.push(sep1);
    push_two_digits(out, t.mins as u16);
    out.push(sep2);
    push_two_digits(out, t.secs as u16);
    out.push(sep3);
    push_three_digits(out, t.millis);
    assert(final(out)@ =~= old(out)@ + hms_millis_spec(t, sep1, sep2, sep3));
}

/// Appends `H:MM:SS:CC` from its four fields.
pub fn push_ass_fields(out: &mut Vec<u8>, h: u16, m: u16, s: u16, c: u16)
    requires
        h < 10,
        m < 100,
        s < 100,
        c < 100,
    ensures
        final(out)@ == old(out)@ + ass_fields_spec(h as nat, m as nat, s as nat, c as nat),
{
    out.push((0x30u16 + h) as u8);
    out.push(0x3Au8);
    push_two_digits(out, m);
    out.push(0x3Au8);
    push_two_digits(out, s);
    out.push(0x3Au8);
    push_two_digits(out, c);
    assert(final(out)@ =~= old(out)@ + ass_fields_spec(h as nat, m as nat, s as nat, c as nat));
}

/// Appends the SubStation Alpha form of `t`.
pub fn push_ass_time(out: &mut Vec<u8>, t: Time)
    requires
        fits_fixed_width(t),
    ensures
        final(out)@ == old(out)@ + ass_time_spec(t),
{
    let h: u16 = if t.hours > 9 {
        9
    } else {
        t.hours
    };
    push_ass_fields(out, h, t.mins as u16, t.secs as u16, t.millis / 10);
}

/// A reusable buffer of `N` bytes that holds the text of one timestamp.
pub struct TimeBuf<const N: usize> {
    pub(crate) buf: Vec<u8>,
}

/// The buffer of the SubStation Alpha form.
pub type AssTimeBuf = TimeBuf<10>;

/// The buffer of the SubRip form.
pub struct SrtTimeBuf(pub TimeBuf<12>);

/// The buffer of the WebVTT form.
pub struct VttTimeBuf(pub TimeBuf<12>);

impl<const N: usize> TimeBuf<N> {
    /// The bytes the buffer holds.
    pub closed spec fn bytes(&self) -> Seq<u8> {
        self.buf@
    }
}

impl TimeBuf<10> {
    /// A buffer that holds `0:00:00:00`.
    pub fn new() -> (r: TimeBuf<10>)
        ensures
            r.bytes() == seq![0x30u8, 0x3A, 0x30, 0x30, 0x3A, 0x30, 0x30, 0x3A, 0x30, 0x30],
    {
        let buf = vec![0x30u8, 0x3A, 0x30, 0x30, 0x3A, 0x30, 0x30, 0x3A, 0x30, 0x30];
        assert(buf@ =~= seq![0x30u8, 0x3A, 0x30, 0x30, 0x3A, 0x30, 0x30, 0x3A, 0x30, 0x30]);
        TimeBuf { buf }
    }

    /// Writes the SubStation Alpha form of `time` into the buffer and returns it.
    pub fn format_time(&mut self, time: Time) -> (r: &[u8])
        requires
            fits_fixed_width(time),
        ensures
            r@ == ass_time_spec(time),
            final(self).bytes() == ass_time_spec(time),
    {
        let mut buf: Vec<u8> = Vec::new();
        push_ass_time(&mut buf, time);
        assert(buf@ =~= ass_time_spec(time));
        self.buf = buf;
        self.buf.as_slice()
    }
}

impl TimeBuf<12> {
    /// Writes `time` as `HH:MM:SS` and three digits of milliseconds, keeping
    /// the separators the buffer already holds, and returns the buffer.
    pub fn format_time(&mut self, time: Time) -> (r: &[u8])
        requires
            fits_fixed_width(time),
            old(self).bytes().len() == 12,
        ensures
            r@ == hms_millis_spec(
                time,
                old(self).bytes()[2],
                old(self).bytes()[5],
                old(self).bytes()[8],
            ),
            final(self).bytes() == r@,
    {
        let s1 = self.buf[2];
        let s2 = self.buf[5];
        let s3 = self.buf[8];
        let mut buf: Vec<u8> = Vec::new();
        push_hms_millis(&mut buf, time, s1, s2, s3);
        self.buf = buf;
        self.buf.as_slice()
    }
}

impl SrtTimeBuf {
    /// A buffer that holds `00:00:00,000`.
    pub fn new() -> (r: SrtTimeBuf)
        ensures
            r.0.bytes() == srt_time_spec(Time { hours: 0, mins: 0, secs: 0, millis: 0 }),
    {
        let mut buf: Vec<u8> = Vec::new();
        push_srt_time(&mut buf, Time::zero());
        SrtTimeBuf(TimeBuf { buf })
    }
}

impl VttTimeBuf {
    /// A buffer that holds `00:00:00.000`.
    pub fn new() -> (r: VttTimeBuf)
        ensures
            r.0.bytes() == vtt_time_spec(Time { hours: 0, mins: 0, secs: 0, millis: 0 }),
    {
        let mut buf: Vec<u8> = Vec::new();
        push_vtt_time(&mut buf, Time::zero());
        VttTimeBuf(TimeBuf { buf })
    }
}

} // verus!
