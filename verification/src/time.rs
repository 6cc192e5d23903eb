//! Subtitle timestamps.
pub mod bufs;

use crate::byte_helpers::{dec_padded, push_padded};
use crate::error::{Error, Result};
use vstd::prelude::*;

verus! {

/// A subtitle timestamp.
///
/// A well-formed [`Time`] has minutes < 60, seconds < 60 and
/// milliseconds < 1000; [`Time::new`] builds only such values.
#[derive(Copy, Clone, Debug, Default, PartialEq, Eq, Structural, PartialOrd, Ord, Hash)]
pub struct Time {
    pub hours: u16,
    pub mins: u8,
    pub secs: u8,
    pub millis: u16,
}

impl Time {
    /// Minutes, seconds and milliseconds are each in range.
    pub open spec fn is_valid(self) -> bool {
        self.mins < 60 && self.secs < 60 && self.millis < 1000
    }

    /// The timestamp in milliseconds.
    pub open spec fn total_millis(self) -> int {
        ((self.hours * 60 + self.mins) * 60 + self.secs) * 1000 + self.millis
    }

    /// The field-wise order that `derive(Ord)` gives: hours, then minutes,
    /// seconds and milliseconds.
    pub open spec fn spec_lt(self, other: Time) -> bool {
        ||| self.hours < other.hours
        ||| self.hours == other.hours && self.mins < other.mins
        ||| self.hours == other.hours && self.mins == other.mins && self.secs < other.secs
        ||| self.hours == other.hours && self.mins == other.mins && self.secs == other.secs
            && self.millis < other.millis
    }

    pub open spec fn spec_le(self, other: Time) -> bool {
        self.spec_lt(other) || self == other
    }

    /// Whether the sum of two timestamps fits the field types.
    pub open spec fn add_fits(self, other: Time) -> bool {
        let m = self.millis + other.millis;
        let c1: int = if m < 1000 { 0 } else { 1 };
        let s = self.secs + other.secs + c1;
        let c2: int = if s < 60 { 0 } else { 1 };
        let mi = self.mins + other.mins + c2;
        let c3: int = if mi < 60 { 0 } else { 1 };
        &&& m <= u16::MAX
        &&& s <= u8::MAX
        &&& mi <= u8::MAX
        &&& self.hours + other.hours + c3 <= u16::MAX
    }

    /// The sum of two timestamps, field by field with carries.
    pub open spec fn add_spec(self, other: Time) -> Time {
        let m = self.millis + other.millis;
        let c1: int = if m < 1000 { 0 } else { 1 };
        let s = self.secs + other.secs + c1;
        let c2: int = if s < 60 { 0 } else { 1 };
        let mi = self.mins + other.mins + c2;
        let c3: int = if mi < 60 { 0 } else { 1 };
        Time {
            hours: (self.hours + other.hours + c3) as u16,
            mins: (if mi < 60 { mi } else { mi - 60 }) as u8,
            secs: (if s < 60 { s } else { s - 60 }) as u8,
            millis: (if m < 1000 { m } else { m - 1000 }) as u16,
        }
    }

    /// Whether `self - other` fits the field types (in particular, does not go
    /// below zero hours).
    pub open spec fn sub_fits(self, other: Time) -> bool {
        let b1: int = if self.millis >= other.millis { 0 } else { 1 };
        let os = other.secs + b1;
        let b2: int = if self.secs >= os { 0 } else { 1 };
        let om = other.mins + b2;
        let b3: int = if self.mins >= om { 0 } else { 1 };
        &&& b1 == 1 ==> self.millis + 1000 <= u16::MAX && self.millis + 1000 >= other.millis
        &&& os <= u8::MAX
        &&& b2 == 1 ==> self.secs + 60 <= u8::MAX && self.secs + 60 >= os
        &&& om <= u8::MAX
        &&& b3 == 1 ==> self.mins + 60 <= u8::MAX && self.mins + 60 >= om
        &&& self.hours - other.hours - b3 >= 0
    }

    /// The difference of two timestamps, field by field with borrows.
    pub open spec fn sub_spec(self, other: Time) -> Time {
        let b1: int = if self.millis >= other.millis { 0 } else { 1 };
        let os = other.secs + b1;
        let b2: int = if self.secs >= os { 0 } else { 1 };
        let om = other.mins + b2;
        let b3: int = if self.mins >= om { 0 } else { 1 };
        Time {
            hours: (self.hours - other.hours - b3) as u16,
            mins: (if b3 == 0 { self.mins - om } else { self.mins + 60 - om }) as u8,
            secs: (if b2 == 0 { self.secs - os } else { self.secs + 60 - os }) as u8,
            millis: (if b1 == 0 { self.millis - other.millis } else { self.millis + 1000
                - other.millis }) as u16,
        }
    }

    /// Tries to construct a new [`Time`].
    ///
    /// # Errors
    ///
    /// Returns an error in the next cases, checked in this order:
    /// - minutes >= 60
    /// - seconds >= 60
    /// - milliseconds >= 1000
    pub fn new(hours: u16, mins: u8, secs: u8, millis: u16) -> (r: Result<Time>)
        ensures
            mins < 60 && secs < 60 && millis < 1000 ==> r == Ok::<Time, Error>(
                Time { hours, mins, secs, millis },
            ),
            mins >= 60 ==> (r matches Err(e) && e.is_validation("minutes must be < 60")),
            mins < 60 && secs >= 60 ==> (r matches Err(e) && e.is_validation(
                "seconds must be < 60",
            )),
            mins < 60 && secs < 60 && millis >= 1000 ==> (r matches Err(e) && e.is_validation(
                "milliseconds must be < 1000",
            )),
    {
        if mins >= 60 {
            Err(Error::ValueValidation("minutes must be < 60"))
        } else if secs >= 60 {
            Err(Error::ValueValidation("seconds must be < 60"))
        } else if millis >= 1000 {
            Err(Error::ValueValidation("milliseconds must be < 1000"))
        } else {
            Ok(Self::new_unchecked(hours, mins, secs, millis))
        }
    }

    /// Constructs a new [`Time`] without checks. The caller keeps
    /// minutes < 60, seconds < 60 and milliseconds < 1000 if it wants a
    /// well-formed value.
    pub fn new_unchecked(hours: u16, mins: u8, secs: u8, millis: u16) -> (r: Time)
        ensures
            r == (Time { hours, mins, secs, millis }),
    {
        Time { hours, mins, secs, millis }
    }

    /// The zero timestamp.
    pub fn zero() -> (r: Time)
        ensures
            r == (Time { hours: 0, mins: 0, secs: 0, millis: 0 }),
    {
        Time { hours: 0, mins: 0, secs: 0, millis: 0 }
    }

    /// The [`Time`] of a count of whole seconds plus milliseconds; the hours
    /// are truncated to 16 bits.
    pub open spec fn from_secs_and_millis_spec(total_secs: u64, millis: u16) -> Time {
        Time {
            hours: ((total_secs / 60) / 60) as u16,
            mins: ((total_secs / 60) % 60) as u8,
            secs: (total_secs % 60) as u8,
            millis: millis,
        }
    }

    /// Splits a count of whole seconds plus milliseconds into a [`Time`]; the
    /// hours are truncated to 16 bits.
    pub fn from_secs_and_millis(total_secs: u64, millis: u16) -> (r: Time)
        ensures
            r == Time::from_secs_and_millis_spec(total_secs, millis),
    {
        let secs = (total_secs % 60) as u8;
        let total_mins = total_secs / 60;
        let mins = (total_mins % 60) as u8;
        let hours = (total_mins / 60) as u16;
        Time::new_unchecked(hours, mins, secs, millis)
    }

    /// The [`Time`] of a duration: its whole seconds split into hours,
    /// minutes and seconds, and its whole milliseconds past them.
    pub open spec fn duration_time(dur: std::time::Duration) -> Time {
        Time::from_secs_and_millis_spec(duration_secs_of(dur), duration_millis_of(dur) as u16)
    }

    /// Converts a duration into a [`Time`] (see [`Time::duration_time`]).
    pub fn from_duration(dur: std::time::Duration) -> (r: Time)
        ensures
            r == Time::duration_time(dur),
            r.is_valid(),
    {
        let millis = duration_subsec_millis(&dur);
        let total_secs = duration_as_secs(&dur);
        Time::from_secs_and_millis(total_secs, millis as u16)
    }

    /// The `HH:MM:SS,mmm` text of a timestamp: each field in decimal, padded
    /// with zeros to two digits (three for the milliseconds, which are taken
    /// modulo one thousand); the hours are not capped.
    pub open spec fn to_srt_spec(self) -> Seq<u8> {
        dec_padded(self.hours as nat, 2) + seq![0x3Au8] + dec_padded(self.mins as nat, 2) + seq![
            0x3Au8,
        ] + dec_padded(self.secs as nat, 2) + seq![0x2Cu8] + dec_padded(
            (self.millis % 1000) as nat,
            3,
        )
    }

    /// Writes the timestamp as `HH:MM:SS,mmm`.
    pub fn to_srt(self) -> (r: Vec<u8>)
        ensures
            r@ == self.to_srt_spec(),
    {
        let mut out: Vec<u8> = Vec::new();
        push_padded(&mut out, self.hours as u64, 2);
        out.push(0x3Au8);
        push_padded(&mut out, self.mins as u64, 2);
        out.push(0x3Au8);
        push_padded(&mut out, self.secs as u64, 2);
        out.push(0x2Cu8);
        push_padded(&mut out, (self.millis % 1000) as u64, 3);
        assert(out@ =~= self.to_srt_spec());
        out
    }

    /// Whether `self` comes strictly before `other` in the field-wise order.
    pub fn is_before(&self, other: &Time) -> (r: bool)
        ensures
            r == self.spec_lt(*other),
    {
        if self.hours != other.hours {
            self.hours < other.hours
        } else if self.mins != other.mins {
            self.mins < other.mins
        } else if self.secs != other.secs {
            self.secs < other.secs
        } else {
            self.millis < other.millis
        }
    }

    /// Whether `self` comes before `other` or equals it.
    pub fn is_at_or_before(&self, other: &Time) -> (r: bool)
        ensures
            r == self.spec_le(*other),
    {
        self.is_before(other) || (self.hours == other.hours && self.mins == other.mins
            && self.secs == other.secs && self.millis == other.millis)
    }

    /// Adds two timestamps field by field, carrying milliseconds into seconds,
    /// seconds into minutes and minutes into hours.
    pub fn add_time(self, other: Time) -> (r: Time)
        requires
            self.add_fits(other),
        ensures
            r == self.add_spec(other),
    {
        let m = self.millis + other.millis;
        let (millis, c1) = if m < 1000 {
            (m, 0u8)
        } else {
            (m - 1000, 1u8)
        };
        let s = self.secs + other.secs + c1;
        let (secs, c2) = if s < 60 {
            (s, 0u8)
        } else {
            (s - 60, 1u8)
        };
        let mi = self.mins + other.mins + c2;
        let (mins, c3) = if mi < 60 {
            (mi, 0u16)
        } else {
            (mi - 60, 1u16)
        };
        Time { hours: self.hours + other.hours + c3, mins, secs, millis }
    }

    /// Subtracts `other` field by field, borrowing from seconds, minutes and
    /// hours.
    pub fn sub_time(self, other: Time) -> (r: Time)
        requires
            self.sub_fits(other),
        ensures
            r == self.sub_spec(other),
    {
        let (millis, b1) = if self.millis >= other.millis {
            (self.millis - other.millis, 0u8)
        } else {
            (self.millis + 1000 - other.millis, 1u8)
        };
        let os = other.secs + b1;
        let (secs, b2) = if self.secs >= os {
            (self.secs - os, 0u8)
        } else {
            (self.secs + 60 - os, 1u8)
        };
        let om = other.mins + b2;
        let (mins, b3) = if self.mins >= om {
            (self.mins - om, 0u16)
        } else {
            (self.mins + 60 - om, 1u16)
        };
        Time { hours: self.hours - other.hours - b3, mins, secs, millis }
    }

    /// The sum, or `None` where it does not fit the field types.
    pub fn checked_add(self, other: Time) -> (r: Option<Time>)
        ensures
            r == (if self.add_fits(other) {
                Some(self.add_spec(other))
            } else {
                None::<Time>
            }),
    {
        let m = self.millis as u32 + other.millis as u32;
        let c1: u32 = if m < 1000 { 0 } else { 1 };
        let s = self.secs as u32 + other.secs as u32 + c1;
        let c2: u32 = if s < 60 { 0 } else { 1 };
        let mi = self.mins as u32 + other.mins as u32 + c2;
        let c3: u32 = if mi < 60 { 0 } else { 1 };
        if m <= 65535 && s <= 255 && mi <= 255 && self.hours as u32 + other.hours as u32 + c3
            <= 65535 {
            Some(self.add_time(other))
        } else {
            None
        }
    }

    /// The difference, or `None` where it does not fit the field types.
    pub fn checked_sub(self, other: Time) -> (r: Option<Time>)
        ensures
            r == (if self.sub_fits(other) {
                Some(self.sub_spec(other))
            } else {
                None::<Time>
            }),
    {
        let b1: i32 = if self.millis >= other.millis { 0 } else { 1 };
        let os = other.secs as i32 + b1;
        let b2: i32 = if self.secs as i32 >= os { 0 } else { 1 };
        let om = other.mins as i32 + b2;
        let b3: i32 = if self.mins as i32 >= om { 0 } else { 1 };
        let millis_ok = b1 == 0 || (self.millis as i32 + 1000 <= 65535 && self.millis as i32
            + 1000 >= other.millis as i32);
        let secs_ok = b2 == 0 || (self.secs as i32 + 60 <= 255 && self.secs as i32 + 60 >= os);
        let mins_ok = b3 == 0 || (self.mins as i32 + 60 <= 255 && self.mins as i32 + 60 >= om);
        if millis_ok && os <= 255 && secs_ok && om <= 255 && mins_ok && self.hours as i32
            - other.hours as i32 - b3 >= 0 {
            Some(self.sub_time(other))
        } else {
            None
        }
    }

    /// Adds `other` to `self` in place.
    pub fn add_assign(&mut self, other: Time)
        requires
            old(self).add_fits(other),
        ensures
            *final(self) == old(self).add_spec(other),
    {
        *self = self.add_time(other);
    }

    /// Subtracts `other` from `self` in place.
    pub fn sub_assign(&mut self, other: Time)
        requires
            old(self).sub_fits(other),
        ensures
            *final(self) == old(self).sub_spec(other),
    {
        *self = self.sub_time(other);
    }

    /// Adds a duration, taken as a [`Time`] (see [`Time::duration_time`]).
    pub fn add_duration(self, dur: std::time::Duration) -> (r: Time)
        requires
            self.add_fits(Time::duration_time(dur)),
        ensures
            r == self.add_spec(Time::duration_time(dur)),
    {
        self.add_time(Time::from_duration(dur))
    }

    /// Subtracts a duration, taken as a [`Time`] (see [`Time::duration_time`]).
    pub fn sub_duration(self, dur: std::time::Duration) -> (r: Time)
        requires
            self.sub_fits(Time::duration_time(dur)),
        ensures
            r == self.sub_spec(Time::duration_time(dur)),
    {
        self.sub_time(Time::from_duration(dur))
    }

    /// The sum with a duration, or `None` where it does not fit the field
    /// types.
    pub fn checked_add_duration(self, dur: std::time::Duration) -> (r: Option<Time>)
        ensures
            r == (if self.add_fits(Time::duration_time(dur)) {
                Some(self.add_spec(Time::duration_time(dur)))
            } else {
                None::<Time>
            }),
    {
        self.checked_add(Time::from_duration(dur))
    }

    /// The difference with a duration, or `None` where it does not fit the
    /// field types.
    pub fn checked_sub_duration(self, dur: std::time::Duration) -> (r: Option<Time>)
        ensures
            r == (if self.sub_fits(Time::duration_time(dur)) {
                Some(self.sub_spec(Time::duration_time(dur)))
            } else {
                None::<Time>
            }),
    {
        self.checked_sub(Time::from_duration(dur))
    }
}

/// The length in milliseconds of the latest timestamp that the field types hold.
pub open spec fn max_total_millis() -> int {
    65536 * 3600000 - 1
}

/// Adding two well-formed timestamps whose lengths sum to no more than the
/// field types hold gives a well-formed timestamp whose length in
/// milliseconds is the sum of theirs.
pub proof fn lemma_add_total(a: Time, b: Time)
    requires
        a.is_valid(),
        b.is_valid(),
        a.total_millis() + b.total_millis() <= max_total_millis(),
    ensures
        a.add_fits(b),
        a.add_spec(b).is_valid(),
        a.add_spec(b).total_millis() == a.total_millis() + b.total_millis(),
{
}

/// Subtracting a well-formed timestamp from a later or equal one gives a
/// well-formed timestamp whose length is the difference of theirs.
pub proof fn lemma_sub_total(a: Time, b: Time)
    requires
        a.is_valid(),
        b.is_valid(),
        a.total_millis() >= b.total_millis(),
    ensures
        a.sub_fits(b),
        a.sub_spec(b).is_valid(),
        a.sub_spec(b).total_millis() == a.total_millis() - b.total_millis(),
{
}

/// Two well-formed timestamps of the same length are equal.
pub proof fn lemma_total_injective(a: Time, b: Time)
    requires
        a.is_valid(),
        b.is_valid(),
        a.total_millis() == b.total_millis(),
    ensures
        a == b,
{
}

/// Subtracting what was added gives back the first timestamp.
pub proof fn lemma_add_then_sub(a: Time, b: Time)
    requires
        a.is_valid(),
        b.is_valid(),
        a.total_millis() + b.total_millis() <= max_total_millis(),
    ensures
        a.add_spec(b).sub_fits(b),
        a.add_spec(b).sub_spec(b) == a,
{
    lemma_add_total(a, b);
    let c = a.add_spec(b);
    lemma_sub_total(c, b);
    lemma_total_injective(c.sub_spec(b), a);
}

/// Adding back what was subtracted gives back the first timestamp.
pub proof fn lemma_sub_then_add(a: Time, b: Time)
    requires
        a.is_valid(),
        b.is_valid(),
        a.total_millis() >= b.total_millis(),
    ensures
        a.sub_spec(b).add_fits(b),
        a.sub_spec(b).add_spec(b) == a,
{
    lemma_sub_total(a, b);
    let c = a.sub_spec(b);
    lemma_add_total(c, b);
    lemma_total_injective(c.add_spec(b), a);
}

/// On well-formed timestamps the field-wise order is the order of their
/// lengths.
pub proof fn lemma_order_is_length_order(a: Time, b: Time)
    requires
        a.is_valid(),
        b.is_valid(),
    ensures
        a.spec_lt(b) <==> a.total_millis() < b.total_millis(),
        a.spec_le(b) <==> a.total_millis() <= b.total_millis(),
{
    if a.total_millis() == b.total_millis() {
        lemma_total_injective(a, b);
    }
}

/// The whole seconds of a duration, as `Duration::as_secs` gives them.
pub uninterp spec fn duration_secs_of(d: std::time::Duration) -> u64;

/// The whole milliseconds past the seconds of a duration, as
/// `Duration::subsec_millis` gives them.
pub uninterp spec fn duration_millis_of(d: std::time::Duration) -> u32;

/// Whole seconds of a duration (`Duration::as_secs`): the contract names the
/// result, which depends on the duration alone.
#[verifier::external_body]
fn duration_as_secs(d: &std::time::Duration) -> (r: u64)
    ensures
        r == duration_secs_of(*d),
{
    d.as_secs()
}

/// The fractional part of a duration in whole milliseconds
/// (`Duration::subsec_millis`): the contract names the result, and states
/// what its documentation says, that it is below one thousand.
#[verifier::external_body]
fn duration_subsec_millis(d: &std::time::Duration) -> (r: u32)
    ensures
        r == duration_millis_of(*d),
        r < 1000,
{
    d.subsec_millis()
}

} // verus!
