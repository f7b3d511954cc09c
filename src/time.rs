//! Local calendar time of a modification, and its `YYYY-MM-DD HH:MM:SS` text.
use vstd::prelude::*;
use crate::digits::{digits, push_digits};

verus! {

/// A moment in the local time zone, field by field.
#[derive(Clone, Copy, Debug, PartialEq, Eq, Structural)]
pub struct LocalTime {
    pub year: i32,
    pub month: u8,
    pub day: u8,
    pub hour: u8,
    pub minute: u8,
    pub second: u8,
}

impl LocalTime {
    pub open spec fn wf(&self) -> bool {
        &&& 1 <= self.month <= 12
        &&& 1 <= self.day <= 31
        &&& self.hour < 24
        &&& self.minute < 60
        &&& self.second < 60
    }
}

/// A value below 100 as two digits.
pub open spec fn two_digits(n: int) -> Seq<u8> {
    seq![(0x30 + n / 10) as u8, (0x30 + n % 10) as u8]
}

/// A number as at least four digits, zero-padded on the left.
pub open spec fn pad4(n: nat) -> Seq<u8> {
    if n < 10 {
        seq![0x30u8, 0x30u8, 0x30u8] + digits(n)
    } else if n < 100 {
        seq![0x30u8, 0x30u8] + digits(n)
    } else if n < 1000 {
        seq![0x30u8] + digits(n)
    } else {
        digits(n)
    }
}

/// A year as four digits; outside 0 to 9999 it carries a sign.
pub open spec fn year_text(y: int) -> Seq<u8> {
    if 0 <= y <= 9999 {
        pad4(y as nat)
    } else if y < 0 {
        seq![0x2du8] + pad4((-y) as nat)
    } else {
        seq![0x2bu8] + pad4(y as nat)
    }
}

/// `YYYY-MM-DD HH:MM:SS`.
pub open spec fn timestamp_text(t: LocalTime) -> Seq<u8> {
    year_text(t.year as int) + seq![0x2du8] + two_digits(t.month as int) + seq![0x2du8]
        + two_digits(t.day as int) + seq![0x20u8] + two_digits(t.hour as int) + seq![0x3au8]
        + two_digits(t.minute as int) + seq![0x3au8] + two_digits(t.second as int)
}

fn push_two_digits(out: &mut Vec<u8>, n: u8)
    requires
        n < 100,
    ensures
        final(out)@ == old(out)@ + two_digits(n as int),
{
    out.push(n / 10 + 0x30);
    out.push(n % 10 + 0x30);
    assert(final(out)@ =~= old(out)@ + two_digits(n as int));
}

fn push_pad4(out: &mut Vec<u8>, n: u64)
    ensures
        final(out)@ == old(out)@ + pad4(n as nat),
{
    if n < 10 {
        out.push(0x30);
        out.push(0x30);
        out.push(0x30);
    } else if n < 100 {
        out.push(0x30);
        out.push(0x30);
    } else if n < 1000 {
        out.push(0x30);
    }
    push_digits(out, n);
    assert(final(out)@ =~= old(out)@ + pad4(n as nat));
}

/// Appends the text of a moment, `YYYY-MM-DD HH:MM:SS`.
pub fn push_timestamp(out: &mut Vec<u8>, t: &LocalTime)
    requires
        t.wf(),
    ensures
        final(out)@ == old(out)@ + timestamp_text(*t),
{
    let y = t.year;
    if 0 <= y && y <= 9999 {
        push_pad4(out, y as u64);
    } else if y < 0 {
        out.push(0x2d);
        let m: i64 = -(y as i64);
        push_pad4(out, m as u64);
    } else {
        out.push(0x2b);
        push_pad4(out, y as u64);
    }
    let ghost after_year = out@;
    assert(after_year =~= old(out)@ + year_text(y as int));
    out.push(0x2d);
    push_two_digits(out, t.month);
    out.push(0x2d);
    push_two_digits(out, t.day);
    out.push(0x20);
    push_two_digits(out, t.hour);
    out.push(0x3a);
    push_two_digits(out, t.minute);
    out.push(0x3a);
    push_two_digits(out, t.second);
    assert(final(out)@ =~= old(out)@ + timestamp_text(*t));
}

/// The text of a moment, `YYYY-MM-DD HH:MM:SS`.
pub fn format_timestamp(t: &LocalTime) -> (r: Vec<u8>)
    requires
        t.wf(),
    ensures
        r@ == timestamp_text(*t),
{
    let mut out: Vec<u8> = Vec::new();
    push_timestamp(&mut out, t);
    assert(out@ =~= timestamp_text(*t));
    out
}

/// Nanoseconds from the epoch to a moment `secs` seconds and `nanos`
/// nanoseconds after it, or before it when `before_epoch`.
pub open spec fn signed_nanos(before_epoch: bool, secs: u64, nanos: u32) -> int {
    let mag = secs as int * 1_000_000_000 + nanos as int;
    if before_epoch {
        -mag
    } else {
        mag
    }
}

/// A moment given as a distance from the epoch and a direction, as whole
/// seconds (rounded down) and the nanoseconds after them; None when the
/// seconds do not fit in an `i64`.
pub fn epoch_offset(before_epoch: bool, secs: u64, nanos: u32) -> (r: Option<(i64, u32)>)
    requires
        nanos < 1_000_000_000,
    ensures
        r is Some <==> secs <= i64::MAX as u64,
        r matches Some(p) ==> p.1 < 1_000_000_000 && p.0 as int * 1_000_000_000 + p.1 as int
            == signed_nanos(before_epoch, secs, nanos),
{
    if secs > i64::MAX as u64 {
        return None;
    }
    let s = secs as i64;
    if !before_epoch {
        Some((s, nanos))
    } else if nanos == 0 {
        Some((-s, 0))
    } else {
        Some((-s - 1, 1_000_000_000 - nanos))
    }
}

/// Relies on chrono: DateTime::from_timestamp gives the instant `secs`
/// seconds and `nanos` nanoseconds after the Unix epoch (None when out of
/// range), with_timezone(&Local) moves it to the machine's time zone, and
/// Datelike / Timelike read its fields, within their documented ranges.
/// from_timestamp fails only for nanoseconds out of range or seconds beyond
/// its calendar's years (about 262,000 either side of year 0).
#[verifier::external_body]
fn local_fields(secs: i64, nanos: u32) -> (r: Option<(i32, u32, u32, u32, u32, u32)>)
    ensures
        nanos < 1_000_000_000 && -8_000_000_000_000 <= secs <= 8_000_000_000_000 ==> r is Some,
        r matches Some(f) ==> 1 <= f.1 <= 12 && 1 <= f.2 <= 31 && f.3 < 24 && f.4 < 60 && f.5
            < 60,
{
    let t = chrono::DateTime::from_timestamp(secs, nanos)?.with_timezone(&chrono::Local);
    Some((
        chrono::Datelike::year(&t),
        chrono::Datelike::month(&t),
        chrono::Datelike::day(&t),
        chrono::Timelike::hour(&t),
        chrono::Timelike::minute(&t),
        chrono::Timelike::second(&t),
    ))
}

/// The local time of an instant given as seconds and nanoseconds since the
/// Unix epoch, or None when the instant cannot be represented. The fields
/// depend on the machine's time zone; whatever it is, they are in range.
/// Every instant within some 250,000 years of the epoch is representable.
pub fn local_time(secs: i64, nanos: u32) -> (r: Option<LocalTime>)
    ensures
        nanos < 1_000_000_000 && -8_000_000_000_000 <= secs <= 8_000_000_000_000 ==> r is Some,
        r matches Some(t) ==> t.wf(),
{
    match local_fields(secs, nanos) {
        Some(f) => Some(
            LocalTime {
                year: f.0,
                month: f.1 as u8,
                day: f.2 as u8,
                hour: f.3 as u8,
                minute: f.4 as u8,
                second: f.5 as u8,
            },
        ),
        None => None,
    }
}

} // verus!
