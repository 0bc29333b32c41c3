//! Calendar date and time decoded from the packed 16-bit DOS encoding.
//!
//! A packed date carries the year offset from 1980 in its top 7 bits, the
//! month in the next 4, and the day in the low 5. A packed time carries the
//! hour in its top 5 bits, the minute in the next 6, and the second at
//! 2-second granularity in the low 5.

use vstd::prelude::*;

verus! {

/// A calendar date.
#[derive(Debug, Clone, Copy, PartialEq, Eq, Structural)]
pub struct FatDate {
    /// Full year (1980 and later).
    pub year: u16,
    /// Month number as stored (1 to 12 on well-formed media).
    pub month: u16,
    /// Day of month as stored (1 to 31 on well-formed media).
    pub day: u16,
}

/// A calendar date with a time of day.
#[derive(Debug, Clone, Copy, PartialEq, Eq, Structural)]
pub struct FatDateTime {
    /// The calendar date.
    pub date: FatDate,
    /// Hour as stored (0 to 23 on well-formed media).
    pub hour: u16,
    /// Minute as stored (0 to 59 on well-formed media).
    pub min: u16,
    /// Second as stored, always even (2-second granularity).
    pub sec: u16,
}

/// The calendar date packed into the 16-bit DOS date `dos_date`.
pub open spec fn spec_decode_date(dos_date: u16) -> FatDate {
    FatDate {
        year: (1980 + (dos_date >> 9)) as u16,
        month: (dos_date >> 5) & 0xf,
        day: dos_date & 0x1f,
    }
}

/// The time of day packed into the 16-bit DOS time `dos_time`, on the date
/// decoded from `dos_date`.
pub open spec fn spec_decode_date_time(dos_date: u16, dos_time: u16) -> FatDateTime {
    FatDateTime {
        date: spec_decode_date(dos_date),
        hour: dos_time >> 11,
        min: (dos_time >> 5) & 0x3f,
        sec: ((dos_time & 0x1f) * 2) as u16,
    }
}

/// Decodes a packed 16-bit DOS date.
pub(crate) fn convert_date(dos_date: u16) -> (d: FatDate)
    ensures
        d == spec_decode_date(dos_date),
{
    assert(dos_date >> 9 < 0x80) by (bit_vector);
    FatDate { year: 1980 + (dos_date >> 9), month: (dos_date >> 5) & 0xf, day: dos_date & 0x1f }
}

/// Decodes a packed 16-bit DOS date and time pair.
pub(crate) fn convert_date_time(dos_date: u16, dos_time: u16) -> (t: FatDateTime)
    ensures
        t == spec_decode_date_time(dos_date, dos_time),
{
    assert(dos_time & 0x1f < 0x20) by (bit_vector);
    FatDateTime {
        date: convert_date(dos_date),
        hour: dos_time >> 11,
        min: (dos_time >> 5) & 0x3f,
        sec: (dos_time & 0x1f) * 2,
    }
}

} // verus!
