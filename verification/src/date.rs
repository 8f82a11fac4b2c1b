use vstd::prelude::*;

use crate::error::Error;

verus! {

/// A file's modification time, held as plain calendar fields and packed on
/// demand into the two 16-bit DOS date/time fields the archive format wants.
///
/// The DOS date field counts years from 1980 in 7 bits, so a well-formed
/// timestamp stays at or below 2107; a year before 1980 is representable
/// here but refused when the date field is packed.
#[derive(Clone, Copy, PartialEq, Eq, Structural, Debug)]
pub struct Timestamp {
    pub year: u16,
    /// 1 to 12.
    pub month: u8,
    /// 1 to 31.
    pub day: u8,
    /// 0 to 23.
    pub hour: u8,
    /// 0 to 59.
    pub minute: u8,
    /// 0 to 59.
    pub second: u8,
}

impl Timestamp {
    /// The calendar fields fit the DOS bit widths.
    pub open spec fn wf(self) -> bool {
        &&& 1 <= self.month <= 12
        &&& 1 <= self.day <= 31
        &&& self.hour <= 23
        &&& self.minute <= 59
        &&& self.second <= 59
        &&& self.year <= 2107
    }

    /// The date is representable at all: the format's epoch is 1980.
    pub open spec fn date_ok(self) -> bool {
        self.year >= 1980
    }

    /// The DOS time field: hour in the top 5 bits, minute in the middle 6,
    /// seconds divided by two in the low 5.
    pub open spec fn time_field(self) -> u16 {
        (self.hour * 2048 + self.minute * 32 + self.second / 2) as u16
    }

    /// The DOS date field: years since 1980 in the top 7 bits, month in the
    /// middle 4, day in the low 5. Meaningful only when `date_ok` holds.
    pub open spec fn date_field(self) -> u16 {
        ((self.year - 1980) * 512 + self.month * 32 + self.day) as u16
    }

    pub fn dos_timepart(&self) -> (r: u16)
        requires
            self.wf(),
        ensures
            r == self.time_field(),
    {
        (self.hour as u16) * 2048 + (self.minute as u16) * 32 + (self.second as u16) / 2
    }

    pub fn dos_datepart(&self) -> (r: Result<u16, Error>)
        requires
            self.wf(),
        ensures
            self.date_ok() ==> r == Ok::<u16, Error>(self.date_field()),
            !self.date_ok() ==> r == Err::<u16, Error>(Error::DateBeforeEpoch),
    {
        if self.year < 1980 {
            Err(Error::DateBeforeEpoch)
        } else {
            Ok((self.year - 1980) * 512 + (self.month as u16) * 32 + (self.day as u16))
        }
    }
}

} // verus!
