//! The clock line: the date and time read from the CMOS real-time clock, whose registers
//! hold binary-coded decimal. Reading the clock's ports is done outside this library.
use crate::utils::text::{ascii_bytes, push_ascii, push_decimal, spec_decimal};
use crate::utils::{Port, PortWrite};
use vstd::prelude::*;
use vstd::string::*;

verus! {

/// The port that selects a clock register.
pub const RTC_INDEX_PORT: u16 = 0x70;

/// The port that gives the selected register's value.
pub const RTC_DATA_PORT: u16 = 0x71;

/// The clock's status register A, whose bit 7 is set while the clock updates.
pub const RTC_STATUS_A: u8 = 0x0a;

pub const RTC_SECONDS: u8 = 0x00;

pub const RTC_MINUTES: u8 = 0x02;

pub const RTC_HOURS: u8 = 0x04;

pub const RTC_DAY_OF_MONTH: u8 = 0x07;

pub const RTC_MONTH: u8 = 0x08;

pub const RTC_YEAR: u8 = 0x09;

/// The value of two binary-coded decimal digits: the high four bits are the tens.
pub open spec fn spec_bcd_to_bin(bcd: u8) -> u8 {
    (bcd % 16 + (bcd / 16) * 10) as u8
}

pub fn bcd_to_bin(bcd: u8) -> (r: u8)
    ensures
        r == spec_bcd_to_bin(bcd),
{
    assert(bcd & 0x0f == bcd % 16 && bcd >> 4 == bcd / 16) by (bit_vector);
    (bcd & 0x0F) + ((bcd >> 4) * 10)
}

/// Reading clock register `register`: the write that selects it, then the port to read.
pub fn read_rtc(register: u8) -> (r: (PortWrite, Port))
    ensures
        r.0 == (PortWrite { port: Port { addr: RTC_INDEX_PORT }, value: register }),
        r.1 == (Port { addr: RTC_DATA_PORT }),
{
    (PortWrite { port: Port::new(RTC_INDEX_PORT), value: register }, Port::new(RTC_DATA_PORT))
}

/// Whether status register A says that the clock is updating: its bit 7.
pub fn rtc_updating(status_a: u8) -> (r: bool)
    ensures
        r == (status_a >= 0x80),
{
    assert(status_a & 0x80 == 0 <==> status_a < 0x80) by (bit_vector);
    status_a & 0x80 != 0
}

/// The raw clock registers, in binary-coded decimal.
#[derive(Debug, Clone, Copy, PartialEq, Eq)]
pub struct RtcRegisters {
    pub hours: u8,
    pub minutes: u8,
    pub seconds: u8,
    pub day: u8,
    pub month: u8,
    pub year: u8,
}

/// The text before the time.
pub open spec fn datetime_prefix() -> Seq<char> {
    seq!['C', 'u', 'r', 'r', 'e', 'n', 't', ' ', 't', 'i', 'm', 'e', ':', ' ']
}

/// `Current time: h:m:s d/m/y`, each number in decimal without padding.
pub open spec fn spec_datetime_text(r: RtcRegisters) -> Seq<u8> {
    ascii_bytes(datetime_prefix()) + spec_decimal(spec_bcd_to_bin(r.hours) as nat) + seq![0x3au8]
        + spec_decimal(spec_bcd_to_bin(r.minutes) as nat) + seq![0x3au8] + spec_decimal(
        spec_bcd_to_bin(r.seconds) as nat,
    ) + seq![0x20u8] + spec_decimal(spec_bcd_to_bin(r.day) as nat) + seq![0x2fu8] + spec_decimal(
        spec_bcd_to_bin(r.month) as nat,
    ) + seq![0x2fu8] + spec_decimal(spec_bcd_to_bin(r.year) as nat)
}

/// The clock line for the registers read.
pub fn datetime_text(r: RtcRegisters) -> (t: Vec<u8>)
    ensures
        t@ == spec_datetime_text(r),
{
    let prefix = "Current time: ";
    proof {
        reveal_strlit("Current time: ");
        assert(prefix@ =~= datetime_prefix());
    }
    let mut out: Vec<u8> = Vec::new();
    push_ascii(&mut out, prefix);
    push_decimal(&mut out, bcd_to_bin(r.hours) as u64);
    out.push(0x3a);
    push_decimal(&mut out, bcd_to_bin(r.minutes) as u64);
    out.push(0x3a);
    push_decimal(&mut out, bcd_to_bin(r.seconds) as u64);
    out.push(0x20);
    push_decimal(&mut out, bcd_to_bin(r.day) as u64);
    out.push(0x2f);
    push_decimal(&mut out, bcd_to_bin(r.month) as u64);
    out.push(0x2f);
    push_decimal(&mut out, bcd_to_bin(r.year) as u64);
    assert(out@ =~= spec_datetime_text(r));
    out
}

} // verus!
