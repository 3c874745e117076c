use vstd::prelude::*;

use crate::clock::now_millis;
use crate::protocol::MIN_PAYLOAD_LEN;

verus! {

/// One decoded sensor reading.
///
/// Temperature is kept in hundredths of a degree Celsius and pressure in
/// tenths of a hectopascal, so that both are exact integers: the payload
/// carries temperature in steps of 0.05 °C and pressure in steps of 0.1 hPa.
#[derive(Clone, Copy, Debug, PartialEq, Eq, Structural)]
pub struct Reading {
    /// Capture time, in milliseconds since the Unix epoch (UTC).
    pub timestamp_ms: i64,
    pub co2_ppm: u16,
    pub temperature_centi_c: i32,
    pub humidity_percent: u8,
    pub pressure_deci_hpa: u32,
    pub battery_percent: u8,
}

/// A little-endian unsigned 16-bit integer.
pub open spec fn le_u16(lo: u8, hi: u8) -> int {
    lo as int + 256 * hi as int
}

/// What a payload of at least eight bytes decodes to, stamped with `ts`.
pub open spec fn decoded(data: Seq<u8>, ts: i64) -> Reading
    recommends
        data.len() >= 8,
{
    Reading {
        timestamp_ms: ts,
        co2_ppm: le_u16(data[0], data[1]) as u16,
        temperature_centi_c: (5 * le_u16(data[2], data[3])) as i32,
        humidity_percent: data[6],
        pressure_deci_hpa: le_u16(data[4], data[5]) as u32,
        battery_percent: data[7],
    }
}

/// Reads a little-endian `u16` from two bytes.
pub fn u16_from_le(lo: u8, hi: u8) -> (r: u16)
    ensures
        r as int == le_u16(lo, hi),
{
    lo as u16 + (hi as u16) * 256
}

/// Decodes a payload, stamping the reading with `timestamp_ms`.
///
/// Payloads shorter than eight bytes are rejected; bytes past the eighth are
/// ignored. No field is range-checked.
pub fn decode(data: &[u8], timestamp_ms: i64) -> (r: Option<Reading>)
    ensures
        data@.len() < 8 ==> r is None,
        data@.len() >= 8 ==> r == Some(decoded(data@, timestamp_ms)),
{
    if data.len() < MIN_PAYLOAD_LEN {
        return None;
    }
    let co2_ppm = u16_from_le(data[0], data[1]);
    let temp_raw = u16_from_le(data[2], data[3]);
    let pressure_raw = u16_from_le(data[4], data[5]);
    Some(Reading {
        timestamp_ms,
        co2_ppm,
        temperature_centi_c: 5 * (temp_raw as i32),
        humidity_percent: data[6],
        pressure_deci_hpa: pressure_raw as u32,
        battery_percent: data[7],
    })
}

impl Reading {
    /// Decodes a payload and stamps it with the current time.
    pub fn from_bytes(data: &[u8]) -> (r: Option<Reading>)
        ensures
            data@.len() < 8 ==> r is None,
            data@.len() >= 8 ==> (r matches Some(x) && x == decoded(data@, x.timestamp_ms)),
    {
        if data.len() < MIN_PAYLOAD_LEN {
            return None;
        }
        decode(data, now_millis())
    }
}

} // verus!
