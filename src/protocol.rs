use vstd::prelude::*;

verus! {

/// 128-bit identifier of the Aranet4 service.
pub const ARANET4_SERVICE: u128 = 0x0000FCE0_0000_1000_8000_00805f9b34fb;

/// 128-bit identifier of the characteristic that holds the current readings.
pub const SENSOR_CHARACTERISTIC: u128 = 0xF0CD3001_95DA_4F4B_9AC8_AA55D312AF0C;

/// How long a scan listens for advertisements, in seconds.
pub const SCAN_DWELL_SECS: u64 = 5;

/// Two readings closer than this (in milliseconds) are the same measurement.
pub const STALE_WINDOW_MS: i64 = 60_000;

/// Shortest payload that can be decoded.
pub const MIN_PAYLOAD_LEN: usize = 8;

} // verus!
