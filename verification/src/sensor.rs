//! The CO2 sensor's fixed request/response frame.
//!
//! The sensor speaks a fixed 7-byte request/response protocol over a
//! serial line. The line itself is I/O and lives outside; this module owns
//! the frame: the request bytes to write, and the check and the arithmetic
//! that turn a response frame into a CO2 value.

use vstd::prelude::*;

use vstd::string::StringExecFns;

use crate::reading::Reading;
use crate::reading::ReadingBody;

verus! {

/// The fixed request frame: read RAM 0x08 (the CO2 register).
pub open spec fn spec_sensor_request() -> Seq<u8> {
    seq![0xFEu8, 0x44u8, 0x00u8, 0x08u8, 0x02u8, 0x9Fu8, 0x25u8]
}

/// The request frame to write to the sensor's serial line.
pub fn sensor_request() -> (frame: Vec<u8>)
    ensures
        frame@ == spec_sensor_request(),
{
    let mut frame: Vec<u8> = Vec::new();
    frame.push(0xFE);
    frame.push(0x44);
    frame.push(0x00);
    frame.push(0x08);
    frame.push(0x02);
    frame.push(0x9F);
    frame.push(0x25);
    proof {
        assert(frame@ =~= spec_sensor_request());
    }
    frame
}

/// The CO2 value a response frame carries: a 7-byte frame whose header
/// echoes the request's first two bytes, with the value big-endian in
/// bytes three and four. Anything else is invalid.
pub open spec fn spec_co2_of(resp: Seq<u8>) -> Option<u16> {
    if resp.len() == 7 && resp[0] == 0xFE && resp[1] == 0x44 {
        Some((resp[3] * 256 + resp[4]) as u16)
    } else {
        None
    }
}

/// Checks a sensor response frame and extracts the CO2 value, in parts
/// per million.
pub fn parse_sensor_response(resp: &Vec<u8>) -> (r: Option<u16>)
    ensures
        r == spec_co2_of(resp@),
{
    if resp.len() == 7 && resp[0] == 0xFE && resp[1] == 0x44 {
        let high = resp[3] as u16;
        let low = resp[4] as u16;
        Some(high * 256 + low)
    } else {
        None
    }
}

/// Wraps a CO2 value as the sensor agent's one reading: device `pis88`,
/// channel `co2`, the value in whole parts per million.
pub fn co2_reading(co2: u16) -> (r: Reading)
    ensures
        r.device@ == "pis88"@,
        r.channel@ == "co2"@,
        r.body == (ReadingBody::Value { millis: (co2 * 1000) as i64 }),
{
    Reading {
        device: String::from_str("pis88"),
        channel: String::from_str("co2"),
        body: ReadingBody::Value { millis: co2 as i64 * 1000 },
    }
}

} // verus!
