//! OBD helpers layered on UDS-style CAN diagnostics.

use vstd::prelude::*;
use crate::text::{text_from_utf8_lossy, trim_text, trim_whitespace, utf8_lossy};

verus! {

/// OBD modes.
#[derive(Debug, Clone, Copy, PartialEq, Eq)]
pub enum Mode {
    /// Current data.
    CurrentData,
    /// Vehicle information.
    VehicleInformation,
}

/// Common Mode 01 PIDs.
#[derive(Debug, Clone, Copy, PartialEq, Eq)]
pub enum CurrentDataPid {
    /// Calculated engine load.
    CalculatedEngineLoad,
    /// Engine coolant temperature.
    EngineCoolantTemperature,
    /// Engine speed.
    EngineRpm,
    /// Vehicle speed.
    VehicleSpeed,
}

/// Common Mode 09 PIDs.
#[derive(Debug, Clone, Copy, PartialEq, Eq)]
pub enum VehicleInformationPid {
    /// VIN.
    Vin,
}

/// The service byte of a mode.
pub open spec fn mode_code(mode: Mode) -> u8 {
    match mode {
        Mode::CurrentData => 0x01,
        Mode::VehicleInformation => 0x09,
    }
}

/// The PID byte of a Mode 01 PID.
pub open spec fn current_data_pid_code(pid: CurrentDataPid) -> u8 {
    match pid {
        CurrentDataPid::CalculatedEngineLoad => 0x04,
        CurrentDataPid::EngineCoolantTemperature => 0x05,
        CurrentDataPid::EngineRpm => 0x0c,
        CurrentDataPid::VehicleSpeed => 0x0d,
    }
}

impl Mode {
    /// The service byte of this mode.
    pub fn code(self) -> (r: u8)
        ensures
            r == mode_code(self),
    {
        match self {
            Mode::CurrentData => 0x01,
            Mode::VehicleInformation => 0x09,
        }
    }
}

impl CurrentDataPid {
    /// The PID byte of this Mode 01 PID.
    pub fn code(self) -> (r: u8)
        ensures
            r == current_data_pid_code(self),
    {
        match self {
            CurrentDataPid::CalculatedEngineLoad => 0x04,
            CurrentDataPid::EngineCoolantTemperature => 0x05,
            CurrentDataPid::EngineRpm => 0x0c,
            CurrentDataPid::VehicleSpeed => 0x0d,
        }
    }
}

impl VehicleInformationPid {
    /// The PID byte of this Mode 09 PID.
    pub fn code(self) -> (r: u8)
        ensures
            r == 0x02,
    {
        0x02
    }
}

/// Generated OBD PID metadata.
#[derive(Debug, Clone, Copy, PartialEq, Eq)]
pub struct GeneratedPid {
    /// OBD service mode.
    pub mode: u8,
    /// OBD parameter identifier.
    pub pid: u8,
    /// Human-readable PID name.
    pub name: &'static str,
    /// Engineering unit for decoded values.
    pub unit: &'static str,
}

/// The name and unit the generated table gives a mode/PID pair, if it lists it.
pub open spec fn generated_pid_entry(mode: u8, pid: u8) -> Option<(Seq<char>, Seq<char>)> {
    if mode == 0x01 && pid == 0x04 {
        Some(("CalculatedEngineLoad"@, "%"@))
    } else if mode == 0x01 && pid == 0x05 {
        Some(("EngineCoolantTemperature"@, "C"@))
    } else if mode == 0x01 && pid == 0x0C {
        Some(("EngineRpm"@, "rpm"@))
    } else if mode == 0x01 && pid == 0x0D {
        Some(("VehicleSpeed"@, "km/h"@))
    } else if mode == 0x09 && pid == 0x02 {
        Some(("Vin"@, ""@))
    } else {
        None
    }
}

/// Return the generated OBD table entry for a mode/PID pair.
pub fn generated_pid(mode: u8, pid: u8) -> (r: Option<&'static GeneratedPid>)
    ensures
        match generated_pid_entry(mode, pid) {
            Some((name, unit)) => r matches Some(entry) && entry.mode == mode && entry.pid == pid
                && entry.name@ == name && entry.unit@ == unit,
            None => r is None,
        },
{
    if mode == 0x01 && pid == 0x04 {
        Some(&GeneratedPid { mode: 0x01, pid: 0x04, name: "CalculatedEngineLoad", unit: "%" })
    } else if mode == 0x01 && pid == 0x05 {
        Some(&GeneratedPid { mode: 0x01, pid: 0x05, name: "EngineCoolantTemperature", unit: "C" })
    } else if mode == 0x01 && pid == 0x0C {
        Some(&GeneratedPid { mode: 0x01, pid: 0x0C, name: "EngineRpm", unit: "rpm" })
    } else if mode == 0x01 && pid == 0x0D {
        Some(&GeneratedPid { mode: 0x01, pid: 0x0D, name: "VehicleSpeed", unit: "km/h" })
    } else if mode == 0x09 && pid == 0x02 {
        Some(&GeneratedPid { mode: 0x09, pid: 0x02, name: "Vin", unit: "" })
    } else {
        None
    }
}

/// OBD decode errors.
#[derive(Debug, Clone, PartialEq, Eq)]
pub enum ObdError {
    /// Response did not contain enough bytes.
    PayloadTooShort,
    /// PID is not part of the supported set.
    UnsupportedPid(u8),
}

/// A Mode 01 reading in the integer units the response carries; the load is
/// `raw * 100 / 255` percent and the engine speed `quarters / 4` rpm.
#[derive(Debug, Clone, Copy, PartialEq, Eq)]
pub enum CurrentDataReading {
    /// Calculated engine load, raw byte.
    EngineLoadRaw(u8),
    /// Coolant temperature in degrees Celsius.
    Celsius(i16),
    /// Engine speed in quarter revolutions per minute.
    RpmQuarters(u16),
    /// Vehicle speed in km/h.
    KilometersPerHour(u8),
}

/// What a Mode 01 response payload decodes to.
pub open spec fn current_data_reading(pid: CurrentDataPid, payload: Seq<u8>) -> Result<CurrentDataReading, ObdError> {
    match pid {
        CurrentDataPid::CalculatedEngineLoad =>
            if payload.len() < 1 { Err(ObdError::PayloadTooShort) } else { Ok(CurrentDataReading::EngineLoadRaw(payload[0])) },
        CurrentDataPid::EngineCoolantTemperature =>
            if payload.len() < 1 { Err(ObdError::PayloadTooShort) } else { Ok(CurrentDataReading::Celsius((payload[0] - 40) as i16)) },
        CurrentDataPid::EngineRpm =>
            if payload.len() < 2 { Err(ObdError::PayloadTooShort) } else { Ok(CurrentDataReading::RpmQuarters((payload[0] * 256 + payload[1]) as u16)) },
        CurrentDataPid::VehicleSpeed =>
            if payload.len() < 1 { Err(ObdError::PayloadTooShort) } else { Ok(CurrentDataReading::KilometersPerHour(payload[0])) },
    }
}

/// Decode a Mode 01 response payload into its integer reading.
pub fn decode_current_data_reading(pid: CurrentDataPid, payload: &[u8]) -> (res: Result<CurrentDataReading, ObdError>)
    ensures
        res == current_data_reading(pid, payload@),
        pid == CurrentDataPid::EngineCoolantTemperature && payload@.len() >= 1
            ==> (res matches Ok(CurrentDataReading::Celsius(t)) && t == payload@[0] as int - 40 && -40 <= t <= 215),
{
    match pid {
        CurrentDataPid::CalculatedEngineLoad => {
            if payload.len() < 1 { Err(ObdError::PayloadTooShort) } else { Ok(CurrentDataReading::EngineLoadRaw(payload[0])) }
        },
        CurrentDataPid::EngineCoolantTemperature => {
            if payload.len() < 1 {
                Err(ObdError::PayloadTooShort)
            } else {
                Ok(CurrentDataReading::Celsius(payload[0] as i16 - 40))
            }
        },
        CurrentDataPid::EngineRpm => {
            if payload.len() < 2 {
                return Err(ObdError::PayloadTooShort);
            }
            let hi = payload[0] as u16;
            let lo = payload[1] as u16;
            assert((hi << 8) | lo == hi * 256 + lo) by (bit_vector) requires hi < 256, lo < 256;
            Ok(CurrentDataReading::RpmQuarters((hi << 8) | lo))
        },
        CurrentDataPid::VehicleSpeed => {
            if payload.len() < 1 { Err(ObdError::PayloadTooShort) } else { Ok(CurrentDataReading::KilometersPerHour(payload[0])) }
        },
    }
}

/// Readings are the response bytes read as unsigned values: the coolant
/// temperature is the first byte minus 40, from -40 to 215 degrees; the
/// load and the speed are the first byte; the engine speed in quarter rpm
/// is the first two bytes, most significant first. Each needs its bytes,
/// else the payload is too short.
pub proof fn lemma_readings_are_unsigned(payload: Seq<u8>)
    ensures
        payload.len() >= 1 ==> (current_data_reading(CurrentDataPid::EngineCoolantTemperature, payload)
            matches Ok(CurrentDataReading::Celsius(t)) && t == payload[0] as int - 40 && -40 <= t <= 215),
        payload.len() >= 1 ==> current_data_reading(CurrentDataPid::CalculatedEngineLoad, payload)
            == Ok::<CurrentDataReading, ObdError>(CurrentDataReading::EngineLoadRaw(payload[0])),
        payload.len() >= 1 ==> current_data_reading(CurrentDataPid::VehicleSpeed, payload)
            == Ok::<CurrentDataReading, ObdError>(CurrentDataReading::KilometersPerHour(payload[0])),
        payload.len() >= 2 ==> (current_data_reading(CurrentDataPid::EngineRpm, payload)
            matches Ok(CurrentDataReading::RpmQuarters(q)) && q == payload[0] as int * 256 + payload[1] as int),
        payload.len() == 0 ==> current_data_reading(CurrentDataPid::EngineCoolantTemperature, payload)
            == Err::<CurrentDataReading, ObdError>(ObdError::PayloadTooShort),
        payload.len() < 2 ==> current_data_reading(CurrentDataPid::EngineRpm, payload)
            == Err::<CurrentDataReading, ObdError>(ObdError::PayloadTooShort),
{
}

/// Decode a Mode 09 VIN payload: the bytes read as UTF-8 (invalid sequences
/// replaced), with surrounding whitespace removed.
pub fn decode_vin(payload: &[u8]) -> (res: Result<String, ObdError>)
    ensures
        payload@.len() == 0 ==> res == Err::<String, ObdError>(ObdError::PayloadTooShort),
        payload@.len() > 0 ==> (res matches Ok(text) && text@ == trim_text(utf8_lossy(payload@))),
        payload@.len() > 0 && vstd::utf8::valid_utf8(payload@)
            ==> (res matches Ok(text) && text@ == trim_text(vstd::utf8::decode_utf8(payload@))),
{
    if payload.len() == 0 {
        return Err(ObdError::PayloadTooShort);
    }
    let text = text_from_utf8_lossy(payload);
    Ok(trim_whitespace(text.as_str()))
}

} // verus!
