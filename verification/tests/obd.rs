use cantools::obd::{
    decode_current_data_reading, decode_vin, generated_pid, CurrentDataPid, CurrentDataReading, ObdError,
};

#[test]
fn decodes_engine_rpm() {
    let value = decode_current_data_reading(CurrentDataPid::EngineRpm, &[0x1f, 0xa0]).expect("rpm");
    let CurrentDataReading::RpmQuarters(quarters) = value else { panic!("engine speed reading") };
    assert_eq!(quarters as f64 / 4.0, 2024.0);
}

#[test]
fn decodes_vin_text() {
    let value = decode_vin(b"1M8GDM9AXKP042788").expect("vin");
    assert_eq!(value, "1M8GDM9AXKP042788".to_string());
}

#[test]
fn vin_text_is_trimmed_and_lossy() {
    assert_eq!(decode_vin(b"  ABC \n").expect("vin"), "ABC");
    assert_eq!(decode_vin(&[0x41, 0xff, 0x42]).expect("vin"), "A\u{fffd}B");
    assert_eq!(decode_vin(&[]), Err(ObdError::PayloadTooShort));
}

#[test]
fn decodes_other_current_data() {
    assert_eq!(
        decode_current_data_reading(CurrentDataPid::EngineCoolantTemperature, &[0x00]),
        Ok(CurrentDataReading::Celsius(-40))
    );
    assert_eq!(
        decode_current_data_reading(CurrentDataPid::VehicleSpeed, &[88]),
        Ok(CurrentDataReading::KilometersPerHour(88))
    );
    assert_eq!(
        decode_current_data_reading(CurrentDataPid::CalculatedEngineLoad, &[255]),
        Ok(CurrentDataReading::EngineLoadRaw(255))
    );
    assert_eq!(decode_current_data_reading(CurrentDataPid::EngineRpm, &[0x1f]), Err(ObdError::PayloadTooShort));
    assert_eq!(decode_current_data_reading(CurrentDataPid::VehicleSpeed, &[]), Err(ObdError::PayloadTooShort));
}

#[test]
fn pid_table_lookup() {
    let vin = generated_pid(0x09, 0x02).expect("vin entry");
    assert_eq!(vin.name, "Vin");
    assert!(generated_pid(0x01, 0xff).is_none());
}
