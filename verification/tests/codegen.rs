use cantools::codegen::{
    j1939_source, obd_source, uds_source, J1939Spec, NamedByte, NamedPgn, NamedUnitByte, ObdSpec, UdsSpec, J1939_HEAD,
    OBD_HEAD, UDS_HEAD, UDS_MIDDLE,
};

fn service(sid: u8, name: &str) -> NamedByte {
    NamedByte { sid: Some(sid), code: None, name: name.to_string() }
}

fn response(code: u8, name: &str) -> NamedByte {
    NamedByte { sid: None, code: Some(code), name: name.to_string() }
}

#[test]
fn renders_uds_tables() {
    let spec = UdsSpec {
        services: vec![service(0x10, "DiagnosticSessionControl"), service(0x3e, "Tester \"Present\"")],
        negative_responses: vec![response(0x11, "ServiceNotSupported")],
    };
    let expected = format!(
        "{}{}\n{}{}{}\n];\n",
        UDS_HEAD,
        "    GeneratedService { sid: 0x10, name: \"DiagnosticSessionControl\" },",
        "    GeneratedService { sid: 0x3E, name: \"Tester \\\"Present\\\"\" },",
        UDS_MIDDLE,
        "    GeneratedNegativeResponse { code: 0x11, name: \"ServiceNotSupported\" },",
    );
    assert_eq!(uds_source(&spec), expected);
    assert!(UDS_HEAD.starts_with("//! Generated UDS tables."));
    assert!(UDS_HEAD.ends_with("pub const GENERATED_SERVICES: &[GeneratedService] = &[\n"));
}

#[test]
fn renders_obd_tables_mode_one_first() {
    let spec = ObdSpec {
        mode1: vec![NamedUnitByte { pid: 0x0c, name: "Engine RPM".to_string(), unit: "rpm".to_string() }],
        mode9: vec![NamedUnitByte { pid: 0x02, name: "VIN".to_string(), unit: String::new() }],
    };
    let expected = format!(
        "{}{}\n{}\n];\n",
        OBD_HEAD,
        "    GeneratedPid { mode: 0x01, pid: 0x0C, name: \"Engine RPM\", unit: \"rpm\" },",
        "    GeneratedPid { mode: 0x09, pid: 0x02, name: \"VIN\", unit: \"\" },",
    );
    assert_eq!(obd_source(&spec), expected);

    let only_nine = ObdSpec { mode1: vec![], mode9: spec.mode9.clone() };
    assert_eq!(
        obd_source(&only_nine),
        format!("{}{}\n];\n", OBD_HEAD, "    GeneratedPid { mode: 0x09, pid: 0x02, name: \"VIN\", unit: \"\" },")
    );
}

#[test]
fn renders_j1939_tables_with_six_hex_digits_at_least() {
    let spec = J1939Spec {
        pgns: vec![
            NamedPgn { pgn: 0xfef1, name: "CCVS".to_string() },
            NamedPgn { pgn: 0x123_4567, name: "Wide".to_string() },
        ],
    };
    let expected = format!(
        "{}{}\n{}\n];\n",
        J1939_HEAD,
        "    GeneratedPgn { pgn: 0x00FEF1, name: \"CCVS\" },",
        "    GeneratedPgn { pgn: 0x1234567, name: \"Wide\" },",
    );
    assert_eq!(j1939_source(&spec), expected);
    assert_eq!(j1939_source(&J1939Spec { pgns: vec![] }), format!("{}\n];\n", J1939_HEAD));
}
