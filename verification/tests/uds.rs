use cantools::uds::{
    decode_response, NegativeResponse, NegativeResponseCode, PositiveResponse, Request, Response, ServiceId, UdsError,
};

#[test]
fn decodes_positive_response() {
    let response = decode_response(&[0x62, 0xf1, 0x90]).expect("decode");
    assert_eq!(
        response,
        Response::Positive(PositiveResponse { service: ServiceId::ReadDataByIdentifier, data: vec![0xf1, 0x90] })
    );
}

#[test]
fn decodes_negative_response() {
    let response = decode_response(&[0x7f, 0x22, 0x11]).expect("decode");
    assert_eq!(
        response,
        Response::Negative(NegativeResponse {
            service: ServiceId::ReadDataByIdentifier,
            code: NegativeResponseCode::ServiceNotSupported,
        })
    );
}

#[test]
fn rejects_short_and_unknown_responses() {
    assert_eq!(decode_response(&[]), Err(UdsError::PayloadTooShort));
    assert_eq!(decode_response(&[0x7f, 0x22]), Err(UdsError::PayloadTooShort));
    assert_eq!(decode_response(&[0x7f, 0x99, 0x11]), Err(UdsError::UnknownService(0x99)));
    assert_eq!(decode_response(&[0x7f, 0x22, 0x55]), Err(UdsError::UnknownNegativeResponseCode(0x55)));
    assert_eq!(decode_response(&[0x20]), Err(UdsError::UnknownService(0x00)));
}

#[test]
fn encodes_requests_with_service_first() {
    let request = Request { service: ServiceId::TesterPresent, data: vec![0x00] };
    assert_eq!(request.encode(), vec![0x3e, 0x00]);
    let response = decode_response(&[0x7e, 0x00]).expect("decode");
    assert_eq!(response, Response::Positive(PositiveResponse { service: ServiceId::TesterPresent, data: vec![0x00] }));
}

use cantools::uds::{Client, ClientError, Transport};

struct Scripted {
    reply: Result<Vec<u8>, String>,
    expected_request: Vec<u8>,
}

impl Transport for Scripted {
    type Error = String;

    fn call(&mut self, request: &[u8]) -> Result<Vec<u8>, String> {
        assert_eq!(request, self.expected_request.as_slice());
        self.reply.clone()
    }
}

#[test]
fn client_decodes_what_the_transport_returns() {
    let mut client = Client::new(Scripted { reply: Ok(vec![0x50, 0x01]), expected_request: vec![0x10, 0x01] });
    let request = Request { service: ServiceId::DiagnosticSessionControl, data: vec![0x01] };
    let response = client.send(&request).expect("response");
    assert_eq!(
        response,
        Response::Positive(PositiveResponse { service: ServiceId::DiagnosticSessionControl, data: vec![0x01] })
    );

    let mut failing = Client::new(Scripted { reply: Err("bus off".to_string()), expected_request: vec![0x10, 0x01] });
    assert!(matches!(failing.send(&request), Err(ClientError::Transport(e)) if e == "bus off"));

    let mut garbled = Client::new(Scripted { reply: Ok(vec![]), expected_request: vec![0x10, 0x01] });
    assert!(matches!(garbled.send(&request), Err(ClientError::Decode(UdsError::PayloadTooShort))));
}

#[test]
fn service_tables_name_each_code() {
    let entry = ServiceId::ReadDataByIdentifier.generated().expect("entry");
    assert_eq!(entry.sid, 0x22);
    assert_eq!(entry.name, "ReadDataByIdentifier");
    let nrc = NegativeResponseCode::ConditionsNotCorrect.generated().expect("entry");
    assert_eq!(nrc.code, 0x22);
}
