//! Portable UDS request and response codecs.

use vstd::prelude::*;
use crate::bytes::{append_bytes, copy_range};

verus! {

/// Common UDS service identifiers.
#[derive(Debug, Clone, Copy, PartialEq, Eq)]
pub enum ServiceId {
    /// Diagnostic session control.
    DiagnosticSessionControl,
    /// ECU reset.
    EcuReset,
    /// Read data by identifier.
    ReadDataByIdentifier,
    /// Tester present.
    TesterPresent,
}

/// The ISO 14229 byte of a service identifier.
pub open spec fn service_code(service: ServiceId) -> u8 {
    match service {
        ServiceId::DiagnosticSessionControl => 0x10,
        ServiceId::EcuReset => 0x11,
        ServiceId::ReadDataByIdentifier => 0x22,
        ServiceId::TesterPresent => 0x3e,
    }
}

/// The service identifier a byte names, if it names one.
pub open spec fn service_from_code(raw: u8) -> Option<ServiceId> {
    if raw == 0x10 {
        Some(ServiceId::DiagnosticSessionControl)
    } else if raw == 0x11 {
        Some(ServiceId::EcuReset)
    } else if raw == 0x22 {
        Some(ServiceId::ReadDataByIdentifier)
    } else if raw == 0x3e {
        Some(ServiceId::TesterPresent)
    } else {
        None
    }
}

/// The name the generated table gives a service.
pub open spec fn service_name(service: ServiceId) -> Seq<char> {
    match service {
        ServiceId::DiagnosticSessionControl => "DiagnosticSessionControl"@,
        ServiceId::EcuReset => "EcuReset"@,
        ServiceId::ReadDataByIdentifier => "ReadDataByIdentifier"@,
        ServiceId::TesterPresent => "TesterPresent"@,
    }
}

/// Generated UDS service metadata.
#[derive(Debug, Clone, Copy, PartialEq, Eq)]
pub struct GeneratedService {
    /// ISO 14229 service identifier.
    pub sid: u8,
    /// Human-readable service name.
    pub name: &'static str,
}

/// Generated UDS negative response metadata.
#[derive(Debug, Clone, Copy, PartialEq, Eq)]
pub struct GeneratedNegativeResponse {
    /// ISO 14229 negative response code.
    pub code: u8,
    /// Human-readable negative response name.
    pub name: &'static str,
}

impl ServiceId {
    /// The ISO 14229 byte of this service identifier.
    pub fn code(self) -> (r: u8)
        ensures
            r == service_code(self),
    {
        match self {
            ServiceId::DiagnosticSessionControl => 0x10,
            ServiceId::EcuReset => 0x11,
            ServiceId::ReadDataByIdentifier => 0x22,
            ServiceId::TesterPresent => 0x3e,
        }
    }

    /// Return the generated service definition for this service identifier.
    pub fn generated(self) -> (r: Option<&'static GeneratedService>)
        ensures
            r matches Some(entry) && entry.sid == service_code(self) && entry.name@ == service_name(self),
    {
        match self {
            ServiceId::DiagnosticSessionControl =>
                Some(&GeneratedService { sid: 0x10, name: "DiagnosticSessionControl" }),
            ServiceId::EcuReset => Some(&GeneratedService { sid: 0x11, name: "EcuReset" }),
            ServiceId::ReadDataByIdentifier =>
                Some(&GeneratedService { sid: 0x22, name: "ReadDataByIdentifier" }),
            ServiceId::TesterPresent => Some(&GeneratedService { sid: 0x3E, name: "TesterPresent" }),
        }
    }
}

/// Common negative response codes.
#[derive(Debug, Clone, Copy, PartialEq, Eq)]
pub enum NegativeResponseCode {
    /// Request is not supported.
    ServiceNotSupported,
    /// Conditions not correct.
    ConditionsNotCorrect,
    /// Sub-function not supported.
    SubFunctionNotSupported,
}

/// The ISO 14229 byte of a negative response code.
pub open spec fn nrc_code(code: NegativeResponseCode) -> u8 {
    match code {
        NegativeResponseCode::ServiceNotSupported => 0x11,
        NegativeResponseCode::ConditionsNotCorrect => 0x22,
        NegativeResponseCode::SubFunctionNotSupported => 0x12,
    }
}

/// The negative response code a byte names, if it names one.
pub open spec fn nrc_from_code(raw: u8) -> Option<NegativeResponseCode> {
    if raw == 0x11 {
        Some(NegativeResponseCode::ServiceNotSupported)
    } else if raw == 0x12 {
        Some(NegativeResponseCode::SubFunctionNotSupported)
    } else if raw == 0x22 {
        Some(NegativeResponseCode::ConditionsNotCorrect)
    } else {
        None
    }
}

/// The name the generated table gives a negative response code.
pub open spec fn nrc_name(code: NegativeResponseCode) -> Seq<char> {
    match code {
        NegativeResponseCode::ServiceNotSupported => "ServiceNotSupported"@,
        NegativeResponseCode::ConditionsNotCorrect => "ConditionsNotCorrect"@,
        NegativeResponseCode::SubFunctionNotSupported => "SubFunctionNotSupported"@,
    }
}

impl NegativeResponseCode {
    /// The ISO 14229 byte of this negative response code.
    pub fn code(self) -> (r: u8)
        ensures
            r == nrc_code(self),
    {
        match self {
            NegativeResponseCode::ServiceNotSupported => 0x11,
            NegativeResponseCode::ConditionsNotCorrect => 0x22,
            NegativeResponseCode::SubFunctionNotSupported => 0x12,
        }
    }

    /// Return the generated table entry for this response code.
    pub fn generated(self) -> (r: Option<&'static GeneratedNegativeResponse>)
        ensures
            r matches Some(entry) && entry.code == nrc_code(self) && entry.name@ == nrc_name(self),
    {
        match self {
            NegativeResponseCode::ServiceNotSupported =>
                Some(&GeneratedNegativeResponse { code: 0x11, name: "ServiceNotSupported" }),
            NegativeResponseCode::ConditionsNotCorrect =>
                Some(&GeneratedNegativeResponse { code: 0x22, name: "ConditionsNotCorrect" }),
            NegativeResponseCode::SubFunctionNotSupported =>
                Some(&GeneratedNegativeResponse { code: 0x12, name: "SubFunctionNotSupported" }),
        }
    }
}

/// Request body.
#[derive(Debug, Clone, PartialEq, Eq)]
pub struct Request {
    /// Service identifier.
    pub service: ServiceId,
    /// Service payload bytes.
    pub data: Vec<u8>,
}

impl Request {
    /// Encode the request into a payload: the service byte, then the data.
    pub fn encode(&self) -> (out: Vec<u8>)
        ensures
            out@ == seq![service_code(self.service)] + self.data@,
    {
        let mut out: Vec<u8> = Vec::new();
        out.push(self.service.code());
        append_bytes(&mut out, self.data.as_slice());
        out
    }
}

/// Positive response body.
#[derive(Debug, Clone, PartialEq, Eq)]
pub struct PositiveResponse {
    /// Original service identifier.
    pub service: ServiceId,
    /// Response payload bytes.
    pub data: Vec<u8>,
}

/// Negative response body.
#[derive(Debug, Clone, PartialEq, Eq)]
pub struct NegativeResponse {
    /// Original service identifier.
    pub service: ServiceId,
    /// Negative response code.
    pub code: NegativeResponseCode,
}

/// Response envelope.
#[derive(Debug, Clone, PartialEq, Eq)]
pub enum Response {
    /// Positive response.
    Positive(PositiveResponse),
    /// Negative response.
    Negative(NegativeResponse),
}

/// Mathematical model of a response.
pub enum ResponseModel {
    /// Positive response: service and payload.
    Positive { service: ServiceId, data: Seq<u8> },
    /// Negative response: service and code.
    Negative { service: ServiceId, code: NegativeResponseCode },
}

impl View for Response {
    type V = ResponseModel;

    open spec fn view(&self) -> ResponseModel {
        match self {
            Response::Positive(p) => ResponseModel::Positive { service: p.service, data: p.data@ },
            Response::Negative(n) => ResponseModel::Negative { service: n.service, code: n.code },
        }
    }
}

/// UDS codec errors.
#[derive(Debug, Clone, PartialEq, Eq)]
pub enum UdsError {
    /// The message was too short to decode.
    PayloadTooShort,
    /// The service identifier is not part of the supported set.
    UnknownService(u8),
    /// The negative response code is not part of the supported set.
    UnknownNegativeResponseCode(u8),
}

/// Decode a service identifier byte.
pub fn decode_service(raw: u8) -> (res: Result<ServiceId, UdsError>)
    ensures
        match service_from_code(raw) {
            Some(s) => res == Ok::<ServiceId, UdsError>(s),
            None => res == Err::<ServiceId, UdsError>(UdsError::UnknownService(raw)),
        },
{
    match raw {
        0x10 => Ok(ServiceId::DiagnosticSessionControl),
        0x11 => Ok(ServiceId::EcuReset),
        0x22 => Ok(ServiceId::ReadDataByIdentifier),
        0x3e => Ok(ServiceId::TesterPresent),
        other => Err(UdsError::UnknownService(other)),
    }
}

/// Decode a negative response code byte.
pub fn decode_negative_response_code(raw: u8) -> (res: Result<NegativeResponseCode, UdsError>)
    ensures
        match nrc_from_code(raw) {
            Some(c) => res == Ok::<NegativeResponseCode, UdsError>(c),
            None => res == Err::<NegativeResponseCode, UdsError>(UdsError::UnknownNegativeResponseCode(raw)),
        },
{
    match raw {
        0x11 => Ok(NegativeResponseCode::ServiceNotSupported),
        0x12 => Ok(NegativeResponseCode::SubFunctionNotSupported),
        0x22 => Ok(NegativeResponseCode::ConditionsNotCorrect),
        other => Err(UdsError::UnknownNegativeResponseCode(other)),
    }
}

/// Byte that marks a negative response.
pub const NEGATIVE_RESPONSE_SID: u8 = 0x7f;

/// Offset between a request service byte and its positive response byte.
pub const POSITIVE_RESPONSE_OFFSET: u8 = 0x40;

/// What a raw UDS response payload decodes to.
pub open spec fn decoded_response(payload: Seq<u8>) -> Result<ResponseModel, UdsError> {
    if payload.len() == 0 {
        Err(UdsError::PayloadTooShort)
    } else if payload[0] == NEGATIVE_RESPONSE_SID {
        if payload.len() < 3 {
            Err(UdsError::PayloadTooShort)
        } else {
            match service_from_code(payload[1]) {
                None => Err(UdsError::UnknownService(payload[1])),
                Some(service) => match nrc_from_code(payload[2]) {
                    None => Err(UdsError::UnknownNegativeResponseCode(payload[2])),
                    Some(code) => Ok(ResponseModel::Negative { service, code }),
                },
            }
        }
    } else {
        let raw: u8 = if payload[0] >= POSITIVE_RESPONSE_OFFSET { (payload[0] - POSITIVE_RESPONSE_OFFSET) as u8 } else { 0 };
        match service_from_code(raw) {
            None => Err(UdsError::UnknownService(raw)),
            Some(service) => Ok(ResponseModel::Positive { service, data: payload.drop_first() }),
        }
    }
}

/// Decode a raw UDS response payload.
pub fn decode_response(payload: &[u8]) -> (res: Result<Response, UdsError>)
    ensures
        match (res, decoded_response(payload@)) {
            (Ok(r), Ok(m)) => r@ == m,
            (Err(e), Err(m)) => e == m,
            _ => false,
        },
{
    if payload.len() == 0 {
        return Err(UdsError::PayloadTooShort);
    }
    if payload[0] == 0x7f {
        if payload.len() < 3 {
            return Err(UdsError::PayloadTooShort);
        }
        let service = decode_service(payload[1])?;
        let code = decode_negative_response_code(payload[2])?;
        return Ok(Response::Negative(NegativeResponse { service, code }));
    }
    let response_sid = payload[0];
    let service = decode_service(response_sid.saturating_sub(0x40))?;
    let data = copy_range(payload, 1, payload.len());
    assert(data@ == payload@.drop_first());
    Ok(Response::Positive(PositiveResponse { service, data }))
}

/// Each service and negative response code stands for its ISO 14229 byte:
/// DiagnosticSessionControl 0x10, ECUReset 0x11, ReadDataByIdentifier 0x22,
/// TesterPresent 0x3E; serviceNotSupported 0x11, subFunctionNotSupported
/// 0x12, conditionsNotCorrect 0x22. A request goes out with its service's
/// byte first, and a positive response comes back 0x40 above it.
pub proof fn lemma_iso14229_bytes(request: Seq<u8>, service: ServiceId, data: Seq<u8>)
    requires
        request == seq![service_code(service)] + data,
    ensures
        service_code(ServiceId::DiagnosticSessionControl) == 0x10,
        service_code(ServiceId::EcuReset) == 0x11,
        service_code(ServiceId::ReadDataByIdentifier) == 0x22,
        service_code(ServiceId::TesterPresent) == 0x3e,
        nrc_code(NegativeResponseCode::ServiceNotSupported) == 0x11,
        nrc_code(NegativeResponseCode::SubFunctionNotSupported) == 0x12,
        nrc_code(NegativeResponseCode::ConditionsNotCorrect) == 0x22,
        forall|raw: u8| (#[trigger] service_from_code(raw)) matches Some(sv) ==> service_code(sv) == raw,
        forall|raw: u8| (#[trigger] nrc_from_code(raw)) matches Some(c) ==> nrc_code(c) == raw,
        service == ServiceId::DiagnosticSessionControl ==> request[0] == 0x10,
        service == ServiceId::EcuReset ==> request[0] == 0x11,
        service == ServiceId::ReadDataByIdentifier ==> request[0] == 0x22,
        service == ServiceId::TesterPresent ==> request[0] == 0x3e,
        decoded_response(seq![0x51u8] + data)
            == Ok::<ResponseModel, UdsError>(ResponseModel::Positive { service: ServiceId::EcuReset, data }),
        decoded_response(seq![0x50u8] + data)
            == Ok::<ResponseModel, UdsError>(ResponseModel::Positive { service: ServiceId::DiagnosticSessionControl, data }),
        decoded_response(seq![0x62u8] + data)
            == Ok::<ResponseModel, UdsError>(ResponseModel::Positive { service: ServiceId::ReadDataByIdentifier, data }),
        decoded_response(seq![0x7eu8] + data)
            == Ok::<ResponseModel, UdsError>(ResponseModel::Positive { service: ServiceId::TesterPresent, data }),
{
    lemma_responses_decode(ServiceId::EcuReset, NegativeResponseCode::ServiceNotSupported, data);
    lemma_responses_decode(ServiceId::DiagnosticSessionControl, NegativeResponseCode::ServiceNotSupported, data);
    lemma_responses_decode(ServiceId::ReadDataByIdentifier, NegativeResponseCode::ServiceNotSupported, data);
    lemma_responses_decode(ServiceId::TesterPresent, NegativeResponseCode::ServiceNotSupported, data);
}

/// Every service identifier decodes back from its byte, and every negative
/// response code from its byte.
pub proof fn lemma_codes_round_trip(service: ServiceId, code: NegativeResponseCode)
    ensures
        service_from_code(service_code(service)) == Some(service),
        nrc_from_code(nrc_code(code)) == Some(code),
{
}

/// A positive response for a service (its byte plus the positive offset,
/// then the payload) decodes to that service and payload; a negative
/// response (the negative marker, the service byte, the code byte) decodes
/// to that service and code.
pub proof fn lemma_responses_decode(service: ServiceId, code: NegativeResponseCode, data: Seq<u8>)
    ensures
        decoded_response(seq![(service_code(service) + POSITIVE_RESPONSE_OFFSET) as u8] + data)
            == Ok::<ResponseModel, UdsError>(ResponseModel::Positive { service, data }),
        decoded_response(seq![NEGATIVE_RESPONSE_SID, service_code(service), nrc_code(code)])
            == Ok::<ResponseModel, UdsError>(ResponseModel::Negative { service, code }),
{
    let p = seq![(service_code(service) + POSITIVE_RESPONSE_OFFSET) as u8] + data;
    assert(p.drop_first() =~= data);
}

/// Minimal transport abstraction used by the client: it sends a request and
/// waits for the corresponding response bytes.
pub trait Transport {
    /// Transport error type.
    type Error;

    /// Whether `reply` is an answer this transport can give to `request`;
    /// a transport that says nothing of its answers admits every reply.
    closed spec fn answers(&self, request: Seq<u8>, reply: Result<Vec<u8>, Self::Error>) -> bool {
        true
    }

    /// Send a request and wait for the corresponding response bytes.
    fn call(&mut self, request: &[u8]) -> (reply: Result<Vec<u8>, Self::Error>)
        ensures
            old(self).answers(request@, reply);
}

/// Why a client request failed: the transport failed, or the reply did not decode.
#[derive(Debug)]
pub enum ClientError<E> {
    /// The transport reported an error.
    Transport(E),
    /// The reply could not be decoded.
    Decode(UdsError),
}

/// Client-first UDS helper.
pub struct Client<T> {
    transport: T,
}

/// Whether `res` is the client's result for what a transport returned: a
/// transport error is passed on, and reply bytes are decoded.
pub open spec fn is_response_from<E>(reply: Result<Vec<u8>, E>, res: Result<Response, ClientError<E>>) -> bool {
    match reply {
        Err(e) => res matches Err(ClientError::Transport(e2)) && e2 == e,
        Ok(bytes) => match decoded_response(bytes@) {
            Ok(m) => res matches Ok(r) && r@ == m,
            Err(m) => res matches Err(ClientError::Decode(e2)) && e2 == m,
        },
    }
}

/// Turn what a transport returned into the client's result: a transport
/// error is passed on, and reply bytes are decoded.
pub fn response_from_reply<E>(reply: Result<Vec<u8>, E>) -> (res: Result<Response, ClientError<E>>)
    ensures
        is_response_from(reply, res),
{
    match reply {
        Err(e) => Err(ClientError::Transport(e)),
        Ok(bytes) => match decode_response(bytes.as_slice()) {
            Ok(r) => Ok(r),
            Err(e) => Err(ClientError::Decode(e)),
        },
    }
}

impl<T: Transport> Client<T> {
    /// Construct a client from a transport.
    pub fn new(transport: T) -> (c: Client<T>)
        ensures
            c.transport() == transport,
    {
        Client { transport }
    }

    /// The transport the client talks through.
    pub closed spec fn transport(&self) -> T {
        self.transport
    }

    /// Execute a request and decode the resulting UDS response: the
    /// transport is handed the encoded request, service byte first, and the
    /// result is what `response_from_reply` makes of its answer.
    pub fn send(&mut self, request: &Request) -> (res: Result<Response, ClientError<T::Error>>)
        ensures
            exists|reply: Result<Vec<u8>, T::Error>| {
                &&& #[trigger] old(self).transport().answers(seq![service_code(request.service)] + request.data@, reply)
                &&& is_response_from(reply, res)
            },
    {
        let encoded = request.encode();
        let reply = self.transport.call(encoded.as_slice());
        let ghost seen = reply;
        let res = response_from_reply(reply);
        assert(old(self).transport().answers(seq![service_code(request.service)] + request.data@, seen));
        res
    }
}

} // verus!
