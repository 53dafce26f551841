//! Rejections in the form of gRPC statuses.

use vstd::prelude::*;

use crate::admission::AdmissionUnavailable;
use crate::layer;
use crate::layer::{BodySide, HeaderField, StreamRejection};

verus! {

/// gRPC code of a denial, and of a request without a subject.
pub const FAILED_PRECONDITION: i32 = 9;

/// gRPC code of a missing authority.
pub const UNAVAILABLE: i32 = 14;

/// Decimal digits of a gRPC code.
pub open spec fn code_digits(code: i32) -> Seq<u8> {
    if code < 10 {
        seq![(48 + code) as u8]
    } else {
        seq![49u8, (38 + code) as u8]
    }
}

/// Uppercase hexadecimal digit.
pub open spec fn hex_digit(value: int) -> u8 {
    if value < 10 {
        (48 + value) as u8
    } else {
        (55 + value) as u8
    }
}

/// Whether a byte of a status message is written as an escape: it is not printable ASCII, or one
/// of space `"` `#` `%` `<` `>` `?` `` ` `` `{` `}`.
pub open spec fn is_escaped(byte: u8) -> bool {
    ||| byte <= 0x20
    ||| byte >= 0x7f
    ||| byte == 0x22
    ||| byte == 0x23
    ||| byte == 0x25
    ||| byte == 0x3c
    ||| byte == 0x3e
    ||| byte == 0x3f
    ||| byte == 0x60
    ||| byte == 0x7b
    ||| byte == 0x7d
}

/// The form of one byte in a status message.
pub open spec fn escape_byte(byte: u8) -> Seq<u8> {
    if is_escaped(byte) {
        seq![0x25u8, hex_digit(byte as int / 16), hex_digit(byte as int % 16)]
    } else {
        seq![byte]
    }
}

/// The form of bytes in a status message, one after the other.
pub open spec fn escape_bytes(bytes: Seq<u8>) -> Seq<u8>
    decreases bytes.len(),
{
    if bytes.len() == 0 {
        Seq::empty()
    } else {
        escape_bytes(bytes.drop_last()) + escape_byte(bytes.last())
    }
}

/// Values that a status writes under `grpc-status` and `grpc-message`.
pub struct StatusValues {
    pub status: Option<Vec<u8>>,
    pub message: Option<Vec<u8>>,
}

/// `tonic::Status::add_header` on a `tonic::Status::new` of this code and message: the values that
/// it writes under `grpc-status` and `grpc-message`.
///
/// The first is the code in decimal. The second is the message with its bytes escaped, and is
/// written only where the message is not empty.
#[verifier::external_body]
fn status_header_values(code: i32, message: &str) -> (values: StatusValues)
    requires
        0 <= code <= 16,
    ensures
        values.status is Some,
        values.status->0@ == code_digits(code),
        values.message is Some == (message@.len() > 0),
        values.message is Some ==> values.message->0@ == escape_bytes(
            vstd::utf8::encode_utf8(message@),
        ),
{
    let status = tonic::Status::new(tonic::Code::from(code), message.to_owned());
    let mut headers = http::HeaderMap::with_capacity(2);
    status.add_header(&mut headers).expect("tonic status creates valid gRPC headers");
    StatusValues {
        status: headers.get("grpc-status").map(|value| value.as_bytes().to_vec()),
        message: headers.get("grpc-message").map(|value| value.as_bytes().to_vec()),
    }
}

/// Header fields of a gRPC status.
pub open spec fn status_fields(code: i32, message: Seq<char>) -> Seq<(Seq<char>, Seq<u8>)> {
    let status = seq![("grpc-status"@, code_digits(code))];
    if message.len() == 0 {
        status
    } else {
        status.push(("grpc-message"@, escape_bytes(vstd::utf8::encode_utf8(message))))
    }
}

/// Returns the header fields of a gRPC status.
pub fn status_headers(code: i32, message: &str) -> (fields: Vec<HeaderField>)
    requires
        0 <= code <= 16,
    ensures
        layer::field_views(fields@) == status_fields(code, message@),
{
    let values = status_header_values(code, message);
    let mut fields: Vec<HeaderField> = Vec::new();
    if let Some(value) = values.status {
        fields.push(HeaderField { name: "grpc-status", value });
    }
    if let Some(value) = values.message {
        fields.push(HeaderField { name: "grpc-message", value });
    }
    assert(layer::field_views(fields@) =~= status_fields(code, message@));
    fields
}

/// Header fields of a gRPC response that carries nothing but a status.
pub open spec fn response_fields(code: i32, message: Seq<char>) -> Seq<(Seq<char>, Seq<u8>)> {
    status_fields(code, message).push(("content-type"@, vstd::utf8::encode_utf8("application/grpc"@)))
}

/// Returns the header fields of a gRPC response that carries nothing but a status.
pub fn status_response(code: i32, message: &str) -> (fields: Vec<HeaderField>)
    requires
        0 <= code <= 16,
    ensures
        layer::field_views(fields@) == response_fields(code, message@),
{
    let mut fields = status_headers(code, message);
    let ghost before = fields@;
    fields.push(HeaderField { name: "content-type", value: "application/grpc".as_bytes_vec() });
    assert(layer::field_views(fields@) =~= layer::field_views(before).push(
        ("content-type"@, vstd::utf8::encode_utf8("application/grpc"@)),
    ));
    fields
}

/// Renders enforcement failures as gRPC statuses.
///
/// Every rejection is an HTTP 200 response whose gRPC status lives in the headers, so gRPC clients
/// see a status rather than a transport error:
///
/// | Outcome | gRPC code |
/// | --- | --- |
/// | denied | `FAILED_PRECONDITION` |
/// | missing subject | `FAILED_PRECONDITION` |
/// | unavailable | `UNAVAILABLE` |
///
/// A denial that lands mid-stream ends a response body with `FAILED_PRECONDITION` trailers, and
/// fails a request body with the equivalent status.
#[derive(Clone, Copy, Debug, Default)]
pub struct TonicRejectionResponse;

impl TonicRejectionResponse {
    /// Headers of the response to a denied request.
    pub fn denied(self, message: &str) -> (fields: Vec<HeaderField>)
        ensures
            layer::field_views(fields@) == response_fields(FAILED_PRECONDITION, message@),
    {
        status_response(FAILED_PRECONDITION, message)
    }

    /// Headers of the response to a request without a subject.
    pub fn missing_subject(self, message: &str) -> (fields: Vec<HeaderField>)
        ensures
            layer::field_views(fields@) == response_fields(FAILED_PRECONDITION, message@),
    {
        status_response(FAILED_PRECONDITION, message)
    }

    /// Headers of the response to a request that no decision could be had for.
    pub fn unavailable(self, _error: AdmissionUnavailable, message: &str) -> (fields: Vec<
        HeaderField,
    >)
        ensures
            layer::field_views(fields@) == response_fields(UNAVAILABLE, message@),
    {
        status_response(UNAVAILABLE, message)
    }

    /// Form in which a body on this side is cut off.
    pub fn stream_denied(self, side: BodySide, message: &str) -> (rejection: StreamRejection)
        ensures
            match side {
                BodySide::Response => {
                    &&& rejection matches StreamRejection::Trailers(fields)
                    &&& layer::field_views(fields@) == status_fields(FAILED_PRECONDITION, message@)
                },
                BodySide::Request => {
                    &&& rejection matches StreamRejection::Error { code, message: text }
                    &&& code == FAILED_PRECONDITION
                    &&& text@ == message@
                },
            },
    {
        match side {
            BodySide::Response => StreamRejection::Trailers(
                status_headers(FAILED_PRECONDITION, message),
            ),
            BodySide::Request => StreamRejection::Error {
                code: FAILED_PRECONDITION,
                message: message.to_owned(),
            },
        }
    }
}

} // verus!
