//! Settings of the middleware and the forms in which it ends a stream.

use vstd::prelude::*;

verus! {

/// Messages of the middleware's rejections.
#[derive(Clone, Debug, PartialEq, Eq)]
pub struct PolicyGateLayerConfig {
    denied_message: String,
    missing_subject_message: String,
}

impl PolicyGateLayerConfig {
    /// Message of a rejection by denial.
    pub closed spec fn spec_denied_message(&self) -> Seq<char> {
        self.denied_message@
    }

    /// Message of a rejection for want of a subject.
    pub closed spec fn spec_missing_subject_message(&self) -> Seq<char> {
        self.missing_subject_message@
    }

    pub fn new(denied_message: &str, missing_subject_message: &str) -> (config:
        PolicyGateLayerConfig)
        ensures
            config.spec_denied_message() == denied_message@,
            config.spec_missing_subject_message() == missing_subject_message@,
    {
        PolicyGateLayerConfig {
            denied_message: denied_message.to_owned(),
            missing_subject_message: missing_subject_message.to_owned(),
        }
    }

    pub fn denied_message(&self) -> (message: &str)
        ensures
            message@ == self.spec_denied_message(),
    {
        self.denied_message.as_str()
    }

    pub fn missing_subject_message(&self) -> (message: &str)
        ensures
            message@ == self.spec_missing_subject_message(),
    {
        self.missing_subject_message.as_str()
    }
}

/// Direction of an enforced body.
#[derive(Clone, Copy, Debug, PartialEq, Eq, Structural)]
pub enum BodySide {
    Request,
    Response,
}

/// One header or trailer.
#[derive(Clone, Debug, PartialEq, Eq)]
pub struct HeaderField {
    pub name: &'static str,
    pub value: Vec<u8>,
}

/// Names and values of header fields, in their order.
pub open spec fn field_views(fields: Seq<HeaderField>) -> Seq<(Seq<char>, Seq<u8>)> {
    fields.map_values(|field: HeaderField| (field.name@, field.value@))
}

/// Form in which an enforced stream is cut off.
#[derive(Clone, Debug, PartialEq, Eq)]
pub enum StreamRejection {
    /// The body ends with these trailers.
    Trailers(Vec<HeaderField>),
    /// The body fails with a gRPC status of this code and message.
    Error { code: i32, message: String },
}

} // verus!
