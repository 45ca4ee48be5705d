//! Reading one JSON frame of the child channel.
use vstd::prelude::*;

verus! {

#[verifier::external_type_specification]
#[verifier::external_body]
pub struct ExValue(serde_json::Value);

#[verifier::external_type_specification]
#[verifier::external_body]
pub struct ExError(serde_json::Error);

/// Whether the bytes hold exactly one JSON document (surrounding whitespace
/// aside), as serde_json reads it into a `serde_json::Value`.
pub uninterp spec fn is_json_document(b: Seq<u8>) -> bool;

/// Relies on serde_json::from_slice, read at the type serde_json::Value: it
/// parses the bytes as one JSON document, or says why they are not one; the
/// answer depends on the bytes alone.
#[verifier::external_body]
fn value_from_slice(bytes: &[u8]) -> (r: Result<serde_json::Value, serde_json::Error>)
    ensures
        r is Ok <==> is_json_document(bytes@),
{
    serde_json::from_slice(bytes)
}

/// Why a frame could not be read.
#[derive(Debug, Clone, PartialEq, Eq)]
pub enum FrameError {
    /// The frame is not one JSON document.
    InvalidJson,
}

/// Decodes frames of the child channel as JSON values.
#[derive(Debug, Clone, Copy, PartialEq, Eq, Default)]
pub struct JsonCodec;

impl JsonCodec {
    /// Reads one frame as a JSON value; fails exactly when the frame is not
    /// one JSON document.
    pub fn deserialize(&self, bytes: &[u8]) -> (r: Result<serde_json::Value, FrameError>)
        ensures
            r is Ok <==> is_json_document(bytes@),
            r is Err ==> r == Err::<serde_json::Value, FrameError>(FrameError::InvalidJson),
    {
        match value_from_slice(bytes) {
            Ok(v) => Ok(v),
            Err(_) => Err(FrameError::InvalidJson),
        }
    }
}

} // verus!
