//! The per-connection decision a worker makes on the bytes one socket
//! read returned: a non-UTF-8 buffer is abandoned without a response,
//! anything else is answered by the pipeline.

use vstd::prelude::*;

use crate::http::{process_request, response_spec, wf_header_value};
use crate::string_map::StringMap;

verus! {

/// Relies on `std::str::from_utf8`: it succeeds exactly on valid UTF-8
/// and gives the decoded characters of the bytes.
#[verifier::external_body]
fn decode_utf8_bytes(bytes: &[u8]) -> (r: Option<String>)
    ensures
        match r {
            Some(s) => vstd::utf8::valid_utf8(bytes@) && s@ == vstd::utf8::decode_utf8(bytes@),
            None => !vstd::utf8::valid_utf8(bytes@),
        },
{
    match std::str::from_utf8(bytes) {
        Ok(s) => Some(s.to_string()),
        Err(_) => None,
    }
}

/// What a worker answers on the bytes one read returned: `None` when
/// they are not UTF-8 (the connection is closed without a response),
/// else the pipeline's response on the decoded text.
pub fn respond_to_buffer(bytes: &[u8], resource_map: &StringMap) -> (r: Option<String>)
    requires
        resource_map.wf(),
    ensures
        match r {
            Some(resp) => vstd::utf8::valid_utf8(bytes@) && exists|date: Seq<char>|
                wf_header_value(date) && resp@ == response_spec(
                    vstd::utf8::decode_utf8(bytes@),
                    resource_map@,
                    date,
                ),
            None => !vstd::utf8::valid_utf8(bytes@),
        },
{
    match decode_utf8_bytes(bytes) {
        None => None,
        Some(text) => Some(process_request(text.as_str(), resource_map)),
    }
}

} // verus!
