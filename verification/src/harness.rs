//! Helpers of the single-step LLM harness.
use vstd::prelude::*;

use crate::text::{replace_all, replaced};

verus! {

/// Redact the API key from error messages so secrets never leak into logs or
/// the UI. Only replaces when the key is at least 8 bytes long, so short
/// placeholder keys don't trigger false positives.
pub fn sanitize_error(msg: String, api_key: &str) -> (r: String)
    ensures
        r@ == (if api_key@.len() == 0 || api_key.len() < 8 {
            msg@
        } else {
            replaced(msg@, api_key@, "[REDACTED]"@)
        }),
{
    if api_key.is_empty() || api_key.len() < 8 {
        return msg;
    }
    replace_all(msg.as_str(), api_key, "[REDACTED]")
}

} // verus!
