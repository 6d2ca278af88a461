//! The validation service offered to foreign callers: a configuration text
//! goes in, a small JSON report comes out.

use vstd::prelude::*;
use crate::text::{chars_of, contains_subseq, has_subseq};

verus! {

/// Whether `config` is taken for valid: it must mention a resource.
pub open spec fn is_valid_config(config: Seq<char>) -> bool {
    has_subseq(config, "resource"@)
}

/// Decides whether `config` is taken for valid.
pub fn validate_config_internal(config: &str) -> (r: bool)
    ensures
        r == is_valid_config(config@),
{
    let text = chars_of(config);
    let word = chars_of("resource");
    contains_subseq(&text, &word)
}

/// The report on `input`.
pub open spec fn report(input: Seq<char>) -> Seq<char> {
    if is_valid_config(input) {
        "{\"valid\":true}"@
    } else {
        "{\"valid\":false,\"errors\":[\"Configuration invalid\"]}"@
    }
}

/// Validates a configuration text and reports the verdict as JSON.
pub fn validate_config(input: &str) -> (r: String)
    ensures
        r@ == report(input@),
{
    if validate_config_internal(input) {
        "{\"valid\":true}".to_owned()
    } else {
        "{\"valid\":false,\"errors\":[\"Configuration invalid\"]}".to_owned()
    }
}

} // verus!
