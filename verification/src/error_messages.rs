//! The exact texts of the library's diagnostics.
use vstd::prelude::*;

verus! {

/// Message recorded when a recognized field's value cannot be coerced.
pub open spec fn spec_coerce_error_msg(from: Seq<char>, to: Seq<char>) -> Seq<char> {
    "Failed to coerce `"@ + from + "` to `"@ + to + "`"@
}

/// Message recorded when a required field was never set.
pub open spec fn spec_missing_property_msg(object_type: Seq<char>, property: Seq<char>) -> Seq<
    char,
> {
    "`"@ + object_type + "` is missing property `"@ + property + "`"@
}

/// Message recorded when a source holds no entity of the expected kind.
pub open spec fn spec_no_entity_found_msg(entity: Seq<char>, path: Seq<char>) -> Seq<char> {
    "No `"@ + entity + "` found in "@ + path
}

/// Message recorded when a source cannot be parsed at all.
pub open spec fn spec_failed_to_parse_msg(path: Seq<char>) -> Seq<char> {
    "Failed to parse `"@ + path + "`"@
}

} // verus!
