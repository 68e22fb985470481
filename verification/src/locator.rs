//! `id:` and `path:` locator syntax.
use vstd::prelude::*;

use crate::model::Locator;
use crate::text::{all_ws, is_blank, own, strip_prefix};

verus! {

/// What `parse_locator` gives for `value`: the locator, or the error text.
pub open spec fn locator_spec(value: Seq<char>) -> Result<(bool, Seq<char>), Seq<char>> {
    if "id:"@.is_prefix_of(value) {
        let rest = value.skip(3);
        if all_ws(rest) {
            Err("empty id locator"@)
        } else {
            Ok((true, rest))
        }
    } else if "path:"@.is_prefix_of(value) {
        let rest = value.skip(5);
        if all_ws(rest) {
            Err("empty path locator"@)
        } else {
            Ok((false, rest))
        }
    } else {
        Err("unsupported locator prefix: "@ + value)
    }
}

/// View of a parsed locator: `(is_id, value)`.
pub open spec fn locator_view(l: Locator) -> (bool, Seq<char>) {
    match l {
        Locator::Id(s) => (true, s@),
        Locator::Path(s) => (false, s@),
    }
}

/// View of the result of `parse_locator`.
pub open spec fn locator_result_view(r: Result<Locator, String>) -> Result<(bool, Seq<char>), Seq<char>> {
    match r {
        Ok(l) => Ok(locator_view(l)),
        Err(m) => Err(m@),
    }
}

/// Parses an `id:` or `path:` locator; the value after the prefix must not be
/// blank.
pub fn parse_locator(value: &str) -> (r: Result<Locator, String>)
    ensures
        locator_result_view(r) == locator_spec(value@),
{
    proof {
        reveal_strlit("id:");
        reveal_strlit("path:");
        reveal_strlit("empty id locator");
        reveal_strlit("empty path locator");
        reveal_strlit("unsupported locator prefix: ");
    }
    if let Some(id) = strip_prefix(value, "id:") {
        if is_blank(id.as_str()) {
            return Err(own("empty id locator"));
        }
        return Ok(Locator::Id(id));
    }
    if let Some(path) = strip_prefix(value, "path:") {
        if is_blank(path.as_str()) {
            return Err(own("empty path locator"));
        }
        return Ok(Locator::Path(path));
    }
    Err(crate::text::cat("unsupported locator prefix: ", value))
}

} // verus!
