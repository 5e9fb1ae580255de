//! Case-insensitive filtering of device names.

use vstd::prelude::*;
use crate::text::{contains_sub, find_sub_str};

verus! {

/// What `str::to_lowercase` returns for a given character sequence.
pub uninterp spec fn lower_of(s: Seq<char>) -> Seq<char>;

/// Relies on `str::to_lowercase`: the result depends on the input
/// characters alone.
#[verifier::external_body]
pub(crate) fn lowercase(s: &str) -> (r: String)
    ensures
        r@ == lower_of(s@),
{
    s.to_lowercase()
}

/// Whether a device name passes the filter. No filter admits every name; a
/// filter admits exactly the names whose lowercase form contains the
/// filter's lowercase form as a substring.
pub open spec fn filter_matches(name: Seq<char>, filter: Option<Seq<char>>) -> bool {
    match filter {
        Option::Some(f) => contains_sub(lower_of(name), lower_of(f)),
        Option::None => true,
    }
}

/// Decide whether a device of this name is shown under the given filter.
pub fn should_display_device(device_name: &str, filter: Option<&String>) -> (r: bool)
    ensures
        r == filter_matches(device_name@, filter.deep_view()),
{
    match filter {
        Option::Some(f) => {
            let ln = lowercase(device_name);
            let lf = lowercase(f.as_str());
            find_sub_str(ln.as_str(), lf.as_str()).is_some()
        },
        Option::None => true,
    }
}

} // verus!
