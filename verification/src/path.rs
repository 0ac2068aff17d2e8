//! Resource paths: a scheme with placeholders, filled in for one resource of
//! one locale.

use crate::text::{replace_all, replaced};
use vstd::prelude::*;

verus! {

/// The path of resource `res_id` in `locale` under `scheme`: the scheme with
/// each `{locale}` replaced by the locale, and then each `{res_id}` replaced by
/// the resource id. Everything else in the scheme, other braces included, is
/// kept as it stands.
pub open spec fn resource_path(scheme: Seq<char>, res_id: Seq<char>, locale: Seq<char>) -> Seq<
    char,
> {
    replaced(replaced(scheme, "{locale}"@, locale), "{res_id}"@, res_id)
}

/// Fills the placeholders of `scheme` in for one resource of one locale.
pub fn resolve_path(scheme: &str, res_id: &str, locale: &str) -> (path: String)
    ensures
        path@ == resource_path(scheme@, res_id@, locale@),
{
    let with_locale = replace_all(scheme, "{locale}", locale);
    replace_all(with_locale.as_str(), "{res_id}", res_id)
}

} // verus!
