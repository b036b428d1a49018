//! License-expression normalisation for the license report: dual-licensed
//! expressions written either `A OR B` or `A/B` are brought to one sorted
//! `OR` form so that equivalent expressions group together.

use vstd::prelude::*;

verus! {

use crate::roco::strutil::{
    spec_contains, str_contains, spec_split_by, split_by, spec_sort_strings, sort_strings,
    spec_join_sep, join_sep,
};

/// The license expression cut at its separator: at ` OR ` where that
/// occurs, else at `/` where that occurs, else the whole expression.
pub open spec fn spec_license_parts(license: Seq<char>) -> Seq<Seq<char>> {
    if spec_contains(license, " OR "@) {
        spec_split_by(license, " OR "@)
    } else if spec_contains(license, "/"@) {
        spec_split_by(license, "/"@)
    } else {
        seq![license]
    }
}

/// Normalise a license expression: split it on ` OR ` or `/`, sort the
/// parts, and join them back with ` OR `.
pub fn normalize_license(license: &str) -> (r: String)
    ensures
        r@ == spec_join_sep(spec_sort_strings(spec_license_parts(license@)), " OR "@),
{
    proof {
        reveal_strlit(" OR ");
        reveal_strlit("/");
    }
    let parts: Vec<String> = if str_contains(license, " OR ") {
        split_by(license, " OR ")
    } else if str_contains(license, "/") {
        split_by(license, "/")
    } else {
        let mut v: Vec<String> = Vec::new();
        v.push(license.to_owned());
        proof {
            assert(v.deep_view() =~= seq![license@]);
        }
        v
    };
    let sorted = sort_strings(parts);
    join_sep(&sorted, " OR ")
}

} // verus!
