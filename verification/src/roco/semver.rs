//! The version ordering used to decide whether a remote package is newer
//! than a local one.  It intentionally diverges from strict semantic
//! versioning so as to mirror the package manager it accompanies: versions
//! are split on `.`, positions are compared numerically where both sides
//! parse as `i32`, lexicographically where neither does, and with an
//! asymmetric tie-break where one side is numeric and the other carries a
//! prerelease suffix.  A longer version wins over its own prefix.

use vstd::prelude::*;

verus! {

use crate::roco::strutil::{
    spec_split, spec_lex_gt, is_i32_literal, int_literal_val, split_str, parse_i32, lex_gt,
    lemma_lex_gt_irreflexive,
};

/// The numeric value a position falls back to: the leading piece before any
/// `-` suffix, read as `i32`, or `0` where even that does not parse.
pub open spec fn spec_v_part_val(p: Seq<char>) -> int {
    let first = spec_split(p, '-')[0];
    if is_i32_literal(first) {
        int_literal_val(first)
    } else {
        0
    }
}

/// Position-by-position comparison of two split versions.
pub open spec fn spec_newer_parts(ap: Seq<Seq<char>>, bp: Seq<Seq<char>>) -> bool
    decreases ap.len(),
{
    if ap.len() == 0 {
        false
    } else if bp.len() == 0 {
        true
    } else {
        let a0 = ap[0];
        let b0 = bp[0];
        if is_i32_literal(a0) && !is_i32_literal(b0) {
            int_literal_val(a0) >= spec_v_part_val(b0)
        } else if !is_i32_literal(a0) && is_i32_literal(b0) {
            spec_v_part_val(a0) > int_literal_val(b0)
        } else if is_i32_literal(a0) && is_i32_literal(b0) {
            if int_literal_val(a0) > int_literal_val(b0) {
                true
            } else if int_literal_val(b0) > int_literal_val(a0) {
                false
            } else {
                spec_newer_parts(ap.drop_first(), bp.drop_first())
            }
        } else {
            spec_lex_gt(a0, b0)
        }
    }
}

/// `a` denotes a version strictly after `b`.
pub open spec fn spec_is_newer(a: Seq<char>, b: Seq<char>) -> bool {
    spec_newer_parts(spec_split(a, '.'), spec_split(b, '.'))
}

/// Leading numeric piece of one version position: everything before a `-`
/// suffix read as `i32`, with `0` for anything unparsable.
pub fn my_semver_get_v_part(v: &str) -> (r: i32)
    ensures
        r == spec_v_part_val(v@),
{
    let parts = split_str(v, '-');
    proof {
        assert(parts.deep_view()[0] == parts@[0]@);
    }
    match parse_i32(parts[0].as_str()) {
        Some(n) => n,
        None => 0,
    }
}

/// Position-by-position walk over both versions split on `.`.
pub fn my_semver_is_newer(a: &str, b: &str) -> (r: bool)
    ensures
        r == spec_is_newer(a@, b@),
{
    let ap = split_str(a, '.');
    let bp = split_str(b, '.');
    let ghost apv = spec_split(a@, '.');
    let ghost bpv = spec_split(b@, '.');
    let mut i: usize = 0;
    proof {
        assert(apv.skip(0) =~= apv);
        assert(bpv.skip(0) =~= bpv);
    }
    loop
        invariant
            i <= ap.len(),
            i <= bp.len(),
            ap.deep_view() == apv,
            bp.deep_view() == bpv,
            spec_newer_parts(apv.skip(i as int), bpv.skip(i as int)) == spec_is_newer(a@, b@),
        decreases ap.len() - i,
    {
        if i >= ap.len() {
            assert(apv.skip(i as int).len() == 0);
            return false;
        }
        if i >= bp.len() {
            assert(bpv.skip(i as int).len() == 0);
            assert(apv.skip(i as int).len() > 0);
            return true;
        }
        proof {
            assert(ap.deep_view()[i as int] == ap@[i as int]@);
            assert(bp.deep_view()[i as int] == bp@[i as int]@);
            assert(apv.skip(i as int)[0] == apv[i as int]);
            assert(bpv.skip(i as int)[0] == bpv[i as int]);
        }
        let na = parse_i32(ap[i].as_str());
        let nb = parse_i32(bp[i].as_str());
        match (na, nb) {
            (Some(x), None) => {
                return x >= my_semver_get_v_part(bp[i].as_str());
            },
            (None, Some(y)) => {
                return my_semver_get_v_part(ap[i].as_str()) > y;
            },
            (Some(x), Some(y)) => {
                if x > y {
                    return true;
                }
                if y > x {
                    return false;
                }
            },
            (None, None) => {
                return lex_gt(ap[i].as_str(), bp[i].as_str());
            },
        }
        proof {
            assert(apv.skip(i as int).drop_first() =~= apv.skip(i as int + 1));
            assert(bpv.skip(i as int).drop_first() =~= bpv.skip(i as int + 1));
        }
        i += 1;
    }
}

/// Is version `a` strictly newer than version `b`?
pub fn is_newer(a: &str, b: &str) -> (r: bool)
    ensures
        r == spec_is_newer(a@, b@),
{
    my_semver_is_newer(a, b)
}

proof fn lemma_newer_parts_irreflexive(p: Seq<Seq<char>>)
    ensures
        !spec_newer_parts(p, p),
    decreases p.len(),
{
    if p.len() > 0 {
        if is_i32_literal(p[0]) {
            lemma_newer_parts_irreflexive(p.drop_first());
        } else {
            lemma_lex_gt_irreflexive(p[0]);
        }
    }
}

/// The ordering is irreflexive: no version is newer than itself.
pub proof fn lemma_is_newer_irreflexive(v: Seq<char>)
    ensures
        !spec_is_newer(v, v),
{
    lemma_newer_parts_irreflexive(spec_split(v, '.'));
}

} // verus!
