//! The matching rule of cgroup directory discovery.
//!
//! Discovery itself is a directory scan and stays with the caller; what
//! is verified here is the rule it applies to each candidate name:
//! whether the name contains `<domain>.scope`.

use crate::parse::bytes_eq;
use vstd::prelude::*;
use vstd::slice::slice_subrange;
use vstd::string::StringSliceAdditionalSpecFns;

verus! {

/// `needle` occurs in `hay` starting at position `i`.
pub open spec fn contains_at(hay: Seq<u8>, needle: Seq<u8>, i: int) -> bool {
    0 <= i && i + needle.len() <= hay.len() && hay.subrange(i, i + needle.len()) == needle
}

/// `needle` occurs somewhere in `hay`.
pub open spec fn contains_seq(hay: Seq<u8>, needle: Seq<u8>) -> bool {
    exists|i: int| contains_at(hay, needle, i)
}

/// Whether `hay` contains `needle` as a contiguous run of bytes.
pub fn contains_bytes(hay: &[u8], needle: &[u8]) -> (r: bool)
    ensures
        r == contains_seq(hay@, needle@),
{
    let n = hay.len();
    let m = needle.len();
    if m > n {
        return false;
    }
    if m == 0 {
        proof {
            assert(hay@.subrange(0, 0) =~= needle@);
            assert(contains_at(hay@, needle@, 0));
        }
        return true;
    }
    let mut i: usize = 0;
    while i <= n - m
        invariant_except_break
            0 < m <= n,
            n == hay@.len(),
            m == needle@.len(),
            i <= n - m + 1,
            forall|j: int| 0 <= j < i ==> !contains_at(hay@, needle@, j),
        ensures
            (i <= n - m && contains_seq(hay@, needle@)) || (i == n - m + 1 && forall|j: int|
                0 <= j < i ==> !contains_at(hay@, needle@, j)),
        decreases n - i,
    {
        if bytes_eq(slice_subrange(hay, i, i + m), needle) {
            proof {
                assert(contains_at(hay@, needle@, i as int));
            }
            break;
        }
        i = i + 1;
    }
    if i <= n - m {
        true
    } else {
        proof {
            assert(forall|j: int| contains_at(hay@, needle@, j) ==> 0 <= j <= n - m);
        }
        false
    }
}

/// The directory-name pattern of a domain's cgroup: `<domain>.scope`.
pub fn scope_pattern(domain: &[u8]) -> (r: Vec<u8>)
    ensures
        r@ == domain@ + ".scope".spec_bytes(),
{
    let mut out: Vec<u8> = Vec::new();
    let mut i: usize = 0;
    while i < domain.len()
        invariant
            i <= domain@.len(),
            out@ == domain@.take(i as int),
        decreases domain@.len() - i,
    {
        proof {
            assert(domain@.take(i as int + 1) =~= domain@.take(i as int).push(
                domain@[i as int],
            ));
        }
        out.push(domain[i]);
        i = i + 1;
    }
    proof {
        assert(domain@.take(domain@.len() as int) =~= domain@);
    }
    let suffix = ".scope".as_bytes();
    let mut j: usize = 0;
    while j < suffix.len()
        invariant
            j <= suffix@.len(),
            suffix@ == ".scope".spec_bytes(),
            out@ == domain@ + suffix@.take(j as int),
        decreases suffix@.len() - j,
    {
        proof {
            assert(domain@ + suffix@.take(j as int + 1) =~= (domain@ + suffix@.take(
                j as int,
            )).push(suffix@[j as int]));
        }
        out.push(suffix[j]);
        j = j + 1;
    }
    proof {
        assert(suffix@.take(suffix@.len() as int) =~= suffix@);
    }
    out
}

/// The discovery rule: a candidate directory name belongs to the domain
/// exactly when it contains `<domain>.scope`.
pub fn cgroup_name_matches(name: &[u8], domain: &[u8]) -> (r: bool)
    ensures
        r == contains_seq(name@, domain@ + ".scope".spec_bytes()),
{
    let pattern = scope_pattern(domain);
    contains_bytes(name, pattern.as_slice())
}

} // verus!
