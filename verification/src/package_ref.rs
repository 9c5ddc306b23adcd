//! Parsing of registry and package-manager short references.
//!
//! The reference grammar the resolver routes on is
//! `name[@range][/sub-path]`, where the name may be scoped
//! (`@scope/name`) and the range is `*`, an exact `major.minor.patch`
//! triple, or such a triple behind `^` or `~`.

use vstd::prelude::*;
use crate::semver::PackageReq;
use crate::semver::PackageReqReference;
use crate::semver::Version;
use crate::semver::VersionRange;

verus! {

broadcast use crate::url_bytes::lemma_bytes_deep_view;

/// The smallest index at or after `from` holding byte `b`, if any.
pub open spec fn spec_find(s: Seq<u8>, b: u8, from: int) -> Option<int>
    decreases s.len() - from,
{
    if from < 0 || from >= s.len() {
        None
    } else if s[from] == b {
        Some(from)
    } else {
        spec_find(s, b, from + 1)
    }
}

/// Executable form of `spec_find`.
pub fn find_byte(s: &[u8], b: u8, from: usize) -> (r: Option<usize>)
    ensures
        match r {
            Some(i) => from <= i < s@.len() && spec_find(s@, b, from as int) == Some(i as int),
            None => spec_find(s@, b, from as int) is None,
        },
{
    let mut i: usize = from;
    while i < s.len()
        invariant
            from <= i,
            spec_find(s@, b, from as int) == spec_find(s@, b, i as int),
        decreases s@.len() - i,
    {
        if s[i] == b {
            return Some(i);
        }
        i += 1;
    }
    None
}

/// The value of a decimal digit string accumulated onto `acc`, or nothing
/// on a non-digit or on overflow.
pub open spec fn spec_parse_u64_rec(s: Seq<u8>, acc: nat) -> Option<nat>
    decreases s.len(),
{
    if s.len() == 0 {
        Some(acc)
    } else if 48 <= s[0] <= 57 {
        let v = acc * 10 + (s[0] - 48);
        if v > u64::MAX {
            None
        } else {
            spec_parse_u64_rec(s.drop_first(), v as nat)
        }
    } else {
        None
    }
}

/// The value of a non-empty decimal digit string, or nothing.
pub open spec fn spec_parse_u64(s: Seq<u8>) -> Option<nat> {
    if s.len() == 0 {
        None
    } else {
        spec_parse_u64_rec(s, 0)
    }
}

/// Executable form of `spec_parse_u64`.
pub fn parse_u64(s: &[u8]) -> (r: Option<u64>)
    ensures
        match r {
            Some(v) => spec_parse_u64(s@) == Some(v as nat),
            None => spec_parse_u64(s@) is None,
        },
{
    if s.len() == 0 {
        return None;
    }
    let mut acc: u64 = 0;
    let mut i: usize = 0;
    assert(s@.skip(0) =~= s@);
    while i < s.len()
        invariant
            i <= s@.len(),
            spec_parse_u64_rec(s@, 0) == spec_parse_u64_rec(s@.skip(i as int), acc as nat),
        decreases s@.len() - i,
    {
        let ghost pre = s@.skip(i as int);
        assert(pre[0] == s@[i as int]);
        let d = s[i];
        if d < 48 || d > 57 {
            return None;
        }
        if acc > (u64::MAX - ((d - 48) as u64)) / 10 {
            proof {
                assert((acc as nat) * 10 + (d - 48) > u64::MAX) by (nonlinear_arith)
                    requires
                        acc > (u64::MAX - ((d - 48) as u64)) / 10,
                        48 <= d <= 57,
                {}
            }
            return None;
        }
        proof {
            assert((acc as nat) * 10 + (d - 48) <= u64::MAX) by (nonlinear_arith)
                requires
                    acc <= (u64::MAX - ((d - 48) as u64)) / 10,
                    48 <= d <= 57,
            {}
            assert(pre.drop_first() =~= s@.skip(i + 1));
        }
        acc = acc * 10 + ((d - 48) as u64);
        i += 1;
    }
    assert(s@.skip(s@.len() as int).len() == 0);
    Some(acc)
}

/// The version an exact `major.minor.patch` byte string denotes, or
/// nothing.
pub open spec fn spec_parse_version(s: Seq<u8>) -> Option<Version> {
    match spec_find(s, 46u8, 0) {
        None => None,
        Some(d1) => match spec_find(s, 46u8, d1 + 1) {
            None => None,
            Some(d2) => match (
                spec_parse_u64(s.subrange(0, d1)),
                spec_parse_u64(s.subrange(d1 + 1, d2)),
                spec_parse_u64(s.subrange(d2 + 1, s.len() as int)),
            ) {
                (Some(major), Some(minor), Some(patch)) => if major <= u64::MAX && minor
                    <= u64::MAX && patch <= u64::MAX {
                    Some(
                        Version {
                            major: major as u64,
                            minor: minor as u64,
                            patch: patch as u64,
                        },
                    )
                } else {
                    None
                },
                _ => None,
            },
        },
    }
}

/// Executable form of `spec_parse_version`.
pub fn parse_version(s: &[u8]) -> (r: Option<Version>)
    ensures
        r == spec_parse_version(s@),
{
    let n = s.len();
    let d1 = match find_byte(s, 46u8, 0) {
        Some(d1) => d1,
        None => {
            return None;
        },
    };
    assert(d1 < n);
    let d2 = match find_byte(s, 46u8, d1 + 1) {
        Some(d2) => d2,
        None => {
            return None;
        },
    };
    assert(d2 < n);
    let major_bytes = &s[0..d1];
    let minor_bytes = &s[d1 + 1..d2];
    let patch_bytes = &s[d2 + 1..n];
    proof {
        assert(major_bytes@ =~= s@.subrange(0, d1 as int));
        assert(minor_bytes@ =~= s@.subrange(d1 + 1, d2 as int));
        assert(patch_bytes@ =~= s@.subrange(d2 + 1, s@.len() as int));
    }
    let major = match parse_u64(major_bytes) {
        Some(v) => v,
        None => {
            return None;
        },
    };
    let minor = match parse_u64(minor_bytes) {
        Some(v) => v,
        None => {
            return None;
        },
    };
    let patch = match parse_u64(patch_bytes) {
        Some(v) => v,
        None => {
            return None;
        },
    };
    Some(Version { major, minor, patch })
}

/// The range a version-range byte string denotes: `*` matches anything, a
/// bare triple pins exactly, `^` and `~` give caret and tilde ranges.
pub open spec fn spec_parse_range(s: Seq<u8>) -> Option<VersionRange> {
    if s.len() == 0 {
        None
    } else if s == seq![42u8] {
        Some(VersionRange::Any)
    } else if s[0] == 94 {
        match spec_parse_version(s.drop_first()) {
            Some(v) => Some(VersionRange::Caret(v)),
            None => None,
        }
    } else if s[0] == 126 {
        match spec_parse_version(s.drop_first()) {
            Some(v) => Some(VersionRange::Tilde(v)),
            None => None,
        }
    } else {
        match spec_parse_version(s) {
            Some(v) => Some(VersionRange::Exact(v)),
            None => None,
        }
    }
}

/// Executable form of `spec_parse_range`.
pub fn parse_range(s: &[u8]) -> (r: Option<VersionRange>)
    ensures
        r == spec_parse_range(s@),
{
    if s.len() == 0 {
        return None;
    }
    if s.len() == 1 && s[0] == 42 {
        assert(s@ =~= seq![42u8]);
        return Some(VersionRange::Any);
    }
    assert(s@ != seq![42u8]) by {
        if s@ =~= seq![42u8] {
            assert(s@.len() == 1 && s@[0] == 42);
        }
    }
    if s[0] == 94 {
        let rest = &s[1..s.len()];
        assert(rest@ =~= s@.drop_first());
        match parse_version(rest) {
            Some(v) => Some(VersionRange::Caret(v)),
            None => None,
        }
    } else if s[0] == 126 {
        let rest = &s[1..s.len()];
        assert(rest@ =~= s@.drop_first());
        match parse_version(rest) {
            Some(v) => Some(VersionRange::Tilde(v)),
            None => None,
        }
    } else {
        match parse_version(s) {
            Some(v) => Some(VersionRange::Exact(v)),
            None => None,
        }
    }
}

/// Where the `name[@range]` segment of a reference ends: at the first `/`
/// past the scope part (a leading `@` keeps the scope and its `/` inside
/// the name), or at the end.
pub open spec fn spec_segment_end(s: Seq<u8>) -> int {
    let base: int = if s.len() > 0 && s[0] == 64 {
        match spec_find(s, 47u8, 0) {
            Some(sl) => sl + 1,
            None => s.len() as int,
        }
    } else {
        0
    };
    match spec_find(s, 47u8, base) {
        Some(sl) => sl,
        None => s.len() as int,
    }
}

/// What a reference byte string parses to: the request (its name possibly
/// scoped, its range defaulting to anything) and the optional sub-path
/// after the segment's `/`.
pub open spec fn spec_parse_ref(s: Seq<u8>) -> Option<crate::semver::ReqReferenceView> {
    let seg = spec_segment_end(s);
    let scope_skip: int = if s.len() > 0 && s[0] == 64 {
        1
    } else {
        0
    };
    if s.len() == 0 || seg == 0 {
        None
    } else {
        let at = spec_find(s.subrange(scope_skip, seg), 64u8, 0);
        let name_end: int = match at {
            Some(a) => a + scope_skip,
            None => seg,
        };
        let range = match at {
            Some(a) => spec_parse_range(s.subrange(a + scope_skip + 1, seg)),
            None => Some(VersionRange::Any),
        };
        let sub_path: Option<Seq<u8>> = if seg < s.len() {
            Some(s.subrange(seg + 1, s.len() as int))
        } else {
            None
        };
        if name_end == 0 {
            None
        } else {
            match range {
                None => None,
                Some(rg) => Some(
                    crate::semver::ReqReferenceView {
                        req: crate::semver::ReqView { name: s.subrange(0, name_end), range: rg },
                        sub_path,
                    },
                ),
            }
        }
    }
}

/// Executable form of `spec_parse_ref`.
pub fn parse_ref(s: &Vec<u8>) -> (r: Option<PackageReqReference>)
    ensures
        match r {
            Some(rr) => spec_parse_ref(s@) == Some(rr@),
            None => spec_parse_ref(s@) is None,
        },
{
    if s.len() == 0 {
        return None;
    }
    let scoped: bool = s[0] == 64;
    let base: usize = if scoped {
        match find_byte(s.as_slice(), 47u8, 0) {
            Some(sl) => sl + 1,
            None => s.len(),
        }
    } else {
        0
    };
    let seg: usize = match find_byte(s.as_slice(), 47u8, base) {
        Some(sl) => sl,
        None => s.len(),
    };
    assert(seg as int == spec_segment_end(s@));
    if seg == 0 {
        return None;
    }
    let scope_skip: usize = if scoped {
        1
    } else {
        0
    };
    let ghost seg_part = s@.subrange(scope_skip as int, seg as int);
    let seg_slice = &s.as_slice()[scope_skip..seg];
    assert(seg_slice@ =~= seg_part);
    let at: Option<usize> = find_byte(seg_slice, 64u8, 0);
    let name_end: usize = match at {
        Some(a) => a + scope_skip,
        None => seg,
    };
    if name_end == 0 {
        return None;
    }
    let range: VersionRange = match at {
        Some(a) => {
            let range_slice = &s.as_slice()[a + scope_skip + 1..seg];
            assert(range_slice@ =~= s@.subrange(a + scope_skip + 1, seg as int));
            match parse_range(range_slice) {
                Some(rg) => rg,
                None => {
                    return None;
                },
            }
        },
        None => VersionRange::Any,
    };
    let name_slice = &s.as_slice()[0..name_end];
    assert(name_slice@ =~= s@.subrange(0, name_end as int));
    let mut name: Vec<u8> = Vec::new();
    let mut i: usize = 0;
    while i < name_slice.len()
        invariant
            i <= name_slice@.len(),
            name@ =~= name_slice@.subrange(0, i as int),
        decreases name_slice@.len() - i,
    {
        name.push(name_slice[i]);
        i += 1;
    }
    assert(name@ =~= name_slice@);
    let sub_path: Option<Vec<u8>> = if seg < s.len() {
        let sp_slice = &s.as_slice()[seg + 1..s.len()];
        assert(sp_slice@ =~= s@.subrange(seg + 1, s@.len() as int));
        let mut sp: Vec<u8> = Vec::new();
        let mut j: usize = 0;
        while j < sp_slice.len()
            invariant
                j <= sp_slice@.len(),
                sp@ =~= sp_slice@.subrange(0, j as int),
            decreases sp_slice@.len() - j,
        {
            sp.push(sp_slice[j]);
            j += 1;
        }
        assert(sp@ =~= sp_slice@);
        Some(sp)
    } else {
        None
    };
    Some(PackageReqReference { req: PackageReq { name, range }, sub_path })
}

} // verus!
