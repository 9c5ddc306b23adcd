//! Package versions, version ranges, and package references.
//!
//! The resolver only compares and matches versions the registry lookup hands
//! it; it never parses arbitrary range syntax. A range is therefore one of
//! the shapes the resolver actually routes on: anything, an exact pin, a
//! caret range, or a tilde range.

use vstd::prelude::*;
use crate::url_bytes::bytes_eq;
use crate::url_bytes::clone_bytes;

verus! {

/// A concrete semantic version.
#[derive(Debug, Clone, Copy, PartialEq, Eq, Structural)]
pub struct Version {
    pub major: u64,
    pub minor: u64,
    pub patch: u64,
}

/// A version range in one of the shapes the resolver routes on.
#[derive(Debug, Clone, Copy, PartialEq, Eq, Structural)]
pub enum VersionRange {
    /// Matches every version.
    Any,
    /// Matches exactly one version.
    Exact(Version),
    /// Matches versions of the same major line, at or above the pin.
    Caret(Version),
    /// Matches versions of the same major and minor line, at or above the pin.
    Tilde(Version),
}

/// `a` is at or above `b` in semantic-version order.
pub open spec fn spec_version_at_least(a: Version, b: Version) -> bool {
    ||| a.major > b.major
    ||| (a.major == b.major && a.minor > b.minor)
    ||| (a.major == b.major && a.minor == b.minor && a.patch >= b.patch)
}

/// Does the version satisfy the range?
pub open spec fn spec_range_matches(r: VersionRange, v: Version) -> bool {
    match r {
        VersionRange::Any => true,
        VersionRange::Exact(p) => v == p,
        VersionRange::Caret(p) => v.major == p.major && spec_version_at_least(v, p),
        VersionRange::Tilde(p) => v.major == p.major && v.minor == p.minor && v.patch >= p.patch,
    }
}

/// Executable form of `spec_range_matches`.
pub fn range_matches(r: &VersionRange, v: &Version) -> (b: bool)
    ensures
        b == spec_range_matches(*r, *v),
{
    match r {
        VersionRange::Any => true,
        VersionRange::Exact(p) => v.major == p.major && v.minor == p.minor && v.patch == p.patch,
        VersionRange::Caret(p) => v.major == p.major && (v.minor > p.minor || (v.minor == p.minor
            && v.patch >= p.patch)),
        VersionRange::Tilde(p) => v.major == p.major && v.minor == p.minor && v.patch >= p.patch,
    }
}

/// A package request: a name and the range it must satisfy.
#[derive(Debug, Clone, PartialEq, Eq)]
pub struct PackageReq {
    pub name: Vec<u8>,
    pub range: VersionRange,
}

/// A concrete (name, version) pair produced by registry lookup.
#[derive(Debug, Clone, PartialEq, Eq)]
pub struct PackageNv {
    pub name: Vec<u8>,
    pub version: Version,
}

/// A parsed registry or package-manager reference: the request plus an
/// optional sub-path into the package.
#[derive(Debug, Clone, PartialEq, Eq)]
pub struct PackageReqReference {
    pub req: PackageReq,
    pub sub_path: Option<Vec<u8>>,
}

/// Two requests ask for the same thing.
pub open spec fn spec_req_eq(a: PackageReq, b: PackageReq) -> bool {
    a.name@ == b.name@ && a.range == b.range
}

/// Executable form of `spec_req_eq`.
pub fn req_eq(a: &PackageReq, b: &PackageReq) -> (r: bool)
    ensures
        r == spec_req_eq(*a, *b),
{
    bytes_eq(a.name.as_slice(), b.name.as_slice()) && a.range == b.range
}

/// Two (name, version) pairs denote the same package version.
pub open spec fn spec_nv_eq(a: PackageNv, b: PackageNv) -> bool {
    a.name@ == b.name@ && a.version == b.version
}

/// Executable form of `spec_nv_eq`.
pub fn nv_eq(a: &PackageNv, b: &PackageNv) -> (r: bool)
    ensures
        r == spec_nv_eq(*a, *b),
{
    bytes_eq(a.name.as_slice(), b.name.as_slice()) && a.version == b.version
}

/// The mathematical shadow of a `PackageReq`.
pub struct ReqView {
    pub name: Seq<u8>,
    pub range: VersionRange,
}

impl View for PackageReq {
    type V = ReqView;

    open spec fn view(&self) -> ReqView {
        ReqView { name: self.name@, range: self.range }
    }
}

/// The mathematical shadow of a `PackageNv`.
pub struct NvView {
    pub name: Seq<u8>,
    pub version: Version,
}

impl View for PackageNv {
    type V = NvView;

    open spec fn view(&self) -> NvView {
        NvView { name: self.name@, version: self.version }
    }
}

/// The mathematical shadow of a `PackageReqReference`.
pub struct ReqReferenceView {
    pub req: ReqView,
    pub sub_path: Option<Seq<u8>>,
}

impl View for PackageReqReference {
    type V = ReqReferenceView;

    open spec fn view(&self) -> ReqReferenceView {
        ReqReferenceView { req: self.req@, sub_path: self.sub_path.deep_view() }
    }
}

/// An owned copy of a request.
pub fn clone_req(r: &PackageReq) -> (c: PackageReq)
    ensures
        c.name@ == r.name@,
        c.range == r.range,
{
    PackageReq { name: clone_bytes(&r.name), range: r.range }
}

/// An owned copy of a (name, version) pair.
pub fn clone_nv(n: &PackageNv) -> (c: PackageNv)
    ensures
        c.name@ == n.name@,
        c.version == n.version,
{
    PackageNv { name: clone_bytes(&n.name), version: n.version }
}

} // verus!
