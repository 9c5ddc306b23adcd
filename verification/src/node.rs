//! The node-aware resolver and the two package-manager resolver variants.
//!
//! The platform resolution algorithm itself runs in a collaborator; what it
//! has resolved for this scope is held here as data. The package-manager
//! resolver is a tagged variant: bring-your-own trusts an externally
//! populated install tree, managed derives its state from a lockfile or an
//! explicit snapshot and never fetches during language-server operation.

use vstd::prelude::*;
use crate::media::MediaType;
use crate::semver::PackageReq;
use crate::semver::PackageReqReference;
use crate::semver::ReqView;
use crate::semver::clone_req;
use crate::semver::req_eq;
use crate::url_bytes::bytes_eq;
use crate::url_bytes::clone_bytes;
use crate::url_bytes::clone_opt_bytes;
use crate::url_bytes::is_prefix_of;
use crate::url_bytes::starts_with;

verus! {

broadcast use crate::url_bytes::lemma_bytes_deep_view;

/// The resolution mode threaded through every query: execution targets
/// runnable code, types targets type-declaration sub-paths. The language
/// server always asks for types.
#[derive(Debug, Clone, Copy, PartialEq, Eq, Structural)]
pub enum NodeResolutionMode {
    Execution,
    Types,
}

/// One resolved package request: what the platform algorithm yields for the
/// request in the given mode.
pub struct ReqResolution {
    pub req: PackageReq,
    pub mode: NodeResolutionMode,
    pub url: Vec<u8>,
    pub media: MediaType,
}

/// The mathematical shadow of a `ReqResolution`.
pub struct ReqResolutionView {
    pub req: ReqView,
    pub mode: NodeResolutionMode,
    pub url: Seq<u8>,
    pub media: MediaType,
}

impl View for ReqResolution {
    type V = ReqResolutionView;

    open spec fn view(&self) -> ReqResolutionView {
        ReqResolutionView { req: self.req@, mode: self.mode, url: self.url@, media: self.media }
    }
}

/// The node-aware resolver of one scope.
pub struct NodeResolver {
    /// What the platform algorithm resolves each request to.
    pub req_resolutions: Vec<ReqResolution>,
    /// URL prefixes of the managed package trees.
    pub in_npm_pkg_roots: Vec<Vec<u8>>,
    /// (specifier text, referrer URL) pairs that name a package-manager
    /// dependency when resolved from that referrer.
    pub npm_pkg_specifiers: Vec<(Vec<u8>, Vec<u8>)>,
}

/// The first resolution for this request in this mode, if any.
pub open spec fn spec_resolve_req(
    rows: Seq<ReqResolutionView>,
    req: ReqView,
    mode: NodeResolutionMode,
) -> Option<(Seq<u8>, MediaType)>
    decreases rows.len(),
{
    if rows.len() == 0 {
        None
    } else if rows[0].req.name == req.name && rows[0].req.range == req.range && rows[0].mode
        == mode {
        Some((rows[0].url, rows[0].media))
    } else {
        spec_resolve_req(rows.drop_first(), req, mode)
    }
}

/// Is the URL inside one of the given package trees?
pub open spec fn spec_in_roots(roots: Seq<Seq<u8>>, url: Seq<u8>) -> bool {
    exists|i: int| 0 <= i < roots.len() && is_prefix_of(#[trigger] roots[i], url)
}

/// Does some recorded pair match this specifier text and referrer?
pub open spec fn spec_npm_pkg_specifier(
    rows: Seq<(Seq<u8>, Seq<u8>)>,
    text: Seq<u8>,
    referrer: Seq<u8>,
) -> bool {
    exists|i: int| 0 <= i < rows.len() && (#[trigger] rows[i]).0 == text && rows[i].1 == referrer
}

impl NodeResolver {
    /// The resolution rows, as views.
    pub open spec fn rows(&self) -> Seq<ReqResolutionView> {
        self.req_resolutions@.map_values(|r: ReqResolution| r@)
    }

    /// The package-tree roots, as views.
    pub open spec fn roots(&self) -> Seq<Seq<u8>> {
        self.in_npm_pkg_roots.deep_view()
    }

    /// The recorded package-manager specifiers, as views.
    pub open spec fn pkg_specifiers(&self) -> Seq<(Seq<u8>, Seq<u8>)> {
        self.npm_pkg_specifiers.deep_view()
    }

    /// An owned copy of the resolver's data; platform resolutions are
    /// immutable after construction, so a snapshot shares their content.
    pub fn duplicate(&self) -> (r: NodeResolver)
        ensures
            r.rows() == self.rows(),
            r.roots() == self.roots(),
            r.pkg_specifiers() == self.pkg_specifiers(),
    {
        let mut rows: Vec<ReqResolution> = Vec::new();
        let mut i: usize = 0;
        while i < self.req_resolutions.len()
            invariant
                i <= self.req_resolutions.len(),
                rows@.map_values(|r: ReqResolution| r@) =~= self.rows().subrange(0, i as int),
            decreases self.req_resolutions.len() - i,
        {
            let ghost before = rows@.map_values(|r: ReqResolution| r@);
            let row = &self.req_resolutions[i];
            rows.push(
                ReqResolution {
                    req: clone_req(&row.req),
                    mode: row.mode,
                    url: clone_bytes(&row.url),
                    media: row.media,
                },
            );
            assert(rows@.map_values(|r: ReqResolution| r@) =~= before.push(
                self.rows()[i as int],
            ));
            i += 1;
        }
        let out = NodeResolver {
            req_resolutions: rows,
            in_npm_pkg_roots: crate::url_bytes::clone_byte_list(&self.in_npm_pkg_roots),
            npm_pkg_specifiers: crate::url_bytes::clone_byte_pairs(&self.npm_pkg_specifiers),
        };
        assert(out.rows() =~= self.rows());
        out
    }

    /// What the platform algorithm resolves this reference to in this mode.
    /// The referrer routed the query to this scope's resolver; within the
    /// scope the recorded resolution rows decide.
    pub fn resolve_req_reference(
        &self,
        req_ref: &PackageReqReference,
        mode: NodeResolutionMode,
    ) -> (r: Option<(Vec<u8>, MediaType)>)
        ensures
            match r {
                Some(p) => spec_resolve_req(self.rows(), req_ref@.req, mode) == Some(
                    (p.0@, p.1),
                ),
                None => spec_resolve_req(self.rows(), req_ref@.req, mode) is None,
            },
    {
        let mut i: usize = 0;
        assert(self.rows().skip(0) =~= self.rows());
        while i < self.req_resolutions.len()
            invariant
                i <= self.req_resolutions.len(),
                spec_resolve_req(self.rows(), req_ref@.req, mode) == spec_resolve_req(
                    self.rows().skip(i as int),
                    req_ref@.req,
                    mode,
                ),
            decreases self.req_resolutions.len() - i,
        {
            let ghost pre = self.rows().skip(i as int);
            assert(pre[0] == self.rows()[i as int]);
            let row = &self.req_resolutions[i];
            if req_eq(&row.req, &req_ref.req) && row.mode == mode {
                return Some((clone_bytes(&row.url), row.media));
            }
            assert(pre.drop_first() =~= self.rows().skip(i + 1));
            i += 1;
        }
        assert(self.rows().skip(self.rows().len() as int).len() == 0);
        None
    }

    /// Is the URL inside a managed package tree?
    pub fn in_npm_package(&self, url: &Vec<u8>) -> (r: bool)
        ensures
            r == spec_in_roots(self.roots(), url@),
    {
        let mut i: usize = 0;
        while i < self.in_npm_pkg_roots.len()
            invariant
                i <= self.in_npm_pkg_roots.len(),
                forall|j: int| 0 <= j < i ==> !is_prefix_of(#[trigger] self.roots()[j], url@),
            decreases self.in_npm_pkg_roots.len() - i,
        {
            if starts_with(url.as_slice(), self.in_npm_pkg_roots[i].as_slice()) {
                assert(is_prefix_of(self.roots()[i as int], url@));
                return true;
            }
            i += 1;
        }
        assert(!spec_in_roots(self.roots(), url@)) by {
            if spec_in_roots(self.roots(), url@) {
                let j = choose|j: int|
                    0 <= j < self.roots().len() && is_prefix_of(#[trigger] self.roots()[j], url@);
            }
        }
        false
    }

    /// Would this specifier, from this referrer, resolve as a
    /// package-manager dependency?
    pub fn resolves_for_npm_pkg(&self, text: &Vec<u8>, referrer: &Vec<u8>) -> (r: bool)
        ensures
            r == spec_npm_pkg_specifier(self.pkg_specifiers(), text@, referrer@),
    {
        let mut i: usize = 0;
        while i < self.npm_pkg_specifiers.len()
            invariant
                i <= self.npm_pkg_specifiers.len(),
                forall|j: int| 0 <= j < i ==> !((#[trigger] self.pkg_specifiers()[j]).0 == text@
                    && self.pkg_specifiers()[j].1 == referrer@),
            decreases self.npm_pkg_specifiers.len() - i,
        {
            let row = &self.npm_pkg_specifiers[i];
            if bytes_eq(row.0.as_slice(), text.as_slice()) && bytes_eq(
                row.1.as_slice(),
                referrer.as_slice(),
            ) {
                assert((self.pkg_specifiers()[i as int]).0 == text@
                    && self.pkg_specifiers()[i as int].1 == referrer@);
                return true;
            }
            i += 1;
        }
        assert(!spec_npm_pkg_specifier(self.pkg_specifiers(), text@, referrer@)) by {
            if spec_npm_pkg_specifier(self.pkg_specifiers(), text@, referrer@) {
                let j = choose|j: int|
                    0 <= j < self.pkg_specifiers().len() && (#[trigger] self.pkg_specifiers()[j]).0
                        == text@ && self.pkg_specifiers()[j].1 == referrer@;
            }
        }
        false
    }
}

/// The managed package-manager resolver: its snapshot is derived from the
/// lockfile when one exists, its requirement set is updated in bulk by the
/// language server, and it never fetches on its own.
pub struct ManagedNpmResolver {
    pub snapshot_from_lockfile: bool,
    pub node_modules_dir: Option<Vec<u8>>,
    pub package_reqs: Vec<PackageReq>,
}

/// The mathematical shadow of a `ManagedNpmResolver`.
pub struct ManagedNpmView {
    pub snapshot_from_lockfile: bool,
    pub node_modules_dir: Option<Seq<u8>>,
    pub package_reqs: Seq<ReqView>,
}

impl View for ManagedNpmResolver {
    type V = ManagedNpmView;

    open spec fn view(&self) -> ManagedNpmView {
        ManagedNpmView {
            snapshot_from_lockfile: self.snapshot_from_lockfile,
            node_modules_dir: self.node_modules_dir.deep_view(),
            package_reqs: self.package_reqs@.map_values(|r: PackageReq| r@),
        }
    }
}

impl ManagedNpmResolver {
    /// Replace the requirement set wholesale; setting the same set twice is
    /// the same as setting it once.
    pub fn set_package_reqs(&mut self, reqs: Vec<PackageReq>)
        ensures
            final(self)@.package_reqs == reqs@.map_values(|r: PackageReq| r@),
            final(self)@.snapshot_from_lockfile == old(self)@.snapshot_from_lockfile,
            final(self)@.node_modules_dir == old(self)@.node_modules_dir,
    {
        self.package_reqs = reqs;
    }
}

/// The two package-manager variants behind one interface.
pub enum NpmResolver {
    /// Bring-your-own: an externally populated install tree is trusted.
    Byonm { root_node_modules_dir: Option<Vec<u8>> },
    /// Managed: the resolver owns its cache-backed state.
    Managed(ManagedNpmResolver),
}

/// The mathematical shadow of an `NpmResolver`.
pub enum NpmResolverView {
    Byonm { root_node_modules_dir: Option<Seq<u8>> },
    Managed(ManagedNpmView),
}

impl View for NpmResolver {
    type V = NpmResolverView;

    open spec fn view(&self) -> NpmResolverView {
        match self {
            NpmResolver::Byonm { root_node_modules_dir } => NpmResolverView::Byonm {
                root_node_modules_dir: root_node_modules_dir.deep_view(),
            },
            NpmResolver::Managed(m) => NpmResolverView::Managed(m@),
        }
    }
}

impl NpmResolver {
    /// The managed resolver inside, if this is the managed variant.
    pub fn as_managed(&self) -> (r: Option<&ManagedNpmResolver>)
        ensures
            match r {
                Some(m) => self@ == NpmResolverView::Managed(m@),
                None => self@ is Byonm,
            },
    {
        match self {
            NpmResolver::Managed(m) => Some(m),
            NpmResolver::Byonm { .. } => None,
        }
    }

    /// The managed resolver inside, mutably.
    pub fn as_managed_mut(&mut self) -> (r: Option<&mut ManagedNpmResolver>)
        ensures
            match r {
                Some(m) => old(self)@ == NpmResolverView::Managed((*m)@)
                    && final(self)@ == NpmResolverView::Managed((*final(m))@),
                None => old(self)@ is Byonm && final(self)@ == old(self)@,
            },
    {
        match self {
            NpmResolver::Managed(m) => Some(m),
            NpmResolver::Byonm { .. } => None,
        }
    }

    /// A snapshot of this resolver, guaranteed independent of the original:
    /// the bring-your-own variant copies its configuration, the managed
    /// variant forks its whole state.
    pub fn clone_snapshotted(&self) -> (r: NpmResolver)
        ensures
            r@ == self@,
    {
        match self {
            NpmResolver::Byonm { root_node_modules_dir } => NpmResolver::Byonm {
                root_node_modules_dir: clone_opt_bytes(root_node_modules_dir),
            },
            NpmResolver::Managed(m) => {
                let mut reqs: Vec<PackageReq> = Vec::new();
                let mut i: usize = 0;
                while i < m.package_reqs.len()
                    invariant
                        i <= m.package_reqs.len(),
                        reqs@.map_values(|r: PackageReq| r@) =~= m.package_reqs@.map_values(
                            |r: PackageReq| r@,
                        ).subrange(0, i as int),
                    decreases m.package_reqs.len() - i,
                {
                    let ghost before = reqs@.map_values(|r: PackageReq| r@);
                    reqs.push(clone_req(&m.package_reqs[i]));
                    assert(reqs@.map_values(|r: PackageReq| r@) =~= before.push(
                        m.package_reqs@[i as int]@,
                    ));
                    i += 1;
                }
                assert(m.package_reqs@.map_values(|r: PackageReq| r@).subrange(
                    0,
                    m.package_reqs@.len() as int,
                ) =~= m.package_reqs@.map_values(|r: PackageReq| r@));
                let out = NpmResolver::Managed(
                    ManagedNpmResolver {
                        snapshot_from_lockfile: m.snapshot_from_lockfile,
                        node_modules_dir: clone_opt_bytes(&m.node_modules_dir),
                        package_reqs: reqs,
                    },
                );
                assert(out@ == self@);
                out
            },
        }
    }
}

} // verus!
