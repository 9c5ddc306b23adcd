//! A complete resolver bound to one configuration scope.
//!
//! Construction wires one instance each of the sub-resolvers, driven by the
//! configuration and by what the collaborators discovered while probing the
//! filesystem and caches. Construction always yields a usable resolver: a
//! capability whose collaborator is missing is disabled, never fatal. A
//! snapshot is a frozen copy sharing nothing mutable with the original.

use vstd::prelude::*;
use crate::cjs::CjsTracker;
use crate::cjs::LspCjsTracker;
use crate::config::ConfigData;
use crate::config::ConfigView;
use crate::jsr::JsrCacheResolver;
use crate::node::NodeResolver;
use crate::node::NodeResolutionMode;
use crate::node::NpmResolver;
use crate::node::ManagedNpmResolver;
use crate::node::ManagedNpmView;
use crate::node::NpmResolverView;
use crate::node::ReqResolutionView;
use crate::node::spec_resolve_req;
use crate::pkg_json::PackageJsonResolver;
use crate::redirect::HeaderProvider;
use crate::redirect::RedirectResolver;
use crate::redirect::spec_seeded;
use crate::semver::PackageReq;
use crate::semver::PackageReqReference;
use crate::semver::ReqView;
use crate::semver::VersionRange;
use crate::sloppy::SloppyImportsResolver;
use crate::url_bytes::clone_bytes;
use crate::url_bytes::clone_opt_bytes;
use crate::url_bytes::concat_bytes;

verus! {

broadcast use crate::url_bytes::lemma_bytes_deep_view;

/// One dependency harvested from project configuration: the specifier text
/// and where its type and code forms resolved.
pub struct GraphDep {
    pub specifier_text: Vec<u8>,
    pub maybe_type: Option<Vec<u8>>,
    pub maybe_code: Option<Vec<u8>>,
}

/// The mathematical shadow of a `GraphDep`.
pub struct GraphDepView {
    pub specifier_text: Seq<u8>,
    pub maybe_type: Option<Seq<u8>>,
    pub maybe_code: Option<Seq<u8>>,
}

impl View for GraphDep {
    type V = GraphDepView;

    open spec fn view(&self) -> GraphDepView {
        GraphDepView {
            specifier_text: self.specifier_text@,
            maybe_type: self.maybe_type.deep_view(),
            maybe_code: self.maybe_code.deep_view(),
        }
    }
}

/// The imports injected for one referrer, precomputed at scope construction
/// and immutable thereafter.
pub struct GraphImport {
    pub dependencies: Vec<GraphDep>,
}

impl View for GraphImport {
    type V = Seq<GraphDepView>;

    open spec fn view(&self) -> Seq<GraphDepView> {
        self.dependencies@.map_values(|d: GraphDep| d@)
    }
}

/// The graph-import rows, as views.
pub open spec fn graph_imports_view(v: Seq<(Vec<u8>, GraphImport)>) -> Seq<
    (Seq<u8>, Seq<GraphDepView>),
> {
    v.map_values(|p: (Vec<u8>, GraphImport)| (p.0@, p.1@))
}

/// An owned copy of the graph-import rows.
pub fn clone_graph_imports(v: &Vec<(Vec<u8>, GraphImport)>) -> (r: Vec<(Vec<u8>, GraphImport)>)
    ensures
        graph_imports_view(r@) == graph_imports_view(v@),
{
    let mut r: Vec<(Vec<u8>, GraphImport)> = Vec::new();
    let mut i: usize = 0;
    while i < v.len()
        invariant
            i <= v.len(),
            graph_imports_view(r@) =~= graph_imports_view(v@).subrange(0, i as int),
        decreases v.len() - i,
    {
        let ghost before = graph_imports_view(r@);
        let row = &v[i];
        let mut deps: Vec<GraphDep> = Vec::new();
        let mut j: usize = 0;
        while j < row.1.dependencies.len()
            invariant
                j <= row.1.dependencies.len(),
                deps@.map_values(|d: GraphDep| d@) =~= row.1@.subrange(0, j as int),
            decreases row.1.dependencies.len() - j,
        {
            let ghost dbefore = deps@.map_values(|d: GraphDep| d@);
            let dep = &row.1.dependencies[j];
            deps.push(
                GraphDep {
                    specifier_text: clone_bytes(&dep.specifier_text),
                    maybe_type: clone_opt_bytes(&dep.maybe_type),
                    maybe_code: clone_opt_bytes(&dep.maybe_code),
                },
            );
            assert(deps@.map_values(|d: GraphDep| d@) =~= dbefore.push(row.1@[j as int]));
            j += 1;
        }
        assert(deps@.map_values(|d: GraphDep| d@) =~= row.1@);
        r.push((clone_bytes(&row.0), GraphImport { dependencies: deps }));
        assert(graph_imports_view(r@) =~= before.push(graph_imports_view(v@)[i as int]));
        i += 1;
    }
    assert(graph_imports_view(r@) =~= graph_imports_view(v@));
    r
}

/// The bytes of `"node_modules/"`.
pub open spec fn node_modules_dir_suffix() -> Seq<u8> {
    seq![
        110u8,
        111u8,
        100u8,
        101u8,
        95u8,
        109u8,
        111u8,
        100u8,
        117u8,
        108u8,
        101u8,
        115u8,
        47u8,
    ]
}

/// Which package-manager resolver a configuration selects: bring-your-own
/// with its install tree (explicit, or the conventional one under the scope
/// root) when the configuration says so, else a managed resolver whose
/// snapshot is derived from the lockfile when one exists and that starts
/// with no requirements.
pub open spec fn spec_npm_resolver_for(config: Option<ConfigView>) -> NpmResolverView {
    match config {
        Some(c) => if c.byonm {
            NpmResolverView::Byonm {
                root_node_modules_dir: match c.node_modules_dir {
                    Some(d) => Some(d),
                    None => Some(c.scope + node_modules_dir_suffix()),
                },
            }
        } else {
            NpmResolverView::Managed(
                ManagedNpmView {
                    snapshot_from_lockfile: c.lockfile is Some,
                    node_modules_dir: c.node_modules_dir,
                    package_reqs: Seq::empty(),
                },
            )
        },
        None => NpmResolverView::Managed(
            ManagedNpmView {
                snapshot_from_lockfile: false,
                node_modules_dir: None,
                package_reqs: Seq::empty(),
            },
        ),
    }
}

/// Executable form of `spec_npm_resolver_for`.
pub fn create_npm_resolver(config: Option<&ConfigData>) -> (r: NpmResolver)
    ensures
        r@ == spec_npm_resolver_for(match config {
            Some(c) => Some(c@),
            None => None,
        }),
{
    let nm: [u8; 13] = [
        110u8,
        111u8,
        100u8,
        101u8,
        95u8,
        109u8,
        111u8,
        100u8,
        117u8,
        108u8,
        101u8,
        115u8,
        47u8,
    ];
    proof {
        assert(nm@ =~= node_modules_dir_suffix());
    }
    match config {
        Some(c) => {
            if c.byonm {
                let root = match &c.node_modules_dir {
                    Some(d) => Some(clone_bytes(d)),
                    None => Some(concat_bytes(&c.scope, nm.as_slice())),
                };
                let out = NpmResolver::Byonm { root_node_modules_dir: root };
                assert(out@ == spec_npm_resolver_for(Some(c@)));
                out
            } else {
                let out = NpmResolver::Managed(
                    ManagedNpmResolver {
                        snapshot_from_lockfile: c.lockfile.is_some(),
                        node_modules_dir: clone_opt_bytes(&c.node_modules_dir),
                        package_reqs: Vec::new(),
                    },
                );
                assert(out@ == spec_npm_resolver_for(Some(c@))) by {
                    match out {
                        NpmResolver::Managed(m) => {
                            assert(m@.package_reqs =~= Seq::<crate::semver::ReqView>::empty());
                        },
                        _ => {},
                    }
                }
                out
            }
        },
        None => {
            let out = NpmResolver::Managed(
                ManagedNpmResolver {
                    snapshot_from_lockfile: false,
                    node_modules_dir: None,
                    package_reqs: Vec::new(),
                },
            );
            assert(out@ == spec_npm_resolver_for(None::<ConfigView>)) by {
                match out {
                    NpmResolver::Managed(m) => {
                        assert(m@.package_reqs =~= Seq::<crate::semver::ReqView>::empty());
                    },
                    _ => {},
                }
            }
            out
        },
    }
}

/// The dependency index a manifest induces: for each declared dependency,
/// in order, the file URL its types-mode resolution lands on, mapped back
/// to the dependency's name. A dependency the platform cannot resolve is
/// skipped; a URL reached by two names keeps the later name.
pub open spec fn spec_dep_index(
    rows: Seq<ReqResolutionView>,
    deps: Seq<(Seq<u8>, Seq<u8>)>,
) -> Seq<(Seq<u8>, Seq<u8>)>
    decreases deps.len(),
{
    if deps.len() == 0 {
        Seq::empty()
    } else {
        let prev = spec_dep_index(rows, deps.drop_last());
        match spec_resolve_req(
            rows,
            ReqView { name: deps.last().0, range: VersionRange::Any },
            NodeResolutionMode::Types,
        ) {
            Some(p) => prev.push((p.0, deps.last().0)),
            None => prev,
        }
    }
}

/// Build the dependency index from a manifest's declared dependencies.
pub fn build_dep_index(node: &NodeResolver, deps: &Vec<(Vec<u8>, Vec<u8>)>) -> (r: Vec<
    (Vec<u8>, Vec<u8>),
>)
    ensures
        r.deep_view() == spec_dep_index(node.rows(), deps.deep_view()),
{
    let mut r: Vec<(Vec<u8>, Vec<u8>)> = Vec::new();
    let mut i: usize = 0;
    assert(deps.deep_view().subrange(0, 0) =~= Seq::empty());
    while i < deps.len()
        invariant
            i <= deps.len(),
            r.deep_view() == spec_dep_index(node.rows(), deps.deep_view().subrange(0, i as int)),
        decreases deps.len() - i,
    {
        let ghost pre = deps.deep_view().subrange(0, i as int);
        let name = &deps[i].0;
        let req_ref = PackageReqReference {
            req: PackageReq { name: clone_bytes(name), range: VersionRange::Any },
            sub_path: None,
        };
        let ghost before = r.deep_view();
        match node.resolve_req_reference(&req_ref, NodeResolutionMode::Types) {
            Some(p) => {
                r.push((p.0, clone_bytes(name)));
                assert(r.deep_view() =~~= before.push((p.0@, name@)));
            },
            None => {},
        }
        proof {
            assert(deps.deep_view().subrange(0, i + 1).drop_last() =~= pre);
            assert(deps.deep_view().subrange(0, i + 1).last() == (
                deps@[i as int].0@,
                deps@[i as int].1@,
            ));
        }
        i += 1;
    }
    assert(deps.deep_view().subrange(0, deps.deep_view().len() as int) =~= deps.deep_view());
    r
}

/// What the collaborators discovered while constructing one scope: whether
/// an HTTP client is available at all, the header provider backing redirect
/// resolution, the cache-derived registry rows, the platform resolver's
/// rows, the classifier's knowledge, the discovered manifests, the
/// precomputed graph imports, and which files exist for extension guessing.
pub struct ScopeParts {
    pub has_http_client: bool,
    pub header_provider: HeaderProvider,
    pub jsr_resolver: JsrCacheResolver,
    pub node_resolver: NodeResolver,
    pub cjs_tracker: CjsTracker,
    pub pkg_json_resolver: PackageJsonResolver,
    pub graph_imports: Vec<(Vec<u8>, GraphImport)>,
    pub sloppy_files: Vec<Vec<u8>>,
}

/// The lockfile redirects a configuration seeds, if any.
pub open spec fn spec_lockfile_redirects(config: Option<ConfigView>) -> Seq<(Seq<u8>, Seq<u8>)> {
    match config {
        Some(c) => match c.lockfile {
            Some(l) => l.redirects,
            None => Seq::empty(),
        },
        None => Seq::empty(),
    }
}

/// What construction from a configuration and collaborator parts yields:
/// the package-manager, node and module-kind capabilities exist exactly
/// when an HTTP client does; the registry and manifest resolvers are always
/// wired; the redirect table is seeded from the lockfile; extension
/// guessing follows the configuration; and the dependency index maps the
/// manifest's declared dependencies through the platform resolver.
pub open spec fn scope_constructed(
    r: ScopeResolver,
    config: Option<ConfigData>,
    parts: ScopeParts,
) -> bool {
    &&& parts.has_http_client ==> (r.npm_resolver matches Some(n) && n@ == spec_npm_resolver_for(
        match config {
            Some(c) => Some(c@),
            None => None,
        },
    )) && r.node_resolver == Some(parts.node_resolver) && (r.cjs_tracker matches Some(t)
        && t.tracker().known_view() == parts.cjs_tracker.known_view() && t.tracker().script_view()
        == parts.cjs_tracker.script_view() && t.tracker().maybe_view()
        == parts.cjs_tracker.maybe_view())
    &&& !parts.has_http_client ==> r.npm_resolver is None && r.node_resolver is None
        && r.cjs_tracker is None
    &&& r.jsr_resolver == Some(parts.jsr_resolver)
    &&& r.pkg_json_resolver == Some(parts.pkg_json_resolver)
    &&& r.redirect_resolver matches Some(rr) && rr.provider_view() == parts.header_provider@
        && rr.table() == spec_seeded(spec_lockfile_redirects(match config {
        Some(c) => Some(c@),
        None => None,
    })) && rr.table_finite()
    &&& (match config {
        Some(c) => c@.sloppy_imports,
        None => false,
    }) ==> (r.sloppy_resolver matches Some(s) && s.files() == parts.sloppy_files.deep_view())
    &&& !(match config {
        Some(c) => c@.sloppy_imports,
        None => false,
    }) ==> r.sloppy_resolver is None
    &&& graph_imports_view(r.graph_imports@) == graph_imports_view(parts.graph_imports@)
    &&& r.package_json_deps_by_resolution.deep_view() == (if parts.has_http_client {
        match config {
            Some(c) => match c@.pkg_json {
                Some(pj) => spec_dep_index(parts.node_resolver.rows(), pj.dependencies),
                None => Seq::<(Seq<u8>, Seq<u8>)>::empty(),
            },
            None => Seq::<(Seq<u8>, Seq<u8>)>::empty(),
        }
    } else {
        Seq::<(Seq<u8>, Seq<u8>)>::empty()
    })
    &&& r.config_data == config
}

/// Two scope resolvers hold the same content: every sub-resolver agrees
/// view for view. A snapshot is equivalent to its original while sharing
/// nothing mutable with it.
pub open spec fn scope_equiv(a: ScopeResolver, b: ScopeResolver) -> bool {
    &&& match (a.cjs_tracker, b.cjs_tracker) {
        (Some(x), Some(y)) => x.tracker().known_view() == y.tracker().known_view()
            && x.tracker().script_view() == y.tracker().script_view() && x.tracker().maybe_view()
            == y.tracker().maybe_view(),
        (None, None) => true,
        _ => false,
    }
    &&& match (a.jsr_resolver, b.jsr_resolver) {
        (Some(x), Some(y)) => x.rows() == y.rows() && x.info_rows() == y.info_rows(),
        (None, None) => true,
        _ => false,
    }
    &&& match (a.npm_resolver, b.npm_resolver) {
        (Some(x), Some(y)) => x@ == y@,
        (None, None) => true,
        _ => false,
    }
    &&& match (a.node_resolver, b.node_resolver) {
        (Some(x), Some(y)) => x.rows() == y.rows() && x.roots() == y.roots()
            && x.pkg_specifiers() == y.pkg_specifiers(),
        (None, None) => true,
        _ => false,
    }
    &&& match (a.pkg_json_resolver, b.pkg_json_resolver) {
        (Some(x), Some(y)) => x.manifests_view() == y.manifests_view(),
        (None, None) => true,
        _ => false,
    }
    &&& match (a.redirect_resolver, b.redirect_resolver) {
        (Some(x), Some(y)) => x.provider_view() == y.provider_view() && x.table() == y.table(),
        (None, None) => true,
        _ => false,
    }
    &&& match (a.sloppy_resolver, b.sloppy_resolver) {
        (Some(x), Some(y)) => x.files() == y.files(),
        (None, None) => true,
        _ => false,
    }
    &&& graph_imports_view(a.graph_imports@) == graph_imports_view(b.graph_imports@)
    &&& a.package_json_deps_by_resolution.deep_view()
        == b.package_json_deps_by_resolution.deep_view()
    &&& match (a.config_data, b.config_data) {
        (Some(x), Some(y)) => x@ == y@,
        (None, None) => true,
        _ => false,
    }
}

/// A complete resolver bound to one configuration scope.
pub struct ScopeResolver {
    pub cjs_tracker: Option<LspCjsTracker>,
    pub jsr_resolver: Option<JsrCacheResolver>,
    pub npm_resolver: Option<NpmResolver>,
    pub node_resolver: Option<NodeResolver>,
    pub pkg_json_resolver: Option<PackageJsonResolver>,
    pub redirect_resolver: Option<RedirectResolver>,
    pub sloppy_resolver: Option<SloppyImportsResolver>,
    pub graph_imports: Vec<(Vec<u8>, GraphImport)>,
    pub package_json_deps_by_resolution: Vec<(Vec<u8>, Vec<u8>)>,
    pub config_data: Option<ConfigData>,
}

impl ScopeResolver {
    /// The unscoped default resolver: no configuration, every capability
    /// that needs a collaborator disabled.
    pub fn unscoped_default() -> (r: ScopeResolver)
        ensures
            r.cjs_tracker is None,
            r.jsr_resolver is None,
            r.npm_resolver is None,
            r.node_resolver is None,
            r.pkg_json_resolver is None,
            r.redirect_resolver is None,
            r.sloppy_resolver is None,
            r.graph_imports@.len() == 0,
            r.package_json_deps_by_resolution@.len() == 0,
            r.config_data is None,
    {
        ScopeResolver {
            cjs_tracker: None,
            jsr_resolver: None,
            npm_resolver: None,
            node_resolver: None,
            pkg_json_resolver: None,
            redirect_resolver: None,
            sloppy_resolver: None,
            graph_imports: Vec::new(),
            package_json_deps_by_resolution: Vec::new(),
            config_data: None,
        }
    }

    /// Construct the scope's resolver from its configuration and from what
    /// the collaborators discovered. The package-manager, node and
    /// module-kind capabilities exist only when an HTTP client does; the
    /// redirect table is seeded from the lockfile; extension guessing is
    /// enabled only when configured; and the dependency index is built from
    /// the manifest's declared dependencies through the platform resolver.
    pub fn from_config_data(config: Option<ConfigData>, parts: ScopeParts) -> (r: ScopeResolver)
        ensures
            scope_constructed(r, config, parts),
    {
        let deps_index: Vec<(Vec<u8>, Vec<u8>)> = if parts.has_http_client {
            match &config {
                Some(c) => match &c.pkg_json {
                    Some(pj) => {
                        let idx = build_dep_index(&parts.node_resolver, &pj.dependencies);
                        assert(c@.pkg_json == Some(pj@));
                        idx
                    },
                    None => Vec::new(),
                },
                None => Vec::new(),
            }
        } else {
            Vec::new()
        };
        if deps_index.len() == 0 {
            assert(deps_index.deep_view() =~= Seq::<(Seq<u8>, Seq<u8>)>::empty());
        }
        let npm_resolver: Option<NpmResolver>;
        let node_resolver: Option<NodeResolver>;
        let cjs_tracker: Option<LspCjsTracker>;
        if parts.has_http_client {
            npm_resolver = Some(create_npm_resolver(config.as_ref()));
            node_resolver = Some(parts.node_resolver);
            cjs_tracker = Some(LspCjsTracker::new(parts.cjs_tracker));
        } else {
            npm_resolver = None;
            node_resolver = None;
            cjs_tracker = None;
        }
        let empty_seeds: Vec<(Vec<u8>, Vec<u8>)> = Vec::new();
        let redirect_resolver = match &config {
            Some(c) => match &c.lockfile {
                Some(l) => RedirectResolver::new(parts.header_provider, &l.redirects),
                None => RedirectResolver::new(parts.header_provider, &empty_seeds),
            },
            None => RedirectResolver::new(parts.header_provider, &empty_seeds),
        };
        let sloppy_enabled: bool = match &config {
            Some(c) => c.sloppy_imports,
            None => false,
        };
        let sloppy_resolver: Option<SloppyImportsResolver> = if sloppy_enabled {
            Some(SloppyImportsResolver { existing_files: parts.sloppy_files })
        } else {
            None
        };
        assert(empty_seeds.deep_view() =~= Seq::<(Seq<u8>, Seq<u8>)>::empty());
        ScopeResolver {
            cjs_tracker,
            jsr_resolver: Some(parts.jsr_resolver),
            npm_resolver,
            node_resolver,
            pkg_json_resolver: Some(parts.pkg_json_resolver),
            redirect_resolver: Some(redirect_resolver),
            sloppy_resolver,
            graph_imports: parts.graph_imports,
            package_json_deps_by_resolution: deps_index,
            config_data: config,
        }
    }

    /// Resolve a relative specifier against its referrer. The reference is
    /// joined onto the referrer by the URL grammar; when extension guessing
    /// is enabled the first existing candidate wins, and a miss is reported
    /// as nothing; without it the joined URL stands as resolved.
    pub fn resolve_relative_import(&self, specifier_text: &Vec<u8>, referrer: &Vec<u8>) -> (r:
        Option<Vec<u8>>)
        ensures
            r.deep_view() == (match crate::url_parse::spec_resolve_import(
                specifier_text@,
                referrer@,
            ) {
                None => None::<Seq<u8>>,
                Some(u) => match self.sloppy_resolver {
                    Some(s) => crate::sloppy::spec_first_existing(
                        s.files(),
                        crate::sloppy::spec_sloppy_candidates(u),
                    ),
                    None => Some(u),
                },
            }),
    {
        match crate::url_parse::resolve_import(specifier_text, referrer) {
            None => None,
            Some(u) => match &self.sloppy_resolver {
                Some(s) => s.resolve(&u),
                None => Some(u),
            },
        }
    }

    /// A frozen copy of this scope's resolver. Immutable sub-resolvers are
    /// copied content-for-content; the package-manager resolver, the only
    /// mutable one, is asked to fork itself; the snapshot shares no mutable
    /// state with the original.
    pub fn snapshot(&self) -> (r: ScopeResolver)
        ensures
            scope_equiv(r, *self),
    {
        ScopeResolver {
            cjs_tracker: match &self.cjs_tracker {
                Some(t) => Some(t.duplicate()),
                None => None,
            },
            jsr_resolver: match &self.jsr_resolver {
                Some(j) => Some(j.duplicate()),
                None => None,
            },
            npm_resolver: match &self.npm_resolver {
                Some(n) => Some(n.clone_snapshotted()),
                None => None,
            },
            node_resolver: match &self.node_resolver {
                Some(n) => Some(n.duplicate()),
                None => None,
            },
            pkg_json_resolver: match &self.pkg_json_resolver {
                Some(p) => Some(p.duplicate()),
                None => None,
            },
            redirect_resolver: match &self.redirect_resolver {
                Some(rr) => Some(rr.snapshot()),
                None => None,
            },
            sloppy_resolver: match &self.sloppy_resolver {
                Some(s) => Some(
                    SloppyImportsResolver {
                        existing_files: crate::url_bytes::clone_byte_list(&s.existing_files),
                    },
                ),
                None => None,
            },
            graph_imports: clone_graph_imports(&self.graph_imports),
            package_json_deps_by_resolution: crate::url_bytes::clone_byte_pairs(
                &self.package_json_deps_by_resolution,
            ),
            config_data: match &self.config_data {
                Some(c) => Some(c.duplicate()),
                None => None,
            },
        }
    }
}

} // verus!
