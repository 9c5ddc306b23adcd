//! The scope router and the language server's resolver surface.
//!
//! A resolver set holds one unscoped default resolver and one resolver per
//! configuration scope, kept in ascending scope-URL order. Every query
//! carries an optional file referrer; it is dispatched to the last scope
//! whose root contains the referrer, and to the unscoped default when none
//! does or no referrer is given.

use vstd::prelude::*;
use crate::cjs::LspCjsTracker;
use crate::config::ConfigData;
use crate::jsr::spec_jsr_to_resource_url;
use crate::jsr::spec_jsr_export;
use crate::jsr::spec_lookup_req_for_nv;
use crate::media::MediaType;
use crate::node::NodeResolver;
use crate::node::NodeResolutionMode;
use crate::node::ManagedNpmResolver;
use crate::node::NpmResolver;
use crate::node::spec_resolve_req;
use crate::node::spec_in_roots;
use crate::node::spec_npm_pkg_specifier;
use crate::pkg_json::PackageJsonData;
use crate::pkg_json::spec_is_closest;
use crate::redirect::Headers;
use crate::redirect::RedirectEntry;
use crate::scope::GraphDepView;
use crate::scope::ScopeParts;
use crate::scope::ScopeResolver;
use crate::scope::graph_imports_view;
use crate::semver::PackageNv;
use crate::semver::PackageReq;
use crate::semver::PackageReqReference;
use crate::url_bytes::clone_bytes;
use crate::url_bytes::contains_lower;
use crate::url_bytes::is_prefix_of;
use crate::url_bytes::starts_with;
use crate::url_bytes::spec_contains_lower;

verus! {

broadcast use crate::url_bytes::lemma_bytes_deep_view;

/// The view of an optional referrer argument.
pub open spec fn opt_ref_view(o: Option<&Vec<u8>>) -> Option<Seq<u8>> {
    match o {
        Some(r) => Some(r@),
        None => None,
    }
}

/// Does this scope entry's configuration contain the referrer?
pub open spec fn spec_entry_contains(e: (Vec<u8>, ScopeResolver), referrer: Seq<u8>) -> bool {
    match e.1.config_data {
        Some(c) => is_prefix_of(c@.scope, referrer),
        None => false,
    }
}

/// The index of the scope a referrer routes to: the last entry whose
/// configuration contains it, or nothing.
pub open spec fn spec_route_idx(entries: Seq<(Vec<u8>, ScopeResolver)>, referrer: Seq<u8>) -> Option<
    int,
>
    decreases entries.len(),
{
    if entries.len() == 0 {
        None
    } else if spec_entry_contains(entries.last(), referrer) {
        Some(entries.len() - 1)
    } else {
        spec_route_idx(entries.drop_last(), referrer)
    }
}

/// Scope routing is a pure function of the scope table and the referrer: it
/// selects the last entry whose configuration contains the referrer, so
/// repeated calls with the same arguments select the same scope, even when
/// several scopes contain it.
pub proof fn lemma_scope_routing_stable(entries: Seq<(Vec<u8>, ScopeResolver)>, referrer: Seq<u8>)
    ensures
        match spec_route_idx(entries, referrer) {
            Some(j) => 0 <= j < entries.len() && spec_entry_contains(entries[j], referrer)
                && forall|k: int| j < k < entries.len() ==> !spec_entry_contains(
                #[trigger] entries[k],
                referrer,
            ),
            None => forall|k: int| 0 <= k < entries.len() ==> !spec_entry_contains(
                #[trigger] entries[k],
                referrer,
            ),
        },
    decreases entries.len(),
{
    if entries.len() > 0 {
        if spec_entry_contains(entries.last(), referrer) {
        } else {
            lemma_scope_routing_stable(entries.drop_last(), referrer);
            assert(forall|k: int| 0 <= k < entries.len() - 1 ==> entries.drop_last()[k]
                == entries[k]);
        }
    }
}

/// Every redirect table in the set is finite; true of every constructed
/// resolver set and preserved by every operation.
pub open spec fn tables_finite_scope(s: ScopeResolver) -> bool {
    match s.redirect_resolver {
        Some(r) => r.table_finite(),
        None => true,
    }
}

/// The resolver set the language server queries.
pub struct LspResolver {
    /// The default resolver, present even when no workspace is open.
    pub unscoped: ScopeResolver,
    /// One resolver per configuration scope, in ascending scope-URL order.
    pub by_scope: Vec<(Vec<u8>, ScopeResolver)>,
}

impl LspResolver {
    /// Every redirect table in the set is finite.
    pub open spec fn tables_finite(&self) -> bool {
        &&& tables_finite_scope(self.unscoped)
        &&& forall|i: int| 0 <= i < self.by_scope@.len() ==> tables_finite_scope(
            (#[trigger] self.by_scope@[i]).1,
        )
    }

    /// The scope resolver a referrer selects.
    pub open spec fn spec_selected(&self, referrer: Option<Seq<u8>>) -> ScopeResolver {
        match referrer {
            None => self.unscoped,
            Some(r) => match spec_route_idx(self.by_scope@, r) {
                Some(j) => self.by_scope@[j].1,
                None => self.unscoped,
            },
        }
    }

    /// Route a query: the last scope whose root contains the referrer, or
    /// the unscoped default.
    fn get_scope_resolver(&self, file_referrer: Option<&Vec<u8>>) -> (r: &ScopeResolver)
        ensures
            *r == self.spec_selected(opt_ref_view(file_referrer)),
    {
        let fr = match file_referrer {
            Some(fr) => fr,
            None => {
                return &self.unscoped;
            },
        };
        let mut i: usize = self.by_scope.len();
        assert(self.by_scope@.take(i as int) =~= self.by_scope@);
        while i > 0
            invariant
                i <= self.by_scope@.len(),
                opt_ref_view(file_referrer) == Some(fr@),
                spec_route_idx(self.by_scope@, fr@) == spec_route_idx(
                    self.by_scope@.take(i as int),
                    fr@,
                ),
            decreases i,
        {
            i -= 1;
            let ghost pre = self.by_scope@.take(i + 1);
            assert(pre.last() == self.by_scope@[i as int]);
            let contains: bool = match &self.by_scope[i].1.config_data {
                Some(c) => c.scope_contains_specifier(fr),
                None => false,
            };
            if contains {
                assert(spec_route_idx(pre, fr@) == Some(i as int));
                return &self.by_scope[i].1;
            }
            assert(!spec_entry_contains(self.by_scope@[i as int], fr@));
            assert(pre.drop_last() =~= self.by_scope@.take(i as int));
        }
        assert(self.by_scope@.take(0).len() == 0);
        &self.unscoped
    }

    /// The selected scope resolver, mutably, by index; the unscoped default
    /// is selected when no scope contains the referrer.
    fn route_index(&self, file_referrer: Option<&Vec<u8>>) -> (r: Option<usize>)
        ensures
            match opt_ref_view(file_referrer) {
                None => r is None,
                Some(fr) => match r {
                    Some(k) => k < self.by_scope@.len() && spec_route_idx(self.by_scope@, fr)
                        == Some(k as int),
                    None => spec_route_idx(self.by_scope@, fr) is None,
                },
            },
    {
        let fr = match file_referrer {
            Some(fr) => fr,
            None => {
                return None;
            },
        };
        let mut i: usize = self.by_scope.len();
        assert(self.by_scope@.take(i as int) =~= self.by_scope@);
        while i > 0
            invariant
                i <= self.by_scope@.len(),
                opt_ref_view(file_referrer) == Some(fr@),
                spec_route_idx(self.by_scope@, fr@) == spec_route_idx(
                    self.by_scope@.take(i as int),
                    fr@,
                ),
            decreases i,
        {
            i -= 1;
            let ghost pre = self.by_scope@.take(i + 1);
            assert(pre.last() == self.by_scope@[i as int]);
            let contains: bool = match &self.by_scope[i].1.config_data {
                Some(c) => c.scope_contains_specifier(fr),
                None => false,
            };
            if contains {
                assert(spec_route_idx(pre, fr@) == Some(i as int));
                return Some(i);
            }
            assert(!spec_entry_contains(self.by_scope@[i as int], fr@));
            assert(pre.drop_last() =~= self.by_scope@.take(i as int));
        }
        assert(self.by_scope@.take(0).len() == 0);
        None
    }

    /// The selected scope resolver, for the graph builder's use: the façade
    /// over every sub-resolver of the referrer's scope.
    pub fn as_graph_resolver(&self, file_referrer: Option<&Vec<u8>>) -> (r: &ScopeResolver)
        ensures
            *r == self.spec_selected(opt_ref_view(file_referrer)),
    {
        self.get_scope_resolver(file_referrer)
    }

    /// A fresh package-manager handle for one graph build, describing the
    /// selected scope's package-manager variant.
    pub fn create_graph_npm_resolver(&self, file_referrer: Option<&Vec<u8>>) -> (r:
        NpmGraphResolver)
        ensures
            ({
                let scope = self.spec_selected(opt_ref_view(file_referrer));
                match scope.npm_resolver {
                    Some(n) => r.has_npm && r.byonm == (n@ is Byonm),
                    None => !r.has_npm && !r.byonm,
                }
            }),
    {
        let scope = self.get_scope_resolver(file_referrer);
        match &scope.npm_resolver {
            Some(n) => NpmGraphResolver {
                has_npm: true,
                byonm: match n {
                    NpmResolver::Byonm { .. } => true,
                    NpmResolver::Managed(..) => false,
                },
            },
            None => NpmGraphResolver { has_npm: false, byonm: false },
        }
    }

    /// The module-kind tracker of the referrer's scope, if that scope has
    /// one.
    pub fn maybe_cjs_tracker(&self, file_referrer: Option<&Vec<u8>>) -> (r: Option<
        &LspCjsTracker,
    >)
        ensures
            match r {
                Some(t) => self.spec_selected(opt_ref_view(file_referrer)).cjs_tracker == Some(*t),
                None => self.spec_selected(opt_ref_view(file_referrer)).cjs_tracker is None,
            },
    {
        let scope = self.get_scope_resolver(file_referrer);
        match &scope.cjs_tracker {
            Some(t) => Some(t),
            None => None,
        }
    }

    /// The node-aware resolver of the referrer's scope, if that scope has
    /// one.
    pub fn maybe_node_resolver(&self, file_referrer: Option<&Vec<u8>>) -> (r: Option<
        &NodeResolver,
    >)
        ensures
            match r {
                Some(n) => self.spec_selected(opt_ref_view(file_referrer)).node_resolver == Some(
                    *n,
                ),
                None => self.spec_selected(opt_ref_view(file_referrer)).node_resolver is None,
            },
    {
        let scope = self.get_scope_resolver(file_referrer);
        match &scope.node_resolver {
            Some(n) => Some(n),
            None => None,
        }
    }

    /// The managed package-manager resolver of the referrer's scope, if that
    /// scope has one and it is the managed variant.
    pub fn maybe_managed_npm_resolver(&self, file_referrer: Option<&Vec<u8>>) -> (r: Option<
        &ManagedNpmResolver,
    >)
        ensures
            ({
                let scope = self.spec_selected(opt_ref_view(file_referrer));
                match r {
                    Some(m) => match scope.npm_resolver {
                        Some(n) => n@ == crate::node::NpmResolverView::Managed((*m)@),
                        None => false,
                    },
                    None => match scope.npm_resolver {
                        Some(n) => n@ is Byonm,
                        None => true,
                    },
                }
            }),
    {
        let scope = self.get_scope_resolver(file_referrer);
        match &scope.npm_resolver {
            Some(n) => n.as_managed(),
            None => None,
        }
    }

    /// The registry resource URL a registry short-reference denotes within
    /// the referrer's scope.
    pub fn jsr_to_resource_url(
        &self,
        req_ref: &PackageReqReference,
        file_referrer: Option<&Vec<u8>>,
    ) -> (r: Option<Vec<u8>>)
        ensures
            r.deep_view() == (match self.spec_selected(
                opt_ref_view(file_referrer),
            ).jsr_resolver {
                Some(j) => spec_jsr_to_resource_url(j.rows(), j.info_rows(), req_ref@),
                None => None::<Seq<u8>>,
            }),
    {
        let scope = self.get_scope_resolver(file_referrer);
        match &scope.jsr_resolver {
            Some(j) => j.jsr_to_resource_url(req_ref),
            None => None,
        }
    }

    /// The export a path maps to for a registry package version within the
    /// referrer's scope.
    pub fn jsr_lookup_export_for_path(
        &self,
        nv: &PackageNv,
        path: &Vec<u8>,
        file_referrer: Option<&Vec<u8>>,
    ) -> (r: Option<Vec<u8>>)
        ensures
            r.deep_view() == (match self.spec_selected(
                opt_ref_view(file_referrer),
            ).jsr_resolver {
                Some(j) => spec_jsr_export(j.info_rows(), nv@, path@),
                None => None::<Seq<u8>>,
            }),
    {
        let scope = self.get_scope_resolver(file_referrer);
        match &scope.jsr_resolver {
            Some(j) => j.lookup_export_for_path(nv, path),
            None => None,
        }
    }

    /// The canonical request for a registry package version within the
    /// referrer's scope.
    pub fn jsr_lookup_req_for_nv(&self, nv: &PackageNv, file_referrer: Option<&Vec<u8>>) -> (r:
        Option<PackageReq>)
        ensures
            ({
                let scope = self.spec_selected(opt_ref_view(file_referrer));
                match scope.jsr_resolver {
                    Some(j) => match r {
                        Some(req) => spec_lookup_req_for_nv(j.rows(), nv@) == Some(req@),
                        None => spec_lookup_req_for_nv(j.rows(), nv@) is None,
                    },
                    None => r is None,
                }
            }),
    {
        let scope = self.get_scope_resolver(file_referrer);
        match &scope.jsr_resolver {
            Some(j) => j.lookup_req_for_nv(nv),
            None => None,
        }
    }

    /// The file URL and media type a package-manager reference resolves to,
    /// in types mode, within the referrer's scope.
    pub fn npm_to_file_url(
        &self,
        req_ref: &PackageReqReference,
        file_referrer: Option<&Vec<u8>>,
    ) -> (r: Option<(Vec<u8>, MediaType)>)
        ensures
            ({
                let scope = self.spec_selected(opt_ref_view(file_referrer));
                match scope.node_resolver {
                    Some(n) => match r {
                        Some(p) => spec_resolve_req(
                            n.rows(),
                            req_ref@.req,
                            NodeResolutionMode::Types,
                        ) == Some((p.0@, p.1)),
                        None => spec_resolve_req(
                            n.rows(),
                            req_ref@.req,
                            NodeResolutionMode::Types,
                        ) is None,
                    },
                    None => r is None,
                }
            }),
    {
        let scope = self.get_scope_resolver(file_referrer);
        match &scope.node_resolver {
            Some(n) => n.resolve_req_reference(req_ref, NodeResolutionMode::Types),
            None => None,
        }
    }

    /// The declared dependency name that brought a resolved file URL in,
    /// within the referrer's scope; on a collision the last-indexed name
    /// wins.
    pub fn file_url_to_package_json_dep(
        &self,
        specifier: &Vec<u8>,
        file_referrer: Option<&Vec<u8>>,
    ) -> (r: Option<Vec<u8>>)
        ensures
            r.deep_view() == spec_dep_name_for(
                self.spec_selected(
                    opt_ref_view(file_referrer),
                ).package_json_deps_by_resolution.deep_view(),
                specifier@,
            ),
    {
        let scope = self.get_scope_resolver(file_referrer);
        let rows = &scope.package_json_deps_by_resolution;
        let mut i: usize = rows.len();
        assert(rows.deep_view().take(i as int) =~= rows.deep_view());
        while i > 0
            invariant
                i <= rows.deep_view().len(),
                rows.deep_view() == self.spec_selected(
                    opt_ref_view(file_referrer),
                ).package_json_deps_by_resolution.deep_view(),
                spec_dep_name_for(rows.deep_view(), specifier@) == spec_dep_name_for(
                    rows.deep_view().take(i as int),
                    specifier@,
                ),
            decreases i,
        {
            i -= 1;
            let ghost pre = rows.deep_view().take(i + 1);
            assert(pre.last() == (rows@[i as int].0@, rows@[i as int].1@));
            if crate::url_bytes::bytes_eq(rows[i].0.as_slice(), specifier.as_slice()) {
                return Some(clone_bytes(&rows[i].1));
            }
            assert(pre.drop_last() =~= rows.deep_view().take(i as int));
        }
        assert(rows.deep_view().take(0).len() == 0);
        None
    }

    /// Is the URL inside a managed package tree, or inside any
    /// `node_modules` directory of a file URL?
    pub fn in_node_modules(&self, specifier: &Vec<u8>) -> (r: bool)
        ensures
            r == spec_in_node_modules(self.spec_selected(Some(specifier@)), specifier@),
    {
        let scope = self.get_scope_resolver(Some(specifier));
        let in_pkg: bool = match &scope.node_resolver {
            Some(n) => n.in_npm_package(specifier),
            None => false,
        };
        if in_pkg {
            return true;
        }
        let file_prefix: [u8; 7] = [102u8, 105u8, 108u8, 101u8, 58u8, 47u8, 47u8];
        let needle: [u8; 14] = [
            47u8,
            110u8,
            111u8,
            100u8,
            101u8,
            95u8,
            109u8,
            111u8,
            100u8,
            117u8,
            108u8,
            101u8,
            115u8,
            47u8,
        ];
        proof {
            assert(file_prefix@ =~= file_scheme_prefix());
            assert(needle@ =~= node_modules_needle());
        }
        starts_with(specifier.as_slice(), file_prefix.as_slice()) && contains_lower(
            specifier.as_slice(),
            needle.as_slice(),
        )
    }

    /// Would this bare specifier, from this referrer, resolve as a declared
    /// package-manager dependency?
    pub fn is_bare_package_json_dep(&self, specifier_text: &Vec<u8>, referrer: &Vec<u8>) -> (r:
        bool)
        ensures
            r == (match self.spec_selected(Some(referrer@)).node_resolver {
                Some(n) => spec_npm_pkg_specifier(n.pkg_specifiers(), specifier_text@, referrer@),
                None => false,
            }),
    {
        let scope = self.get_scope_resolver(Some(referrer));
        match &scope.node_resolver {
            Some(n) => n.resolves_for_npm_pkg(specifier_text, referrer),
            None => false,
        }
    }

    /// The nearest manifest for a file URL within the referrer's scope, or
    /// nothing when that scope keeps no manifests.
    pub fn get_closest_package_json(&self, referrer: &Vec<u8>) -> (r: Option<&PackageJsonData>)
        ensures
            ({
                let scope = self.spec_selected(Some(referrer@));
                match scope.pkg_json_resolver {
                    Some(p) => spec_is_closest(p.manifests_view(), referrer@, match r {
                        Some(m) => Some(m@),
                        None => None,
                    }),
                    None => r is None,
                }
            }),
    {
        let scope = self.get_scope_resolver(Some(referrer));
        match &scope.pkg_json_resolver {
            Some(p) => p.get_closest_package_json(referrer),
            None => None,
        }
    }

    /// The imports injected per referrer in the referrer's scope: for each
    /// import row, the resolved URLs of its dependencies, the type
    /// resolution preferred over the code resolution.
    pub fn graph_imports_by_referrer(&self, file_referrer: &Vec<u8>) -> (r: Vec<
        (Vec<u8>, Vec<Vec<u8>>),
    >)
        ensures
            r.deep_view() == spec_imports_by_referrer(
                graph_imports_view(self.spec_selected(Some(file_referrer@)).graph_imports@),
            ),
    {
        let scope = self.get_scope_resolver(Some(file_referrer));
        let rows = &scope.graph_imports;
        let ghost rows_v = graph_imports_view(rows@);
        let mut r: Vec<(Vec<u8>, Vec<Vec<u8>>)> = Vec::new();
        let mut i: usize = 0;
        while i < rows.len()
            invariant
                i <= rows@.len(),
                rows_v == graph_imports_view(rows@),
                rows_v == graph_imports_view(
                    self.spec_selected(Some(file_referrer@)).graph_imports@,
                ),
                r.deep_view() == spec_imports_by_referrer(rows_v).take(i as int),
            decreases rows@.len() - i,
        {
            let ghost before = r.deep_view();
            let row = &rows[i];
            let ghost deps_v = row.1@;
            let mut urls: Vec<Vec<u8>> = Vec::new();
            let mut j: usize = 0;
            assert(spec_dep_urls(deps_v.take(0)) =~= Seq::<Seq<u8>>::empty());
            assert(urls.deep_view() =~= Seq::<Seq<u8>>::empty());
            while j < row.1.dependencies.len()
                invariant
                    j <= row.1.dependencies@.len(),
                    deps_v == row.1@,
                    urls.deep_view() == spec_dep_urls(deps_v.take(j as int)),
                decreases row.1.dependencies@.len() - j,
            {
                let ghost ubefore = urls.deep_view();
                let dep = &row.1.dependencies[j];
                match &dep.maybe_type {
                    Some(t) => {
                        urls.push(clone_bytes(t));
                        assert(urls.deep_view() =~= ubefore.push(t@));
                    },
                    None => match &dep.maybe_code {
                        Some(c) => {
                            urls.push(clone_bytes(c));
                            assert(urls.deep_view() =~= ubefore.push(c@));
                        },
                        None => {},
                    },
                }
                proof {
                    assert(deps_v.take(j + 1).drop_last() =~= deps_v.take(j as int));
                    assert(deps_v.take(j + 1).last() == deps_v[j as int]);
                    assert(deps_v[j as int] == row.1.dependencies@[j as int]@);
                }
                j += 1;
            }
            assert(deps_v.take(deps_v.len() as int) =~= deps_v);
            r.push((clone_bytes(&row.0), urls));
            proof {
                assert(rows_v[i as int] == (rows@[i as int].0@, rows@[i as int].1@));
                assert(r.deep_view() =~~= before.push((rows@[i as int].0@, spec_dep_urls(
                    deps_v,
                ))));
                assert(spec_imports_by_referrer(rows_v).take(i + 1).drop_last()
                    =~= spec_imports_by_referrer(rows_v).take(i as int));
                assert(spec_imports_by_referrer(rows_v).take(i + 1).last()
                    == spec_imports_by_referrer(rows_v)[i as int]);
            }
            i += 1;
        }
        assert(spec_imports_by_referrer(rows_v).take(rows_v.len() as int) =~= spec_imports_by_referrer(
            rows_v,
        ));
        r
    }
}

impl LspResolver {
    /// Build the resolver set from per-scope configurations, in the order
    /// given (ascending scope-URL order by convention), plus the unscoped
    /// default built from no configuration.
    pub fn from_config(scopes: Vec<(Vec<u8>, ConfigData, ScopeParts)>, unscoped_parts: ScopeParts) -> (r:
        LspResolver)
        ensures
            crate::scope::scope_constructed(r.unscoped, None, unscoped_parts),
            r.by_scope@.len() == scopes@.len(),
            forall|i: int| 0 <= i < scopes@.len() ==> (#[trigger] r.by_scope@[i]).0
                == scopes@[i].0 && crate::scope::scope_constructed(
                r.by_scope@[i].1,
                Some(scopes@[i].1),
                scopes@[i].2,
            ),
    {
        let unscoped = ScopeResolver::from_config_data(None, unscoped_parts);
        let ghost all = scopes@;
        let mut rest = scopes;
        let mut by_scope: Vec<(Vec<u8>, ScopeResolver)> = Vec::new();
        while rest.len() > 0
            invariant
                by_scope@.len() + rest@.len() == all.len(),
                forall|k: int| 0 <= k < by_scope@.len() ==> (#[trigger] by_scope@[k]).0
                    == all[k].0 && crate::scope::scope_constructed(
                    by_scope@[k].1,
                    Some(all[k].1),
                    all[k].2,
                ),
                forall|k: int| 0 <= k < rest@.len() ==> #[trigger] rest@[k] == all[by_scope@.len()
                    + k],
            decreases rest@.len(),
        {
            let (key, config, parts) = rest.remove(0);
            assert((key, config, parts) == all[by_scope@.len() as int]);
            let scope = ScopeResolver::from_config_data(Some(config), parts);
            by_scope.push((key, scope));
        }
        LspResolver { unscoped, by_scope }
    }

    /// Publish a frozen snapshot of the whole resolver set: the unscoped
    /// default and every scope are copied content-for-content, sharing no
    /// mutable state with the live set.
    pub fn snapshot(&self) -> (r: LspResolver)
        ensures
            lsp_equiv(r, *self),
    {
        let mut by_scope: Vec<(Vec<u8>, ScopeResolver)> = Vec::new();
        let mut i: usize = 0;
        while i < self.by_scope.len()
            invariant
                i <= self.by_scope@.len(),
                by_scope@.len() == i,
                forall|k: int| 0 <= k < i ==> (#[trigger] by_scope@[k]).0@
                    == self.by_scope@[k].0@ && crate::scope::scope_equiv(
                    by_scope@[k].1,
                    self.by_scope@[k].1,
                ),
            decreases self.by_scope@.len() - i,
        {
            by_scope.push((clone_bytes(&self.by_scope[i].0), self.by_scope[i].1.snapshot()));
            i += 1;
        }
        LspResolver { unscoped: self.unscoped.snapshot(), by_scope }
    }

    /// Cache-refresh notification: every scope's redirect resolver drops its
    /// unsettled entries so future queries re-probe the header provider.
    pub fn did_cache(&mut self)
        ensures
            did_cache_rel(old(self).unscoped, final(self).unscoped),
            final(self).by_scope@.len() == old(self).by_scope@.len(),
            forall|i: int| 0 <= i < old(self).by_scope@.len() ==> (#[trigger] final(self).by_scope@[i]).0 == old(self).by_scope@[i].0 && did_cache_rel(
                old(self).by_scope@[i].1,
                final(self).by_scope@[i].1,
            ),
    {
        match &mut self.unscoped.redirect_resolver {
            Some(rr) => rr.did_cache(),
            None => {},
        }
        let ghost orig = self.by_scope@;
        let mut i: usize = 0;
        while i < self.by_scope.len()
            invariant
                self.by_scope@.len() == orig.len(),
                i <= orig.len(),
                orig == old(self).by_scope@,
                did_cache_rel(old(self).unscoped, self.unscoped),
                forall|k: int| 0 <= k < i ==> (#[trigger] self.by_scope@[k]).0 == orig[k].0
                    && did_cache_rel(orig[k].1, self.by_scope@[k].1),
                forall|k: int| i <= k < orig.len() ==> #[trigger] self.by_scope@[k] == orig[k],
            decreases orig.len() - i,
        {
            let ghost before = self.by_scope@;
            let (key, mut sc) = self.by_scope.remove(i);
            assert((key, sc) == orig[i as int]);
            match &mut sc.redirect_resolver {
                Some(rr) => rr.did_cache(),
                None => {},
            }
            proof {
                assert(did_cache_rel(orig[i as int].1, sc));
            }
            self.by_scope.insert(i, (key, sc));
            proof {
                assert(self.by_scope@ =~= before.update(i as int, self.by_scope@[i as int]));
            }
            i += 1;
        }
    }

    /// Bulk update of the package-manager requirement sets: each scope's
    /// managed resolver receives the requirement list keyed by its scope URL
    /// (the unscoped default receives the unkeyed list), or the empty list
    /// when none is given. Scopes without a managed resolver are untouched;
    /// one scope's requirements never affect another's; and setting the
    /// same sets twice is the same as setting them once.
    pub fn set_npm_reqs(&mut self, reqs: &Vec<(Option<Vec<u8>>, Vec<PackageReq>)>)
        ensures
            npm_set_rel(
                old(self).unscoped,
                final(self).unscoped,
                spec_reqs_for(reqs_table_view(reqs@), None),
            ),
            final(self).by_scope@.len() == old(self).by_scope@.len(),
            forall|i: int| 0 <= i < old(self).by_scope@.len() ==> (#[trigger] final(self).by_scope@[i]).0 == old(self).by_scope@[i].0 && npm_set_rel(
                old(self).by_scope@[i].1,
                final(self).by_scope@[i].1,
                spec_reqs_for(reqs_table_view(reqs@), Some(old(self).by_scope@[i].0@)),
            ),
    {
        match &mut self.unscoped.npm_resolver {
            Some(npm) => match npm.as_managed_mut() {
                Some(m) => {
                    let list = lookup_reqs(reqs, None);
                    m.set_package_reqs(list);
                },
                None => {},
            },
            None => {},
        }
        let ghost orig = self.by_scope@;
        let mut i: usize = 0;
        while i < self.by_scope.len()
            invariant
                self.by_scope@.len() == orig.len(),
                i <= orig.len(),
                orig == old(self).by_scope@,
                npm_set_rel(
                    old(self).unscoped,
                    self.unscoped,
                    spec_reqs_for(reqs_table_view(reqs@), None),
                ),
                forall|k: int| 0 <= k < i ==> (#[trigger] self.by_scope@[k]).0 == orig[k].0
                    && npm_set_rel(
                    orig[k].1,
                    self.by_scope@[k].1,
                    spec_reqs_for(reqs_table_view(reqs@), Some(orig[k].0@)),
                ),
                forall|k: int| i <= k < orig.len() ==> #[trigger] self.by_scope@[k] == orig[k],
            decreases orig.len() - i,
        {
            let ghost before = self.by_scope@;
            let (key, mut sc) = self.by_scope.remove(i);
            assert((key, sc) == orig[i as int]);
            match &mut sc.npm_resolver {
                Some(npm) => match npm.as_managed_mut() {
                    Some(m) => {
                        let list = lookup_reqs(reqs, Some(&key));
                        m.set_package_reqs(list);
                    },
                    None => {},
                },
                None => {},
            }
            proof {
                assert(npm_set_rel(
                    orig[i as int].1,
                    sc,
                    spec_reqs_for(reqs_table_view(reqs@), Some(orig[i as int].0@)),
                ));
            }
            self.by_scope.insert(i, (key, sc));
            proof {
                assert(self.by_scope@ =~= before.update(i as int, self.by_scope@[i as int]));
            }
            i += 1;
        }
    }

    /// Resolve a URL through the referrer's scope's redirect table. A scope
    /// without a redirect resolver passes every URL through unchanged.
    pub fn resolve_redirects(&mut self, specifier: &Vec<u8>, file_referrer: Option<&Vec<u8>>) -> (r:
        Option<Vec<u8>>)
        ensures
            r.deep_view() == spec_redirect_result(
                old(self).spec_selected(opt_ref_view(file_referrer)),
                specifier@,
            ),
            redirect_frame(*old(self), *final(self), opt_ref_view(file_referrer), specifier@),
    {
        match self.route_index(file_referrer) {
            None => {
                match &mut self.unscoped.redirect_resolver {
                    None => Some(clone_bytes(specifier)),
                    Some(rr) => rr.resolve(specifier),
                }
            },
            Some(j) => {
                let ghost before = self.by_scope@;
                let (key, mut sc) = self.by_scope.remove(j);
                let out = match &mut sc.redirect_resolver {
                    None => Some(clone_bytes(specifier)),
                    Some(rr) => rr.resolve(specifier),
                };
                self.by_scope.insert(j, (key, sc));
                proof {
                    assert(self.by_scope@ =~= before.update(j as int, self.by_scope@[j as int]));
                }
                out
            },
        }
    }

    /// The memoized redirect chain for a URL in the referrer's scope, each
    /// hop paired with the headers observed there. A scope without a
    /// redirect resolver reports no chain.
    pub fn redirect_chain_headers(
        &mut self,
        specifier: &Vec<u8>,
        file_referrer: Option<&Vec<u8>>,
    ) -> (r: Vec<(Vec<u8>, Headers)>)
        requires
            old(self).tables_finite(),
        ensures
            redirect_frame(*old(self), *final(self), opt_ref_view(file_referrer), specifier@),
            ({
                let scope = old(self).spec_selected(opt_ref_view(file_referrer));
                match scope.redirect_resolver {
                    None => r@.len() == 0,
                    Some(rr) => {
                        let t2 = if crate::url_bytes::spec_is_http_or_https(specifier@) {
                            crate::redirect::spec_table_after(
                                rr.table(),
                                rr.provider_view(),
                                specifier@,
                            )
                        } else {
                            rr.table()
                        };
                        &&& forall|i: int| 0 <= i < r@.len() ==> t2.dom().contains(
                            (#[trigger] r@[i]).0@,
                        ) && (t2[r@[i].0@] matches Some(e) && e.headers == r@[i].1.deep_view())
                        &&& (r@.len() > 0 <==> (t2.dom().contains(specifier@) && t2[specifier@]
                            is Some))
                        &&& r@.len() > 0 ==> r@[0].0@ == specifier@
                    },
                }
            }),
    {
        let rq: Option<usize> = self.route_index(file_referrer);
        let chain: Vec<(Vec<u8>, RedirectEntry)>;
        match rq {
            None => {
                match &mut self.unscoped.redirect_resolver {
                    None => {
                        chain = Vec::new();
                    },
                    Some(rr) => {
                        chain = rr.chain(specifier);
                    },
                }
            },
            Some(j) => {
                let ghost before = self.by_scope@;
                let (key, mut sc) = self.by_scope.remove(j);
                match &mut sc.redirect_resolver {
                    None => {
                        chain = Vec::new();
                    },
                    Some(rr) => {
                        chain = rr.chain(specifier);
                    },
                }
                self.by_scope.insert(j, (key, sc));
                proof {
                    assert(self.by_scope@ =~= before.update(j as int, self.by_scope@[j as int]));
                }
            },
        }
        let ghost chain_v = chain@;
        let mut rest = chain;
        let mut r: Vec<(Vec<u8>, Headers)> = Vec::new();
        while rest.len() > 0
            invariant
                r@.len() + rest@.len() == chain_v.len(),
                forall|k: int| 0 <= k < r@.len() ==> (#[trigger] r@[k]).0@ == chain_v[k].0@
                    && r@[k].1.deep_view() == chain_v[k].1@.headers,
                forall|k: int| 0 <= k < rest@.len() ==> #[trigger] rest@[k] == chain_v[r@.len()
                    + k],
            decreases rest@.len(),
        {
            let (url, entry) = rest.remove(0);
            assert((url, entry) == chain_v[r@.len() as int]);
            r.push((url, entry.headers));
        }
        r
    }
}

/// The requirement lists keyed by scope, as views.
pub open spec fn reqs_table_view(v: Seq<(Option<Vec<u8>>, Vec<PackageReq>)>) -> Seq<
    (Option<Seq<u8>>, Seq<crate::semver::ReqView>),
> {
    v.map_values(
        |p: (Option<Vec<u8>>, Vec<PackageReq>)| (
            p.0.deep_view(),
            p.1@.map_values(|q: PackageReq| q@),
        ),
    )
}

/// The requirement list for one scope key: the first row with that key, or
/// the empty list.
pub open spec fn spec_reqs_for(
    rows: Seq<(Option<Seq<u8>>, Seq<crate::semver::ReqView>)>,
    key: Option<Seq<u8>>,
) -> Seq<crate::semver::ReqView>
    decreases rows.len(),
{
    if rows.len() == 0 {
        Seq::empty()
    } else if rows[0].0 == key {
        rows[0].1
    } else {
        spec_reqs_for(rows.drop_first(), key)
    }
}

/// The requirement list for one scope key, cloned out of the table.
fn lookup_reqs(table: &Vec<(Option<Vec<u8>>, Vec<PackageReq>)>, key: Option<&Vec<u8>>) -> (r: Vec<
    PackageReq,
>)
    ensures
        r@.map_values(|q: PackageReq| q@) == spec_reqs_for(
            reqs_table_view(table@),
            opt_ref_view(key),
        ),
{
    let ghost rows = reqs_table_view(table@);
    let mut i: usize = 0;
    assert(rows.skip(0) =~= rows);
    while i < table.len()
        invariant
            i <= table@.len(),
            rows == reqs_table_view(table@),
            spec_reqs_for(rows, opt_ref_view(key)) == spec_reqs_for(
                rows.skip(i as int),
                opt_ref_view(key),
            ),
        decreases table@.len() - i,
    {
        let ghost pre = rows.skip(i as int);
        assert(pre[0] == rows[i as int]);
        let row = &table[i];
        let key_matches: bool = match (&row.0, key) {
            (None, None) => true,
            (Some(a), Some(b)) => crate::url_bytes::bytes_eq(a.as_slice(), b.as_slice()),
            _ => false,
        };
        if key_matches {
            assert(rows[i as int].0 == opt_ref_view(key));
            let mut out: Vec<PackageReq> = Vec::new();
            let mut j: usize = 0;
            while j < row.1.len()
                invariant
                    j <= row.1@.len(),
                    out@.map_values(|q: PackageReq| q@) =~= row.1@.map_values(
                        |q: PackageReq| q@,
                    ).subrange(0, j as int),
                decreases row.1@.len() - j,
            {
                let ghost obefore = out@.map_values(|q: PackageReq| q@);
                out.push(crate::semver::clone_req(&row.1[j]));
                assert(out@.map_values(|q: PackageReq| q@) =~= obefore.push(
                    row.1@[j as int]@,
                ));
                j += 1;
            }
            assert(out@.map_values(|q: PackageReq| q@) =~= row.1@.map_values(
                |q: PackageReq| q@,
            ));
            return out;
        }
        assert(pre.drop_first() =~= rows.skip(i + 1));
        i += 1;
    }
    assert(rows.skip(rows.len() as int).len() == 0);
    let out: Vec<PackageReq> = Vec::new();
    assert(out@.map_values(|q: PackageReq| q@) =~= Seq::<crate::semver::ReqView>::empty());
    out
}

/// The cache-refresh relation on one scope: only the redirect resolver
/// changes, and it keeps exactly its settled slots.
pub open spec fn did_cache_rel(a: ScopeResolver, b: ScopeResolver) -> bool {
    &&& b.cjs_tracker == a.cjs_tracker
    &&& b.jsr_resolver == a.jsr_resolver
    &&& b.npm_resolver == a.npm_resolver
    &&& b.node_resolver == a.node_resolver
    &&& b.pkg_json_resolver == a.pkg_json_resolver
    &&& b.sloppy_resolver == a.sloppy_resolver
    &&& b.graph_imports == a.graph_imports
    &&& b.package_json_deps_by_resolution == a.package_json_deps_by_resolution
    &&& b.config_data == a.config_data
    &&& match (a.redirect_resolver, b.redirect_resolver) {
        (Some(x), Some(y)) => y.provider_view() == x.provider_view() && y.table()
            == x.table().restrict(
            x.table().dom().filter(
                |k: Seq<u8>| crate::redirect::spec_slot_settled(x.table()[k]),
            ),
        ) && (x.table_finite() ==> y.table_finite()),
        (None, None) => true,
        _ => false,
    }
}

/// The bulk-update relation on one scope: only a managed package-manager
/// resolver changes, and only its requirement set.
pub open spec fn npm_set_rel(
    a: ScopeResolver,
    b: ScopeResolver,
    rv: Seq<crate::semver::ReqView>,
) -> bool {
    &&& b.cjs_tracker == a.cjs_tracker
    &&& b.jsr_resolver == a.jsr_resolver
    &&& b.node_resolver == a.node_resolver
    &&& b.pkg_json_resolver == a.pkg_json_resolver
    &&& b.redirect_resolver == a.redirect_resolver
    &&& b.sloppy_resolver == a.sloppy_resolver
    &&& b.graph_imports == a.graph_imports
    &&& b.package_json_deps_by_resolution == a.package_json_deps_by_resolution
    &&& b.config_data == a.config_data
    &&& match (a.npm_resolver, b.npm_resolver) {
        (Some(x), Some(y)) => match x@ {
            crate::node::NpmResolverView::Byonm { .. } => y@ == x@,
            crate::node::NpmResolverView::Managed(m) => y@
                == crate::node::NpmResolverView::Managed(
                crate::node::ManagedNpmView {
                    snapshot_from_lockfile: m.snapshot_from_lockfile,
                    node_modules_dir: m.node_modules_dir,
                    package_reqs: rv,
                },
            ),
        },
        (None, None) => true,
        _ => false,
    }
}

/// What resolving redirects returns for a query against one scope: the
/// input unchanged when the scope has no redirect resolver or the URL is
/// not HTTP(S), else the destination of the memoization walk.
pub open spec fn spec_redirect_result(s: ScopeResolver, q: Seq<u8>) -> Option<Seq<u8>> {
    match s.redirect_resolver {
        None => Some(q),
        Some(a) => if !crate::url_bytes::spec_is_http_or_https(q) {
            Some(q)
        } else {
            crate::redirect::spec_walk(a.table(), a.provider_view(), q, q, 0).destination
        },
    }
}

/// The redirect-query relation on one scope: only the redirect resolver
/// changes, and its table evolves exactly as one resolution walk says.
pub open spec fn redirect_evolved(a: ScopeResolver, b: ScopeResolver, q: Seq<u8>) -> bool {
    &&& b.cjs_tracker == a.cjs_tracker
    &&& b.jsr_resolver == a.jsr_resolver
    &&& b.npm_resolver == a.npm_resolver
    &&& b.node_resolver == a.node_resolver
    &&& b.pkg_json_resolver == a.pkg_json_resolver
    &&& b.sloppy_resolver == a.sloppy_resolver
    &&& b.graph_imports == a.graph_imports
    &&& b.package_json_deps_by_resolution == a.package_json_deps_by_resolution
    &&& b.config_data == a.config_data
    &&& match (a.redirect_resolver, b.redirect_resolver) {
        (Some(x), Some(y)) => y.provider_view() == x.provider_view() && (if crate::url_bytes::spec_is_http_or_https(
            q,
        ) {
            y.table() == crate::redirect::spec_table_after(x.table(), x.provider_view(), q)
        } else {
            y.table() == x.table()
        }) && (x.table_finite() ==> y.table_finite()),
        (None, None) => true,
        _ => false,
    }
}

/// A redirect query touches only the selected scope, and only its redirect
/// resolver.
pub open spec fn redirect_frame(
    a: LspResolver,
    b: LspResolver,
    referrer: Option<Seq<u8>>,
    q: Seq<u8>,
) -> bool {
    match referrer {
        None => redirect_evolved(a.unscoped, b.unscoped, q) && b.by_scope == a.by_scope,
        Some(fr) => match spec_route_idx(a.by_scope@, fr) {
            None => redirect_evolved(a.unscoped, b.unscoped, q) && b.by_scope == a.by_scope,
            Some(j) => b.unscoped == a.unscoped && b.by_scope@.len() == a.by_scope@.len() && (
            forall|k: int| 0 <= k < a.by_scope@.len() && k != j ==> #[trigger] b.by_scope@[k]
                == a.by_scope@[k]) && b.by_scope@[j].0 == a.by_scope@[j].0 && redirect_evolved(
                a.by_scope@[j].1,
                b.by_scope@[j].1,
                q,
            ),
        },
    }
}

/// Two resolver sets hold the same content, scope for scope.
pub open spec fn lsp_equiv(a: LspResolver, b: LspResolver) -> bool {
    &&& crate::scope::scope_equiv(a.unscoped, b.unscoped)
    &&& a.by_scope@.len() == b.by_scope@.len()
    &&& forall|i: int| 0 <= i < a.by_scope@.len() ==> (#[trigger] a.by_scope@[i]).0@
        == b.by_scope@[i].0@ && crate::scope::scope_equiv(a.by_scope@[i].1, b.by_scope@[i].1)
}

/// Equivalent resolver sets route every referrer to the same scope index.
proof fn lemma_route_equiv(
    a: Seq<(Vec<u8>, ScopeResolver)>,
    b: Seq<(Vec<u8>, ScopeResolver)>,
    referrer: Seq<u8>,
)
    requires
        a.len() == b.len(),
        forall|i: int| 0 <= i < a.len() ==> crate::scope::scope_equiv(
            (#[trigger] a[i]).1,
            b[i].1,
        ),
    ensures
        spec_route_idx(a, referrer) == spec_route_idx(b, referrer),
    decreases a.len(),
{
    if a.len() > 0 {
        assert(crate::scope::scope_equiv(a[a.len() - 1].1, b[a.len() - 1].1));
        assert(spec_entry_contains(a.last(), referrer) == spec_entry_contains(
            b.last(),
            referrer,
        ));
        assert forall|i: int| 0 <= i < a.drop_last().len() implies crate::scope::scope_equiv(
            (#[trigger] a.drop_last()[i]).1,
            b.drop_last()[i].1,
        ) by {
            assert(a.drop_last()[i] == a[i]);
            assert(b.drop_last()[i] == b[i]);
        }
        lemma_route_equiv(a.drop_last(), b.drop_last(), referrer);
    }
}

/// Snapshot isolation: a snapshot is a value equivalent to the live
/// resolver at the instant it was taken, and every query on the snapshot
/// routes and reads exactly as the live resolver did then. The mutating
/// operations relate only the live resolver's old and new states, so a
/// snapshot taken before any of them still observes the old state.
pub proof fn lemma_snapshot_isolation(
    snap: LspResolver,
    live: LspResolver,
    referrer: Option<Seq<u8>>,
)
    requires
        lsp_equiv(snap, live),
    ensures
        crate::scope::scope_equiv(
            snap.spec_selected(referrer),
            live.spec_selected(referrer),
        ),
{
    match referrer {
        None => {},
        Some(fr) => {
            lemma_route_equiv(snap.by_scope@, live.by_scope@, fr);
            lemma_scope_routing_stable(snap.by_scope@, fr);
            match spec_route_idx(snap.by_scope@, fr) {
                Some(j) => {
                    assert(0 <= j < snap.by_scope@.len());
                    assert((snap.by_scope@[j]).0@ == live.by_scope@[j].0@
                        && crate::scope::scope_equiv(snap.by_scope@[j].1, live.by_scope@[j].1));
                },
                None => {},
            }
        },
    }
}

/// A package-manager handle handed to one graph build.
pub struct NpmGraphResolver {
    pub has_npm: bool,
    pub byonm: bool,
}

/// The dependency name indexed for a resolved URL: the last index row for
/// it, if any.
pub open spec fn spec_dep_name_for(rows: Seq<(Seq<u8>, Seq<u8>)>, url: Seq<u8>) -> Option<Seq<u8>>
    decreases rows.len(),
{
    if rows.len() == 0 {
        None
    } else if rows.last().0 == url {
        Some(rows.last().1)
    } else {
        spec_dep_name_for(rows.drop_last(), url)
    }
}

/// The manifest round trip: for a dependency declared in a manifest whose
/// types-mode resolution lands on a file URL, looking that URL up in the
/// dependency index built from the same manifest yields the dependency's
/// name — provided no other declared dependency resolves to the same URL
/// (on such a collision the last-indexed name wins silently).
pub proof fn lemma_pkg_json_dep_round_trip(
    rows: Seq<crate::node::ReqResolutionView>,
    deps: Seq<(Seq<u8>, Seq<u8>)>,
    name: Seq<u8>,
    url: Seq<u8>,
    media: MediaType,
)
    requires
        exists|i: int| 0 <= i < deps.len() && (#[trigger] deps[i]).0 == name,
        spec_resolve_req(
            rows,
            crate::semver::ReqView { name: name, range: crate::semver::VersionRange::Any },
            NodeResolutionMode::Types,
        ) == Some((url, media)),
        forall|i: int| 0 <= i < deps.len() ==> match spec_resolve_req(
            rows,
            crate::semver::ReqView {
                name: (#[trigger] deps[i]).0,
                range: crate::semver::VersionRange::Any,
            },
            NodeResolutionMode::Types,
        ) {
            Some(p) => p.0 == url ==> deps[i].0 == name,
            None => true,
        },
    ensures
        spec_dep_name_for(crate::scope::spec_dep_index(rows, deps), url) == Some(name),
    decreases deps.len(),
{
    let witness = choose|i: int| 0 <= i < deps.len() && (#[trigger] deps[i]).0 == name;
    let d = deps.last();
    let idx = crate::scope::spec_dep_index(rows, deps);
    match spec_resolve_req(
        rows,
        crate::semver::ReqView { name: d.0, range: crate::semver::VersionRange::Any },
        NodeResolutionMode::Types,
    ) {
        Some(p) => {
            if p.0 == url {
                assert(deps[deps.len() - 1].0 == name);
                assert(p == (url, media));
                assert(idx.last() == (url, name));
            } else {
                assert(deps[deps.len() - 1].0 != name);
                assert(witness < deps.len() - 1);
                assert(exists|i: int| 0 <= i < deps.drop_last().len() && (
                #[trigger] deps.drop_last()[i]).0 == name) by {
                    assert(deps.drop_last()[witness] == deps[witness]);
                }
                assert forall|i: int| 0 <= i < deps.drop_last().len() implies match spec_resolve_req(
                    rows,
                    crate::semver::ReqView {
                        name: (#[trigger] deps.drop_last()[i]).0,
                        range: crate::semver::VersionRange::Any,
                    },
                    NodeResolutionMode::Types,
                ) {
                    Some(q) => q.0 == url ==> deps.drop_last()[i].0 == name,
                    None => true,
                } by {
                    assert(deps.drop_last()[i] == deps[i]);
                }
                lemma_pkg_json_dep_round_trip(rows, deps.drop_last(), name, url, media);
                assert(idx.drop_last() == crate::scope::spec_dep_index(rows, deps.drop_last()));
                assert(idx.last().0 == p.0);
            }
        },
        None => {
            assert(deps[deps.len() - 1].0 != name);
            assert(witness < deps.len() - 1);
            assert(exists|i: int| 0 <= i < deps.drop_last().len() && (
            #[trigger] deps.drop_last()[i]).0 == name) by {
                assert(deps.drop_last()[witness] == deps[witness]);
            }
            assert forall|i: int| 0 <= i < deps.drop_last().len() implies match spec_resolve_req(
                rows,
                crate::semver::ReqView {
                    name: (#[trigger] deps.drop_last()[i]).0,
                    range: crate::semver::VersionRange::Any,
                },
                NodeResolutionMode::Types,
            ) {
                Some(q) => q.0 == url ==> deps.drop_last()[i].0 == name,
                None => true,
            } by {
                assert(deps.drop_last()[i] == deps[i]);
            }
            lemma_pkg_json_dep_round_trip(rows, deps.drop_last(), name, url, media);
        },
    }
}

/// The bytes of `"file://"`.
pub open spec fn file_scheme_prefix() -> Seq<u8> {
    seq![102u8, 105u8, 108u8, 101u8, 58u8, 47u8, 47u8]
}

/// The bytes of `"/node_modules/"`.
pub open spec fn node_modules_needle() -> Seq<u8> {
    seq![47u8, 110u8, 111u8, 100u8, 101u8, 95u8, 109u8, 111u8, 100u8, 117u8, 108u8, 101u8, 115u8, 47u8]
}

/// A URL is considered inside `node_modules`: it lies in a managed package
/// tree of the scope, or it is a file URL whose serialized form contains a
/// `/node_modules/` segment, compared case-insensitively.
pub open spec fn spec_in_node_modules(scope: ScopeResolver, u: Seq<u8>) -> bool {
    (match scope.node_resolver {
        Some(n) => spec_in_roots(n.roots(), u),
        None => false,
    }) || (is_prefix_of(file_scheme_prefix(), u) && spec_contains_lower(u, node_modules_needle()))
}

/// The URLs one import row contributes: per dependency, its type resolution
/// when present, else its code resolution, else nothing.
pub open spec fn spec_dep_urls(deps: Seq<GraphDepView>) -> Seq<Seq<u8>>
    decreases deps.len(),
{
    if deps.len() == 0 {
        Seq::empty()
    } else {
        let prev = spec_dep_urls(deps.drop_last());
        match deps.last().maybe_type {
            Some(t) => prev.push(t),
            None => match deps.last().maybe_code {
                Some(c) => prev.push(c),
                None => prev,
            },
        }
    }
}

/// The injected imports per referrer, with each dependency mapped to its
/// preferred resolution.
pub open spec fn spec_imports_by_referrer(rows: Seq<(Seq<u8>, Seq<GraphDepView>)>) -> Seq<
    (Seq<u8>, Seq<Seq<u8>>),
> {
    rows.map_values(|p: (Seq<u8>, Seq<GraphDepView>)| (p.0, spec_dep_urls(p.1)))
}

} // verus!
