use lsp_resolver::cjs::CjsTracker;
use lsp_resolver::cjs::LspCjsTracker;
use lsp_resolver::cjs::ParsedSourceInfo;
use lsp_resolver::config::ConfigData;
use lsp_resolver::jsr::JsrCacheResolver;
use lsp_resolver::jsr::JsrEntry;
use lsp_resolver::jsr::JsrNvInfo;
use lsp_resolver::lsp::LspResolver;
use lsp_resolver::media::MediaType;
use lsp_resolver::node::NodeResolutionMode;
use lsp_resolver::node::NodeResolver;
use lsp_resolver::node::ReqResolution;
use lsp_resolver::pkg_json::PackageJsonData;
use lsp_resolver::pkg_json::PackageJsonResolver;
use lsp_resolver::redirect::HeaderProvider;
use lsp_resolver::scope::ScopeParts;
use lsp_resolver::scope::ScopeResolver;
use lsp_resolver::semver::range_matches;
use lsp_resolver::semver::PackageNv;
use lsp_resolver::semver::PackageReq;
use lsp_resolver::semver::PackageReqReference;
use lsp_resolver::semver::Version;
use lsp_resolver::semver::VersionRange;
use lsp_resolver::sloppy::SloppyImportsResolver;

fn b(s: &str) -> Vec<u8> {
    s.as_bytes().to_vec()
}

fn ver(major: u64, minor: u64, patch: u64) -> Version {
    Version { major, minor, patch }
}

fn empty_cjs() -> CjsTracker {
    CjsTracker {
        known_kinds: Vec::new(),
        script_answers: Vec::new(),
        maybe_cjs_answers: Vec::new(),
    }
}

fn empty_parts() -> ScopeParts {
    ScopeParts {
        has_http_client: false,
        header_provider: HeaderProvider::new(Vec::new()),
        jsr_resolver: JsrCacheResolver { nv_by_req: Vec::new(), info_by_nv: Vec::new() },
        node_resolver: NodeResolver {
            req_resolutions: Vec::new(),
            in_npm_pkg_roots: Vec::new(),
            npm_pkg_specifiers: Vec::new(),
        },
        cjs_tracker: empty_cjs(),
        pkg_json_resolver: PackageJsonResolver { manifests: Vec::new() },
        graph_imports: Vec::new(),
        sloppy_files: Vec::new(),
    }
}

fn bare_scope(scope_url: &str) -> ScopeResolver {
    let mut r = ScopeResolver::unscoped_default();
    r.config_data = Some(config_for(scope_url));
    r
}

fn config_for(scope_url: &str) -> ConfigData {
    ConfigData {
        scope: b(scope_url),
        byonm: false,
        node_modules_dir: None,
        lockfile: None,
        vendor_dir: None,
        sloppy_imports: false,
        bare_node_builtins: false,
        jsx_import_source: None,
        import_map: Vec::new(),
        pkg_json: None,
    }
}

#[test]
fn test_jsr_round_trip() {
    let req = PackageReq { name: b("@std/path"), range: VersionRange::Caret(ver(1, 0, 0)) };
    let nv = PackageNv { name: b("@std/path"), version: ver(1, 0, 8) };
    let jsr = JsrCacheResolver {
        nv_by_req: vec![JsrEntry { req: req.clone(), nv: Some(nv.clone()) }],
        info_by_nv: vec![JsrNvInfo {
            nv: nv.clone(),
            base_url: b("https://jsr.io/@std/path/1.0.8/"),
            exports: vec![(b("./join"), b("./join.ts"))],
        }],
    };
    let req_ref = PackageReqReference { req: req.clone(), sub_path: Some(b("join.ts")) };
    assert_eq!(
        jsr.jsr_to_resource_url(&req_ref),
        Some(b("https://jsr.io/@std/path/1.0.8/join.ts"))
    );
    let back = jsr.lookup_req_for_nv(&nv).unwrap();
    assert_eq!(back.name, b("@std/path"));
    assert!(range_matches(&back.range, &nv.version));
    assert_eq!(jsr.lookup_export_for_path(&nv, &b("./join")), Some(b("./join.ts")));
}

#[test]
fn test_range_matches() {
    assert!(range_matches(&VersionRange::Any, &ver(0, 1, 2)));
    assert!(range_matches(&VersionRange::Exact(ver(1, 2, 3)), &ver(1, 2, 3)));
    assert!(!range_matches(&VersionRange::Exact(ver(1, 2, 3)), &ver(1, 2, 4)));
    assert!(range_matches(&VersionRange::Caret(ver(1, 2, 3)), &ver(1, 9, 0)));
    assert!(!range_matches(&VersionRange::Caret(ver(1, 2, 3)), &ver(2, 0, 0)));
    assert!(!range_matches(&VersionRange::Caret(ver(1, 2, 3)), &ver(1, 2, 2)));
    assert!(range_matches(&VersionRange::Tilde(ver(1, 2, 3)), &ver(1, 2, 9)));
    assert!(!range_matches(&VersionRange::Tilde(ver(1, 2, 3)), &ver(1, 3, 0)));
}

fn lodash_scope() -> (Vec<u8>, ConfigData, ScopeParts) {
    let scope_url = b("file:///w/");
    let mut config = config_for("file:///w/");
    config.pkg_json = Some(PackageJsonData {
        specifier: b("file:///w/package.json"),
        dir_url: b("file:///w/"),
        dependencies: vec![(b("lodash"), b("^4.0.0"))],
    });
    let mut parts = empty_parts();
    parts.has_http_client = true;
    parts.node_resolver.req_resolutions = vec![ReqResolution {
        req: PackageReq { name: b("lodash"), range: VersionRange::Any },
        mode: NodeResolutionMode::Types,
        url: b("file:///w/node_modules/lodash/index.d.ts"),
        media: MediaType::Dts,
    }];
    (scope_url, config, parts)
}

#[test]
fn test_npm_dep_round_trip() {
    let resolver = LspResolver::from_config(vec![lodash_scope()], empty_parts());
    let referrer = b("file:///w/main.ts");
    let req_ref = PackageReqReference {
        req: PackageReq { name: b("lodash"), range: VersionRange::Any },
        sub_path: None,
    };
    let (url, media) = resolver.npm_to_file_url(&req_ref, Some(&referrer)).unwrap();
    assert_eq!(url, b("file:///w/node_modules/lodash/index.d.ts"));
    assert_eq!(media, MediaType::Dts);
    assert_eq!(
        resolver.file_url_to_package_json_dep(&url, Some(&referrer)),
        Some(b("lodash"))
    );
}

#[test]
fn test_scope_routing() {
    let url = b("file:///irrelevant/x.d.ts");
    let mut outer = bare_scope("file:///a/");
    outer.package_json_deps_by_resolution = vec![(url.clone(), b("outer"))];
    let mut inner = bare_scope("file:///a/sub/");
    inner.package_json_deps_by_resolution = vec![(url.clone(), b("inner"))];
    let resolver = LspResolver {
        unscoped: ScopeResolver::unscoped_default(),
        by_scope: vec![(b("file:///a/"), outer), (b("file:///a/sub/"), inner)],
    };
    let in_inner = b("file:///a/sub/x.ts");
    let in_outer = b("file:///a/y.ts");
    assert_eq!(
        resolver.file_url_to_package_json_dep(&url, Some(&in_inner)),
        Some(b("inner"))
    );
    assert_eq!(
        resolver.file_url_to_package_json_dep(&url, Some(&in_outer)),
        Some(b("outer"))
    );
    assert_eq!(resolver.file_url_to_package_json_dep(&url, None), None);
    // routing is stable: repeated queries select the same scope
    assert_eq!(
        resolver.file_url_to_package_json_dep(&url, Some(&in_inner)),
        resolver.file_url_to_package_json_dep(&url, Some(&in_inner))
    );
}

#[test]
fn test_snapshot_isolation() {
    let mut live = LspResolver::from_config(vec![lodash_scope()], empty_parts());
    let snap = live.snapshot();
    let reqs = vec![(
        Some(b("file:///w/")),
        vec![PackageReq { name: b("chalk"), range: VersionRange::Any }],
    )];
    live.set_npm_reqs(&reqs);
    let referrer = b("file:///w/main.ts");
    let live_mgr = live.maybe_managed_npm_resolver(Some(&referrer)).unwrap();
    assert_eq!(live_mgr.package_reqs.len(), 1);
    let snap_mgr = snap.maybe_managed_npm_resolver(Some(&referrer)).unwrap();
    assert_eq!(snap_mgr.package_reqs.len(), 0);
}

#[test]
fn test_set_npm_reqs_idempotent() {
    let mut live = LspResolver::from_config(vec![lodash_scope()], empty_parts());
    let reqs = vec![(
        Some(b("file:///w/")),
        vec![PackageReq { name: b("chalk"), range: VersionRange::Any }],
    )];
    live.set_npm_reqs(&reqs);
    live.set_npm_reqs(&reqs);
    let referrer = b("file:///w/main.ts");
    let mgr = live.maybe_managed_npm_resolver(Some(&referrer)).unwrap();
    assert_eq!(mgr.package_reqs, vec![PackageReq { name: b("chalk"), range: VersionRange::Any }]);
}

#[test]
fn test_sloppy_imports() {
    let mut scope = ScopeResolver::unscoped_default();
    scope.sloppy_resolver = Some(SloppyImportsResolver {
        existing_files: vec![b("file:///p/util.ts"), b("file:///p/util/index.ts")],
    });
    let referrer = b("file:///p/main.ts");
    assert_eq!(
        scope.resolve_relative_import(&b("./util"), &referrer),
        Some(b("file:///p/util.ts"))
    );
    let mut only_index = ScopeResolver::unscoped_default();
    only_index.sloppy_resolver = Some(SloppyImportsResolver {
        existing_files: vec![b("file:///p/util/index.ts")],
    });
    assert_eq!(
        only_index.resolve_relative_import(&b("./util"), &referrer),
        Some(b("file:///p/util/index.ts"))
    );
    let mut none = ScopeResolver::unscoped_default();
    none.sloppy_resolver = Some(SloppyImportsResolver { existing_files: Vec::new() });
    assert_eq!(none.resolve_relative_import(&b("./util"), &referrer), None);
}

#[test]
fn test_resolve_relative_without_sloppy() {
    let scope = ScopeResolver::unscoped_default();
    let referrer = b("file:///p/main.ts");
    assert_eq!(
        scope.resolve_relative_import(&b("./util.ts"), &referrer),
        Some(b("file:///p/util.ts"))
    );
    assert_eq!(scope.resolve_relative_import(&b("bare"), &referrer), None);
    assert_eq!(
        scope.resolve_relative_import(&b("https://foo/a.js"), &referrer),
        Some(b("https://foo/a.js"))
    );
}

#[test]
fn test_is_cjs_known_kind() {
    let tracker = LspCjsTracker::new(CjsTracker {
        known_kinds: vec![((b("file:///a.js"), MediaType::JavaScript), true)],
        script_answers: Vec::new(),
        maybe_cjs_answers: Vec::new(),
    });
    assert!(tracker.is_cjs(&b("file:///a.js"), MediaType::JavaScript, None));
    assert!(!tracker.is_cjs(&b("file:///b.js"), MediaType::JavaScript, None));
}

#[test]
fn test_is_cjs_script_hint() {
    let tracker = LspCjsTracker::new(CjsTracker {
        known_kinds: Vec::new(),
        script_answers: vec![((b("file:///a.js"), MediaType::JavaScript, true), Some(true))],
        maybe_cjs_answers: Vec::new(),
    });
    let parsed = ParsedSourceInfo { is_script: true };
    assert!(tracker.is_cjs(&b("file:///a.js"), MediaType::JavaScript, Some(&parsed)));
    // without parsed-source evidence the heuristic (absent) defaults to ESM
    assert!(!tracker.is_cjs(&b("file:///a.js"), MediaType::JavaScript, None));
}

#[test]
fn test_is_cjs_heuristic_and_default() {
    let tracker = LspCjsTracker::new(CjsTracker {
        known_kinds: Vec::new(),
        script_answers: Vec::new(),
        maybe_cjs_answers: vec![((b("file:///a.js"), MediaType::JavaScript), Some(true))],
    });
    assert!(tracker.is_cjs(&b("file:///a.js"), MediaType::JavaScript, None));
    // a classifier failure defaults to modern ESM
    let failing = LspCjsTracker::new(CjsTracker {
        known_kinds: Vec::new(),
        script_answers: Vec::new(),
        maybe_cjs_answers: vec![((b("file:///a.js"), MediaType::JavaScript), None)],
    });
    assert!(!failing.is_cjs(&b("file:///a.js"), MediaType::JavaScript, None));
}

#[test]
fn test_in_node_modules() {
    let resolver = LspResolver {
        unscoped: ScopeResolver::unscoped_default(),
        by_scope: Vec::new(),
    };
    assert!(resolver.in_node_modules(&b("file:///p/node_modules/x.js")));
    assert!(resolver.in_node_modules(&b("file:///p/NODE_MODULES/y.js")));
    assert!(!resolver.in_node_modules(&b("https://x/node_modules/a.js")));
    assert!(!resolver.in_node_modules(&b("file:///p/src/x.js")));
}

#[test]
fn test_is_bare_package_json_dep() {
    let mut scope = ScopeResolver::unscoped_default();
    let mut node = NodeResolver {
        req_resolutions: Vec::new(),
        in_npm_pkg_roots: Vec::new(),
        npm_pkg_specifiers: vec![(b("lodash"), b("file:///w/main.ts"))],
    };
    node.in_npm_pkg_roots.push(b("file:///w/node_modules/"));
    scope.node_resolver = Some(node);
    let resolver = LspResolver { unscoped: scope, by_scope: Vec::new() };
    assert!(resolver.is_bare_package_json_dep(&b("lodash"), &b("file:///w/main.ts")));
    assert!(!resolver.is_bare_package_json_dep(&b("chalk"), &b("file:///w/main.ts")));
    assert!(resolver.in_node_modules(&b("file:///w/node_modules/lodash/a.js")));
}

#[test]
fn test_get_closest_package_json() {
    let mut scope = ScopeResolver::unscoped_default();
    scope.pkg_json_resolver = Some(PackageJsonResolver {
        manifests: vec![
            PackageJsonData {
                specifier: b("file:///p/package.json"),
                dir_url: b("file:///p/"),
                dependencies: Vec::new(),
            },
            PackageJsonData {
                specifier: b("file:///p/a/package.json"),
                dir_url: b("file:///p/a/"),
                dependencies: Vec::new(),
            },
        ],
    });
    let resolver = LspResolver { unscoped: scope, by_scope: Vec::new() };
    let hit = resolver.get_closest_package_json(&b("file:///p/a/b.js")).unwrap();
    assert_eq!(hit.specifier, b("file:///p/a/package.json"));
    let outer = resolver.get_closest_package_json(&b("file:///p/z.js")).unwrap();
    assert_eq!(outer.specifier, b("file:///p/package.json"));
    assert!(resolver.get_closest_package_json(&b("file:///q/z.js")).is_none());
}

#[test]
fn test_byonm_install_tree_fallback() {
    let mut config = config_for("file:///w/");
    config.byonm = true;
    let mut parts = empty_parts();
    parts.has_http_client = true;
    let scope = ScopeResolver::from_config_data(Some(config), parts);
    match scope.npm_resolver.unwrap() {
        lsp_resolver::node::NpmResolver::Byonm { root_node_modules_dir } => {
            assert_eq!(root_node_modules_dir, Some(b("file:///w/node_modules/")));
        }
        _ => panic!("expected the bring-your-own variant"),
    }
}

#[test]
fn test_managed_snapshot_from_lockfile() {
    let mut config = config_for("file:///w/");
    config.lockfile = Some(lsp_resolver::config::LockfileData {
        redirects: Vec::new(),
        has_package_snapshot: true,
    });
    let mut parts = empty_parts();
    parts.has_http_client = true;
    let scope = ScopeResolver::from_config_data(Some(config), parts);
    match scope.npm_resolver.unwrap() {
        lsp_resolver::node::NpmResolver::Managed(m) => {
            assert!(m.snapshot_from_lockfile);
            assert!(m.package_reqs.is_empty());
        }
        _ => panic!("expected the managed variant"),
    }
}

#[test]
fn test_graph_imports_by_referrer() {
    let mut scope = ScopeResolver::unscoped_default();
    scope.graph_imports = vec![(
        b("file:///w/workspace.json"),
        lsp_resolver::scope::GraphImport {
            dependencies: vec![
                lsp_resolver::scope::GraphDep {
                    specifier_text: b("preact"),
                    maybe_type: Some(b("file:///t/preact.d.ts")),
                    maybe_code: Some(b("file:///c/preact.js")),
                },
                lsp_resolver::scope::GraphDep {
                    specifier_text: b("other"),
                    maybe_type: None,
                    maybe_code: Some(b("file:///c/other.js")),
                },
                lsp_resolver::scope::GraphDep {
                    specifier_text: b("missing"),
                    maybe_type: None,
                    maybe_code: None,
                },
            ],
        },
    )];
    let resolver = LspResolver { unscoped: scope, by_scope: Vec::new() };
    let rows = resolver.graph_imports_by_referrer(&b("file:///w/x.ts"));
    assert_eq!(rows.len(), 1);
    assert_eq!(rows[0].0, b("file:///w/workspace.json"));
    assert_eq!(rows[0].1, vec![b("file:///t/preact.d.ts"), b("file:///c/other.js")]);
}

#[test]
fn test_redirect_chain_headers() {
    let mut scope = ScopeResolver::unscoped_default();
    scope.redirect_resolver = Some(lsp_resolver::redirect::RedirectResolver::new(
        HeaderProvider::new(vec![
            (b("https://foo/a.js"), vec![(b("location"), b("./b.js"))]),
            (b("https://foo/b.js"), Vec::new()),
        ]),
        &Vec::new(),
    ));
    let mut resolver = LspResolver { unscoped: scope, by_scope: Vec::new() };
    assert_eq!(
        resolver.resolve_redirects(&b("https://foo/a.js"), None),
        Some(b("https://foo/b.js"))
    );
    let chain = resolver.redirect_chain_headers(&b("https://foo/a.js"), None);
    assert_eq!(chain.len(), 1);
    assert_eq!(chain[0].0, b("https://foo/a.js"));
    assert_eq!(chain[0].1, vec![(b("location"), b("./b.js"))]);
    // a scope without a redirect resolver passes URLs through unchanged
    let mut bare = LspResolver {
        unscoped: ScopeResolver::unscoped_default(),
        by_scope: Vec::new(),
    };
    assert_eq!(
        bare.resolve_redirects(&b("https://foo/a.js"), None),
        Some(b("https://foo/a.js"))
    );
    assert_eq!(bare.redirect_chain_headers(&b("https://foo/a.js"), None).len(), 0);
}

#[test]
fn test_lsp_did_cache() {
    let mut resolver = LspResolver::from_config(vec![lodash_scope()], empty_parts());
    resolver.did_cache();
    let referrer = b("file:///w/main.ts");
    assert!(resolver.maybe_managed_npm_resolver(Some(&referrer)).is_some());
}
