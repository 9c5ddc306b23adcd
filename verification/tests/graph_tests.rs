use lsp_resolver::graph::resolve_import_map;
use lsp_resolver::graph::ResolveError;
use lsp_resolver::jsr::JsrCacheResolver;
use lsp_resolver::jsr::JsrEntry;
use lsp_resolver::jsr::JsrNvInfo;
use lsp_resolver::media::MediaType;
use lsp_resolver::node::NodeResolutionMode;
use lsp_resolver::node::NodeResolver;
use lsp_resolver::node::ReqResolution;
use lsp_resolver::package_ref::parse_ref;
use lsp_resolver::redirect::HeaderProvider;
use lsp_resolver::redirect::RedirectResolver;
use lsp_resolver::scope::ScopeResolver;
use lsp_resolver::semver::PackageNv;
use lsp_resolver::semver::PackageReq;
use lsp_resolver::semver::Version;
use lsp_resolver::semver::VersionRange;
use lsp_resolver::sloppy::SloppyImportsResolver;

fn b(s: &str) -> Vec<u8> {
    s.as_bytes().to_vec()
}

#[test]
fn test_parse_ref() {
    let r = parse_ref(&b("@std/path@^1.0.8/join.ts")).unwrap();
    assert_eq!(r.req.name, b("@std/path"));
    assert_eq!(
        r.req.range,
        VersionRange::Caret(Version { major: 1, minor: 0, patch: 8 })
    );
    assert_eq!(r.sub_path, Some(b("join.ts")));

    let bare = parse_ref(&b("chalk")).unwrap();
    assert_eq!(bare.req.name, b("chalk"));
    assert_eq!(bare.req.range, VersionRange::Any);
    assert_eq!(bare.sub_path, None);

    let pinned = parse_ref(&b("chalk@5.3.0")).unwrap();
    assert_eq!(
        pinned.req.range,
        VersionRange::Exact(Version { major: 5, minor: 3, patch: 0 })
    );

    let star = parse_ref(&b("chalk@*/dir/mod.ts")).unwrap();
    assert_eq!(star.req.range, VersionRange::Any);
    assert_eq!(star.sub_path, Some(b("dir/mod.ts")));

    assert!(parse_ref(&b("")).is_none());
    assert!(parse_ref(&b("chalk@nonsense")).is_none());
}

#[test]
fn test_import_map_longest_prefix() {
    let rows = vec![
        (b("lib/"), b("https://cdn/lib/")),
        (b("lib/deep/"), b("https://cdn/deep/")),
    ];
    assert_eq!(
        resolve_import_map(&rows, &b("lib/a.ts")),
        Some(b("https://cdn/lib/a.ts"))
    );
    assert_eq!(
        resolve_import_map(&rows, &b("lib/deep/a.ts")),
        Some(b("https://cdn/deep/a.ts"))
    );
    assert_eq!(resolve_import_map(&rows, &b("other/a.ts")), None);
}

fn graph_scope() -> ScopeResolver {
    let req = PackageReq { name: b("@std/path"), range: VersionRange::Any };
    let nv = PackageNv { name: b("@std/path"), version: Version { major: 1, minor: 0, patch: 8 } };
    let mut scope = ScopeResolver::unscoped_default();
    scope.jsr_resolver = Some(JsrCacheResolver {
        nv_by_req: vec![JsrEntry { req: req.clone(), nv: Some(nv.clone()) }],
        info_by_nv: vec![JsrNvInfo {
            nv,
            base_url: b("https://jsr.io/@std/path/1.0.8/"),
            exports: Vec::new(),
        }],
    });
    scope.node_resolver = Some(NodeResolver {
        req_resolutions: vec![ReqResolution {
            req: PackageReq { name: b("chalk"), range: VersionRange::Any },
            mode: NodeResolutionMode::Types,
            url: b("file:///w/node_modules/chalk/index.d.ts"),
            media: MediaType::Dts,
        }],
        in_npm_pkg_roots: Vec::new(),
        npm_pkg_specifiers: Vec::new(),
    });
    scope.redirect_resolver = Some(RedirectResolver::new(
        HeaderProvider::new(vec![
            (b("https://foo/a.js"), vec![(b("location"), b("./b.js"))]),
            (b("https://foo/b.js"), Vec::new()),
        ]),
        &Vec::new(),
    ));
    scope
}

#[test]
fn test_graph_resolve_jsr_arm() {
    let mut scope = graph_scope();
    assert_eq!(
        scope.resolve_for_graph(&b("jsr:@std/path/join.ts"), &b("file:///w/main.ts")),
        Ok(b("https://jsr.io/@std/path/1.0.8/join.ts"))
    );
    assert_eq!(
        scope.resolve_for_graph(&b("jsr:@other/pkg"), &b("file:///w/main.ts")),
        Err(ResolveError::Unresolved)
    );
    assert_eq!(
        scope.resolve_for_graph(&b("jsr:"), &b("file:///w/main.ts")),
        Err(ResolveError::ParseFailed)
    );
}

#[test]
fn test_graph_resolve_npm_arm() {
    let mut scope = graph_scope();
    assert_eq!(
        scope.resolve_for_graph(&b("npm:chalk"), &b("file:///w/main.ts")),
        Ok(b("file:///w/node_modules/chalk/index.d.ts"))
    );
    assert_eq!(
        scope.resolve_for_graph(&b("npm:unknown"), &b("file:///w/main.ts")),
        Err(ResolveError::Unresolved)
    );
}

#[test]
fn test_graph_resolve_url_arm() {
    let mut scope = graph_scope();
    assert_eq!(
        scope.resolve_for_graph(&b("https://foo/a.js"), &b("file:///w/main.ts")),
        Ok(b("https://foo/b.js"))
    );
    assert_eq!(
        scope.resolve_for_graph(&b("https://foo/missing.js"), &b("file:///w/main.ts")),
        Err(ResolveError::NeedsCache)
    );
}

#[test]
fn test_graph_resolve_relative_arm() {
    let mut scope = graph_scope();
    assert_eq!(
        scope.resolve_for_graph(&b("./util.ts"), &b("file:///w/main.ts")),
        Ok(b("file:///w/util.ts"))
    );
    assert_eq!(
        scope.resolve_for_graph(&b("bare-unknown"), &b("file:///w/main.ts")),
        Err(ResolveError::Unresolved)
    );
    let mut sloppy = graph_scope();
    sloppy.sloppy_resolver = Some(SloppyImportsResolver {
        existing_files: vec![b("file:///w/util.ts")],
    });
    assert_eq!(
        sloppy.resolve_for_graph(&b("./util"), &b("file:///w/main.ts")),
        Ok(b("file:///w/util.ts"))
    );
}

#[test]
fn test_graph_resolve_builtins_and_import_map() {
    let mut scope = graph_scope();
    let mut config = lsp_resolver::config::ConfigData {
        scope: b("file:///w/"),
        byonm: false,
        node_modules_dir: None,
        lockfile: None,
        vendor_dir: None,
        sloppy_imports: false,
        bare_node_builtins: true,
        jsx_import_source: None,
        import_map: vec![(b("foo/"), b("https://foo/"))],
        pkg_json: None,
    };
    scope.config_data = Some(config.duplicate());
    assert_eq!(
        scope.resolve_for_graph(&b("path"), &b("file:///w/main.ts")),
        Ok(b("node:path"))
    );
    assert_eq!(
        scope.resolve_for_graph(&b("foo/a.js"), &b("file:///w/main.ts")),
        Ok(b("https://foo/b.js"))
    );
    config.bare_node_builtins = false;
    let mut plain = graph_scope();
    plain.config_data = Some(config);
    assert_eq!(
        plain.resolve_for_graph(&b("path"), &b("file:///w/main.ts")),
        Err(ResolveError::Unresolved)
    );
}
