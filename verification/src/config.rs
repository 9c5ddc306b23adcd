//! The configuration descriptor of one scope.
//!
//! Reading configuration files, lockfiles and manifests off disk is
//! collaborator work; what was read is held here as plain data. The scope
//! root delimits the configuration region, and membership of a referrer in
//! the scope is a prefix question on the serialized URLs.

use vstd::prelude::*;
use crate::pkg_json::PackageJsonData;
use crate::pkg_json::PkgJsonView;
use crate::url_bytes::is_prefix_of;
use crate::url_bytes::starts_with;

verus! {

/// What the resolver reads from a lockfile: the redirects section, and
/// whether the lockfile pins a package snapshot.
pub struct LockfileData {
    pub redirects: Vec<(Vec<u8>, Vec<u8>)>,
    pub has_package_snapshot: bool,
}

/// The mathematical shadow of a `LockfileData`.
pub struct LockfileView {
    pub redirects: Seq<(Seq<u8>, Seq<u8>)>,
    pub has_package_snapshot: bool,
}

impl View for LockfileData {
    type V = LockfileView;

    open spec fn view(&self) -> LockfileView {
        LockfileView {
            redirects: self.redirects.deep_view(),
            has_package_snapshot: self.has_package_snapshot,
        }
    }
}

/// The configuration of one scope, as the resolver recognizes it.
pub struct ConfigData {
    /// The root URL delimiting this scope.
    pub scope: Vec<u8>,
    /// Select the bring-your-own package-manager variant.
    pub byonm: bool,
    /// An explicit install tree, when configured.
    pub node_modules_dir: Option<Vec<u8>>,
    /// The lockfile, when one was read.
    pub lockfile: Option<LockfileData>,
    /// A local HTTP mirror, when configured.
    pub vendor_dir: Option<Vec<u8>>,
    /// Whether extension-guessing for relative imports is enabled.
    pub sloppy_imports: bool,
    /// Whether bare platform builtin names are recognized.
    pub bare_node_builtins: bool,
    /// The injected JSX runtime, when configured.
    pub jsx_import_source: Option<Vec<u8>>,
    /// Import-map rows: specifier prefix to URL prefix.
    pub import_map: Vec<(Vec<u8>, Vec<u8>)>,
    /// The workspace member's manifest, when one exists.
    pub pkg_json: Option<PackageJsonData>,
}

/// The mathematical shadow of a `ConfigData`.
pub struct ConfigView {
    pub scope: Seq<u8>,
    pub byonm: bool,
    pub node_modules_dir: Option<Seq<u8>>,
    pub lockfile: Option<LockfileView>,
    pub vendor_dir: Option<Seq<u8>>,
    pub sloppy_imports: bool,
    pub bare_node_builtins: bool,
    pub jsx_import_source: Option<Seq<u8>>,
    pub import_map: Seq<(Seq<u8>, Seq<u8>)>,
    pub pkg_json: Option<PkgJsonView>,
}

impl View for ConfigData {
    type V = ConfigView;

    open spec fn view(&self) -> ConfigView {
        ConfigView {
            scope: self.scope@,
            byonm: self.byonm,
            node_modules_dir: self.node_modules_dir.deep_view(),
            lockfile: match &self.lockfile {
                Some(l) => Some(l@),
                None => None,
            },
            vendor_dir: self.vendor_dir.deep_view(),
            sloppy_imports: self.sloppy_imports,
            bare_node_builtins: self.bare_node_builtins,
            jsx_import_source: self.jsx_import_source.deep_view(),
            import_map: self.import_map.deep_view(),
            pkg_json: match &self.pkg_json {
                Some(p) => Some(p@),
                None => None,
            },
        }
    }
}

impl ConfigData {
    /// An owned copy of the configuration.
    pub fn duplicate(&self) -> (r: ConfigData)
        ensures
            r@ == self@,
    {
        ConfigData {
            scope: crate::url_bytes::clone_bytes(&self.scope),
            byonm: self.byonm,
            node_modules_dir: crate::url_bytes::clone_opt_bytes(&self.node_modules_dir),
            lockfile: match &self.lockfile {
                Some(l) => Some(
                    LockfileData {
                        redirects: crate::url_bytes::clone_byte_pairs(&l.redirects),
                        has_package_snapshot: l.has_package_snapshot,
                    },
                ),
                None => None,
            },
            vendor_dir: crate::url_bytes::clone_opt_bytes(&self.vendor_dir),
            sloppy_imports: self.sloppy_imports,
            bare_node_builtins: self.bare_node_builtins,
            jsx_import_source: crate::url_bytes::clone_opt_bytes(&self.jsx_import_source),
            import_map: crate::url_bytes::clone_byte_pairs(&self.import_map),
            pkg_json: match &self.pkg_json {
                Some(p) => Some(crate::pkg_json::clone_pkg_json(p)),
                None => None,
            },
        }
    }

    /// Does this scope contain the referrer? Membership is a prefix test on
    /// the serialized URLs.
    pub fn scope_contains_specifier(&self, specifier: &Vec<u8>) -> (r: bool)
        ensures
            r == is_prefix_of(self@.scope, specifier@),
    {
        starts_with(specifier.as_slice(), self.scope.as_slice())
    }
}

} // verus!
