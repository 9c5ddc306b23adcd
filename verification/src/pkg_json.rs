//! The nearest-manifest resolver: which `package.json` governs a file URL.
//!
//! The filesystem walk that discovers manifests is a collaborator; the
//! resolver holds the discovered manifests and answers nearest-manifest
//! queries by longest directory-prefix match.

use vstd::prelude::*;
use crate::url_bytes::is_prefix_of;
use crate::url_bytes::starts_with;

verus! {

/// One discovered manifest: its own URL, the URL prefix of its directory,
/// and the dependencies it declares as (name, range text) pairs.
#[derive(Debug, Clone, PartialEq, Eq)]
pub struct PackageJsonData {
    pub specifier: Vec<u8>,
    pub dir_url: Vec<u8>,
    pub dependencies: Vec<(Vec<u8>, Vec<u8>)>,
}

/// The mathematical shadow of a manifest.
pub struct PkgJsonView {
    pub specifier: Seq<u8>,
    pub dir_url: Seq<u8>,
    pub dependencies: Seq<(Seq<u8>, Seq<u8>)>,
}

impl View for PackageJsonData {
    type V = PkgJsonView;

    open spec fn view(&self) -> PkgJsonView {
        PkgJsonView {
            specifier: self.specifier@,
            dir_url: self.dir_url@,
            dependencies: self.dependencies.deep_view(),
        }
    }
}

/// `r` is the nearest-manifest answer for `referrer` over these manifests:
/// a known manifest whose directory prefixes the referrer, of maximal
/// directory length; or nothing when no known directory contains it.
pub open spec fn spec_is_closest(
    manifests: Seq<PkgJsonView>,
    referrer: Seq<u8>,
    r: Option<PkgJsonView>,
) -> bool {
    match r {
        Some(m) => is_prefix_of(m.dir_url, referrer) && (exists|b: int|
            0 <= b < manifests.len() && #[trigger] manifests[b] == m) && forall|j: int|
            0 <= j < manifests.len() && is_prefix_of((#[trigger] manifests[j]).dir_url, referrer)
                ==> manifests[j].dir_url.len() <= m.dir_url.len(),
        None => forall|j: int| 0 <= j < manifests.len() ==> !is_prefix_of(
            (#[trigger] manifests[j]).dir_url,
            referrer,
        ),
    }
}

/// The manifests known to one scope.
pub struct PackageJsonResolver {
    pub manifests: Vec<PackageJsonData>,
}

/// An owned copy of a manifest.
pub fn clone_pkg_json(m: &PackageJsonData) -> (r: PackageJsonData)
    ensures
        r@ == m@,
{
    PackageJsonData {
        specifier: crate::url_bytes::clone_bytes(&m.specifier),
        dir_url: crate::url_bytes::clone_bytes(&m.dir_url),
        dependencies: crate::url_bytes::clone_byte_pairs(&m.dependencies),
    }
}

impl PackageJsonResolver {
    /// The manifests, as views.
    pub open spec fn manifests_view(&self) -> Seq<PkgJsonView> {
        self.manifests@.map_values(|m: PackageJsonData| m@)
    }

    /// An owned copy of the resolver's manifests.
    pub fn duplicate(&self) -> (r: PackageJsonResolver)
        ensures
            r.manifests_view() == self.manifests_view(),
    {
        let mut manifests: Vec<PackageJsonData> = Vec::new();
        let mut i: usize = 0;
        while i < self.manifests.len()
            invariant
                i <= self.manifests.len(),
                manifests@.map_values(|m: PackageJsonData| m@) =~= self.manifests_view().subrange(
                    0,
                    i as int,
                ),
            decreases self.manifests.len() - i,
        {
            let ghost before = manifests@.map_values(|m: PackageJsonData| m@);
            manifests.push(clone_pkg_json(&self.manifests[i]));
            assert(manifests@.map_values(|m: PackageJsonData| m@) =~= before.push(
                self.manifests_view()[i as int],
            ));
            i += 1;
        }
        let out = PackageJsonResolver { manifests };
        assert(out.manifests_view() =~= self.manifests_view());
        out
    }

    /// The nearest manifest for a file URL: the known manifest whose
    /// directory is the longest prefix of the URL, or nothing when no known
    /// directory contains it.
    pub fn get_closest_package_json(&self, referrer: &Vec<u8>) -> (r: Option<&PackageJsonData>)
        ensures
            spec_is_closest(self.manifests_view(), referrer@, match r {
                Some(m) => Some(m@),
                None => None,
            }),
    {
        let mut best: Option<usize> = None;
        let mut i: usize = 0;
        while i < self.manifests.len()
            invariant
                i <= self.manifests.len(),
                match best {
                    Some(b) => b < i && is_prefix_of(self.manifests@[b as int]@.dir_url, referrer@)
                        && forall|j: int| 0 <= j < i && is_prefix_of(
                        (#[trigger] self.manifests@[j])@.dir_url,
                        referrer@,
                    ) ==> self.manifests@[j]@.dir_url.len()
                        <= self.manifests@[b as int]@.dir_url.len(),
                    None => forall|j: int| 0 <= j < i ==> !is_prefix_of(
                        (#[trigger] self.manifests@[j])@.dir_url,
                        referrer@,
                    ),
                },
            decreases self.manifests.len() - i,
        {
            if starts_with(referrer.as_slice(), self.manifests[i].dir_url.as_slice()) {
                match best {
                    None => {
                        best = Some(i);
                    },
                    Some(b) => {
                        if self.manifests[i].dir_url.len() > self.manifests[b].dir_url.len() {
                            best = Some(i);
                        }
                    },
                }
            }
            i += 1;
        }
        proof {
            assert forall|j: int| 0 <= j < self.manifests@.len() implies #[trigger] self
                .manifests_view()[j] == self.manifests@[j]@ by {}
        }
        match best {
            Some(b) => {
                assert(self.manifests_view()[b as int] == self.manifests@[b as int]@);
                Some(&self.manifests[b])
            },
            None => None,
        }
    }
}

} // verus!
