//! Extension-guessing for relative imports.
//!
//! When a relative specifier names no existing file, the resolver retries
//! with a fixed list of suffixes — `.ts`, `.tsx`, `.js`, `.mjs`, then the
//! same four behind `/index` — and returns the first hit. Which files exist
//! is collaborator knowledge, held here as data.

use vstd::prelude::*;
use crate::url_bytes::clone_bytes;
use crate::url_bytes::concat_bytes;
use crate::url_bytes::list_contains;
use crate::url_bytes::spec_list_contains;

verus! {

broadcast use crate::url_bytes::lemma_bytes_deep_view;

/// The candidate URLs tried for a resolved-but-missing URL, in order: the
/// URL itself, then each suffix, then each `/index` form.
pub open spec fn spec_sloppy_candidates(u: Seq<u8>) -> Seq<Seq<u8>> {
    seq![
        u,
        u + ts_suffix(),
        u + tsx_suffix(),
        u + js_suffix(),
        u + mjs_suffix(),
        u + index_prefix() + ts_suffix(),
        u + index_prefix() + tsx_suffix(),
        u + index_prefix() + js_suffix(),
        u + index_prefix() + mjs_suffix(),
    ]
}

/// The bytes of `".ts"`.
pub open spec fn ts_suffix() -> Seq<u8> {
    seq![46u8, 116u8, 115u8]
}

/// The bytes of `".tsx"`.
pub open spec fn tsx_suffix() -> Seq<u8> {
    seq![46u8, 116u8, 115u8, 120u8]
}

/// The bytes of `".js"`.
pub open spec fn js_suffix() -> Seq<u8> {
    seq![46u8, 106u8, 115u8]
}

/// The bytes of `".mjs"`.
pub open spec fn mjs_suffix() -> Seq<u8> {
    seq![46u8, 109u8, 106u8, 115u8]
}

/// The bytes of `"/index"`.
pub open spec fn index_prefix() -> Seq<u8> {
    seq![47u8, 105u8, 110u8, 100u8, 101u8, 120u8]
}

/// The first candidate that exists, if any.
pub open spec fn spec_first_existing(files: Seq<Seq<u8>>, cands: Seq<Seq<u8>>) -> Option<Seq<u8>>
    decreases cands.len(),
{
    if cands.len() == 0 {
        None
    } else if spec_list_contains(files, cands[0]) {
        Some(cands[0])
    } else {
        spec_first_existing(files, cands.drop_first())
    }
}

/// The extension-guessing resolver of one scope.
pub struct SloppyImportsResolver {
    /// The file URLs known to exist.
    pub existing_files: Vec<Vec<u8>>,
}

impl SloppyImportsResolver {
    /// The known files, as views.
    pub open spec fn files(&self) -> Seq<Seq<u8>> {
        self.existing_files.deep_view()
    }

    /// The first existing candidate for this URL: the URL itself when it
    /// exists, else the first suffixed or `/index`-suffixed form that does.
    pub fn resolve(&self, url: &Vec<u8>) -> (r: Option<Vec<u8>>)
        ensures
            r.deep_view() == spec_first_existing(self.files(), spec_sloppy_candidates(url@)),
    {
        let ghost cands = spec_sloppy_candidates(url@);
        let ts: [u8; 3] = [46u8, 116u8, 115u8];
        let tsx: [u8; 4] = [46u8, 116u8, 115u8, 120u8];
        let js: [u8; 3] = [46u8, 106u8, 115u8];
        let mjs: [u8; 4] = [46u8, 109u8, 106u8, 115u8];
        let index_ts: [u8; 9] = [47u8, 105u8, 110u8, 100u8, 101u8, 120u8, 46u8, 116u8, 115u8];
        let index_tsx: [u8; 10] = [
            47u8,
            105u8,
            110u8,
            100u8,
            101u8,
            120u8,
            46u8,
            116u8,
            115u8,
            120u8,
        ];
        let index_js: [u8; 9] = [47u8, 105u8, 110u8, 100u8, 101u8, 120u8, 46u8, 106u8, 115u8];
        let index_mjs: [u8; 10] = [
            47u8,
            105u8,
            110u8,
            100u8,
            101u8,
            120u8,
            46u8,
            109u8,
            106u8,
            115u8,
        ];
        proof {
            assert(ts@ =~= ts_suffix());
            assert(tsx@ =~= tsx_suffix());
            assert(js@ =~= js_suffix());
            assert(mjs@ =~= mjs_suffix());
            assert(index_ts@ =~= index_prefix() + ts_suffix());
            assert(index_tsx@ =~= index_prefix() + tsx_suffix());
            assert(index_js@ =~= index_prefix() + js_suffix());
            assert(index_mjs@ =~= index_prefix() + mjs_suffix());
        }
        let c0 = clone_bytes(url);
        let c1 = concat_bytes(url, ts.as_slice());
        let c2 = concat_bytes(url, tsx.as_slice());
        let c3 = concat_bytes(url, js.as_slice());
        let c4 = concat_bytes(url, mjs.as_slice());
        let c5 = concat_bytes(url, index_ts.as_slice());
        let c6 = concat_bytes(url, index_tsx.as_slice());
        let c7 = concat_bytes(url, index_js.as_slice());
        let c8 = concat_bytes(url, index_mjs.as_slice());
        let ghost d1 = cands.drop_first();
        let ghost d2 = d1.drop_first();
        let ghost d3 = d2.drop_first();
        let ghost d4 = d3.drop_first();
        let ghost d5 = d4.drop_first();
        let ghost d6 = d5.drop_first();
        let ghost d7 = d6.drop_first();
        let ghost d8 = d7.drop_first();
        let ghost d9 = d8.drop_first();
        proof {
            reveal_with_fuel(spec_first_existing, 10);
            assert(c5@ =~= url@ + index_prefix() + ts_suffix());
            assert(c6@ =~= url@ + index_prefix() + tsx_suffix());
            assert(c7@ =~= url@ + index_prefix() + js_suffix());
            assert(c8@ =~= url@ + index_prefix() + mjs_suffix());
            assert(cands[0] == c0@);
            assert(d1[0] == c1@ && d2[0] == c2@ && d3[0] == c3@ && d4[0] == c4@ && d5[0] == c5@
                && d6[0] == c6@ && d7[0] == c7@ && d8[0] == c8@ && d9.len() == 0);
        }
        if list_contains(&self.existing_files, &c0) {
            return Some(c0);
        }
        if list_contains(&self.existing_files, &c1) {
            return Some(c1);
        }
        if list_contains(&self.existing_files, &c2) {
            return Some(c2);
        }
        if list_contains(&self.existing_files, &c3) {
            return Some(c3);
        }
        if list_contains(&self.existing_files, &c4) {
            return Some(c4);
        }
        if list_contains(&self.existing_files, &c5) {
            return Some(c5);
        }
        if list_contains(&self.existing_files, &c6) {
            return Some(c6);
        }
        if list_contains(&self.existing_files, &c7) {
            return Some(c7);
        }
        if list_contains(&self.existing_files, &c8) {
            return Some(c8);
        }
        None
    }
}

} // verus!
