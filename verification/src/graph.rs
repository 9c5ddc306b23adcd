//! The graph resolver: one resolution contract over all sub-resolvers.
//!
//! During module-graph building every (specifier, referrer) pair is
//! resolved in a fixed order: registry short-references, package-manager
//! short-references, absolute URLs (through the vendor mirror and the
//! redirect resolver), workspace rewrites (import map, bare platform
//! builtins), and finally relative resolution with extension guessing.
//! The language server always resolves in types mode.

use vstd::prelude::*;
use crate::node::NodeResolutionMode;
use crate::package_ref::parse_ref;
use crate::package_ref::spec_parse_ref;
use crate::redirect::spec_table_after;
use crate::redirect::spec_walk;
use crate::scope::ScopeResolver;
use crate::url_bytes::clone_bytes;
use crate::url_bytes::concat_bytes;
use crate::url_bytes::bytes_eq;
use crate::url_bytes::is_prefix_of;
use crate::url_bytes::spec_is_http_or_https;
use crate::url_bytes::starts_with;
use crate::url_parse::ParseOutcome;
use crate::url_parse::spec_url_parse;
use crate::url_parse::spec_url_parse_relative_err;
use crate::url_parse::url_parse;

verus! {

broadcast use crate::url_bytes::lemma_bytes_deep_view;

/// The three outcome classes a failed resolution falls in: a well-formed
/// specifier with no matching artifact, a specifier that cannot be parsed,
/// and an environmental miss that a user-initiated cache action can mend.
#[derive(Debug, Clone, Copy, PartialEq, Eq, Structural)]
pub enum ResolveError {
    Unresolved,
    ParseFailed,
    NeedsCache,
}

/// The bytes of `"jsr:"`.
pub open spec fn jsr_scheme_prefix() -> Seq<u8> {
    seq![106u8, 115u8, 114u8, 58u8]
}

/// The bytes of `"npm:"`.
pub open spec fn npm_scheme_prefix() -> Seq<u8> {
    seq![110u8, 112u8, 109u8, 58u8]
}

/// The bytes of `"node:"`.
pub open spec fn node_scheme_prefix() -> Seq<u8> {
    seq![110u8, 111u8, 100u8, 101u8, 58u8]
}

/// The import-map row that wins for a specifier: the first row among those
/// whose key is the longest matching prefix.
pub open spec fn spec_import_map_best(rows: Seq<(Seq<u8>, Seq<u8>)>, text: Seq<u8>) -> Option<
    (Seq<u8>, Seq<u8>),
>
    decreases rows.len(),
{
    if rows.len() == 0 {
        None
    } else {
        let rest = spec_import_map_best(rows.drop_first(), text);
        if is_prefix_of(rows[0].0, text) {
            match rest {
                Some(b) => if b.0.len() > rows[0].0.len() {
                    Some(b)
                } else {
                    Some(rows[0])
                },
                None => Some(rows[0]),
            }
        } else {
            rest
        }
    }
}

/// What the import map rewrites a specifier to: the winning row's target
/// with the remainder of the specifier appended.
pub open spec fn spec_import_map_result(rows: Seq<(Seq<u8>, Seq<u8>)>, text: Seq<u8>) -> Option<
    Seq<u8>,
> {
    match spec_import_map_best(rows, text) {
        Some(row) => Some(row.1 + text.skip(row.0.len() as int)),
        None => None,
    }
}

/// Apply the import map to a specifier: the longest matching key prefix
/// wins, and the remainder of the specifier is appended to its target.
pub fn resolve_import_map(rows: &Vec<(Vec<u8>, Vec<u8>)>, text: &Vec<u8>) -> (r: Option<Vec<u8>>)
    ensures
        r.deep_view() == spec_import_map_result(rows.deep_view(), text@),
{
    let ghost rv = rows.deep_view();
    let mut best: Option<usize> = None;
    let mut i: usize = rows.len();
    assert(rv.skip(i as int).len() == 0);
    while i > 0
        invariant
            i <= rv.len(),
            rv == rows.deep_view(),
            match best {
                Some(b) => i <= b < rv.len() && is_prefix_of(rv[b as int].0, text@)
                    && spec_import_map_best(rv.skip(i as int), text@) == Some(rv[b as int]),
                None => spec_import_map_best(rv.skip(i as int), text@) is None,
            },
        decreases i,
    {
        i -= 1;
        let ghost pre = rv.skip(i as int);
        assert(pre[0] == rv[i as int]);
        assert(pre.drop_first() =~= rv.skip(i + 1));
        let head_len = rows[i].0.len();
        if starts_with(text.as_slice(), rows[i].0.as_slice()) {
            match best {
                None => {
                    best = Some(i);
                },
                Some(b) => {
                    if rows[b].0.len() > head_len {
                    } else {
                        best = Some(i);
                    }
                },
            }
        }
    }
    assert(rv.skip(0) =~= rv);
    match best {
        Some(b) => {
            let row = &rows[b];
            assert(row.0@.len() <= text@.len());
            let remainder = &text.as_slice()[row.0.len()..text.len()];
            assert(remainder@ =~= text@.skip(row.0@.len() as int));
            let out = concat_bytes(&row.1, remainder);
            assert(rv[b as int] == (row.0@, row.1@));
            Some(out)
        },
        None => None,
    }
}

/// The commonly queried platform builtin module names.
pub open spec fn spec_is_node_builtin(s: Seq<u8>) -> bool {
    ||| s =~= seq![102u8, 115u8]  // fs
    ||| s =~= seq![111u8, 115u8]  // os
    ||| s =~= seq![112u8, 97u8, 116u8, 104u8]  // path
    ||| s =~= seq![117u8, 114u8, 108u8]  // url
    ||| s =~= seq![117u8, 116u8, 105u8, 108u8]  // util
    ||| s =~= seq![98u8, 117u8, 102u8, 102u8, 101u8, 114u8]  // buffer
    ||| s =~= seq![115u8, 116u8, 114u8, 101u8, 97u8, 109u8]  // stream
    ||| s =~= seq![101u8, 118u8, 101u8, 110u8, 116u8, 115u8]  // events
    ||| s =~= seq![99u8, 114u8, 121u8, 112u8, 116u8, 111u8]  // crypto
    ||| s =~= seq![112u8, 114u8, 111u8, 99u8, 101u8, 115u8, 115u8]  // process
}

/// Is the bare specifier a known platform builtin name?
pub fn is_node_builtin(s: &Vec<u8>) -> (r: bool)
    ensures
        r == spec_is_node_builtin(s@),
{
    let names: [&[u8]; 10] = [
        &[102u8, 115u8],
        &[111u8, 115u8],
        &[112u8, 97u8, 116u8, 104u8],
        &[117u8, 114u8, 108u8],
        &[117u8, 116u8, 105u8, 108u8],
        &[98u8, 117u8, 102u8, 102u8, 101u8, 114u8],
        &[115u8, 116u8, 114u8, 101u8, 97u8, 109u8],
        &[101u8, 118u8, 101u8, 110u8, 116u8, 115u8],
        &[99u8, 114u8, 121u8, 112u8, 116u8, 111u8],
        &[112u8, 114u8, 111u8, 99u8, 101u8, 115u8, 115u8],
    ];
    let mut i: usize = 0;
    let mut hit: bool = false;
    while i < 10
        invariant
            i <= 10,
            names@.len() == 10,
            names@[0]@ == seq![102u8, 115u8],
            names@[1]@ == seq![111u8, 115u8],
            names@[2]@ == seq![112u8, 97u8, 116u8, 104u8],
            names@[3]@ == seq![117u8, 114u8, 108u8],
            names@[4]@ == seq![117u8, 116u8, 105u8, 108u8],
            names@[5]@ == seq![98u8, 117u8, 102u8, 102u8, 101u8, 114u8],
            names@[6]@ == seq![115u8, 116u8, 114u8, 101u8, 97u8, 109u8],
            names@[7]@ == seq![101u8, 118u8, 101u8, 110u8, 116u8, 115u8],
            names@[8]@ == seq![99u8, 114u8, 121u8, 112u8, 116u8, 111u8],
            names@[9]@ == seq![112u8, 114u8, 111u8, 99u8, 101u8, 115u8, 115u8],
            hit ==> spec_is_node_builtin(s@),
            !hit ==> forall|j: int| 0 <= j < i ==> s@ != #[trigger] names@[j]@,
        decreases 10 - i,
    {
        if bytes_eq(s.as_slice(), names[i]) {
            hit = true;
        }
        i += 1;
    }
    if !hit {
        assert(!spec_is_node_builtin(s@)) by {
            assert(s@ != names@[0]@ && s@ != names@[1]@ && s@ != names@[2]@ && s@ != names@[3]@
                && s@ != names@[4]@ && s@ != names@[5]@ && s@ != names@[6]@ && s@ != names@[7]@
                && s@ != names@[8]@ && s@ != names@[9]@);
        }
    }
    hit
}

/// Where the vendor mirror keeps a remote URL: the vendor directory with
/// the URL's scheme-less remainder appended.
pub open spec fn spec_vendored(vendor: Seq<u8>, u: Seq<u8>) -> Seq<u8> {
    if is_prefix_of(crate::url_bytes::https_prefix(), u) {
        vendor + u.skip(8)
    } else {
        vendor + u.skip(7)
    }
}

/// The URL the redirect step starts from: remote URLs are rewritten to the
/// vendor mirror when one is configured.
pub open spec fn spec_redirect_query(s: ScopeResolver, u: Seq<u8>) -> Seq<u8> {
    match s.config_data {
        Some(c) => match c@.vendor_dir {
            Some(v) => if spec_is_http_or_https(u) {
                spec_vendored(v, u)
            } else {
                u
            },
            None => u,
        },
        None => u,
    }
}

impl ScopeResolver {
    /// Rewrite a remote URL to the vendor mirror when one is configured.
    fn vendor_rewrite(&self, u: &Vec<u8>) -> (r: Vec<u8>)
        ensures
            r@ == spec_redirect_query(*self, u@),
    {
        match &self.config_data {
            Some(c) => match &c.vendor_dir {
                Some(v) => {
                    if crate::url_bytes::is_http_or_https(u) {
                        let https: [u8; 8] = [104u8, 116u8, 116u8, 112u8, 115u8, 58u8, 47u8,
                            47u8];
                        proof {
                            assert(https@ =~= crate::url_bytes::https_prefix());
                        }
                        if starts_with(u.as_slice(), https.as_slice()) {
                            let rest = &u.as_slice()[8..u.len()];
                            assert(rest@ =~= u@.skip(8));
                            concat_bytes(v, rest)
                        } else {
                            let rest = &u.as_slice()[7..u.len()];
                            assert(rest@ =~= u@.skip(7));
                            concat_bytes(v, rest)
                        }
                    } else {
                        clone_bytes(u)
                    }
                },
                None => clone_bytes(u),
            },
            None => clone_bytes(u),
        }
    }

    /// Delegate an absolute URL to the redirect resolver, through the
    /// vendor mirror: an unresolved redirect is an environmental miss.
    fn resolve_url_arm(&mut self, u: &Vec<u8>) -> (r: Result<Vec<u8>, ResolveError>)
        ensures
            graph_url_arm_ok(*old(self), *final(self), u@, r),
    {
        let q = self.vendor_rewrite(u);
        match &mut self.redirect_resolver {
            None => Ok(q),
            Some(rr) => match rr.resolve(&q) {
                Some(d) => Ok(d),
                None => Err(ResolveError::NeedsCache),
            },
        }
    }

    /// Resolve one (specifier, referrer) pair for graph building, in the
    /// fixed order: registry references, package-manager references,
    /// absolute URLs through the vendor mirror and the redirect table,
    /// import-map rewrites, bare platform builtins, and relative
    /// resolution with extension guessing. Exactly one outcome is
    /// returned: a resolved URL or one of the three error classes.
    pub fn resolve_for_graph(&mut self, specifier_text: &Vec<u8>, referrer: &Vec<u8>) -> (r:
        Result<Vec<u8>, ResolveError>)
        ensures
            graph_resolution_ok(*old(self), *final(self), specifier_text@, referrer@, r),
    {
        let jsr_prefix: [u8; 4] = [106u8, 115u8, 114u8, 58u8];
        let npm_prefix: [u8; 4] = [110u8, 112u8, 109u8, 58u8];
        proof {
            assert(jsr_prefix@ =~= jsr_scheme_prefix());
            assert(npm_prefix@ =~= npm_scheme_prefix());
        }
        if starts_with(specifier_text.as_slice(), jsr_prefix.as_slice()) {
            let rest_slice = &specifier_text.as_slice()[4..specifier_text.len()];
            assert(rest_slice@ =~= specifier_text@.skip(4));
            let rest = crate::url_bytes::bytes_of_slice(rest_slice);
            match parse_ref(&rest) {
                None => Err(ResolveError::ParseFailed),
                Some(rr) => match &self.jsr_resolver {
                    None => Err(ResolveError::Unresolved),
                    Some(j) => match j.jsr_to_resource_url(&rr) {
                        Some(u) => Ok(u),
                        None => Err(ResolveError::Unresolved),
                    },
                },
            }
        } else if starts_with(specifier_text.as_slice(), npm_prefix.as_slice()) {
            let rest_slice = &specifier_text.as_slice()[4..specifier_text.len()];
            assert(rest_slice@ =~= specifier_text@.skip(4));
            let rest = crate::url_bytes::bytes_of_slice(rest_slice);
            match parse_ref(&rest) {
                None => Err(ResolveError::ParseFailed),
                Some(rr) => match &self.node_resolver {
                    None => Err(ResolveError::Unresolved),
                    Some(n) => match n.resolve_req_reference(&rr, NodeResolutionMode::Types) {
                        Some(p) => Ok(p.0),
                        None => Err(ResolveError::Unresolved),
                    },
                },
            }
        } else {
            match url_parse(specifier_text) {
                ParseOutcome::Parsed(u) => self.resolve_url_arm(&u),
                ParseOutcome::Invalid => Err(ResolveError::ParseFailed),
                ParseOutcome::RelativeWithoutBase => {
                    let im_rows: Option<Vec<u8>> = match &self.config_data {
                        Some(c) => resolve_import_map(&c.import_map, specifier_text),
                        None => None,
                    };
                    match im_rows {
                        Some(rewritten) => match url_parse(&rewritten) {
                            ParseOutcome::Parsed(u) => self.resolve_url_arm(&u),
                            _ => Err(ResolveError::Unresolved),
                        },
                        None => {
                            let builtins_enabled: bool = match &self.config_data {
                                Some(c) => c.bare_node_builtins,
                                None => false,
                            };
                            if builtins_enabled && is_node_builtin(specifier_text) {
                                let node_p: [u8; 5] = [110u8, 111u8, 100u8, 101u8, 58u8];
                                proof {
                                    assert(node_p@ =~= node_scheme_prefix());
                                }
                                let out = crate::url_bytes::bytes_of_slice(node_p.as_slice());
                                assert(out@ =~= node_scheme_prefix());
                                let joined = concat_bytes(&out, specifier_text.as_slice());
                                Ok(joined)
                            } else if crate::url_parse::has_relative_prefix(specifier_text) {
                                match self.resolve_relative_import(specifier_text, referrer) {
                                    Some(u) => Ok(u),
                                    None => Err(ResolveError::Unresolved),
                                }
                            } else {
                                Err(ResolveError::Unresolved)
                            }
                        },
                    }
                },
            }
        }
    }
}

/// The URL arm's contract: the query is the possibly vendored URL; with no
/// redirect resolver it stands as resolved; otherwise the walk decides and
/// the table evolves exactly as the walk says, while every other part of
/// the scope is untouched.
pub open spec fn graph_url_arm_ok(
    a: ScopeResolver,
    b: ScopeResolver,
    u: Seq<u8>,
    r: Result<Vec<u8>, ResolveError>,
) -> bool {
    let q = spec_redirect_query(a, u);
    &&& b.cjs_tracker == a.cjs_tracker
    &&& b.jsr_resolver == a.jsr_resolver
    &&& b.npm_resolver == a.npm_resolver
    &&& b.node_resolver == a.node_resolver
    &&& b.pkg_json_resolver == a.pkg_json_resolver
    &&& b.sloppy_resolver == a.sloppy_resolver
    &&& b.graph_imports == a.graph_imports
    &&& b.package_json_deps_by_resolution == a.package_json_deps_by_resolution
    &&& b.config_data == a.config_data
    &&& match a.redirect_resolver {
        None => b.redirect_resolver is None && (r matches Ok(v) && v@ == q),
        Some(x) => {
            &&& b.redirect_resolver matches Some(y) && y.provider_view() == x.provider_view()
                && (x.table_finite() ==> y.table_finite()) && (if spec_is_http_or_https(q) {
                y.table() == spec_table_after(x.table(), x.provider_view(), q)
            } else {
                y.table() == x.table()
            })
            &&& if spec_is_http_or_https(q) {
                match spec_walk(x.table(), x.provider_view(), q, q, 0).destination {
                    Some(d) => r matches Ok(v) && v@ == d,
                    None => r == Err::<Vec<u8>, ResolveError>(ResolveError::NeedsCache),
                }
            } else {
                r matches Ok(v) && v@ == q
            }
        },
    }
}

/// The scope is untouched: every field of `b` equals `a`'s.
pub open spec fn scope_unchanged(a: ScopeResolver, b: ScopeResolver) -> bool {
    &&& b.cjs_tracker == a.cjs_tracker
    &&& b.jsr_resolver == a.jsr_resolver
    &&& b.npm_resolver == a.npm_resolver
    &&& b.node_resolver == a.node_resolver
    &&& b.pkg_json_resolver == a.pkg_json_resolver
    &&& b.redirect_resolver == a.redirect_resolver
    &&& b.sloppy_resolver == a.sloppy_resolver
    &&& b.graph_imports == a.graph_imports
    &&& b.package_json_deps_by_resolution == a.package_json_deps_by_resolution
    &&& b.config_data == a.config_data
}

/// The whole resolution contract, arm by arm, in resolution order.
pub open spec fn graph_resolution_ok(
    a: ScopeResolver,
    b: ScopeResolver,
    text: Seq<u8>,
    referrer: Seq<u8>,
    r: Result<Vec<u8>, ResolveError>,
) -> bool {
    if is_prefix_of(jsr_scheme_prefix(), text) {
        &&& scope_unchanged(a, b)
        &&& match spec_parse_ref(text.skip(4)) {
            None => r == Err::<Vec<u8>, ResolveError>(ResolveError::ParseFailed),
            Some(rr) => match a.jsr_resolver {
                None => r == Err::<Vec<u8>, ResolveError>(ResolveError::Unresolved),
                Some(j) => match crate::jsr::spec_jsr_to_resource_url(
                    j.rows(),
                    j.info_rows(),
                    rr,
                ) {
                    Some(u) => r matches Ok(v) && v@ == u,
                    None => r == Err::<Vec<u8>, ResolveError>(ResolveError::Unresolved),
                },
            },
        }
    } else if is_prefix_of(npm_scheme_prefix(), text) {
        &&& scope_unchanged(a, b)
        &&& match spec_parse_ref(text.skip(4)) {
            None => r == Err::<Vec<u8>, ResolveError>(ResolveError::ParseFailed),
            Some(rr) => match a.node_resolver {
                None => r == Err::<Vec<u8>, ResolveError>(ResolveError::Unresolved),
                Some(n) => match crate::node::spec_resolve_req(
                    n.rows(),
                    rr.req,
                    NodeResolutionMode::Types,
                ) {
                    Some(p) => r matches Ok(v) && v@ == p.0,
                    None => r == Err::<Vec<u8>, ResolveError>(ResolveError::Unresolved),
                },
            },
        }
    } else {
        match spec_url_parse(text) {
            Some(u) => graph_url_arm_ok(a, b, u, r),
            None => if !spec_url_parse_relative_err(text) {
                scope_unchanged(a, b) && r == Err::<Vec<u8>, ResolveError>(
                    ResolveError::ParseFailed,
                )
            } else {
                let im = match a.config_data {
                    Some(c) => spec_import_map_result(c@.import_map, text),
                    None => None,
                };
                match im {
                    Some(rewritten) => match spec_url_parse(rewritten) {
                        Some(u) => graph_url_arm_ok(a, b, u, r),
                        None => scope_unchanged(a, b) && r == Err::<Vec<u8>, ResolveError>(
                            ResolveError::Unresolved,
                        ),
                    },
                    None => {
                        &&& scope_unchanged(a, b)
                        &&& {
                            let builtins = match a.config_data {
                                Some(c) => c@.bare_node_builtins,
                                None => false,
                            };
                            if builtins && spec_is_node_builtin(text) {
                                r matches Ok(v) && v@ == node_scheme_prefix() + text
                            } else if crate::url_parse::spec_has_relative_prefix(text) {
                                match crate::url_parse::spec_resolve_import(text, referrer) {
                                    None => r == Err::<Vec<u8>, ResolveError>(
                                        ResolveError::Unresolved,
                                    ),
                                    Some(u) => match a.sloppy_resolver {
                                        Some(s) => match crate::sloppy::spec_first_existing(
                                            s.files(),
                                            crate::sloppy::spec_sloppy_candidates(u),
                                        ) {
                                            Some(v2) => r matches Ok(v) && v@ == v2,
                                            None => r == Err::<Vec<u8>, ResolveError>(
                                                ResolveError::Unresolved,
                                            ),
                                        },
                                        None => r matches Ok(v) && v@ == u,
                                    },
                                }
                            } else {
                                r == Err::<Vec<u8>, ResolveError>(ResolveError::Unresolved)
                            }
                        }
                    },
                }
            },
        }
    }
}

} // verus!
