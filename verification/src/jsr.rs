//! The registry resolver: registry short-references to concrete resource
//! URLs.
//!
//! The per-scope cache that supplies registry metadata is a collaborator;
//! what it has resolved is held here as data: which request resolved to
//! which package version, and for each version its resource base URL and
//! export table.

use vstd::prelude::*;
use crate::semver::PackageNv;
use crate::semver::PackageReq;
use crate::semver::PackageReqReference;
use crate::semver::NvView;
use crate::semver::ReqView;
use crate::semver::spec_range_matches;
use crate::semver::clone_req;
use crate::semver::nv_eq;
use crate::semver::req_eq;
use crate::url_bytes::bytes_eq;
use crate::url_bytes::clone_bytes;

verus! {

/// One resolved request: the package version the registry lookup chose for
/// it, or nothing when the request is unresolvable from the cache.
pub struct JsrEntry {
    pub req: PackageReq,
    pub nv: Option<PackageNv>,
}

/// The mathematical shadow of a `JsrEntry`.
pub struct JsrEntryView {
    pub req: ReqView,
    pub nv: Option<NvView>,
}

impl View for JsrEntry {
    type V = JsrEntryView;

    open spec fn view(&self) -> JsrEntryView {
        JsrEntryView {
            req: self.req@,
            nv: match self.nv {
                Some(nv) => Some(nv@),
                None => None,
            },
        }
    }
}

/// What the cache knows about one package version: its resource base URL
/// (ending in a slash) and its export table as (path, export) pairs.
pub struct JsrNvInfo {
    pub nv: PackageNv,
    pub base_url: Vec<u8>,
    pub exports: Vec<(Vec<u8>, Vec<u8>)>,
}

/// The mathematical shadow of a `JsrNvInfo`.
pub struct JsrNvInfoView {
    pub nv: NvView,
    pub base_url: Seq<u8>,
    pub exports: Seq<(Seq<u8>, Seq<u8>)>,
}

impl View for JsrNvInfo {
    type V = JsrNvInfoView;

    open spec fn view(&self) -> JsrNvInfoView {
        JsrNvInfoView { nv: self.nv@, base_url: self.base_url@, exports: self.exports.deep_view() }
    }
}

/// The registry resolver of one scope.
pub struct JsrCacheResolver {
    pub nv_by_req: Vec<JsrEntry>,
    pub info_by_nv: Vec<JsrNvInfo>,
}

/// A resolved request really satisfies its range: the chosen version bears
/// the requested name and lies in the requested range.
pub open spec fn wf_jsr_rows(rows: Seq<JsrEntryView>) -> bool {
    forall|i: int| 0 <= i < rows.len() ==> match (#[trigger] rows[i]).nv {
        Some(nv) => nv.name == rows[i].req.name && spec_range_matches(rows[i].req.range, nv.version),
        None => true,
    }
}

/// The first row for this request, if any.
pub open spec fn spec_lookup_nv(rows: Seq<JsrEntryView>, req: ReqView) -> Option<Option<NvView>>
    decreases rows.len(),
{
    if rows.len() == 0 {
        None
    } else if rows[0].req.name == req.name && rows[0].req.range == req.range {
        Some(rows[0].nv)
    } else {
        spec_lookup_nv(rows.drop_first(), req)
    }
}

/// The request behind the first row resolved to this package version.
pub open spec fn spec_lookup_req_for_nv(rows: Seq<JsrEntryView>, nv: NvView) -> Option<ReqView>
    decreases rows.len(),
{
    if rows.len() == 0 {
        None
    } else if rows[0].nv == Some(nv) {
        Some(rows[0].req)
    } else {
        spec_lookup_req_for_nv(rows.drop_first(), nv)
    }
}

/// The first info row for this package version, if any.
pub open spec fn spec_lookup_info(rows: Seq<JsrNvInfoView>, nv: NvView) -> Option<JsrNvInfoView>
    decreases rows.len(),
{
    if rows.len() == 0 {
        None
    } else if rows[0].nv.name == nv.name && rows[0].nv.version == nv.version {
        Some(rows[0])
    } else {
        spec_lookup_info(rows.drop_first(), nv)
    }
}

/// The first export row for this path, if any.
pub open spec fn spec_lookup_export(rows: Seq<(Seq<u8>, Seq<u8>)>, path: Seq<u8>) -> Option<
    Seq<u8>,
>
    decreases rows.len(),
{
    if rows.len() == 0 {
        None
    } else if rows[0].0 == path {
        Some(rows[0].1)
    } else {
        spec_lookup_export(rows.drop_first(), path)
    }
}

/// What a registry short-reference denotes over the resolver's rows: the
/// base URL of the version the request resolved to, with the sub-path
/// appended.
pub open spec fn spec_jsr_to_resource_url(
    rows: Seq<JsrEntryView>,
    info_rows: Seq<JsrNvInfoView>,
    rr: crate::semver::ReqReferenceView,
) -> Option<Seq<u8>> {
    match spec_lookup_nv(rows, rr.req) {
        Some(Some(nv)) => match spec_lookup_info(info_rows, nv) {
            Some(info) => Some(info.base_url + match rr.sub_path {
                Some(p) => p,
                None => Seq::empty(),
            }),
            None => None,
        },
        _ => None,
    }
}

/// The export a path maps to over the resolver's info rows.
pub open spec fn spec_jsr_export(
    info_rows: Seq<JsrNvInfoView>,
    nv: NvView,
    path: Seq<u8>,
) -> Option<Seq<u8>> {
    match spec_lookup_info(info_rows, nv) {
        Some(info) => spec_lookup_export(info.exports, path),
        None => None,
    }
}

impl JsrCacheResolver {
    /// The resolver's rows, as views.
    pub open spec fn rows(&self) -> Seq<JsrEntryView> {
        self.nv_by_req@.map_values(|e: JsrEntry| e@)
    }

    /// The resolver's info rows, as views.
    pub open spec fn info_rows(&self) -> Seq<JsrNvInfoView> {
        self.info_by_nv@.map_values(|e: JsrNvInfo| e@)
    }

    /// Every resolved request satisfies its range.
    pub open spec fn wf(&self) -> bool {
        wf_jsr_rows(self.rows())
    }

    /// The concrete resource URL a registry short-reference denotes: the
    /// base URL of the package version the request resolved to, with the
    /// reference's sub-path appended.
    pub fn jsr_to_resource_url(&self, req_ref: &PackageReqReference) -> (r: Option<Vec<u8>>)
        ensures
            r.deep_view() == spec_jsr_to_resource_url(self.rows(), self.info_rows(), req_ref@),
    {
        let nv = match self.lookup_nv_row(&req_ref.req) {
            Some(row_nv) => match row_nv {
                Some(nv) => nv,
                None => {
                    return None;
                },
            },
            None => {
                return None;
            },
        };
        let info = match self.lookup_info(&nv) {
            Some(info) => info,
            None => {
                return None;
            },
        };
        let mut url = clone_bytes(&info.base_url);
        match &req_ref.sub_path {
            Some(p) => {
                let mut k: usize = 0;
                while k < p.len()
                    invariant
                        k <= p.len(),
                        url@ == info@.base_url + p@.subrange(0, k as int),
                    decreases p.len() - k,
                {
                    url.push(p[k]);
                    assert(url@ =~= info@.base_url + p@.subrange(0, k + 1));
                    k += 1;
                }
                assert(p@.subrange(0, p@.len() as int) =~= p@);
            },
            None => {
                assert(url@ =~= info@.base_url + Seq::<u8>::empty());
            },
        }
        Some(url)
    }

    /// The export a path maps to in a package version's export table.
    pub fn lookup_export_for_path(&self, nv: &PackageNv, path: &Vec<u8>) -> (r: Option<Vec<u8>>)
        ensures
            r.deep_view() == spec_jsr_export(self.info_rows(), nv@, path@),
    {
        let found = match self.lookup_info(nv) {
            Some(info) => info,
            None => {
                return None;
            },
        };
        let rows = &found.exports;
        assert(found@.exports == rows.deep_view());
        let mut i: usize = 0;
        assert(rows.deep_view().skip(0) =~= rows.deep_view());
        while i < rows.len()
            invariant
                i <= rows.len(),
                spec_lookup_info(self.info_rows(), nv@) == Some(found@),
                found@.exports == rows.deep_view(),
                spec_lookup_export(rows.deep_view(), path@) == spec_lookup_export(
                    rows.deep_view().skip(i as int),
                    path@,
                ),
            decreases rows.len() - i,
        {
            let ghost pre = rows.deep_view().skip(i as int);
            assert(pre[0] == (rows@[i as int].0@, rows@[i as int].1@));
            if bytes_eq(rows[i].0.as_slice(), path.as_slice()) {
                assert(spec_lookup_export(pre, path@) == Some(rows@[i as int].1@));
                let out = clone_bytes(&rows[i].1);
                assert(spec_lookup_export(found@.exports, path@) == Some(out@));
                return Some(out);
            }
            assert(pre.drop_first() =~= rows.deep_view().skip(i + 1));
            i += 1;
        }
        assert(rows.deep_view().skip(rows.deep_view().len() as int).len() == 0);
        None
    }

    /// The canonical request for a package version: the request of the first
    /// row the registry resolved to it.
    pub fn lookup_req_for_nv(&self, nv: &PackageNv) -> (r: Option<PackageReq>)
        ensures
            match r {
                Some(req) => spec_lookup_req_for_nv(self.rows(), nv@) == Some(req@),
                None => spec_lookup_req_for_nv(self.rows(), nv@) is None,
            },
    {
        let mut i: usize = 0;
        assert(self.rows().skip(0) =~= self.rows());
        while i < self.nv_by_req.len()
            invariant
                i <= self.nv_by_req.len(),
                spec_lookup_req_for_nv(self.rows(), nv@) == spec_lookup_req_for_nv(
                    self.rows().skip(i as int),
                    nv@,
                ),
            decreases self.nv_by_req.len() - i,
        {
            let ghost pre = self.rows().skip(i as int);
            assert(pre[0] == self.rows()[i as int]);
            let row = &self.nv_by_req[i];
            let row_matches: bool = match &row.nv {
                Some(row_nv) => nv_eq(row_nv, nv),
                None => false,
            };
            if row_matches {
                assert(self.rows()[i as int].nv == Some(nv@));
                return Some(clone_req(&row.req));
            }
            assert(pre[0].nv != Some(nv@));
            assert(pre.drop_first() =~= self.rows().skip(i + 1));
            i += 1;
        }
        assert(self.rows().skip(self.rows().len() as int).len() == 0);
        None
    }

    /// An owned copy of the resolver's rows; resolved registry data is
    /// immutable after construction, so a snapshot shares its content.
    pub fn duplicate(&self) -> (r: JsrCacheResolver)
        ensures
            r.rows() == self.rows(),
            r.info_rows() == self.info_rows(),
    {
        let mut nv_by_req: Vec<JsrEntry> = Vec::new();
        let mut i: usize = 0;
        while i < self.nv_by_req.len()
            invariant
                i <= self.nv_by_req.len(),
                nv_by_req@.map_values(|e: JsrEntry| e@) =~= self.rows().subrange(0, i as int),
            decreases self.nv_by_req.len() - i,
        {
            let ghost before = nv_by_req@.map_values(|e: JsrEntry| e@);
            let row = &self.nv_by_req[i];
            let nv = match &row.nv {
                Some(nv) => Some(crate::semver::clone_nv(nv)),
                None => None,
            };
            nv_by_req.push(JsrEntry { req: clone_req(&row.req), nv });
            assert(nv_by_req@.map_values(|e: JsrEntry| e@) =~= before.push(
                self.rows()[i as int],
            ));
            i += 1;
        }
        let mut info_by_nv: Vec<JsrNvInfo> = Vec::new();
        let mut j: usize = 0;
        while j < self.info_by_nv.len()
            invariant
                j <= self.info_by_nv.len(),
                info_by_nv@.map_values(|e: JsrNvInfo| e@) =~= self.info_rows().subrange(
                    0,
                    j as int,
                ),
            decreases self.info_by_nv.len() - j,
        {
            let ghost before = info_by_nv@.map_values(|e: JsrNvInfo| e@);
            let row = &self.info_by_nv[j];
            info_by_nv.push(
                JsrNvInfo {
                    nv: crate::semver::clone_nv(&row.nv),
                    base_url: clone_bytes(&row.base_url),
                    exports: crate::url_bytes::clone_byte_pairs(&row.exports),
                },
            );
            assert(info_by_nv@.map_values(|e: JsrNvInfo| e@) =~= before.push(
                self.info_rows()[j as int],
            ));
            j += 1;
        }
        let out = JsrCacheResolver { nv_by_req, info_by_nv };
        assert(out.rows() =~= self.rows());
        assert(out.info_rows() =~= self.info_rows());
        out
    }

    /// The first resolved row for a request, if any.
    fn lookup_nv_row(&self, req: &PackageReq) -> (r: Option<Option<PackageNv>>)
        ensures
            match r {
                Some(row_nv) => spec_lookup_nv(self.rows(), req@) == Some(match row_nv {
                    Some(nv) => Some(nv@),
                    None => None::<NvView>,
                }),
                None => spec_lookup_nv(self.rows(), req@) is None,
            },
    {
        let mut i: usize = 0;
        assert(self.rows().skip(0) =~= self.rows());
        while i < self.nv_by_req.len()
            invariant
                i <= self.nv_by_req.len(),
                spec_lookup_nv(self.rows(), req@) == spec_lookup_nv(
                    self.rows().skip(i as int),
                    req@,
                ),
            decreases self.nv_by_req.len() - i,
        {
            let ghost pre = self.rows().skip(i as int);
            assert(pre[0] == self.rows()[i as int]);
            let row = &self.nv_by_req[i];
            if req_eq(&row.req, req) {
                match &row.nv {
                    Some(nv) => {
                        return Some(Some(crate::semver::clone_nv(nv)));
                    },
                    None => {
                        return Some(None);
                    },
                }
            }
            assert(pre.drop_first() =~= self.rows().skip(i + 1));
            i += 1;
        }
        assert(self.rows().skip(self.rows().len() as int).len() == 0);
        None
    }

    /// The first info row for a package version, if any.
    fn lookup_info(&self, nv: &PackageNv) -> (r: Option<&JsrNvInfo>)
        ensures
            match r {
                Some(info) => spec_lookup_info(self.info_rows(), nv@) == Some(info@),
                None => spec_lookup_info(self.info_rows(), nv@) is None,
            },
    {
        let mut i: usize = 0;
        assert(self.info_rows().skip(0) =~= self.info_rows());
        while i < self.info_by_nv.len()
            invariant
                i <= self.info_by_nv.len(),
                spec_lookup_info(self.info_rows(), nv@) == spec_lookup_info(
                    self.info_rows().skip(i as int),
                    nv@,
                ),
            decreases self.info_by_nv.len() - i,
        {
            let ghost pre = self.info_rows().skip(i as int);
            assert(pre[0] == self.info_rows()[i as int]);
            let row = &self.info_by_nv[i];
            if nv_eq(&row.nv, nv) {
                return Some(row);
            }
            assert(pre.drop_first() =~= self.info_rows().skip(i + 1));
            i += 1;
        }
        assert(self.info_rows().skip(self.info_rows().len() as int).len() == 0);
        None
    }
}

/// The registry round trip: on a resolver whose rows are well-formed, the
/// canonical request found for any registered package version bears that
/// version's name and is satisfied by that version.
pub proof fn lemma_jsr_round_trip(rows: Seq<JsrEntryView>, nv: NvView, req: ReqView)
    requires
        wf_jsr_rows(rows),
        spec_lookup_req_for_nv(rows, nv) == Some(req),
    ensures
        req.name == nv.name,
        spec_range_matches(req.range, nv.version),
    decreases rows.len(),
{
    if rows.len() > 0 {
        if rows[0].nv == Some(nv) {
            assert(rows[0].nv matches Some(v) && v == nv);
        } else {
            assert(wf_jsr_rows(rows.drop_first())) by {
                assert forall|i: int| 0 <= i < rows.drop_first().len() implies match (
                #[trigger] rows.drop_first()[i]).nv {
                    Some(v) => v.name == rows.drop_first()[i].req.name && spec_range_matches(
                        rows.drop_first()[i].req.range,
                        v.version,
                    ),
                    None => true,
                } by {
                    assert(rows.drop_first()[i] == rows[i + 1]);
                }
            }
            lemma_jsr_round_trip(rows.drop_first(), nv, req);
        }
    }
}

} // verus!
