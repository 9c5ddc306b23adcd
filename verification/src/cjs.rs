//! Classification of a module as legacy CommonJS or modern ESM.
//!
//! The decision is layered: explicit prior knowledge recorded by package
//! inspection, then parsed-source evidence, then the classifier's heuristic,
//! and on any failure the modern default. The underlying classifier is a
//! collaborator; what it would answer is held here as data.

use vstd::prelude::*;
use crate::media::MediaType;
use crate::url_bytes::bytes_eq;
use crate::url_bytes::clone_bytes;

verus! {

/// What the resolver reads from a parsed source: whether the file contains
/// no ESM import/export syntax.
#[derive(Debug, Clone, Copy, PartialEq, Eq, Structural)]
pub struct ParsedSourceInfo {
    pub is_script: bool,
}

/// The module-kind classifier, with what it knows and what it would answer:
/// explicit knowledge per (URL, media type); the answer given a known
/// is-script hint, where `None` stands for a classifier failure; and the
/// heuristic answer, where `None` again stands for a failure.
pub struct CjsTracker {
    pub known_kinds: Vec<((Vec<u8>, MediaType), bool)>,
    pub script_answers: Vec<((Vec<u8>, MediaType, bool), Option<bool>)>,
    pub maybe_cjs_answers: Vec<((Vec<u8>, MediaType), Option<bool>)>,
}

/// First recorded explicit kind for the pair, if any.
pub open spec fn spec_known_kind(
    rows: Seq<((Seq<u8>, MediaType), bool)>,
    url: Seq<u8>,
    media: MediaType,
) -> Option<bool>
    decreases rows.len(),
{
    if rows.len() == 0 {
        None
    } else if rows[0].0.0 == url && rows[0].0.1 == media {
        Some(rows[0].1)
    } else {
        spec_known_kind(rows.drop_first(), url, media)
    }
}

/// First recorded hinted answer for the triple, if any row matches;
/// a matching row may itself hold a failure (`None`).
pub open spec fn spec_script_answer(
    rows: Seq<((Seq<u8>, MediaType, bool), Option<bool>)>,
    url: Seq<u8>,
    media: MediaType,
    is_script: bool,
) -> Option<Option<bool>>
    decreases rows.len(),
{
    if rows.len() == 0 {
        None
    } else if rows[0].0.0 == url && rows[0].0.1 == media && rows[0].0.2 == is_script {
        Some(rows[0].1)
    } else {
        spec_script_answer(rows.drop_first(), url, media, is_script)
    }
}

/// First recorded heuristic answer for the pair, if any row matches.
pub open spec fn spec_maybe_cjs_answer(
    rows: Seq<((Seq<u8>, MediaType), Option<bool>)>,
    url: Seq<u8>,
    media: MediaType,
) -> Option<Option<bool>>
    decreases rows.len(),
{
    if rows.len() == 0 {
        None
    } else if rows[0].0.0 == url && rows[0].0.1 == media {
        Some(rows[0].1)
    } else {
        spec_maybe_cjs_answer(rows.drop_first(), url, media)
    }
}

/// The layered decision: explicit knowledge first; else, with a parsed
/// source, the classifier under its is-script hint; else the classifier's
/// heuristic; and modern ESM (`false`) on any failure.
pub open spec fn spec_is_cjs(
    t: CjsTracker,
    url: Seq<u8>,
    media: MediaType,
    parsed: Option<ParsedSourceInfo>,
) -> bool {
    match spec_known_kind(t.known_view(), url, media) {
        Some(kind) => kind,
        None => {
            let hinted = match parsed {
                Some(info) => match spec_script_answer(
                    t.script_view(),
                    url,
                    media,
                    info.is_script,
                ) {
                    Some(answer) => answer,
                    None => None,
                },
                None => None,
            };
            match hinted {
                Some(b) => b,
                None => match spec_maybe_cjs_answer(t.maybe_view(), url, media) {
                    Some(Some(b)) => b,
                    _ => false,
                },
            }
        },
    }
}

impl CjsTracker {
    /// The explicit-knowledge rows, as views.
    pub open spec fn known_view(&self) -> Seq<((Seq<u8>, MediaType), bool)> {
        self.known_kinds@.map_values(|r: ((Vec<u8>, MediaType), bool)| ((r.0.0@, r.0.1), r.1))
    }

    /// The hinted-answer rows, as views.
    pub open spec fn script_view(&self) -> Seq<((Seq<u8>, MediaType, bool), Option<bool>)> {
        self.script_answers@.map_values(
            |r: ((Vec<u8>, MediaType, bool), Option<bool>)| ((r.0.0@, r.0.1, r.0.2), r.1),
        )
    }

    /// The heuristic-answer rows, as views.
    pub open spec fn maybe_view(&self) -> Seq<((Seq<u8>, MediaType), Option<bool>)> {
        self.maybe_cjs_answers@.map_values(
            |r: ((Vec<u8>, MediaType), Option<bool>)| ((r.0.0@, r.0.1), r.1),
        )
    }

    /// An owned copy of the classifier's knowledge.
    pub fn duplicate(&self) -> (r: CjsTracker)
        ensures
            r.known_view() == self.known_view(),
            r.script_view() == self.script_view(),
            r.maybe_view() == self.maybe_view(),
    {
        let mut known: Vec<((Vec<u8>, MediaType), bool)> = Vec::new();
        let mut i: usize = 0;
        while i < self.known_kinds.len()
            invariant
                i <= self.known_kinds.len(),
                known@.map_values(|r: ((Vec<u8>, MediaType), bool)| ((r.0.0@, r.0.1), r.1))
                    =~= self.known_view().subrange(0, i as int),
            decreases self.known_kinds.len() - i,
        {
            let ghost before = known@.map_values(
                |r: ((Vec<u8>, MediaType), bool)| ((r.0.0@, r.0.1), r.1),
            );
            let row = &self.known_kinds[i];
            known.push(((clone_bytes(&row.0.0), row.0.1), row.1));
            assert(known@.map_values(|r: ((Vec<u8>, MediaType), bool)| ((r.0.0@, r.0.1), r.1))
                =~= before.push(self.known_view()[i as int]));
            i += 1;
        }
        let mut script: Vec<((Vec<u8>, MediaType, bool), Option<bool>)> = Vec::new();
        let mut j: usize = 0;
        while j < self.script_answers.len()
            invariant
                j <= self.script_answers.len(),
                script@.map_values(
                    |r: ((Vec<u8>, MediaType, bool), Option<bool>)| ((r.0.0@, r.0.1, r.0.2), r.1),
                ) =~= self.script_view().subrange(0, j as int),
            decreases self.script_answers.len() - j,
        {
            let ghost before = script@.map_values(
                |r: ((Vec<u8>, MediaType, bool), Option<bool>)| ((r.0.0@, r.0.1, r.0.2), r.1),
            );
            let row = &self.script_answers[j];
            script.push(((clone_bytes(&row.0.0), row.0.1, row.0.2), row.1));
            assert(script@.map_values(
                |r: ((Vec<u8>, MediaType, bool), Option<bool>)| ((r.0.0@, r.0.1, r.0.2), r.1),
            ) =~= before.push(self.script_view()[j as int]));
            j += 1;
        }
        let mut maybe: Vec<((Vec<u8>, MediaType), Option<bool>)> = Vec::new();
        let mut k: usize = 0;
        while k < self.maybe_cjs_answers.len()
            invariant
                k <= self.maybe_cjs_answers.len(),
                maybe@.map_values(
                    |r: ((Vec<u8>, MediaType), Option<bool>)| ((r.0.0@, r.0.1), r.1),
                ) =~= self.maybe_view().subrange(0, k as int),
            decreases self.maybe_cjs_answers.len() - k,
        {
            let ghost before = maybe@.map_values(
                |r: ((Vec<u8>, MediaType), Option<bool>)| ((r.0.0@, r.0.1), r.1),
            );
            let row = &self.maybe_cjs_answers[k];
            maybe.push(((clone_bytes(&row.0.0), row.0.1), row.1));
            assert(maybe@.map_values(
                |r: ((Vec<u8>, MediaType), Option<bool>)| ((r.0.0@, r.0.1), r.1),
            ) =~= before.push(self.maybe_view()[k as int]));
            k += 1;
        }
        let out = CjsTracker { known_kinds: known, script_answers: script, maybe_cjs_answers: maybe };
        assert(out.known_view() =~= self.known_view());
        assert(out.script_view() =~= self.script_view());
        assert(out.maybe_view() =~= self.maybe_view());
        out
    }

    fn known_kind(&self, url: &Vec<u8>, media: MediaType) -> (r: Option<bool>)
        ensures
            r == spec_known_kind(self.known_view(), url@, media),
    {
        let mut i: usize = 0;
        assert(self.known_view().skip(0) =~= self.known_view());
        while i < self.known_kinds.len()
            invariant
                i <= self.known_kinds.len(),
                spec_known_kind(self.known_view(), url@, media) == spec_known_kind(
                    self.known_view().skip(i as int),
                    url@,
                    media,
                ),
            decreases self.known_kinds.len() - i,
        {
            let ghost pre = self.known_view().skip(i as int);
            assert(pre[0] == self.known_view()[i as int]);
            let row = &self.known_kinds[i];
            if bytes_eq(row.0.0.as_slice(), url.as_slice()) && row.0.1 == media {
                return Some(row.1);
            }
            assert(pre.drop_first() =~= self.known_view().skip(i + 1));
            i += 1;
        }
        assert(self.known_view().skip(self.known_view().len() as int).len() == 0);
        None
    }

    fn script_answer(&self, url: &Vec<u8>, media: MediaType, is_script: bool) -> (r: Option<
        Option<bool>,
    >)
        ensures
            r == spec_script_answer(self.script_view(), url@, media, is_script),
    {
        let mut i: usize = 0;
        assert(self.script_view().skip(0) =~= self.script_view());
        while i < self.script_answers.len()
            invariant
                i <= self.script_answers.len(),
                spec_script_answer(self.script_view(), url@, media, is_script)
                    == spec_script_answer(
                    self.script_view().skip(i as int),
                    url@,
                    media,
                    is_script,
                ),
            decreases self.script_answers.len() - i,
        {
            let ghost pre = self.script_view().skip(i as int);
            assert(pre[0] == self.script_view()[i as int]);
            let row = &self.script_answers[i];
            if bytes_eq(row.0.0.as_slice(), url.as_slice()) && row.0.1 == media && row.0.2
                == is_script {
                return Some(row.1);
            }
            assert(pre.drop_first() =~= self.script_view().skip(i + 1));
            i += 1;
        }
        assert(self.script_view().skip(self.script_view().len() as int).len() == 0);
        None
    }

    fn maybe_cjs_answer(&self, url: &Vec<u8>, media: MediaType) -> (r: Option<Option<bool>>)
        ensures
            r == spec_maybe_cjs_answer(self.maybe_view(), url@, media),
    {
        let mut i: usize = 0;
        assert(self.maybe_view().skip(0) =~= self.maybe_view());
        while i < self.maybe_cjs_answers.len()
            invariant
                i <= self.maybe_cjs_answers.len(),
                spec_maybe_cjs_answer(self.maybe_view(), url@, media)
                    == spec_maybe_cjs_answer(
                    self.maybe_view().skip(i as int),
                    url@,
                    media,
                ),
            decreases self.maybe_cjs_answers.len() - i,
        {
            let ghost pre = self.maybe_view().skip(i as int);
            assert(pre[0] == self.maybe_view()[i as int]);
            let row = &self.maybe_cjs_answers[i];
            if bytes_eq(row.0.0.as_slice(), url.as_slice()) && row.0.1 == media {
                return Some(row.1);
            }
            assert(pre.drop_first() =~= self.maybe_view().skip(i + 1));
            i += 1;
        }
        assert(self.maybe_view().skip(self.maybe_view().len() as int).len() == 0);
        None
    }
}

/// The module-kind tracker the language server consults.
pub struct LspCjsTracker {
    cjs_tracker: CjsTracker,
}

impl LspCjsTracker {
    /// Wrap the classifier.
    pub fn new(cjs_tracker: CjsTracker) -> (r: LspCjsTracker)
        ensures
            r.tracker() == cjs_tracker,
    {
        LspCjsTracker { cjs_tracker }
    }

    /// The wrapped classifier.
    pub closed spec fn tracker(&self) -> CjsTracker {
        self.cjs_tracker
    }

    /// An owned copy of the tracker.
    pub fn duplicate(&self) -> (r: LspCjsTracker)
        ensures
            r.tracker().known_view() == self.tracker().known_view(),
            r.tracker().script_view() == self.tracker().script_view(),
            r.tracker().maybe_view() == self.tracker().maybe_view(),
    {
        LspCjsTracker { cjs_tracker: self.cjs_tracker.duplicate() }
    }

    /// Is the file legacy CommonJS? Explicit knowledge wins; otherwise
    /// parsed-source evidence feeds the classifier; otherwise its heuristic
    /// decides; any failure defaults to modern ESM.
    pub fn is_cjs(
        &self,
        specifier: &Vec<u8>,
        media_type: MediaType,
        maybe_parsed_source: Option<&ParsedSourceInfo>,
    ) -> (r: bool)
        ensures
            r == spec_is_cjs(
                self.tracker(),
                specifier@,
                media_type,
                match maybe_parsed_source {
                    Some(info) => Some(*info),
                    None => None,
                },
            ),
    {
        match self.cjs_tracker.known_kind(specifier, media_type) {
            Some(kind) => kind,
            None => {
                let hinted: Option<bool> = match maybe_parsed_source {
                    Some(info) => {
                        match self.cjs_tracker.script_answer(
                            specifier,
                            media_type,
                            info.is_script,
                        ) {
                            Some(answer) => answer,
                            None => None,
                        }
                    },
                    None => None,
                };
                match hinted {
                    Some(b) => b,
                    None => match self.cjs_tracker.maybe_cjs_answer(specifier, media_type) {
                        Some(Some(b)) => b,
                        _ => false,
                    },
                }
            },
        }
    }
}

} // verus!
