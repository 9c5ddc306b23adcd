//! Parsing and joining of URLs.
//!
//! The URL grammar itself is delegated to the `url` crate; the resolver only
//! needs three facts about it, each given a name here: what a byte string
//! parses to, whether a failed parse failed for being relative, and what a
//! relative reference joined onto a base serializes to. The import-resolution
//! dispatch over those outcomes is the resolver's own logic and is verified.

use vstd::prelude::*;
use crate::url_bytes::is_prefix_of;
use crate::url_bytes::starts_with;

verus! {

/// What `url::Url::parse` returns on these bytes: the serialization of the
/// parsed URL, or nothing when the input is not an absolute URL.
pub uninterp spec fn spec_url_parse(s: Seq<u8>) -> Option<Seq<u8>>;

/// Whether `url::Url::parse` fails on these bytes specifically because they
/// are a relative reference with no base.
pub uninterp spec fn spec_url_parse_relative_err(s: Seq<u8>) -> bool;

/// What `url::Url::join` returns for this reference against this base:
/// the serialization of the joined URL, or nothing when joining fails.
pub uninterp spec fn spec_url_join(base: Seq<u8>, rel: Seq<u8>) -> Option<Seq<u8>>;

/// Outcome of parsing a byte string as an absolute URL.
pub enum ParseOutcome {
    /// The serialized form of the parsed URL.
    Parsed(Vec<u8>),
    /// The input is a relative reference, usable with a base.
    RelativeWithoutBase,
    /// The input is not a URL at all.
    Invalid,
}

/// Relies on `url::Url::parse` and `url::Url::as_str`: the result depends on
/// the input bytes alone, and `as_str` returns the parsed URL's serialization.
#[verifier::external_body]
pub fn url_parse(s: &Vec<u8>) -> (r: ParseOutcome)
    ensures
        match r {
            ParseOutcome::Parsed(u) => spec_url_parse(s@) == Some(u@),
            ParseOutcome::RelativeWithoutBase => spec_url_parse(s@) == None::<Seq<u8>>
                && spec_url_parse_relative_err(s@),
            ParseOutcome::Invalid => spec_url_parse(s@) == None::<Seq<u8>>
                && !spec_url_parse_relative_err(s@),
        },
{
    let Ok(text) = std::str::from_utf8(s) else {
        return ParseOutcome::Invalid;
    };
    match url::Url::parse(text) {
        Ok(u) => ParseOutcome::Parsed(u.as_str().as_bytes().to_vec()),
        Err(url::ParseError::RelativeUrlWithoutBase) => ParseOutcome::RelativeWithoutBase,
        Err(_) => ParseOutcome::Invalid,
    }
}

/// Relies on `url::Url::parse` and `url::Url::join`: the result depends on
/// the two inputs alone.
#[verifier::external_body]
pub fn url_join(base: &Vec<u8>, rel: &Vec<u8>) -> (r: Option<Vec<u8>>)
    ensures
        match r {
            Some(u) => spec_url_join(base@, rel@) == Some(u@),
            None => spec_url_join(base@, rel@) == None::<Seq<u8>>,
        },
{
    let Ok(base_text) = std::str::from_utf8(base) else {
        return None;
    };
    let Ok(rel_text) = std::str::from_utf8(rel) else {
        return None;
    };
    let Ok(base_url) = url::Url::parse(base_text) else {
        return None;
    };
    match base_url.join(rel_text) {
        Ok(u) => Some(u.as_str().as_bytes().to_vec()),
        Err(_) => None,
    }
}

/// The reference begins with `./`, `../` or `/`.
pub open spec fn spec_has_relative_prefix(s: Seq<u8>) -> bool {
    is_prefix_of(seq![46u8, 47u8], s)
        || is_prefix_of(seq![46u8, 46u8, 47u8], s)
        || is_prefix_of(seq![47u8], s)
}

/// What import resolution yields for a specifier against a base: the
/// specifier itself when it is an absolute URL; the join against the base
/// when it is a relative reference of the recognized shapes; nothing
/// otherwise.
pub open spec fn spec_resolve_import(s: Seq<u8>, base: Seq<u8>) -> Option<Seq<u8>> {
    match spec_url_parse(s) {
        Some(u) => Some(u),
        None => if spec_url_parse_relative_err(s) && spec_has_relative_prefix(s) {
            spec_url_join(base, s)
        } else {
            None
        },
    }
}

/// Does the reference begin with `./`, `../` or `/`?
pub fn has_relative_prefix(s: &Vec<u8>) -> (r: bool)
    ensures
        r == spec_has_relative_prefix(s@),
{
    let dot_slash: [u8; 2] = [46u8, 47u8];
    let dot_dot_slash: [u8; 3] = [46u8, 46u8, 47u8];
    let slash: [u8; 1] = [47u8];
    proof {
        assert(dot_slash@ =~= seq![46u8, 47u8]);
        assert(dot_dot_slash@ =~= seq![46u8, 46u8, 47u8]);
        assert(slash@ =~= seq![47u8]);
    }
    starts_with(s.as_slice(), dot_slash.as_slice())
        || starts_with(s.as_slice(), dot_dot_slash.as_slice())
        || starts_with(s.as_slice(), slash.as_slice())
}

/// Resolve a specifier against the URL of the file it appears in: an
/// absolute URL stands as it is, a `./`-, `../`- or `/`-prefixed reference
/// is joined onto the base, and anything else is rejected.
pub fn resolve_import(s: &Vec<u8>, base: &Vec<u8>) -> (r: Option<Vec<u8>>)
    ensures
        match r {
            Some(u) => spec_resolve_import(s@, base@) == Some(u@),
            None => spec_resolve_import(s@, base@) == None::<Seq<u8>>,
        },
{
    match url_parse(s) {
        ParseOutcome::Parsed(u) => Some(u),
        ParseOutcome::RelativeWithoutBase => {
            if has_relative_prefix(s) {
                url_join(base, s)
            } else {
                None
            }
        },
        ParseOutcome::Invalid => None,
    }
}

} // verus!
