//! Byte-level operations on serialized URLs.
//!
//! The resolver holds every specifier in its serialized form, as produced by
//! the URL parser, so scheme tests and containment tests are plain prefix
//! and substring questions on bytes.

use vstd::prelude::*;

verus! {

/// `p` is a prefix of `s`.
pub open spec fn is_prefix_of(p: Seq<u8>, s: Seq<u8>) -> bool {
    p.len() <= s.len() && s.subrange(0, p.len() as int) == p
}

/// Does `s` start with `p`?
pub fn starts_with(s: &[u8], p: &[u8]) -> (r: bool)
    ensures
        r == is_prefix_of(p@, s@),
{
    if p.len() > s.len() {
        assert(!is_prefix_of(p@, s@));
        return false;
    }
    let mut i: usize = 0;
    while i < p.len()
        invariant
            i <= p.len() <= s.len(),
            forall|j: int| 0 <= j < i ==> s@[j] == p@[j],
        decreases p.len() - i,
    {
        if s[i] != p[i] {
            assert(s@.subrange(0, p@.len() as int)[i as int] != p@[i as int]);
            return false;
        }
        i += 1;
    }
    assert(s@.subrange(0, p@.len() as int) =~= p@);
    true
}

/// On byte vectors the deep view and the view coincide.
pub broadcast proof fn lemma_bytes_deep_view(v: Vec<u8>)
    ensures
        #[trigger] v.deep_view() == v@,
{
    assert(v.deep_view() =~= v@);
}

/// Byte-exact comparison of two serialized forms.
pub fn bytes_eq(a: &[u8], b: &[u8]) -> (r: bool)
    ensures
        r == (a@ == b@),
{
    if a.len() != b.len() {
        return false;
    }
    let mut i: usize = 0;
    while i < a.len()
        invariant
            i <= a.len() == b.len(),
            forall|j: int| 0 <= j < i ==> a@[j] == b@[j],
        decreases a.len() - i,
    {
        if a[i] != b[i] {
            return false;
        }
        i += 1;
    }
    assert(a@ =~= b@);
    true
}

/// An owned copy of a serialized form.
pub fn clone_bytes(v: &Vec<u8>) -> (r: Vec<u8>)
    ensures
        r@ == v@,
{
    let mut r: Vec<u8> = Vec::new();
    let mut i: usize = 0;
    while i < v.len()
        invariant
            i <= v.len(),
            r@ =~= v@.subrange(0, i as int),
        decreases v.len() - i,
    {
        r.push(v[i]);
        i += 1;
    }
    assert(r@ =~= v@);
    r
}

/// An owned copy of a byte slice.
pub fn bytes_of_slice(v: &[u8]) -> (r: Vec<u8>)
    ensures
        r@ == v@,
{
    let mut r: Vec<u8> = Vec::new();
    let mut i: usize = 0;
    while i < v.len()
        invariant
            i <= v@.len(),
            r@ =~= v@.subrange(0, i as int),
        decreases v@.len() - i,
    {
        r.push(v[i]);
        i += 1;
    }
    assert(r@ =~= v@);
    r
}

/// Is `x` among these URLs?
pub open spec fn spec_list_contains(s: Seq<Seq<u8>>, x: Seq<u8>) -> bool {
    exists|i: int| 0 <= i < s.len() && s[i] == x
}

/// Linear membership test over owned URL bytes.
pub fn list_contains(v: &Vec<Vec<u8>>, x: &Vec<u8>) -> (r: bool)
    ensures
        r == spec_list_contains(v.deep_view(), x@),
{
    let mut i: usize = 0;
    while i < v.len()
        invariant
            i <= v.len(),
            forall|j: int| 0 <= j < i ==> v.deep_view()[j] != x@,
        decreases v.len() - i,
    {
        assert(v.deep_view()[i as int] =~= v@[i as int]@);
        if bytes_eq(v[i].as_slice(), x.as_slice()) {
            assert(v.deep_view()[i as int] == x@);
            return true;
        }
        i += 1;
    }
    assert(!spec_list_contains(v.deep_view(), x@)) by {
        if spec_list_contains(v.deep_view(), x@) {
            let j = choose|j: int| 0 <= j < v.deep_view().len() && v.deep_view()[j] == x@;
        }
    }
    false
}

/// The two byte strings, one after the other.
pub fn concat_bytes(a: &Vec<u8>, b: &[u8]) -> (r: Vec<u8>)
    ensures
        r@ == a@ + b@,
{
    let mut r = clone_bytes(a);
    let mut i: usize = 0;
    while i < b.len()
        invariant
            i <= b.len(),
            r@ == a@ + b@.subrange(0, i as int),
        decreases b.len() - i,
    {
        r.push(b[i]);
        assert(r@ =~= a@ + b@.subrange(0, i + 1));
        i += 1;
    }
    assert(a@ + b@.subrange(0, b@.len() as int) =~= a@ + b@);
    r
}

/// An owned copy of an optional serialized form.
pub fn clone_opt_bytes(v: &Option<Vec<u8>>) -> (r: Option<Vec<u8>>)
    ensures
        r.deep_view() == v.deep_view(),
{
    match v {
        Some(b) => Some(clone_bytes(b)),
        None => None,
    }
}

/// An owned copy of a list of byte-pair rows.
pub fn clone_byte_pairs(v: &Vec<(Vec<u8>, Vec<u8>)>) -> (r: Vec<(Vec<u8>, Vec<u8>)>)
    ensures
        r.deep_view() == v.deep_view(),
{
    let mut r: Vec<(Vec<u8>, Vec<u8>)> = Vec::new();
    let mut j: usize = 0;
    while j < v.len()
        invariant
            j <= v.len(),
            r.deep_view() == v.deep_view().subrange(0, j as int),
        decreases v.len() - j,
    {
        let ghost r0 = r.deep_view();
        r.push((clone_bytes(&v[j].0), clone_bytes(&v[j].1)));
        assert(r.deep_view() =~~= r0.push((v@[j as int].0@, v@[j as int].1@)));
        assert(r.deep_view() =~~= v.deep_view().subrange(0, j + 1));
        j += 1;
    }
    assert(r.deep_view() =~= v.deep_view());
    r
}

/// An owned copy of a list of URLs.
pub fn clone_byte_list(v: &Vec<Vec<u8>>) -> (r: Vec<Vec<u8>>)
    ensures
        r.deep_view() == v.deep_view(),
{
    let mut r: Vec<Vec<u8>> = Vec::new();
    let mut j: usize = 0;
    while j < v.len()
        invariant
            j <= v.len(),
            r.deep_view() == v.deep_view().subrange(0, j as int),
        decreases v.len() - j,
    {
        let ghost r0 = r.deep_view();
        r.push(clone_bytes(&v[j]));
        assert(r.deep_view() =~~= r0.push(v@[j as int]@));
        assert(r.deep_view() =~~= v.deep_view().subrange(0, j + 1));
        j += 1;
    }
    assert(r.deep_view() =~= v.deep_view());
    r
}

/// ASCII lowercasing of one byte.
pub open spec fn spec_to_lower(b: u8) -> u8 {
    if 65 <= b <= 90 {
        (b + 32) as u8
    } else {
        b
    }
}

/// The needle occurs in `u` at position `i`, comparing ASCII
/// case-insensitively on `u`'s side.
pub open spec fn spec_matches_lower_at(u: Seq<u8>, needle: Seq<u8>, i: int) -> bool {
    0 <= i && i + needle.len() <= u.len() && forall|j: int| 0 <= j < needle.len()
        ==> spec_to_lower(u[i + j]) == needle[j]
}

/// The needle occurs somewhere in `u`, comparing ASCII case-insensitively
/// on `u`'s side.
pub open spec fn spec_contains_lower(u: Seq<u8>, needle: Seq<u8>) -> bool {
    exists|i: int| spec_matches_lower_at(u, needle, i)
}

/// Does the lowercased form of `u` contain the (already lowercase) needle?
pub fn contains_lower(u: &[u8], needle: &[u8]) -> (r: bool)
    ensures
        r == spec_contains_lower(u@, needle@),
{
    if needle.len() > u.len() {
        assert(!spec_contains_lower(u@, needle@)) by {
            if spec_contains_lower(u@, needle@) {
                let i = choose|i: int| spec_matches_lower_at(u@, needle@, i);
            }
        }
        return false;
    }
    let mut i: usize = 0;
    while i <= u.len() - needle.len()
        invariant
            needle@.len() <= u@.len(),
            i <= u@.len() - needle@.len() + 1,
            forall|k: int| 0 <= k < i ==> !spec_matches_lower_at(u@, needle@, k),
        decreases u.len() - i,
    {
        assert(i + needle@.len() <= u@.len());
        let mut j: usize = 0;
        let mut hit: bool = true;
        while j < needle.len() && hit
            invariant
                j <= needle.len(),
                i + needle.len() <= u.len(),
                hit ==> forall|t: int| 0 <= t < j ==> spec_to_lower(u@[i + t]) == needle@[t],
                !hit ==> !spec_matches_lower_at(u@, needle@, i as int),
            decreases needle.len() - j + (if hit {
                1int
            } else {
                0int
            }),
        {
            let b = u[i + j];
            let lb: u8 = if 65 <= b && b <= 90 {
                b + 32
            } else {
                b
            };
            if lb != needle[j] {
                assert(spec_to_lower(u@[i + j]) != needle@[j as int]);
                hit = false;
            } else {
                j += 1;
            }
        }
        if hit {
            assert(spec_matches_lower_at(u@, needle@, i as int));
            return true;
        }
        i += 1;
    }
    assert(!spec_contains_lower(u@, needle@)) by {
        if spec_contains_lower(u@, needle@) {
            let k = choose|k: int| spec_matches_lower_at(u@, needle@, k);
        }
    }
    false
}

/// The bytes of `"http://"`.
pub open spec fn http_prefix() -> Seq<u8> {
    seq![104u8, 116u8, 116u8, 112u8, 58u8, 47u8, 47u8]
}

/// The bytes of `"https://"`.
pub open spec fn https_prefix() -> Seq<u8> {
    seq![104u8, 116u8, 116u8, 112u8, 115u8, 58u8, 47u8, 47u8]
}

/// The serialized form of an HTTP or HTTPS URL.
pub open spec fn spec_is_http_or_https(u: Seq<u8>) -> bool {
    is_prefix_of(http_prefix(), u) || is_prefix_of(https_prefix(), u)
}

/// Scheme test on the serialized form: HTTP or HTTPS.
pub fn is_http_or_https(u: &Vec<u8>) -> (r: bool)
    ensures
        r == spec_is_http_or_https(u@),
{
    let http: [u8; 7] = [104u8, 116u8, 116u8, 112u8, 58u8, 47u8, 47u8];
    let https: [u8; 8] = [104u8, 116u8, 116u8, 112u8, 115u8, 58u8, 47u8, 47u8];
    proof {
        assert(http@ =~= http_prefix());
        assert(https@ =~= https_prefix());
    }
    starts_with(u.as_slice(), http.as_slice()) || starts_with(u.as_slice(), https.as_slice())
}

} // verus!
