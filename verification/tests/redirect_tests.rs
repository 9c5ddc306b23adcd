use lsp_resolver::redirect::HeaderProvider;
use lsp_resolver::redirect::RedirectEntry;
use lsp_resolver::redirect::RedirectResolver;

fn b(s: &str) -> Vec<u8> {
    s.as_bytes().to_vec()
}

fn headers(rows: &[(&str, &str)]) -> Vec<(Vec<u8>, Vec<u8>)> {
    rows.iter().map(|(k, v)| (b(k), b(v))).collect()
}

fn mock(rows: &[(&str, &[(&str, &str)])]) -> RedirectResolver {
    let entries = rows
        .iter()
        .map(|(url, hs)| (b(url), headers(hs)))
        .collect();
    RedirectResolver::new(HeaderProvider::new(entries), &Vec::new())
}

#[test]
fn test_redirect_resolver() {
    let mut redirect_resolver = mock(&[
        ("https://foo/redirect_2.js", &[("location", "./redirect_1.js")]),
        ("https://foo/redirect_1.js", &[("location", "./file.js")]),
        ("https://foo/file.js", &[]),
    ]);
    assert_eq!(
        redirect_resolver.resolve(&b("https://foo/file.js")),
        Some(b("https://foo/file.js"))
    );
    assert_eq!(
        redirect_resolver.resolve(&b("https://foo/redirect_1.js")),
        Some(b("https://foo/file.js"))
    );
    assert_eq!(
        redirect_resolver.resolve(&b("https://foo/redirect_2.js")),
        Some(b("https://foo/file.js"))
    );
    assert_eq!(redirect_resolver.resolve(&b("https://foo/unknown")), None);
    assert_eq!(
        redirect_resolver.chain(&b("https://foo/redirect_2.js")),
        vec![
            (
                b("https://foo/redirect_2.js"),
                RedirectEntry {
                    headers: headers(&[("location", "./redirect_1.js")]),
                    target: b("https://foo/redirect_1.js"),
                    destination: Some(b("https://foo/file.js")),
                }
            ),
            (
                b("https://foo/redirect_1.js"),
                RedirectEntry {
                    headers: headers(&[("location", "./file.js")]),
                    target: b("https://foo/file.js"),
                    destination: Some(b("https://foo/file.js")),
                }
            ),
        ]
    );
}

#[test]
fn test_single_hop() {
    let mut r = mock(&[
        ("https://foo/a.js", &[("location", "./b.js")]),
        ("https://foo/b.js", &[]),
    ]);
    assert_eq!(r.resolve(&b("https://foo/a.js")), Some(b("https://foo/b.js")));
    assert_eq!(
        r.chain(&b("https://foo/a.js")),
        vec![(
            b("https://foo/a.js"),
            RedirectEntry {
                headers: headers(&[("location", "./b.js")]),
                target: b("https://foo/b.js"),
                destination: Some(b("https://foo/b.js")),
            }
        )]
    );
}

#[test]
fn test_unknown_url() {
    let mut r = mock(&[("https://foo/file.js", &[])]);
    assert_eq!(r.resolve(&b("https://foo/unknown")), None);
    assert_eq!(r.chain(&b("https://foo/unknown")), vec![]);
}

#[test]
fn test_lockfile_seeding() {
    let provider = HeaderProvider::new(Vec::new());
    let seeds = vec![(b("https://x/a"), b("https://x/b"))];
    let mut r = RedirectResolver::new(provider, &seeds);
    assert_eq!(r.resolve(&b("https://x/a")), Some(b("https://x/b")));
    assert_eq!(r.resolve(&b("https://x/b")), Some(b("https://x/b")));
}

#[test]
fn test_lockfile_invalid_urls_dropped() {
    let provider = HeaderProvider::new(Vec::new());
    let seeds = vec![(b("not a url"), b("https://x/b"))];
    let mut r = RedirectResolver::new(provider, &seeds);
    // the pair was dropped, so the destination was never marked terminal
    assert_eq!(r.resolve(&b("https://x/b")), None);
}

#[test]
fn test_scheme_passthrough() {
    let mut r = mock(&[]);
    assert_eq!(r.resolve(&b("file:///p/x.ts")), Some(b("file:///p/x.ts")));
    assert_eq!(r.resolve(&b("data:text/plain,hi")), Some(b("data:text/plain,hi")));
    assert_eq!(r.resolve(&b("npm:chalk")), Some(b("npm:chalk")));
}

#[test]
fn test_idempotence() {
    let mut r = mock(&[
        ("https://foo/a.js", &[("location", "./b.js")]),
        ("https://foo/b.js", &[]),
    ]);
    let first = r.resolve(&b("https://foo/a.js")).unwrap();
    let second = r.resolve(&first).unwrap();
    assert_eq!(first, second);
}

#[test]
fn test_cycle_returns_none() {
    let mut r = mock(&[
        ("https://foo/a.js", &[("location", "./b.js")]),
        ("https://foo/b.js", &[("location", "./a.js")]),
    ]);
    assert_eq!(r.resolve(&b("https://foo/a.js")), None);
    assert_eq!(r.chain(&b("https://foo/a.js")), vec![]);
}

#[test]
fn test_hop_limit() {
    // r0 .. r11 all redirect onward: the walk exceeds its bound and fails
    let rows: Vec<(String, String)> = (0..12)
        .map(|k| (format!("https://foo/r{}.js", k), format!("./r{}.js", k + 1)))
        .collect();
    let entries = rows
        .iter()
        .map(|(url, loc)| (b(url), headers(&[("location", loc.as_str())])))
        .collect();
    let mut r = RedirectResolver::new(HeaderProvider::new(entries), &Vec::new());
    assert_eq!(r.resolve(&b("https://foo/r0.js")), None);
}

#[test]
fn test_eleven_hops_resolve() {
    // r0 .. r10 redirect and r11 is terminal: still within the bound
    let mut entries: Vec<(Vec<u8>, Vec<(Vec<u8>, Vec<u8>)>)> = (0..11)
        .map(|k| {
            (
                b(&format!("https://foo/r{}.js", k)),
                headers(&[("location", format!("./r{}.js", k + 1).as_str())]),
            )
        })
        .collect();
    entries.push((b("https://foo/r11.js"), headers(&[])));
    let mut r = RedirectResolver::new(HeaderProvider::new(entries), &Vec::new());
    assert_eq!(r.resolve(&b("https://foo/r0.js")), Some(b("https://foo/r11.js")));
}

#[test]
fn test_did_cache_keeps_settled_entries() {
    let mut r = mock(&[
        ("https://foo/a.js", &[("location", "./b.js")]),
        ("https://foo/b.js", &[]),
    ]);
    assert_eq!(r.resolve(&b("https://foo/a.js")), Some(b("https://foo/b.js")));
    r.did_cache();
    // the memoized chain terminated, so it survives the refresh
    let chain = r.chain(&b("https://foo/a.js"));
    assert_eq!(chain.len(), 1);
    assert_eq!(chain[0].1.destination, Some(b("https://foo/b.js")));
}
