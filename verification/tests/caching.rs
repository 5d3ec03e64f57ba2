use johnbox::http_cache::{accepts_br, failure, forwarded_headers, resolve, treatment, CacheAction};
use johnbox::http_cache::{CacheEvent, HttpCache, JBHttpResponse, Regexes, Treatment, Unresolved};
use johnbox::patch::{patch, patch_script, patch_sheet};
use johnbox::site::{insecure_port, make_https, serve_jb_tv, SiteAnswer};
use johnbox::state::Ports;
use johnbox::stream::{DecodeError, Decoder};

const HOSTS: &str = "jackbox.tv|s3.amazonaws.com";

fn cache() -> HttpCache {
    HttpCache { regexes: Regexes::new() }
}

fn fetched(status: u16, etag: &str, content_type: Option<&str>) -> CacheEvent {
    CacheEvent::Fetched { status, etag: etag.to_owned(), content_type: content_type.map(|c| c.to_owned()) }
}

fn name(a: &CacheAction) -> String {
    match a {
        CacheAction::Load { name } | CacheAction::See { name } | CacheAction::Lock { name } => name.clone(),
        _ => panic!("no name"),
    }
}

fn decode(chunks: &[&[u8]]) -> Result<String, DecodeError> {
    let mut d = Decoder::new();
    for c in chunks {
        d.feed(c)?;
    }
    Ok(d.finish())
}

#[test]
fn targets() {
    let r = Regexes::new();
    let t = resolve(&r, "/a/b?c=d").unwrap();
    assert_eq!((t.authority.as_str(), t.host.as_str()), ("jackbox.tv", "jackbox.tv"));
    assert_eq!(t.url(), "https://jackbox.tv/a/b?c=d");
    assert_eq!(t.record_name(), "jackbox.tv//a/b");
    assert_eq!(resolve(&r, "/?x").unwrap().record_name(), "jackbox.tv/index.html");
    let t = resolve(&r, "/@bundles.jackbox.tv:8443/main/x.js?q").unwrap();
    assert_eq!((t.authority.as_str(), t.host.as_str()), ("bundles.jackbox.tv:8443", "bundles.jackbox.tv"));
    assert_eq!(t.url(), "https://bundles.jackbox.tv:8443/main/x.js?q");
    assert_eq!(t.record_name(), "bundles.jackbox.tv//main/x.js");
    assert_eq!(resolve(&r, "/@cdn.jackboxgames.com").unwrap().url(), "https://cdn.jackboxgames.com/");
    assert_eq!(resolve(&r, "/@s3xamazonaws.com/").unwrap().host, "s3xamazonaws.com");
    assert_eq!(resolve(&r, "/x/@example.com/").unwrap().host, "jackbox.tv");
}

#[test]
fn requests_without_a_path_are_for_the_root() {
    let r = Regexes::new();
    let t = resolve(&r, "?x=1").unwrap();
    assert_eq!(t.url(), "https://jackbox.tv/?x=1");
    assert_eq!(t.record_name(), "jackbox.tv/index.html");
    let (_, a) = cache().get_cached("?x=1", None, true).unwrap();
    assert_eq!(name(&a), "jackbox.tv/index.html");
    let t = resolve(&r, "").unwrap();
    assert_eq!((t.url(), t.record_name()), ("https://jackbox.tv/".to_owned(), "jackbox.tv/index.html".to_owned()));
    let t = resolve(&r, "/?").unwrap();
    assert_eq!((t.url(), t.record_name()), ("https://jackbox.tv/?".to_owned(), "jackbox.tv/index.html".to_owned()));
    assert_eq!(resolve(&r, "*").unwrap().url(), "https://jackbox.tv*");
}

#[test]
fn other_hosts_are_refused() {
    let r = Regexes::new();
    for path in ["/@example.com/x", "/@", "/@/jackbox.tv", "/@jackbox", "/@JACKBOX.TV/"] {
        match resolve(&r, path) {
            Err(Unresolved::Refused(e)) => {
                assert_eq!(e.status, 400);
                assert_eq!(e.text, "Proxy can only be used with Jackbox services");
            }
            _ => panic!("{}", path),
        }
    }
    assert!(matches!(resolve(&r, "/@jackbox.tv?x/y"), Err(Unresolved::NotAnAuthority)));
    assert!(cache().get_cached("/@example.com/x", None, false).is_err());
}

#[test]
fn brotli_is_taken() {
    assert!(accepts_br(Some("gzip, deflate, br")));
    assert!(accepts_br(Some("br")));
    assert!(!accepts_br(Some("br;q=1, gzip")));
    assert!(!accepts_br(Some("")));
    assert!(!accepts_br(None));
}

#[test]
fn headers_are_passed_on() {
    let h = |n: &str, v: &str| (n.to_owned(), v.as_bytes().to_vec());
    let all = vec![h("host", "me"), h("a", "1"), h("if-modified-since", "x"), h("if-none-match", "y"), h("a", "2")];
    let t = resolve(&Regexes::new(), "/").unwrap();
    let sent = forwarded_headers(&all, &t, true);
    assert_eq!(sent, vec![h("a", "1"), h("if-none-match", "y"), h("a", "2"), h("host", "jackbox.tv")]);
    let sent = forwarded_headers(&all, &t, false);
    assert_eq!(sent, vec![h("a", "1"), h("a", "2"), h("host", "jackbox.tv")]);
}

#[test]
fn responses_are_remembered() {
    let r = Regexes::new();
    let of = |ct: Option<&str>| {
        JBHttpResponse::from_request("e".to_owned(), ct.map(|c| c.to_owned()), &r.content_to_compress)
    };
    assert!(of(Some("text/html; charset=utf-8")).compressed);
    assert!(of(Some("application/json")).compressed);
    assert!(!of(Some("image/png")).compressed);
    assert!(!of(None).compressed);
    let pairs = |v: Vec<(String, String)>| v.iter().map(|p| format!("{}={}", p.0, p.1)).collect::<Vec<_>>();
    assert_eq!(pairs(of(Some("text/css")).headers(true)), vec!["etag=e", "content-type=text/css", "content-encoding=br"]);
    assert_eq!(pairs(of(Some("text/css")).headers(false)), vec!["etag=e", "content-type=text/css"]);
    assert_eq!(pairs(of(None).headers(true)), vec!["etag=e"]);
}

#[test]
fn contents_are_treated_by_kind() {
    let t = |s: &str| treatment(&Some(s.to_owned()));
    assert_eq!(t("text/javascript"), Treatment::PatchScript);
    assert_eq!(t("application/json"), Treatment::PatchScript);
    assert_eq!(t("text/css"), Treatment::PatchSheet);
    assert_eq!(t("text/css; charset=utf-8"), Treatment::Keep);
    assert_eq!(treatment(&None), Treatment::Keep);
}

#[test]
fn new_resources_are_stored_and_served() {
    let c = cache();
    let (mut s, a) = c.get_cached("/x.js", Some("br"), false).unwrap();
    assert!(matches!(&a, CacheAction::Fetch { url, conditional: true } if url == "https://jackbox.tv/x.js"));
    let a = s.step(&c.regexes, fetched(200, "t", Some("text/javascript")));
    assert_eq!(name(&a), "jackbox.tv/t.br");
    let a = s.step(&c.regexes, CacheEvent::Seen(false));
    assert!(matches!(&a, CacheAction::Lock { .. }));
    let a = s.step(&c.regexes, CacheEvent::Seen(false));
    match a {
        CacheAction::Store { name, record, treatment, compress } => {
            assert_eq!((name.as_str(), record.as_str()), ("jackbox.tv/t.br", "jackbox.tv//x.js"));
            assert_eq!((treatment, compress), (Treatment::PatchScript, true));
        }
        _ => panic!("not stored"),
    }
    match s.step(&c.regexes, CacheEvent::Stored) {
        CacheAction::Serve { status, name, decode, headers } => {
            assert_eq!((status, name.as_str(), decode, headers.len()), (200, "jackbox.tv/t.br", false, 3));
        }
        _ => panic!("not served"),
    }
}

#[test]
fn kept_resources_are_served() {
    let c = cache();
    let (mut s, _) = c.get_cached("/x.png", None, false).unwrap();
    let a = s.step(&c.regexes, fetched(200, "t", Some("image/png")));
    assert_eq!(name(&a), "jackbox.tv/t");
    assert!(matches!(s.step(&c.regexes, CacheEvent::Seen(true)), CacheAction::Serve { decode: false, .. }));
    let (mut s, _) = c.get_cached("/x.html", None, false).unwrap();
    s.step(&c.regexes, fetched(200, "t", Some("text/html")));
    match s.step(&c.regexes, CacheEvent::Seen(true)) {
        CacheAction::Serve { decode, headers, .. } => assert!(decode && headers.len() == 2),
        _ => panic!("not served"),
    }
}

#[test]
fn what_is_not_kept_is_fetched_again() {
    let c = cache();
    let (mut s, _) = c.get_cached("/x", None, false).unwrap();
    let a = s.step(&c.regexes, fetched(304, "t", None));
    assert!(matches!(&a, CacheAction::See { .. }));
    let a = s.step(&c.regexes, CacheEvent::Seen(false));
    assert!(matches!(&a, CacheAction::Fetch { url, conditional: false } if url == "https://jackbox.tv/x"));
    let a = s.step(&c.regexes, fetched(304, "u", None));
    assert_eq!(name(&a), "jackbox.tv/u");
    s.step(&c.regexes, CacheEvent::Seen(false));
    assert!(matches!(s.step(&c.regexes, CacheEvent::Seen(false)), CacheAction::Discard));
    assert!(matches!(s.step(&c.regexes, CacheEvent::Discarded), CacheAction::Serve { .. }));
}

#[test]
fn unmodified_resources_are_served() {
    let c = cache();
    let (mut s, _) = c.get_cached("/x", None, false).unwrap();
    s.step(&c.regexes, fetched(304, "t", None));
    let a = s.step(&c.regexes, CacheEvent::Seen(true));
    assert!(matches!(&a, CacheAction::See { .. }));
    assert!(matches!(s.step(&c.regexes, CacheEvent::Seen(true)), CacheAction::Serve { .. }));
}

#[test]
fn what_another_request_stored_is_served() {
    let c = cache();
    let (mut s, _) = c.get_cached("/x", None, false).unwrap();
    s.step(&c.regexes, fetched(200, "t", None));
    s.step(&c.regexes, CacheEvent::Seen(false));
    assert!(matches!(s.step(&c.regexes, CacheEvent::Seen(true)), CacheAction::Discard));
}

#[test]
fn offline_requests_do_not_fetch() {
    let c = cache();
    let (mut s, a) = c.get_cached("/@jackbox.tv/x.js", None, true).unwrap();
    assert_eq!(name(&a), "jackbox.tv//x.js");
    let kept = JBHttpResponse { etag: "t".to_owned(), content_type: None, compressed: true };
    let a = s.step(&c.regexes, CacheEvent::Loaded(kept));
    assert_eq!(name(&a), "jackbox.tv/t.br");
    let a = s.step(&c.regexes, CacheEvent::Seen(false));
    assert!(matches!(a, CacheAction::Lock { .. }));
    assert!(matches!(s.step(&c.regexes, CacheEvent::Seen(false)), CacheAction::Discard));
    assert!(matches!(s.step(&c.regexes, CacheEvent::Discarded), CacheAction::Serve { decode: true, .. }));
    let e = failure("gone".to_owned());
    assert_eq!((e.status, e.text.as_str()), (500, "gone"));
}

#[test]
fn what_was_stored_is_served_offline() {
    let c = cache();
    let served = |a: CacheAction| match a {
        CacheAction::Serve { status, name, decode, headers } => (status, name, decode, headers),
        _ => panic!("not served"),
    };
    for accept in [Some("br"), None] {
        let (mut s, _) = c.get_cached("/x.css", accept, false).unwrap();
        s.step(&c.regexes, fetched(200, "t", Some("text/css")));
        s.step(&c.regexes, CacheEvent::Seen(false));
        assert!(matches!(s.step(&c.regexes, CacheEvent::Seen(false)), CacheAction::Store { .. }));
        let online = served(s.step(&c.regexes, CacheEvent::Stored));
        let kept = JBHttpResponse::from_request(
            "t".to_owned(),
            Some("text/css".to_owned()),
            &c.regexes.content_to_compress,
        );
        let (mut s, _) = c.get_cached("/x.css", accept, true).unwrap();
        s.step(&c.regexes, CacheEvent::Loaded(kept));
        assert_eq!(served(s.step(&c.regexes, CacheEvent::Seen(true))), online);
    }
}

#[test]
fn texts_are_patched() {
    let t = "a=\"jackbox.tv\";b=\"x s3.amazonaws.com jackbox_tv\"";
    let ranges = vec![Some((3, 13)), Some((18, 47))];
    assert_eq!(
        patch(t, &ranges, HOSTS, "H/@").unwrap(),
        "a=\"H/@jackbox.tv\";b=\"x H/@s3.amazonaws.com H/@jackbox_tv\""
    );
    assert_eq!(patch(t, &vec![Some((0, 3)), Some((13, 13))], HOSTS, "H/@").unwrap(), t);
    assert_eq!(patch(t, &vec![], HOSTS, "H/@").unwrap(), t);
    assert_eq!(patch("jackbox\ntv", &vec![Some((0, 10))], HOSTS, "!").unwrap(), "jackbox\ntv");
    assert_eq!(patch("aab", &vec![Some((0, 3))], "a|aa", "-").unwrap(), "-a-ab");
    assert_eq!(patch("aab", &vec![Some((0, 3))], "aa|a", "-").unwrap(), "-aab");
}

#[test]
fn places_count_bytes_behind_the_range() {
    assert_eq!(patch("é jackbox.tv", &vec![Some((3, 13))], HOSTS, "!").unwrap(), "é !jackbox.tv");
    assert_eq!(patch("é jackbox.tv", &vec![Some((0, 13))], HOSTS, "!").unwrap(), "é j!ackbox.tv");
    assert_eq!(patch("éa", &vec![Some((0, 3))], "a", "!").unwrap(), "éa!");
    assert!(patch("ééa", &vec![Some((0, 5))], "a", "!").is_none());
}

#[test]
fn short_ranges_are_searched_too() {
    assert_eq!(patch("jackbox.tv", &vec![Some((0, 10))], HOSTS, "!").unwrap(), "!jackbox.tv");
    assert_eq!(patch("jackbox.tv", &vec![Some((0, 9))], HOSTS, "!").unwrap(), "jackbox.tv");
    assert_eq!(patch("abc", &vec![Some((0, 1)), Some((1, 3))], "abc|c", "!").unwrap(), "ab!c");
}

#[test]
fn ranges_that_cut_characters() {
    assert!(patch("éa", &vec![Some((1, 3))], "a", "!").is_none());
    assert!(patch("éa", &vec![Some((0, 1))], "a", "!").is_none());
    assert!(patch("éa", &vec![Some((0, 4))], "a", "!").is_none());
    assert!(patch("éa", &vec![Some((3, 2))], "a", "!").is_none());
    assert!(patch("éa", &vec![None], "a", "!").is_none());
}

#[test]
fn scripts_are_rewritten() {
    let r = Regexes::new();
    let t = "const a = \"https://bundles.jackbox.tv/x\"; // jackbox.tv\nlet b = 'ecast.jackboxgames.com';";
    assert_eq!(
        patch_script(t, &r.jackbox_urls, "10.0.0.1").unwrap(),
        "const a = \"https://10.0.0.1/@bundles.jackbox.tv/x\"; // jackbox.tv\n\
         let b = '10.0.0.1/@ecast.jackboxgames.com';"
    );
    assert_eq!(patch_script("let c = 1;", &r.jackbox_urls, "h").unwrap(), "let c = 1;");
}

#[test]
fn style_sheets_are_rewritten() {
    let r = Regexes::new();
    let t = "a { background: url(https://cdn.jackboxgames.com/x.png); color: red; }";
    assert_eq!(
        patch_sheet(t, &r.jackbox_urls, "10.0.0.1").unwrap(),
        "a { background: url(https://10.0.0.1/@cdn.jackboxgames.com/x.png); color: red; }"
    );
}

#[test]
fn rewritten_addresses_lead_to_their_hosts() {
    let t = resolve(&Regexes::new(), "/@bundles.jackbox.tv/x").unwrap();
    assert_eq!(t.url(), "https://bundles.jackbox.tv/x");
}

#[test]
fn streams_are_decoded() {
    assert_eq!(decode(&[b"ab", b"c"]), Ok("abc".to_owned()));
    assert_eq!(decode(&[b"a\xc3", b"\xa9b"]), Ok("aéb".to_owned()));
    assert_eq!(decode(&[b"a\xf0\x9f", b"\x8e\x89!"]), Ok("a🎉!".to_owned()));
    assert_eq!(decode(&[b"a\xf0\x9f"]), Ok("a".to_owned()));
    assert_eq!(decode(&[]), Ok(String::new()));
}

#[test]
fn streams_that_are_no_text() {
    assert_eq!(decode(&[b"\xff"]), Err(DecodeError::NotUtf8));
    assert_eq!(decode(&[b"a", b"\xc3"]), Err(DecodeError::NotUtf8));
    assert_eq!(decode(&[b"a\xffbcd"]), Ok("a".to_owned()));
    assert_eq!(decode(&[b"a\xffbcde"]), Err(DecodeError::TooMuchLeft));
}

#[test]
fn cuts_in_a_stream_do_not_matter() {
    let whole = "añ🎉z".as_bytes();
    for i in 1..whole.len() {
        if let Ok(t) = decode(&[&whole[..i], &whole[i..]]) {
            assert_eq!(t, "añ🎉z");
        }
    }
}

#[test]
fn pages() {
    let moved = |q: &str| match serve_jb_tv("/p", Some(q), None) {
        SiteAnswer::Redirect { path_and_query } => path_and_query,
        _ => panic!("{}", q),
    };
    assert_eq!(moved("a=1&s=2&b=3"), "/p?a=1&b=3");
    assert_eq!(moved("s=1&s=2"), "/p");
    assert_eq!(moved("s=0&a&s=2"), "/p?a");
    assert_eq!(moved("&s=2"), "/p?");
    assert_eq!(moved("a=1&s=2&&t=s="), "/p?a=1&&t=s=");
    assert!(matches!(serve_jb_tv("/p", Some("s=1"), None), SiteAnswer::Page));
    assert!(matches!(serve_jb_tv("/p", None, Some("JackboxGames/1.0")), SiteAnswer::Acknowledge));
    assert!(matches!(serve_jb_tv("/p", None, Some("Mozilla JackboxGames")), SiteAnswer::Page));
    assert!(matches!(serve_jb_tv("/p", Some("a&s=1"), Some("JackboxGames")), SiteAnswer::Redirect { .. }));
}

#[test]
fn redirected_pages_are_not_redirected_again() {
    for q in ["a&s=1", "a&s=&s=2&b", "&s=1", "x&s=1&y=&s"] {
        if let SiteAnswer::Redirect { path_and_query } = serve_jb_tv("/p", Some(q), None) {
            let rest = path_and_query.split_once('?').map(|p| p.1);
            assert!(matches!(serve_jb_tv("/p", rest, None), SiteAnswer::Page));
        }
    }
}

#[test]
fn insecure_requests_are_sent_on() {
    let url = |h: &str, p: Option<&str>| make_https(h, p, 8080, 8443).map_err(|e| e.status);
    assert_eq!(url("host:8080", Some("/a?b")), Ok("https://host:8443/a?b".to_owned()));
    assert_eq!(url("host", None), Ok("https://host/".to_owned()));
    assert_eq!(url("host", Some("?x=1")), Ok("https://host/?x=1".to_owned()));
    assert_eq!(url("h8080:8080", Some("/")), Ok("https://h8443:8443/".to_owned()));
    assert_eq!(url("a b", Some("/")), Err(400));
    assert_eq!(url("", Some("/")), Err(400));
    assert_eq!(make_https("h:80", Some("/"), 80, 443).unwrap(), "https://h:443/");
    assert_eq!(insecure_port(Ports { https: 1, blobcast: 2, http: Some(3) }), Some(80));
    assert_eq!(insecure_port(Ports { https: 1, blobcast: 2, http: None }), None);
}
