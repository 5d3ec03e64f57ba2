//! The cache of what was fetched from the game servers.
use vstd::prelude::*;
use vstd::utf8::encode_utf8;

use crate::json::text_pairs;
use crate::message::Refusal;
use crate::pattern::{fits_some, is_match_of, is_pattern, law_match_is_a_fit, regex_is_match};
use crate::text::{cut_once, first_from, lemma_first_from, lemma_first_from_none};
use crate::text::{occurs_at, opt_str, opt_text, pieces, same, split, split_once, starts_with};
use crate::text::{texts, trim, trimmed};

verus! {

/// The host that an authority names, where the text is one.
pub uninterp spec fn authority_host_of(text: Seq<char>) -> Option<Seq<char>>;

/// A host name of letters, digits, dots and hyphens.
pub open spec fn is_host_name(s: Seq<char>) -> bool {
    &&& s.len() > 0
    &&& forall|i: int|
        0 <= i < s.len() ==> 'a' <= #[trigger] s[i] <= 'z' || 'A' <= s[i] <= 'Z' || '0' <= s[i]
            <= '9' || s[i] == '.' || s[i] == '-'
}

/// `axum::http::uri::Authority::try_from` and its `host`: the host that the text names, or none
/// where the text is no authority. The result is determined by the text; a text of letters,
/// digits, dots and hyphens names itself.
#[verifier::external_body]
pub(crate) fn authority_host(text: &str) -> (r: Option<String>)
    ensures
        opt_text(r) == authority_host_of(text@),
        is_host_name(text@) ==> opt_text(r) == Some(text@),
{
    axum::http::uri::Authority::try_from(text).ok().map(|a| a.host().to_owned())
}

/// The patterns that the cache goes by: what is kept compressed, and which hosts are known.
#[derive(Debug)]
pub struct Regexes {
    pub content_to_compress: String,
    pub jackbox_urls: String,
}

/// The kinds of content that are kept compressed.
pub open spec fn compressed_kinds() -> Seq<char> {
    "text/html|text/css|text/xml|text/javascript|application/javascript|application/x-javascript|application/json"@
}

/// The hosts that are known.
pub open spec fn known_hosts() -> Seq<char> {
    "blobcast.jackboxgames.com|ecast.jackboxgames.com|bundles.jackbox.tv|jackbox.tv|cdn.jackboxgames.com|s3.amazonaws.com"@
}

/// Alternatives that are separated by single bars are not empty.
proof fn lemma_pieces_hold_something(p: Seq<char>)
    requires
        p.len() > 0,
        p[0] != '|',
        p.last() != '|',
        forall|i: int| 0 <= i < p.len() - 1 ==> !(#[trigger] p[i] == '|' && p[i + 1] == '|'),
    ensures
        forall|k: int| 0 <= k < pieces(p, '|').len() ==> (#[trigger] pieces(p, '|')[k]).len() > 0,
    decreases p.len(),
{
    lemma_first_from(p, seq!['|'], 0);
    match first_from(p, seq!['|'], 0) {
        None => {},
        Some(i) => {
            assert(p.subrange(i, i + 1)[0] == '|');
            let rest = p.skip(i + 1);
            assert(p[i] == '|');
            assert(rest.last() == p.last());
            lemma_pieces_hold_something(rest);
            let all = pieces(p, '|');
            assert(all == seq![p.take(i)] + pieces(rest, '|'));
            assert forall|k: int| 0 <= k < all.len() implies (#[trigger] all[k]).len() > 0 by {
                if k > 0 {
                    assert(all[k] == pieces(rest, '|')[k - 1]);
                }
            }
        },
    }
}

/// The two patterns are patterns.
proof fn lemma_patterns()
    ensures
        is_pattern(compressed_kinds()),
        is_pattern(known_hosts()),
{
    reveal_strlit(
        "text/html|text/css|text/xml|text/javascript|application/javascript|application/x-javascript|application/json",
    );
    reveal_strlit(
        "blobcast.jackboxgames.com|ecast.jackboxgames.com|bundles.jackbox.tv|jackbox.tv|cdn.jackboxgames.com|s3.amazonaws.com",
    );
    lemma_pieces_hold_something(compressed_kinds());
    lemma_pieces_hold_something(known_hosts());
}

impl Regexes {
    /// Both are patterns.
    pub open spec fn wf(self) -> bool {
        is_pattern(self.content_to_compress@) && is_pattern(self.jackbox_urls@)
    }

    /// The patterns of the game servers.
    pub fn new() -> (r: Regexes)
        ensures
            r.wf(),
            r.content_to_compress@ == compressed_kinds(),
            r.jackbox_urls@ == known_hosts(),
    {
        proof {
            lemma_patterns();
        }
        Regexes {
            content_to_compress: "text/html|text/css|text/xml|text/javascript|application/javascript|application/x-javascript|application/json".to_owned(),
            jackbox_urls: "blobcast.jackboxgames.com|ecast.jackboxgames.com|bundles.jackbox.tv|jackbox.tv|cdn.jackboxgames.com|s3.amazonaws.com".to_owned(),
        }
    }
}

/// What is remembered of a fetched resource: its tag, its kind, and whether it is kept compressed.
#[derive(Debug)]
pub struct JBHttpResponse {
    pub etag: String,
    pub content_type: Option<String>,
    pub compressed: bool,
}

/// What that says.
#[verifier::ext_equal]
pub struct ResponseView {
    pub etag: Seq<char>,
    pub content_type: Option<Seq<char>>,
    pub compressed: bool,
}

impl View for JBHttpResponse {
    type V = ResponseView;

    open spec fn view(&self) -> ResponseView {
        ResponseView {
            etag: self.etag@,
            content_type: opt_text(self.content_type),
            compressed: self.compressed,
        }
    }
}

/// What is remembered of a resource with the given headers.
pub open spec fn response_of(
    etag: Seq<char>,
    content_type: Option<Seq<char>>,
    content_to_compress: Seq<char>,
) -> ResponseView {
    ResponseView {
        etag,
        content_type,
        compressed: match content_type {
            Some(t) => is_match_of(content_to_compress, t),
            None => false,
        },
    }
}

/// The headers that a resource is served with; the encoding is named where the client gets it
/// compressed.
pub open spec fn served_headers(r: ResponseView, br: bool) -> Seq<(Seq<char>, Seq<char>)> {
    seq![("etag"@, r.etag)] + (match r.content_type {
        Some(t) => seq![("content-type"@, t)],
        None => Seq::empty(),
    }) + (if br && r.compressed {
        seq![("content-encoding"@, "br"@)]
    } else {
        Seq::empty()
    })
}

impl JBHttpResponse {
    /// What is remembered of a resource with the given headers.
    pub fn from_request(etag: String, content_type: Option<String>, content_to_compress: &str) -> (r:
        JBHttpResponse)
        requires
            is_pattern(content_to_compress@),
        ensures
            r@ == response_of(etag@, opt_text(content_type), content_to_compress@),
    {
        let compressed = match &content_type {
            Some(t) => regex_is_match(content_to_compress, t.as_str()),
            None => false,
        };
        JBHttpResponse { etag, content_type, compressed }
    }

    /// The headers that the resource is served with.
    pub fn headers(&self, br: bool) -> (r: Vec<(String, String)>)
        ensures
            text_pairs(r@) == served_headers(self@, br),
    {
        let mut headers: Vec<(String, String)> = Vec::new();
        headers.push(("etag".to_owned(), self.etag.clone()));
        if let Some(t) = &self.content_type {
            headers.push(("content-type".to_owned(), t.clone()));
        }
        if br && self.compressed {
            headers.push(("content-encoding".to_owned(), "br".to_owned()));
        }
        assert(text_pairs(headers@) =~= served_headers(self@, br));
        headers
    }

    /// Another record that says the same.
    pub fn duplicate(&self) -> (r: JBHttpResponse)
        ensures
            r@ == self@,
    {
        JBHttpResponse {
            etag: self.etag.clone(),
            content_type: match &self.content_type {
                Some(t) => Some(t.clone()),
                None => None,
            },
            compressed: self.compressed,
        }
    }
}

/// Where a resource is fetched from.
#[derive(Debug)]
pub struct Target {
    pub authority: String,
    pub host: String,
    pub path_and_query: String,
}

/// What a target says.
#[verifier::ext_equal]
pub struct TargetView {
    pub authority: Seq<char>,
    pub host: Seq<char>,
    pub path_and_query: Seq<char>,
}

impl View for Target {
    type V = TargetView;

    open spec fn view(&self) -> TargetView {
        TargetView {
            authority: self.authority@,
            host: self.host@,
            path_and_query: self.path_and_query@,
        }
    }
}

/// Why a resource is not fetched: the request is turned away, or names no host.
#[derive(Debug)]
pub enum Unresolved {
    Refused(Refusal),
    NotAnAuthority,
}

/// The request names the host that it is for.
pub open spec fn is_detour(path_and_query: Seq<char>) -> bool {
    occurs_at(path_and_query, "/@"@, 0)
}

/// The authority and the path of a request that names the host that it is for.
pub open spec fn detour_parts(path_and_query: Seq<char>) -> (Seq<char>, Seq<char>) {
    let rest = path_and_query.skip(2);
    match cut_once(rest, "/"@) {
        Some((authority, tail)) => (authority, "/"@ + tail),
        None => (rest, "/"@),
    }
}

/// The authority and the path that a request is for; where it names no host, the site itself.
pub open spec fn wanted(path_and_query: Seq<char>) -> (Seq<char>, Seq<char>) {
    if is_detour(path_and_query) {
        detour_parts(path_and_query)
    } else {
        ("jackbox.tv"@, path_and_query)
    }
}

/// The request names a host that is not known.
pub open spec fn is_barred(jackbox_urls: Seq<char>, path_and_query: Seq<char>) -> bool {
    is_detour(path_and_query) && !is_match_of(jackbox_urls, detour_parts(path_and_query).0)
}

/// The target of a request, given the host that its authority names.
pub open spec fn target_of(path_and_query: Seq<char>, host: Seq<char>) -> TargetView {
    let (authority, path) = wanted(path_and_query);
    TargetView { authority, host, path_and_query: path }
}

/// Decides where the resource of a request is fetched from.
pub fn resolve(regexes: &Regexes, path_and_query: &str) -> (r: Result<Target, Unresolved>)
    requires
        regexes.wf(),
    ensures
        match r {
            Ok(t) => !is_barred(regexes.jackbox_urls@, path_and_query@) && (authority_host_of(
                wanted(path_and_query@).0,
            ) matches Some(h) && t@ == target_of(path_and_query@, h)),
            Err(Unresolved::Refused(e)) => is_barred(regexes.jackbox_urls@, path_and_query@)
                && e.says(400, "Proxy can only be used with Jackbox services"@),
            Err(Unresolved::NotAnAuthority) => !is_barred(regexes.jackbox_urls@, path_and_query@)
                && authority_host_of(wanted(path_and_query@).0) is None,
        },
        !is_detour(path_and_query@) ==> r is Ok,
{
    proof {
        reveal_strlit("/@");
        reveal_strlit("jackbox.tv");
        assert(is_host_name("jackbox.tv"@));
    }
    let (authority, path) = if starts_with(path_and_query, "/@") {
        let n: usize = path_and_query.unicode_len();
        let rest = path_and_query.substring_char(2, n);
        assert(rest@ =~= path_and_query@.skip(2));
        let (authority, tail) = match split_once(rest, "/") {
            Some(p) => p,
            None => (rest.to_owned(), String::new()),
        };
        let mut path = "/".to_owned();
        path.append(tail.as_str());
        assert(path@ =~= detour_parts(path_and_query@).1);
        if !regex_is_match(regexes.jackbox_urls.as_str(), authority.as_str()) {
            return Err(
                Unresolved::Refused(
                    Refusal::new(400, "Proxy can only be used with Jackbox services"),
                ),
            );
        }
        (authority, path)
    } else {
        ("jackbox.tv".to_owned(), path_and_query.to_owned())
    };
    match authority_host(authority.as_str()) {
        Some(host) => Ok(Target { authority, host, path_and_query: path }),
        None => Err(Unresolved::NotAnAuthority),
    }
}

/// What stands before the question mark of a path with a query.
pub open spec fn before_query(path_and_query: Seq<char>) -> Seq<char> {
    match cut_once(path_and_query, "?"@) {
        Some((path, _)) => path,
        None => path_and_query,
    }
}

/// The path of a path with a query; that of the root, where none is given.
pub open spec fn path_of(path_and_query: Seq<char>) -> Seq<char> {
    if before_query(path_and_query).len() == 0 {
        "/"@
    } else {
        before_query(path_and_query)
    }
}

/// A path with a query as it stands in an address: where no path is given, it is that of the root.
pub open spec fn rooted(path_and_query: Seq<char>) -> Seq<char> {
    if before_query(path_and_query).len() == 0 {
        "/"@ + path_and_query
    } else {
        path_and_query
    }
}

/// A path with a query as it stands in an address.
pub(crate) fn root(path_and_query: &str) -> (r: String)
    ensures
        r@ == rooted(path_and_query@),
{
    let n: usize = path_and_query.unicode_len();
    let mark = starts_with(path_and_query, "?");
    proof {
        lemma_no_path(path_and_query@);
    }
    if n == 0 || mark {
        let mut r = "/".to_owned();
        r.append(path_and_query);
        r
    } else {
        path_and_query.to_owned()
    }
}

/// No path is given where there is nothing, or a question mark comes first.
proof fn lemma_no_path(path_and_query: Seq<char>)
    ensures
        before_query(path_and_query).len() == 0 <==> path_and_query.len() == 0 || occurs_at(
            path_and_query,
            "?"@,
            0,
        ),
{
    reveal_strlit("?");
    lemma_first_from(path_and_query, "?"@, 0);
}

/// The address of a target.
pub open spec fn url_of(t: TargetView) -> Seq<char> {
    "https://"@ + t.authority + rooted(t.path_and_query)
}

/// The name under which what is remembered of a target is kept.
pub open spec fn record_name(t: TargetView) -> Seq<char> {
    t.host + "/"@ + (if path_of(t.path_and_query) == "/"@ {
        "index.html"@
    } else {
        path_of(t.path_and_query)
    })
}

/// The name under which the resource itself is kept.
pub open spec fn resource_name(t: TargetView, r: ResponseView) -> Seq<char> {
    t.host + "/"@ + r.etag + (if r.compressed {
        ".br"@
    } else {
        ""@
    })
}

impl Target {
    /// The address of the target.
    pub fn url(&self) -> (r: String)
        ensures
            r@ == url_of(self@),
    {
        let mut url = "https://".to_owned();
        url.append(self.authority.as_str());
        url.append(root(self.path_and_query.as_str()).as_str());
        url
    }

    /// The name under which what is remembered of the target is kept.
    pub fn record_name(&self) -> (r: String)
        ensures
            r@ == record_name(self@),
    {
        let path = match split_once(self.path_and_query.as_str(), "?") {
            Some((path, _)) => path,
            None => self.path_and_query.clone(),
        };
        let mut name = self.host.clone();
        name.append("/");
        if path.as_str().unicode_len() == 0 || same(path.as_str(), "/") {
            name.append("index.html");
        } else {
            name.append(path.as_str());
        }
        name
    }

    /// The name under which the resource itself is kept.
    pub fn resource_name(&self, response: &JBHttpResponse) -> (r: String)
        ensures
            r@ == resource_name(self@, response@),
    {
        let mut name = self.host.clone();
        name.append("/");
        name.append(response.etag.as_str());
        name.append(
            if response.compressed {
                ".br"
            } else {
                ""
            },
        );
        name
    }
}

/// The client takes resources that are compressed with Brotli.
pub open spec fn takes_br(accept_encoding: Option<Seq<char>>) -> bool {
    match accept_encoding {
        Some(s) => exists|k: int|
            0 <= k < pieces(s, ',').len() && trimmed(#[trigger] pieces(s, ',')[k]) == "br"@,
        None => false,
    }
}

/// Whether the client takes resources that are compressed with Brotli.
pub fn accepts_br(accept_encoding: Option<&str>) -> (r: bool)
    ensures
        r == takes_br(opt_str(accept_encoding)),
{
    match accept_encoding {
        Some(s) => {
            let parts = split(s, ',');
            for i in 0..parts.len()
                invariant
                    accept_encoding == Some(s),
                    texts(parts@) == pieces(s@, ','),
                    forall|k: int|
                        0 <= k < i ==> trimmed(#[trigger] pieces(s@, ',')[k]) != "br"@,
            {
                assert(pieces(s@, ',')[i as int] == parts@[i as int]@);
                if same(trim(parts[i].as_str()).as_str(), "br") {
                    assert(trimmed(pieces(s@, ',')[i as int]) == "br"@);
                    assert(takes_br(Some(s@)));
                    return true;
                }
            }
            false
        },
        None => false,
    }
}

/// Headers as names in lower case with the bytes of their values.
pub open spec fn header_views(h: Seq<(String, Vec<u8>)>) -> Seq<(Seq<char>, Seq<u8>)> {
    Seq::new(h.len(), |i: int| (h[i].0@, h[i].1@))
}

/// A header of the client that is not passed on: the host is another one, and a cached resource is
/// asked for by its tag alone, if at all.
pub open spec fn is_held_back(name: Seq<char>, conditional: bool) -> bool {
    name == "host"@ || name == "if-modified-since"@ || (name == "if-none-match"@ && !conditional)
}

/// The headers of the client that are passed on.
pub open spec fn passed_on(h: Seq<(Seq<char>, Seq<u8>)>, conditional: bool) -> Seq<
    (Seq<char>, Seq<u8>),
>
    decreases h.len(),
{
    if h.len() == 0 {
        Seq::empty()
    } else if is_held_back(h.last().0, conditional) {
        passed_on(h.drop_last(), conditional)
    } else {
        passed_on(h.drop_last(), conditional).push(h.last())
    }
}

/// The headers of a request for a target: those of the client that are passed on, and the host.
pub fn forwarded_headers(headers: &Vec<(String, Vec<u8>)>, target: &Target, conditional: bool) -> (r:
    Vec<(String, Vec<u8>)>)
    ensures
        header_views(r@) == passed_on(header_views(headers@), conditional).push(
            ("host"@, encode_utf8(target@.authority)),
        ),
{
    let ghost all = header_views(headers@);
    let mut out: Vec<(String, Vec<u8>)> = Vec::new();
    assert(header_views(out@) =~= passed_on(all.take(0), conditional));
    for i in 0..headers.len()
        invariant
            all == header_views(headers@),
            header_views(out@) == passed_on(all.take(i as int), conditional),
    {
        let name = headers[i].0.as_str();
        let ghost before = header_views(out@);
        let ghost h = all[i as int];
        proof {
            assert(all.take(i + 1).drop_last() =~= all.take(i as int));
            assert(all.take(i + 1).last() == h);
        }
        let held_back = same(name, "host") || same(name, "if-modified-since") || (same(
            name,
            "if-none-match",
        ) && !conditional);
        if !held_back {
            let value = crate::entity::copied(&headers[i].1);
            out.push((headers[i].0.clone(), value));
            assert(header_views(out@) =~= before.push(h));
        }
    }
    assert(all.take(all.len() as int) =~= all);
    let ghost before = header_views(out@);
    out.push(("host".to_owned(), target.authority.as_str().as_bytes_vec()));
    assert(header_views(out@) =~= before.push(("host"@, encode_utf8(target@.authority))));
    out
}

/// What is done with the content of a resource before it is kept.
#[derive(Debug, Clone, Copy, PartialEq, Eq, Structural)]
pub enum Treatment {
    PatchScript,
    PatchSheet,
    Keep,
}

/// What is done with content of the given kind.
pub open spec fn treatment_of(content_type: Option<Seq<char>>) -> Treatment {
    if content_type == Some("text/javascript"@) || content_type == Some("application/json"@) {
        Treatment::PatchScript
    } else if content_type == Some("text/css"@) {
        Treatment::PatchSheet
    } else {
        Treatment::Keep
    }
}

/// What is done with content of the given kind.
pub fn treatment(content_type: &Option<String>) -> (r: Treatment)
    ensures
        r == treatment_of(opt_text(*content_type)),
{
    match content_type {
        Some(t) => {
            let t = t.as_str();
            if same(t, "text/javascript") || same(t, "application/json") {
                Treatment::PatchScript
            } else if same(t, "text/css") {
                Treatment::PatchSheet
            } else {
                Treatment::Keep
            }
        },
        None => Treatment::Keep,
    }
}

/// How far the handling of a request has come. `status` is that of the last answer, if one was
/// asked for.
#[derive(Debug)]
pub enum Phase {
    Fetching { again: bool },
    Loading,
    SeeingWhetherKept { response: JBHttpResponse },
    Seeing { response: JBHttpResponse, status: Option<u16> },
    Locking { response: JBHttpResponse, status: Option<u16> },
    Storing { response: JBHttpResponse },
    Discarding { response: JBHttpResponse },
    Done,
}

/// What a phase says.
#[verifier::ext_equal]
pub enum PhaseView {
    Fetching { again: bool },
    Loading,
    SeeingWhetherKept { response: ResponseView },
    Seeing { response: ResponseView, status: Option<u16> },
    Locking { response: ResponseView, status: Option<u16> },
    Storing { response: ResponseView },
    Discarding { response: ResponseView },
    Done,
}

impl View for Phase {
    type V = PhaseView;

    open spec fn view(&self) -> PhaseView {
        match self {
            Phase::Fetching { again } => PhaseView::Fetching { again: *again },
            Phase::Loading => PhaseView::Loading,
            Phase::SeeingWhetherKept { response } => PhaseView::SeeingWhetherKept {
                response: response@,
            },
            Phase::Seeing { response, status } => PhaseView::Seeing {
                response: response@,
                status: *status,
            },
            Phase::Locking { response, status } => PhaseView::Locking {
                response: response@,
                status: *status,
            },
            Phase::Storing { response } => PhaseView::Storing { response: response@ },
            Phase::Discarding { response } => PhaseView::Discarding { response: response@ },
            Phase::Done => PhaseView::Done,
        }
    }
}

/// What is to be done next. A resource is first written to a file of its own, which is locked
/// meanwhile, and takes its place when it is complete.
#[derive(Debug)]
pub enum CacheAction {
    /// Fetch the address; a conditional fetch may name the tag that the client has.
    Fetch { url: String, conditional: bool },
    /// Read what is remembered under the name.
    Load { name: String },
    /// See whether a resource is kept under the name.
    See { name: String },
    /// Lock the file that a resource is written to, and see again whether one is kept.
    Lock { name: String },
    /// Write the fetched content to the locked file, compressed or not, remember the response, and
    /// give the file its name.
    Store { name: String, record: String, treatment: Treatment, compress: bool },
    /// Give the locked file up.
    Discard,
    /// Answer with what is kept under the name, decompressed or not, and with the headers.
    Serve { status: u16, name: String, decode: bool, headers: Vec<(String, String)> },
}

/// What an action says.
#[verifier::ext_equal]
pub enum CacheActionView {
    Fetch { url: Seq<char>, conditional: bool },
    Load { name: Seq<char> },
    See { name: Seq<char> },
    Lock { name: Seq<char> },
    Store { name: Seq<char>, record: Seq<char>, treatment: Treatment, compress: bool },
    Discard,
    Serve {
        status: u16,
        name: Seq<char>,
        decode: bool,
        headers: Seq<(Seq<char>, Seq<char>)>,
    },
}

impl View for CacheAction {
    type V = CacheActionView;

    open spec fn view(&self) -> CacheActionView {
        match self {
            CacheAction::Fetch { url, conditional } => CacheActionView::Fetch {
                url: url@,
                conditional: *conditional,
            },
            CacheAction::Load { name } => CacheActionView::Load { name: name@ },
            CacheAction::See { name } => CacheActionView::See { name: name@ },
            CacheAction::Lock { name } => CacheActionView::Lock { name: name@ },
            CacheAction::Store { name, record, treatment, compress } => CacheActionView::Store {
                name: name@,
                record: record@,
                treatment: *treatment,
                compress: *compress,
            },
            CacheAction::Discard => CacheActionView::Discard,
            CacheAction::Serve { status, name, decode, headers } => CacheActionView::Serve {
                status: *status,
                name: name@,
                decode: *decode,
                headers: text_pairs(headers@),
            },
        }
    }
}

/// What came of an action.
#[derive(Debug)]
pub enum CacheEvent {
    Fetched { status: u16, etag: String, content_type: Option<String> },
    Loaded(JBHttpResponse),
    Seen(bool),
    Stored,
    Discarded,
}

/// What an event says.
#[verifier::ext_equal]
pub enum CacheEventView {
    Fetched { status: u16, etag: Seq<char>, content_type: Option<Seq<char>> },
    Loaded(ResponseView),
    Seen(bool),
    Stored,
    Discarded,
}

impl View for CacheEvent {
    type V = CacheEventView;

    open spec fn view(&self) -> CacheEventView {
        match self {
            CacheEvent::Fetched { status, etag, content_type } => CacheEventView::Fetched {
                status: *status,
                etag: etag@,
                content_type: opt_text(*content_type),
            },
            CacheEvent::Loaded(r) => CacheEventView::Loaded(r@),
            CacheEvent::Seen(b) => CacheEventView::Seen(*b),
            CacheEvent::Stored => CacheEventView::Stored,
            CacheEvent::Discarded => CacheEventView::Discarded,
        }
    }
}

/// The handling of one request: where the resource is from, whether the client takes it
/// compressed, and how far it has come.
#[derive(Debug)]
pub struct Session {
    pub target: Target,
    pub br: bool,
    pub phase: Phase,
}

/// What the handling of a request says.
#[verifier::ext_equal]
pub struct SessionView {
    pub target: TargetView,
    pub br: bool,
    pub phase: PhaseView,
}

impl View for Session {
    type V = SessionView;

    open spec fn view(&self) -> SessionView {
        SessionView { target: self.target@, br: self.br, phase: self.phase@ }
    }
}

/// The status of an answer that says that the client's copy is still good.
pub const NOT_MODIFIED: u16 = 304;

/// The status of an answer with a resource.
pub const OK: u16 = 200;

impl SessionView {
    /// How the handling of a request begins: with a fetch, or offline with what is remembered.
    pub open spec fn begun(target: TargetView, br: bool, offline: bool) -> (
        SessionView,
        CacheActionView,
    ) {
        if offline {
            (
                SessionView { target, br, phase: PhaseView::Loading },
                CacheActionView::Load { name: record_name(target) },
            )
        } else {
            (
                SessionView { target, br, phase: PhaseView::Fetching { again: false } },
                CacheActionView::Fetch { url: url_of(target), conditional: true },
            )
        }
    }

    /// The action whose outcome is awaited has the given outcome.
    pub open spec fn awaits(self, event: CacheEventView) -> bool {
        match self.phase {
            PhaseView::Fetching { .. } => event is Fetched,
            PhaseView::Loading => event is Loaded,
            PhaseView::SeeingWhetherKept { .. } | PhaseView::Seeing { .. }
            | PhaseView::Locking { .. } => event is Seen,
            PhaseView::Storing { .. } => event is Stored,
            PhaseView::Discarding { .. } => event is Discarded,
            PhaseView::Done => false,
        }
    }

    /// The next phase with its action.
    pub open spec fn to(self, phase: PhaseView, action: CacheActionView) -> (
        SessionView,
        CacheActionView,
    ) {
        (SessionView { phase, ..self }, action)
    }

    /// Looking for the resource that a response names.
    pub open spec fn seeing(self, response: ResponseView, status: Option<u16>) -> (
        SessionView,
        CacheActionView,
    ) {
        self.to(
            PhaseView::Seeing { response, status },
            CacheActionView::See { name: resource_name(self.target, response) },
        )
    }

    /// Serving the resource that a response names.
    pub open spec fn serving(self, response: ResponseView) -> (SessionView, CacheActionView) {
        self.to(
            PhaseView::Done,
            CacheActionView::Serve {
                status: OK,
                name: resource_name(self.target, response),
                decode: !self.br && response.compressed,
                headers: served_headers(response, self.br),
            },
        )
    }

    /// How the handling goes on after an event.
    pub open spec fn stepped(self, event: CacheEventView, content_to_compress: Seq<char>) -> (
        SessionView,
        CacheActionView,
    ) {
        match (self.phase, event) {
            (
                PhaseView::Fetching { again },
                CacheEventView::Fetched { status, etag, content_type },
            ) => {
                let response = response_of(etag, content_type, content_to_compress);
                if status == NOT_MODIFIED && !again {
                    self.to(
                        PhaseView::SeeingWhetherKept { response },
                        CacheActionView::See { name: resource_name(self.target, response) },
                    )
                } else {
                    self.seeing(response, Some(status))
                }
            },
            (PhaseView::Loading, CacheEventView::Loaded(response)) => self.seeing(response, None),
            (PhaseView::SeeingWhetherKept { response }, CacheEventView::Seen(kept)) => if kept {
                self.seeing(response, Some(NOT_MODIFIED))
            } else {
                self.to(
                    PhaseView::Fetching { again: true },
                    CacheActionView::Fetch { url: url_of(self.target), conditional: false },
                )
            },
            (PhaseView::Seeing { response, status }, CacheEventView::Seen(kept)) => if kept {
                self.serving(response)
            } else {
                self.to(
                    PhaseView::Locking { response, status },
                    CacheActionView::Lock { name: resource_name(self.target, response) },
                )
            },
            (PhaseView::Locking { response, status }, CacheEventView::Seen(kept)) => if status
                is None || status == Some(NOT_MODIFIED) || kept {
                self.to(PhaseView::Discarding { response }, CacheActionView::Discard)
            } else {
                self.to(
                    PhaseView::Storing { response },
                    CacheActionView::Store {
                        name: resource_name(self.target, response),
                        record: record_name(self.target),
                        treatment: treatment_of(response.content_type),
                        compress: response.compressed,
                    },
                )
            },
            (PhaseView::Storing { response }, _) => self.serving(response),
            (PhaseView::Discarding { response }, _) => self.serving(response),
            _ => (self, CacheActionView::Discard),
        }
    }
}

impl Session {
    /// Looks for the resource that a response names.
    fn see(&mut self, response: JBHttpResponse, status: Option<u16>) -> (r: CacheAction)
        ensures
            (final(self)@, r@) == old(self)@.seeing(response@, status),
    {
        let name = self.target.resource_name(&response);
        self.phase = Phase::Seeing { response, status };
        CacheAction::See { name }
    }

    /// Serves the resource that a response names.
    fn serve(&mut self, response: JBHttpResponse) -> (r: CacheAction)
        ensures
            (final(self)@, r@) == old(self)@.serving(response@),
    {
        self.phase = Phase::Done;
        CacheAction::Serve {
            status: OK,
            name: self.target.resource_name(&response),
            decode: !self.br && response.compressed,
            headers: response.headers(self.br),
        }
    }

    /// Goes on after an event.
    pub fn step(&mut self, regexes: &Regexes, event: CacheEvent) -> (r: CacheAction)
        requires
            regexes.wf(),
            old(self)@.awaits(event@),
        ensures
            (final(self)@, r@) == old(self)@.stepped(event@, regexes.content_to_compress@),
    {
        let mut phase = Phase::Done;
        std::mem::swap(&mut phase, &mut self.phase);
        match (phase, event) {
            (Phase::Fetching { again }, CacheEvent::Fetched { status, etag, content_type }) => {
                let response = JBHttpResponse::from_request(
                    etag,
                    content_type,
                    regexes.content_to_compress.as_str(),
                );
                if status == NOT_MODIFIED && !again {
                    let name = self.target.resource_name(&response);
                    self.phase = Phase::SeeingWhetherKept { response };
                    CacheAction::See { name }
                } else {
                    self.see(response, Some(status))
                }
            },
            (Phase::Loading, CacheEvent::Loaded(response)) => self.see(response, None),
            (Phase::SeeingWhetherKept { response }, CacheEvent::Seen(kept)) => {
                if kept {
                    self.see(response, Some(NOT_MODIFIED))
                } else {
                    self.phase = Phase::Fetching { again: true };
                    CacheAction::Fetch { url: self.target.url(), conditional: false }
                }
            },
            (Phase::Seeing { response, status }, CacheEvent::Seen(kept)) => {
                if kept {
                    self.serve(response)
                } else {
                    let name = self.target.resource_name(&response);
                    self.phase = Phase::Locking { response, status };
                    CacheAction::Lock { name }
                }
            },
            (Phase::Locking { response, status }, CacheEvent::Seen(kept)) => {
                let fresh = match status {
                    Some(s) => s != NOT_MODIFIED,
                    None => false,
                };
                if !fresh || kept {
                    self.phase = Phase::Discarding { response };
                    CacheAction::Discard
                } else {
                    let name = self.target.resource_name(&response);
                    let record = self.target.record_name();
                    let treatment = treatment(&response.content_type);
                    let compress = response.compressed;
                    self.phase = Phase::Storing { response };
                    CacheAction::Store { name, record, treatment, compress }
                }
            },
            (Phase::Storing { response }, _) => self.serve(response),
            (Phase::Discarding { response }, _) => self.serve(response),
            _ => CacheAction::Discard,
        }
    }
}

/// The cache: what it goes by.
#[derive(Debug)]
pub struct HttpCache {
    pub regexes: Regexes,
}

impl HttpCache {
    /// Begins to handle a request.
    pub fn get_cached(
        &self,
        path_and_query: &str,
        accept_encoding: Option<&str>,
        offline: bool,
    ) -> (r: Result<(Session, CacheAction), Unresolved>)
        requires
            self.regexes.wf(),
        ensures
            match r {
                Ok((s, a)) => !is_barred(self.regexes.jackbox_urls@, path_and_query@) && (
                authority_host_of(wanted(path_and_query@).0) matches Some(h) && (s@, a@)
                    == SessionView::begun(
                    target_of(path_and_query@, h),
                    takes_br(opt_str(accept_encoding)),
                    offline,
                )),
                Err(Unresolved::Refused(e)) => is_barred(self.regexes.jackbox_urls@, path_and_query@)
                    && e.says(400, "Proxy can only be used with Jackbox services"@),
                Err(Unresolved::NotAnAuthority) => !is_barred(
                    self.regexes.jackbox_urls@,
                    path_and_query@,
                ) && authority_host_of(wanted(path_and_query@).0) is None,
            },
            !is_detour(path_and_query@) ==> r is Ok,
    {
        let target = match resolve(&self.regexes, path_and_query) {
            Ok(t) => t,
            Err(e) => {
                return Err(e);
            },
        };
        let br = accepts_br(accept_encoding);
        let (phase, action) = if offline {
            (Phase::Loading, CacheAction::Load { name: target.record_name() })
        } else {
            (
                Phase::Fetching { again: false },
                CacheAction::Fetch { url: target.url(), conditional: true },
            )
        };
        Ok((Session { target, br, phase }, action))
    }
}

/// The answer to a request that something went wrong with.
pub fn failure(text: String) -> (r: Refusal)
    ensures
        r.says(500, text@),
{
    Refusal { status: 500, text }
}

/// How often a fetch can still follow.
pub open spec fn fetches_left(phase: PhaseView) -> nat {
    match phase {
        PhaseView::Fetching { again: false } | PhaseView::SeeingWhetherKept { .. } => 1,
        _ => 0,
    }
}

/// How many events can still follow.
pub open spec fn steps_left(phase: PhaseView) -> nat {
    match phase {
        PhaseView::Fetching { again: false } => 6,
        PhaseView::SeeingWhetherKept { .. } => 5,
        PhaseView::Fetching { again: true } | PhaseView::Loading => 4,
        PhaseView::Seeing { .. } => 3,
        PhaseView::Locking { .. } => 2,
        PhaseView::Storing { .. } | PhaseView::Discarding { .. } => 1,
        PhaseView::Done => 0,
    }
}

/// The actions that a row of events leads to.
pub open spec fn actions(s: SessionView, events: Seq<CacheEventView>, kinds: Seq<char>) -> Seq<
    CacheActionView,
>
    decreases events.len(),
{
    if events.len() == 0 || !s.awaits(events[0]) {
        Seq::empty()
    } else {
        let (t, a) = s.stepped(events[0], kinds);
        seq![a] + actions(t, events.drop_first(), kinds)
    }
}

/// How many of the actions are fetches.
pub open spec fn fetches(actions: Seq<CacheActionView>) -> nat
    decreases actions.len(),
{
    if actions.len() == 0 {
        0
    } else {
        fetches(actions.drop_first()) + if actions[0] is Fetch {
            1nat
        } else {
            0nat
        }
    }
}

/// Every event brings a request closer to its end, and where none is awaited it has been answered.
pub proof fn law_requests_end(s: SessionView, event: CacheEventView, kinds: Seq<char>)
    requires
        s.awaits(event),
    ensures
        steps_left(s.stepped(event, kinds).0.phase) < steps_left(s.phase),
        s.stepped(event, kinds).0.phase is Done <==> s.stepped(event, kinds).1 is Serve,
        s.stepped(event, kinds).0.target == s.target,
        s.stepped(event, kinds).0.br == s.br,
{
}

/// Whatever happens, no more fetches follow than are left.
proof fn lemma_fetches(s: SessionView, events: Seq<CacheEventView>, kinds: Seq<char>)
    ensures
        fetches(actions(s, events, kinds)) <= fetches_left(s.phase),
    decreases events.len(),
{
    if events.len() > 0 && s.awaits(events[0]) {
        let (t, a) = s.stepped(events[0], kinds);
        lemma_fetches(t, events.drop_first(), kinds);
        let rest = actions(t, events.drop_first(), kinds);
        assert((seq![a] + rest).drop_first() =~= rest);
    }
}

/// A request makes at most two fetches, and offline it makes none.
pub proof fn law_few_fetches(
    target: TargetView,
    br: bool,
    offline: bool,
    events: Seq<CacheEventView>,
    kinds: Seq<char>,
)
    ensures
        ({
            let (s, a) = SessionView::begun(target, br, offline);
            let all = seq![a] + actions(s, events, kinds);
            if offline {
                fetches(all) == 0
            } else {
                1 <= fetches(all) <= 2
            }
        }),
{
    let (s, a) = SessionView::begun(target, br, offline);
    lemma_fetches(s, events, kinds);
    let rest = actions(s, events, kinds);
    assert((seq![a] + rest).drop_first() =~= rest);
}

/// Only the second fetch is unconditional, and it follows only an answer that refers to a resource
/// which is not kept. Only what was fetched and is new is stored; it is stored under the names
/// that it is later looked for and remembered by.
pub proof fn law_what_is_stored(s: SessionView, event: CacheEventView, kinds: Seq<char>)
    requires
        s.awaits(event),
    ensures
        match s.stepped(event, kinds).1 {
            CacheActionView::Fetch { url, conditional } => {
                &&& s.phase is SeeingWhetherKept
                &&& event == CacheEventView::Seen(false)
                &&& !conditional
                &&& url == url_of(s.target)
            },
            CacheActionView::Store { name, record, .. } => {
                &&& s.phase matches PhaseView::Locking { response, status: Some(status) }
                &&& status != NOT_MODIFIED
                &&& event == CacheEventView::Seen(false)
                &&& name == resource_name(s.target, response)
                &&& record == record_name(s.target)
            },
            _ => true,
        },
{
}

/// What was fetched and stored is what is served offline: the record is read from where it was
/// written, and it leads to the resource that was written with it. To a client that takes the same
/// encodings it is served in the same way, headers and all, as it was when it had been stored.
pub proof fn law_stored_is_served_offline(
    online: SessionView,
    response: ResponseView,
    status: u16,
    br: bool,
    kinds: Seq<char>,
)
    requires
        online.phase == (PhaseView::Locking { response, status: Some(status) }),
        status != NOT_MODIFIED,
    ensures
        ({
            let (offline, load) = SessionView::begun(online.target, br, true);
            let (seeing, see) = offline.stepped(CacheEventView::Loaded(response), kinds);
            let (done, serve) = seeing.stepped(CacheEventView::Seen(true), kinds);
            let (storing, store) = online.stepped(CacheEventView::Seen(false), kinds);
            &&& store matches CacheActionView::Store { name, record, .. }
            &&& load == CacheActionView::Load { name: record }
            &&& see == CacheActionView::See { name }
            &&& serve matches CacheActionView::Serve { name: served, .. }
            &&& served == name
            &&& br == online.br ==> serve == storing.stepped(CacheEventView::Stored, kinds).1
        }),
{
}

/// What is served is as the client takes it: compressed only where the client takes that, and
/// exactly then the encoding is named. Its tag is named, and its kind where it is known.
pub proof fn law_what_is_served(s: SessionView, response: ResponseView)
    ensures
        ({
            let compressed = response.compressed;
            match s.serving(response).1 {
                CacheActionView::Serve { status, name, decode, headers } => {
                    &&& status == OK
                    &&& name == resource_name(s.target, response)
                    &&& decode <==> compressed && !s.br
                    &&& headers.contains(("etag"@, response.etag))
                    &&& forall|t: Seq<char>| #[trigger]
                        headers.contains(("content-type"@, t)) <==> response.content_type == Some(t)
                    &&& headers.contains(("content-encoding"@, "br"@)) <==> compressed && s.br
                },
                _ => false,
            }
        }),
{
    let h = served_headers(response, s.br);
    reveal_strlit("etag");
    reveal_strlit("content-type");
    reveal_strlit("content-encoding");
    assert(h[0] == ("etag"@, response.etag));
    if response.compressed && s.br {
        assert(h.last() == ("content-encoding"@, "br"@));
    } else if h.contains(("content-encoding"@, "br"@)) {
        let i = choose|i: int| 0 <= i < h.len() && h[i] == ("content-encoding"@, "br"@);
        assert(h[i].0.len() == 16);
    }
    assert forall|t: Seq<char>| #[trigger]
        h.contains(("content-type"@, t)) <==> response.content_type == Some(t) by {
        if response.content_type == Some(t) {
            assert(h[1] == ("content-type"@, t));
        }
        if h.contains(("content-type"@, t)) {
            let i = choose|i: int| 0 <= i < h.len() && h[i] == ("content-type"@, t);
            assert(h[i].0.len() == 12);
        }
    }
}

/// No request is ever passed on to a host that is not known, apart from the site itself.
pub proof fn law_only_known_hosts(jackbox_urls: Seq<char>, path_and_query: Seq<char>)
    requires
        !is_barred(jackbox_urls, path_and_query),
    ensures
        ({
            let authority = wanted(path_and_query).0;
            authority == "jackbox.tv"@ || is_match_of(jackbox_urls, authority)
        }),
{
}

/// What is put in before a host in a rewritten text leads back to that host: a request for the
/// host and a path behind the mark is one for that path at that host.
pub proof fn law_detour_leads_there(authority: Seq<char>, tail: Seq<char>)
    requires
        !crate::text::holds(authority, "/"@),
    ensures
        is_detour("/@"@ + authority + "/"@ + tail),
        wanted("/@"@ + authority + "/"@ + tail) == (authority, "/"@ + tail),
{
    reveal_strlit("/@");
    reveal_strlit("/");
    let whole = "/@"@ + authority + "/"@ + tail;
    assert(whole.subrange(0, 2) =~= "/@"@);
    assert(whole.skip(2) =~= authority + seq!['/'] + tail);
    assert("/"@ =~= seq!['/']);
    assert(forall|i: int| 0 <= i < authority.len() ==> authority[i] != '/') by {
        if exists|i: int| 0 <= i < authority.len() && authority[i] == '/' {
            let i = choose|i: int| 0 <= i < authority.len() && authority[i] == '/';
            lemma_first_from(authority, "/"@, 0);
            assert(authority.subrange(i, i + 1) =~= "/"@);
            assert(occurs_at(authority, "/"@, i));
        }
    }
    crate::text::lemma_cut_at_char(authority, '/', tail);
}

/// The content that a resource is kept with is compressed where some kind of content that is kept
/// compressed is named in its own kind, and only there; its tag and its kind are those that it was
/// fetched with.
pub proof fn law_what_is_remembered(
    etag: Seq<char>,
    content_type: Option<Seq<char>>,
    kinds: Seq<char>,
)
    ensures
        response_of(etag, content_type, kinds).etag == etag,
        response_of(etag, content_type, kinds).content_type == content_type,
        response_of(etag, content_type, kinds).compressed <==> (content_type matches Some(t)
            && exists|i: int| 0 <= i && #[trigger] fits_some(kinds, t, i)),
{
    if let Some(t) = content_type {
        law_match_is_a_fit(kinds, t);
    }
}

/// The name of the file of a resource: the host, its tag, and a mark where it is compressed.
pub open spec fn is_file_of(
    name: Seq<char>,
    host: Seq<char>,
    etag: Seq<char>,
    compressed: bool,
) -> bool {
    name == host + "/"@ + etag + (if compressed {
        ".br"@
    } else {
        ""@
    })
}

/// What is done with content of a kind: scripts and JSON are rewritten as scripts, style sheets as
/// style sheets, and anything else is kept as it is.
pub open spec fn is_treated_as(content_type: Option<Seq<char>>, treatment: Treatment) -> bool {
    match treatment {
        Treatment::PatchScript => content_type == Some("text/javascript"@) || content_type == Some(
            "application/json"@,
        ),
        Treatment::PatchSheet => content_type == Some("text/css"@),
        Treatment::Keep => content_type != Some("text/javascript"@) && content_type != Some(
            "application/json"@,
        ) && content_type != Some("text/css"@),
    }
}

/// The client gets the content back as it was fetched: what is kept compressed is decompressed for
/// it or named as compressed, and what is not is neither.
pub open spec fn gives_content_back(
    compress: bool,
    decode: bool,
    headers: Seq<(Seq<char>, Seq<char>)>,
) -> bool {
    &&& compress <==> (decode || headers.contains(("content-encoding"@, "br"@)))
    &&& !(decode && headers.contains(("content-encoding"@, "br"@)))
}

/// A client gets back what was fetched: whatever is stored for a request, the answer serves the
/// same file, and what was compressed when it was stored, and only that, is decompressed or named
/// as compressed. The same holds of every later answer that is made offline from what is
/// remembered. Only scripts, JSON and style sheets are rewritten before they are stored.
pub proof fn law_content_comes_back(
    s: SessionView,
    response: ResponseView,
    status: u16,
    event: CacheEventView,
    br: bool,
    kinds: Seq<char>,
)
    requires
        s.phase == (PhaseView::Locking { response, status: Some(status) }),
        s.awaits(event),
    ensures
        ({
            let (storing, store) = s.stepped(event, kinds);
            let (done, serve) = storing.stepped(CacheEventView::Stored, kinds);
            let (offline, load) = SessionView::begun(s.target, br, true);
            let (seeing, see) = offline.stepped(CacheEventView::Loaded(response), kinds);
            let (later, serve_later) = seeing.stepped(CacheEventView::Seen(true), kinds);
            &&& store is Store <==> status != 304 && event == CacheEventView::Seen(false)
            &&& store matches CacheActionView::Store { name, record, treatment, compress } ==> {
                &&& is_file_of(name, s.target.host, response.etag, compress)
                &&& compress == response.compressed
                &&& is_treated_as(response.content_type, treatment)
                &&& serve matches CacheActionView::Serve { status, name: served, decode, headers }
                    && status == 200 && served == name && gives_content_back(
                    compress,
                    decode,
                    headers,
                ) && (decode ==> !s.br) && headers.contains(("etag"@, response.etag))
                &&& load == CacheActionView::Load { name: record }
                &&& see == CacheActionView::See { name }
                &&& serve_later matches CacheActionView::Serve {
                    status,
                    name: served,
                    decode,
                    headers,
                } && status == 200 && served == name && gives_content_back(
                    compress,
                    decode,
                    headers,
                ) && (decode ==> !br) && headers.contains(("etag"@, response.etag))
            }
        }),
{
    law_what_is_served(s, response);
    law_what_is_served(SessionView { br, ..s }, response);
}

/// Where nothing new was fetched, or another request has stored it meanwhile, nothing is stored,
/// and what is kept is served.
pub proof fn law_nothing_new_is_stored(
    s: SessionView,
    response: ResponseView,
    status: Option<u16>,
    kept: bool,
    kinds: Seq<char>,
)
    requires
        s.phase == (PhaseView::Locking { response, status }),
        status is None || status == Some(304u16) || kept,
    ensures
        ({
            let (discarding, discard) = s.stepped(CacheEventView::Seen(kept), kinds);
            let (done, serve) = discarding.stepped(CacheEventView::Discarded, kinds);
            &&& discard is Discard
            &&& discarding.awaits(CacheEventView::Discarded)
            &&& serve matches CacheActionView::Serve { status: last_status, name, decode, headers }
            &&& last_status == 200
            &&& is_file_of(name, s.target.host, response.etag, response.compressed)
            &&& gives_content_back(response.compressed, decode, headers)
            &&& decode ==> !s.br
        }),
{
    law_what_is_served(s, response);
}

/// A resource that is new is fetched, looked for, stored under its tag and served. Its kind decides
/// whether it is compressed.
pub proof fn law_new_resource(
    target: TargetView,
    br: bool,
    status: u16,
    etag: Seq<char>,
    content_type: Option<Seq<char>>,
    kinds: Seq<char>,
)
    requires
        status != 304,
    ensures
        ({
            let fetched = CacheEventView::Fetched { status, etag, content_type };
            let compressed = content_type matches Some(t) && is_match_of(kinds, t);
            let (s0, fetch) = SessionView::begun(target, br, false);
            let (s1, see) = s0.stepped(fetched, kinds);
            let (s2, lock) = s1.stepped(CacheEventView::Seen(false), kinds);
            let (s3, store) = s2.stepped(CacheEventView::Seen(false), kinds);
            let (s4, serve) = s3.stepped(CacheEventView::Stored, kinds);
            &&& fetch is Fetch && s0.awaits(fetched)
            &&& see matches CacheActionView::See { name }
            &&& s1.awaits(CacheEventView::Seen(false))
            &&& is_file_of(name, target.host, etag, compressed)
            &&& lock == CacheActionView::Lock { name } && s2.awaits(CacheEventView::Seen(false))
            &&& store matches CacheActionView::Store { name: stored, record, treatment, compress }
            &&& s3.awaits(CacheEventView::Stored)
            &&& stored == name
            &&& compress == compressed
            &&& is_treated_as(content_type, treatment)
            &&& serve matches CacheActionView::Serve {
                status: last_status,
                name: served,
                decode,
                headers,
            }
            &&& s4.phase is Done
            &&& last_status == 200
            &&& served == name
            &&& gives_content_back(compress, decode, headers)
            &&& decode ==> !br
        }),
{
    let response = response_of(etag, content_type, kinds);
    let (s0, _) = SessionView::begun(target, br, false);
    law_what_is_served(s0, response);
}

/// A resource that is kept is served without being stored again, after one fetch, whatever the
/// answer to that was; one that the answer only refers to and that is not kept is fetched once
/// more, from the same address, without naming the tag that the client has.
pub proof fn law_kept_resource(
    target: TargetView,
    br: bool,
    status: u16,
    etag: Seq<char>,
    content_type: Option<Seq<char>>,
    kinds: Seq<char>,
)
    ensures
        ({
            let fetched = CacheEventView::Fetched { status, etag, content_type };
            let compressed = content_type matches Some(t) && is_match_of(kinds, t);
            let seen = CacheEventView::Seen(true);
            let (s0, fetch) = SessionView::begun(target, br, false);
            let (s1, see) = s0.stepped(fetched, kinds);
            let (s2, next) = s1.stepped(seen, kinds);
            let (s3, last) = if status == 304 {
                s2.stepped(seen, kinds)
            } else {
                (s2, next)
            };
            &&& fetch matches CacheActionView::Fetch { url, conditional }
            &&& conditional
            &&& see matches CacheActionView::See { name }
            &&& is_file_of(name, target.host, etag, compressed)
            &&& status == 304 ==> next == see
            &&& last matches CacheActionView::Serve {
                status: last_status,
                name: served,
                decode,
                headers,
            }
            &&& last_status == 200
            &&& served == name
            &&& gives_content_back(compressed, decode, headers)
            &&& status == 304 ==> s1.stepped(CacheEventView::Seen(false), kinds) == (
                SessionView { phase: PhaseView::Fetching { again: true }, ..s0 },
                CacheActionView::Fetch { url, conditional: false },
            )
        }),
{
    let response = response_of(etag, content_type, kinds);
    let (s0, _) = SessionView::begun(target, br, false);
    law_what_is_served(s0, response);
}

/// What is served names the tag, the kind and the encoding, and nothing else.
pub proof fn law_nothing_else_is_named(r: ResponseView, br: bool)
    ensures
        served_headers(r, br).len() == 1 + (if r.content_type is Some {
            1int
        } else {
            0
        }) + (if br && r.compressed {
            1int
        } else {
            0
        }),
        served_headers(r, br)[0] == ("etag"@, r.etag),
{
}

/// The address that a resource is fetched from: that of its host, with the path and the query of
/// the request; a request without a path is one for the root.
pub proof fn law_addresses(t: TargetView)
    ensures
        t.path_and_query.len() > 0 && t.path_and_query[0] != '?' ==> url_of(t) == "https://"@
            + t.authority + t.path_and_query,
        t.path_and_query.len() == 0 || t.path_and_query[0] == '?' ==> url_of(t) == "https://"@
            + t.authority + "/"@ + t.path_and_query,
        forall|br: bool|
            (#[trigger] SessionView::begun(t, br, false)).1 == (CacheActionView::Fetch {
                url: url_of(t),
                conditional: true,
            }),
{
    lemma_no_path(t.path_and_query);
    reveal_strlit("?");
    if t.path_and_query.len() > 0 {
        assert("?"@ =~= seq!['?']);
        assert(occurs_at(t.path_and_query, "?"@, 0) <==> t.path_and_query[0] == '?') by {
            assert(t.path_and_query.subrange(0, 1) =~= seq![t.path_and_query[0]]);
            assert("?"@[0] == '?');
            assert(t.path_and_query.subrange(0, 1)[0] == t.path_and_query[0]);
        }
    }
    assert("https://"@ + t.authority + ("/"@ + t.path_and_query) =~= "https://"@ + t.authority + "/"@
        + t.path_and_query);
}

/// What is remembered of a resource is kept under its host and its path, whatever the query is; for
/// the root under a name of its own.
pub proof fn law_records_go_by_the_path(t: TargetView, path: Seq<char>, query: Seq<char>)
    requires
        path.len() > 0,
        !path.contains('?'),
        t.path_and_query == path || t.path_and_query == path + "?"@ + query,
    ensures
        record_name(t) == t.host + "/"@ + (if path == "/"@ {
            "index.html"@
        } else {
            path
        }),
        forall|br: bool|
            (#[trigger] SessionView::begun(t, br, true)).1 == (CacheActionView::Load {
                name: t.host + "/"@ + (if path == "/"@ {
                    "index.html"@
                } else {
                    path
                }),
            }),
{
    reveal_strlit("?");
    assert("?"@ =~= seq!['?']);
    if t.path_and_query == path {
        assert forall|j: int| 0 <= j implies !#[trigger] occurs_at(path, "?"@, j) by {
            if occurs_at(path, "?"@, j) {
                assert(path.subrange(j, j + 1)[0] == '?');
                assert(path[j] == '?');
            }
        }
        lemma_first_from_none(path, "?"@, 0);
    } else {
        crate::text::lemma_cut_at_char(path, '?', query);
    }
}

/// A request that does not begin with the mark is one for the site, as it stands; one that names a
/// host and no path is one for the root of that host.
pub proof fn law_requests_for_the_site(path_and_query: Seq<char>, authority: Seq<char>)
    requires
        !crate::text::holds(authority, "/"@),
    ensures
        !occurs_at(path_and_query, "/@"@, 0) ==> wanted(path_and_query) == (
            "jackbox.tv"@,
            path_and_query,
        ),
        wanted("/@"@ + authority) == (authority, "/"@),
{
    reveal_strlit("/@");
    let whole = "/@"@ + authority;
    assert(whole.subrange(0, 2) =~= "/@"@);
    assert(whole.skip(2) =~= authority);
}

/// A request for a host behind the mark is turned away exactly where no known host is named in it.
pub proof fn law_unknown_hosts_are_barred(
    jackbox_urls: Seq<char>,
    authority: Seq<char>,
    tail: Seq<char>,
    path_and_query: Seq<char>,
)
    requires
        !crate::text::holds(authority, "/"@),
    ensures
        is_barred(jackbox_urls, "/@"@ + authority + "/"@ + tail) <==> !exists|i: int|
            0 <= i && #[trigger] fits_some(jackbox_urls, authority, i),
        !occurs_at(path_and_query, "/@"@, 0) ==> !is_barred(jackbox_urls, path_and_query),
{
    law_detour_leads_there(authority, tail);
    law_match_is_a_fit(jackbox_urls, authority);
}

/// The headers of the client are passed on in their order, all of them but the host, the time of
/// its copy and, unless the fetch is conditional, the tag of its copy.
pub proof fn law_headers_are_passed_on(h: Seq<(Seq<char>, Seq<u8>)>, conditional: bool)
    ensures
        passed_on(h, conditional) == h.filter(
            |e: (Seq<char>, Seq<u8>)|
                e.0 != "host"@ && e.0 != "if-modified-since"@ && (conditional || e.0
                    != "if-none-match"@),
        ),
    decreases h.len(),
{
    reveal(Seq::filter);
    if h.len() > 0 {
        law_headers_are_passed_on(h.drop_last(), conditional);
    }
}

/// A client takes Brotli exactly where it names it, between commas and apart from white space.
pub proof fn law_who_takes_brotli(parts: Seq<Seq<char>>)
    requires
        parts.len() > 0,
        forall|k: int| 0 <= k < parts.len() ==> !(#[trigger] parts[k]).contains(','),
    ensures
        takes_br(Some(crate::text::joined(parts, ','))) <==> exists|k: int|
            0 <= k < parts.len() && trimmed(#[trigger] parts[k]) == seq!['b', 'r'],
        !takes_br(None),
{
    reveal_strlit("br");
    assert("br"@ =~= seq!['b', 'r']);
    crate::text::law_joined_pieces_come_apart(parts, ',');
    let s = crate::text::joined(parts, ',');
    assert(pieces(s, ',') == parts);
    if takes_br(Some(s)) {
        let k = choose|k: int|
            0 <= k < pieces(s, ',').len() && trimmed(#[trigger] pieces(s, ',')[k]) == "br"@;
        assert(trimmed(parts[k]) == seq!['b', 'r']);
    }
    if exists|k: int| 0 <= k < parts.len() && trimmed(#[trigger] parts[k]) == seq!['b', 'r'] {
        let k = choose|k: int|
            0 <= k < parts.len() && trimmed(#[trigger] parts[k]) == seq!['b', 'r'];
        assert(trimmed(pieces(s, ',')[k]) == "br"@);
    }
}

/// The hosts that are known, and the kinds of content that are kept compressed, one by one.
pub proof fn law_known_by_name()
    ensures
        pieces(known_hosts(), '|') == seq![
            "blobcast.jackboxgames.com"@,
            "ecast.jackboxgames.com"@,
            "bundles.jackbox.tv"@,
            "jackbox.tv"@,
            "cdn.jackboxgames.com"@,
            "s3.amazonaws.com"@,
        ],
        pieces(compressed_kinds(), '|') == seq![
            "text/html"@,
            "text/css"@,
            "text/xml"@,
            "text/javascript"@,
            "application/javascript"@,
            "application/x-javascript"@,
            "application/json"@,
        ],
{
    reveal_strlit("blobcast.jackboxgames.com");
    reveal_strlit("ecast.jackboxgames.com");
    reveal_strlit("bundles.jackbox.tv");
    reveal_strlit("jackbox.tv");
    reveal_strlit("cdn.jackboxgames.com");
    reveal_strlit("s3.amazonaws.com");
    reveal_strlit("text/html");
    reveal_strlit("text/css");
    reveal_strlit("text/xml");
    reveal_strlit("text/javascript");
    reveal_strlit("application/javascript");
    reveal_strlit("application/x-javascript");
    reveal_strlit("application/json");
    reveal_strlit(
        "text/html|text/css|text/xml|text/javascript|application/javascript|application/x-javascript|application/json",
    );
    reveal_strlit(
        "blobcast.jackboxgames.com|ecast.jackboxgames.com|bundles.jackbox.tv|jackbox.tv|cdn.jackboxgames.com|s3.amazonaws.com",
    );
    let hosts = seq![
        "blobcast.jackboxgames.com"@,
        "ecast.jackboxgames.com"@,
        "bundles.jackbox.tv"@,
        "jackbox.tv"@,
        "cdn.jackboxgames.com"@,
        "s3.amazonaws.com"@,
    ];
    let kinds = seq![
        "text/html"@,
        "text/css"@,
        "text/xml"@,
        "text/javascript"@,
        "application/javascript"@,
        "application/x-javascript"@,
        "application/json"@,
    ];
    reveal_with_fuel(crate::text::joined, 8);
    assert(crate::text::joined(hosts, '|') =~= known_hosts());
    assert(crate::text::joined(kinds, '|') =~= compressed_kinds());
    crate::text::law_joined_pieces_come_apart(hosts, '|');
    crate::text::law_joined_pieces_come_apart(kinds, '|');
}

/// What is fetched for a request is what the request is for, from the host that its authority
/// names; a resource of the site itself is fetched from the site.
pub proof fn law_targets(path_and_query: Seq<char>, host: Seq<char>)
    ensures
        target_of(path_and_query, host).host == host,
        target_of(path_and_query, host).authority == wanted(path_and_query).0,
        target_of(path_and_query, host).path_and_query == wanted(path_and_query).1,
        !occurs_at(path_and_query, "/@"@, 0) ==> target_of(path_and_query, host) == (TargetView {
            authority: "jackbox.tv"@,
            host,
            path_and_query,
        }),
{
}

/// What was fetched the second time is treated as what is new: it is looked for under its own tag
/// and, where it is not kept, stored and served, unless the answer again only refers to it.
pub proof fn law_second_fetch(
    s: SessionView,
    status: u16,
    etag: Seq<char>,
    content_type: Option<Seq<char>>,
    kinds: Seq<char>,
)
    requires
        s.phase == (PhaseView::Fetching { again: true }),
    ensures
        ({
            let fetched = CacheEventView::Fetched { status, etag, content_type };
            let compressed = content_type matches Some(t) && is_match_of(kinds, t);
            let (s1, see) = s.stepped(fetched, kinds);
            let (s2, lock) = s1.stepped(CacheEventView::Seen(false), kinds);
            let (s3, last) = s2.stepped(CacheEventView::Seen(false), kinds);
            &&& s.awaits(fetched)
            &&& see matches CacheActionView::See { name }
            &&& is_file_of(name, s.target.host, etag, compressed)
            &&& lock == CacheActionView::Lock { name }
            &&& status != 304 ==> (last matches CacheActionView::Store {
                name: stored,
                record,
                treatment,
                compress,
            } && stored == name && compress == compressed && is_treated_as(content_type, treatment))
            &&& status == 304 ==> last is Discard
        }),
{
}

/// A resource that is looked for is served where it is kept; where it is not, its file is locked
/// and looked for once more. Offline it is the remembered one that is looked for.
pub proof fn law_what_is_looked_for(
    s: SessionView,
    response: ResponseView,
    status: Option<u16>,
    br: bool,
    kinds: Seq<char>,
)
    requires
        s.phase == (PhaseView::Seeing { response, status }),
    ensures
        ({
            let (locking, lock) = s.stepped(CacheEventView::Seen(false), kinds);
            let (done, serve) = s.stepped(CacheEventView::Seen(true), kinds);
            let (loading, load) = SessionView::begun(s.target, br, true);
            let (seeing, see) = loading.stepped(CacheEventView::Loaded(response), kinds);
            &&& locking.phase == (PhaseView::Locking { response, status })
            &&& lock matches CacheActionView::Lock { name }
            &&& is_file_of(name, s.target.host, response.etag, response.compressed)
            &&& done.phase is Done
            &&& serve matches CacheActionView::Serve {
                status: last_status,
                name: served,
                decode,
                headers,
            }
            &&& last_status == 200
            &&& served == name
            &&& gives_content_back(response.compressed, decode, headers)
            &&& decode ==> !s.br
            &&& load is Load
            &&& see == CacheActionView::See { name }
            &&& seeing.phase == (PhaseView::Seeing { response, status: None })
        }),
{
    law_what_is_served(s, response);
}

} // verus!
