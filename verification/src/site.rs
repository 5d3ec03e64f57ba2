//! The web site that the server stands in for.
use vstd::prelude::*;

use crate::decimal::{decimal_text, lemma_decimal_text, write_unsigned};
use crate::http_cache::{authority_host, authority_host_of, root, rooted};
use crate::message::Refusal;
use crate::state::Ports;
use crate::text::{contains, first_from, holds, joined, law_joined_pieces_come_apart};
use crate::text::{law_replacing, law_what_a_text_holds, lemma_first_from};
use crate::text::{lemma_first_from_none, occurs_at, opt_str, pieces};
use crate::text::{replace_all, replaced, split, starts_with, texts};

verus! {

/// What is done about a request for a page: the client is sent elsewhere, told that all is well,
/// or gets the page from the cache.
#[derive(Debug)]
pub enum SiteAnswer {
    Redirect { path_and_query: String },
    Acknowledge,
    Page,
}

/// A part of a query that is taken out.
pub open spec fn is_taken_out(part: Seq<char>) -> bool {
    occurs_at(part, "s="@, 0)
}

/// The parts of a query that stay.
pub open spec fn staying(parts: Seq<Seq<char>>) -> Seq<Seq<char>>
    decreases parts.len(),
{
    if parts.len() == 0 {
        Seq::empty()
    } else if is_taken_out(parts.last()) {
        staying(parts.drop_last())
    } else {
        staying(parts.drop_last()).push(parts.last())
    }
}

/// The parts of a query put together.
pub open spec fn put_together(parts: Seq<Seq<char>>) -> Seq<char>
    decreases parts.len(),
{
    if parts.len() == 0 {
        Seq::empty()
    } else if parts.len() == 1 {
        parts[0]
    } else {
        put_together(parts.drop_last()) + seq!['&'] + parts.last()
    }
}

/// The query says something that is to be taken out of it.
pub open spec fn is_overloaded(query: Option<Seq<char>>) -> bool {
    match query {
        Some(q) => holds(q, "&s="@),
        None => false,
    }
}

/// The query without what is taken out of it.
pub open spec fn relieved(query: Seq<char>) -> Seq<char> {
    put_together(staying(pieces(query, '&')))
}

/// A path with the query without what is taken out of it; without a question mark, where nothing
/// stays.
pub open spec fn elsewhere(path: Seq<char>, query: Seq<char>) -> Seq<char> {
    if staying(pieces(query, '&')).len() == 0 {
        path
    } else {
        path + "?"@ + relieved(query)
    }
}

/// The client is a game.
pub open spec fn is_game(user_agent: Option<Seq<char>>) -> bool {
    match user_agent {
        Some(a) => occurs_at(a, "JackboxGames"@, 0),
        None => false,
    }
}

/// A path with the query without what is taken out of it.
fn relieve(path: &str, query: &str) -> (r: String)
    ensures
        r@ == elsewhere(path@, query@),
{
    let parts = split(query, '&');
    let ghost all = pieces(query@, '&');
    let mut out = path.to_owned();
    assert(staying(all.take(0)) =~= Seq::<Seq<char>>::empty());
    let mut first = true;
    for i in 0..parts.len()
        invariant
            texts(parts@) == all,
            all == pieces(query@, '&'),
            first <==> staying(all.take(i as int)).len() == 0,
            out@ == (if staying(all.take(i as int)).len() == 0 {
                path@
            } else {
                path@ + "?"@ + put_together(staying(all.take(i as int)))
            }),
    {
        let ghost before = staying(all.take(i as int));
        let ghost part = all[i as int];
        proof {
            assert(texts(parts@)[i as int] == parts@[i as int]@);
            assert(all.take(i + 1).drop_last() =~= all.take(i as int));
            assert(all.take(i + 1).last() == part);
        }
        if !starts_with(parts[i].as_str(), "s=") {
            proof {
                assert(before.push(part).drop_last() =~= before);
            }
            if first {
                out.append("?");
                out.append(parts[i].as_str());
                first = false;
                assert(out@ =~= path@ + "?"@ + put_together(before.push(part)));
            } else {
                out.push('&');
                out.append(parts[i].as_str());
                assert(out@ =~= path@ + "?"@ + put_together(before.push(part)));
            }
        }
    }
    assert(all.take(all.len() as int) =~= all);
    out
}

/// Decides what is done about a request for a page.
pub fn serve_jb_tv(path: &str, query: Option<&str>, user_agent: Option<&str>) -> (r: SiteAnswer)
    ensures
        match r {
            SiteAnswer::Redirect { path_and_query } => is_overloaded(opt_str(query))
                && path_and_query@ == elsewhere(path@, opt_str(query)->0),
            SiteAnswer::Acknowledge => !is_overloaded(opt_str(query)) && is_game(
                opt_str(user_agent),
            ),
            SiteAnswer::Page => !is_overloaded(opt_str(query)) && !is_game(opt_str(user_agent)),
        },
{
    if let Some(q) = query {
        if contains(q, "&s=") {
            return SiteAnswer::Redirect { path_and_query: relieve(path, q) };
        }
    }
    let game = match user_agent {
        Some(a) => starts_with(a, "JackboxGames"),
        None => false,
    };
    if game {
        SiteAnswer::Acknowledge
    } else {
        SiteAnswer::Page
    }
}

/// The host of a request over the insecure port, as it is over the secure one.
pub open spec fn secure_host(host: Seq<char>, http: u16, https: u16) -> Seq<char> {
    replaced(host, decimal_text(http as nat), decimal_text(https as nat))
}

/// The port that insecure requests are awaited on, where they are.
pub fn insecure_port(ports: Ports) -> (r: Option<u16>)
    ensures
        r == (if ports.http is Some {
            Some(80u16)
        } else {
            None
        }),
{
    match ports.http {
        Some(_) => Some(80),
        None => None,
    }
}

/// The secure address that an insecure request is sent to.
pub fn make_https(host: &str, path_and_query: Option<&str>, http: u16, https: u16) -> (r: Result<
    String,
    Refusal,
>)
    ensures
        ({
            let secure = secure_host(host@, http, https);
            match r {
                Ok(url) => authority_host_of(secure) is Some && url@ == "https://"@ + secure + (
                match opt_str(path_and_query) {
                    Some(p) => rooted(p),
                    None => "/"@,
                }),
                Err(e) => authority_host_of(secure) is None && e.says(400, ""@),
            }
        }),
{
    let from = write_unsigned(http as u64);
    let to = write_unsigned(https as u64);
    proof {
        lemma_decimal_text(http as nat);
    }
    let secure = replace_all(host, from.as_str(), to.as_str());
    if authority_host(secure.as_str()).is_none() {
        return Err(Refusal::new(400, ""));
    }
    let mut url = "https://".to_owned();
    url.append(secure.as_str());
    match path_and_query {
        Some(p) => url.append(root(p).as_str()),
        None => url.append("/"),
    }
    Ok(url)
}

/// A piece between separators holds none.
proof fn lemma_pieces_are_whole(q: Seq<char>)
    ensures
        pieces(q, '&').len() > 0,
        forall|k: int|
            0 <= k < pieces(q, '&').len() ==> !(#[trigger] pieces(q, '&')[k]).contains('&'),
    decreases q.len(),
{
    lemma_first_from(q, seq!['&'], 0);
    match first_from(q, seq!['&'], 0) {
        None => {
            if q.contains('&') {
                let i = choose|i: int| 0 <= i < q.len() && q[i] == '&';
                assert(q.subrange(i, i + 1) =~= seq!['&']);
                assert(occurs_at(q, seq!['&'], i));
            }
        },
        Some(i) => {
            let head = q.take(i);
            let rest = q.skip(i + 1);
            lemma_pieces_are_whole(rest);
            if head.contains('&') {
                let j = choose|j: int| 0 <= j < head.len() && head[j] == '&';
                assert(q.subrange(j, j + 1) =~= seq!['&']);
                assert(occurs_at(q, seq!['&'], j));
            }
            let all = pieces(q, '&');
            assert(all == seq![head] + pieces(rest, '&'));
            assert forall|k: int| 0 <= k < all.len() implies !(#[trigger] all[k]).contains('&') by {
                if k > 0 {
                    assert(all[k] == pieces(rest, '&')[k - 1]);
                }
            }
        },
    }
}

/// What stays is what is not taken out.
proof fn lemma_staying(parts: Seq<Seq<char>>)
    requires
        forall|k: int| 0 <= k < parts.len() ==> !(#[trigger] parts[k]).contains('&'),
    ensures
        forall|k: int|
            0 <= k < staying(parts).len() ==> {
                let p = #[trigger] staying(parts)[k];
                !p.contains('&') && !is_taken_out(p)
            },
    decreases parts.len(),
{
    if parts.len() > 0 {
        let before = staying(parts.drop_last());
        let all = staying(parts);
        lemma_staying(parts.drop_last());
        assert(!parts[parts.len() - 1].contains('&'));
        assert forall|k: int| 0 <= k < all.len() implies {
            let p = #[trigger] all[k];
            !p.contains('&') && !is_taken_out(p)
        } by {
            if k < before.len() {
                assert(all[k] == before[k]);
            }
        }
    }
}

/// Where whole parts are put together, a mark in front of an `s=` is the separator in front of a
/// part that begins so.
proof fn lemma_no_mark(parts: Seq<Seq<char>>, i: int)
    requires
        forall|k: int|
            0 <= k < parts.len() ==> !(#[trigger] parts[k]).contains('&') && !is_taken_out(
                parts[k],
            ),
    ensures
        !occurs_at(put_together(parts), "&s="@, i),
    decreases parts.len(),
{
    reveal_strlit("&s=");
    reveal_strlit("s=");
    let all = put_together(parts);
    let mark = "&s="@;
    if occurs_at(all, mark, i) {
        assert(all.subrange(i, i + 3)[0] == '&');
        assert(all.subrange(i, i + 3)[1] == 's');
        assert(all.subrange(i, i + 3)[2] == '=');
        if parts.len() == 1 {
            assert(parts[0][i] == '&');
            assert(parts[0].contains('&'));
        } else if parts.len() > 1 {
            let before = put_together(parts.drop_last());
            let last = parts.last();
            assert(last == parts[parts.len() - 1]);
            lemma_no_mark(parts.drop_last(), i);
            let n = before.len() as int;
            if i + 3 <= n {
                assert(before.subrange(i, i + 3) =~= mark);
            } else if i > n {
                assert(last[i - n - 1] == '&');
                assert(last.contains('&'));
            } else if i == n {
                assert(last.subrange(0, 2) =~= "s="@);
            } else {
                assert(all[n] == '&');
                assert(i + 1 == n || i + 2 == n);
            }
        }
    }
}

/// A client that is sent elsewhere is not sent on from there: what it was sent on for is gone.
pub proof fn law_sent_elsewhere_once(query: Seq<char>)
    ensures
        !is_overloaded(Some(relieved(query))),
{
    let parts = pieces(query, '&');
    lemma_pieces_are_whole(query);
    lemma_staying(parts);
    let q = relieved(query);
    assert forall|i: int| 0 <= i implies !#[trigger] occurs_at(q, "&s="@, i) by {
        lemma_no_mark(staying(parts), i);
    }
    lemma_first_from_none(q, "&s="@, 0);
}

/// Parts put together are joined.
proof fn lemma_put_together(parts: Seq<Seq<char>>)
    ensures
        put_together(parts) == joined(parts, '&'),
    decreases parts.len(),
{
    if parts.len() > 1 {
        lemma_put_together(parts.drop_last());
        lemma_joined_at_end(parts);
    }
}

/// Joining one more part.
proof fn lemma_joined_at_end(parts: Seq<Seq<char>>)
    requires
        parts.len() > 1,
    ensures
        joined(parts, '&') == joined(parts.drop_last(), '&') + seq!['&'] + parts.last(),
    decreases parts.len(),
{
    let rest = parts.drop_first();
    if parts.len() == 2 {
        assert(parts.drop_last() =~= seq![parts[0]]);
        assert(rest =~= seq![parts[1]]);
        assert(joined(rest, '&') == parts[1]);
        assert(joined(parts.drop_last(), '&') == parts[0]);
        assert(joined(parts, '&') =~= joined(parts.drop_last(), '&') + seq!['&'] + parts.last());
    } else {
        lemma_joined_at_end(rest);
        assert(rest.drop_last() =~= parts.drop_last().drop_first());
        assert(joined(parts, '&') =~= joined(parts.drop_last(), '&') + seq!['&'] + parts.last());
    }
}

/// What stays is what does not begin with the name that is taken out.
proof fn lemma_staying_is_filtered(parts: Seq<Seq<char>>)
    ensures
        staying(parts) == parts.filter(
            |p: Seq<char>| !(p.len() >= 2 && p[0] == 's' && p[1] == '='),
        ),
    decreases parts.len(),
{
    reveal(Seq::filter);
    reveal_strlit("s=");
    if parts.len() > 0 {
        lemma_staying_is_filtered(parts.drop_last());
        let p = parts.last();
        if p.len() >= 2 {
            assert("s="@ =~= seq!['s', '=']);
            if p[0] == 's' && p[1] == '=' {
                assert(p.subrange(0, 2) =~= "s="@);
            }
            if p.subrange(0, 2) == "s="@ {
                assert(p.subrange(0, 2)[0] == p[0]);
                assert(p.subrange(0, 2)[1] == p[1]);
            }
        }
    }
}

/// A client is sent elsewhere exactly where its query holds a further part that begins with the
/// name that is taken out. It is sent to the same path with a query of the same parts in the same
/// order, all but those that begin so.
pub proof fn law_what_is_taken_out(path: Seq<char>, parts: Seq<Seq<char>>)
    requires
        parts.len() > 0,
        forall|k: int| 0 <= k < parts.len() ==> !(#[trigger] parts[k]).contains('&'),
    ensures
        ({
            let query = joined(parts, '&');
            let kept = parts.filter(|p: Seq<char>| !(p.len() >= 2 && p[0] == 's' && p[1] == '='));
            &&& is_overloaded(Some(query)) <==> exists|i: int|
                0 <= i && i + 3 <= query.len() && #[trigger] query[i] == '&' && query[i + 1] == 's'
                    && query[i + 2] == '='
            &&& elsewhere(path, query) == if kept.len() == 0 {
                path
            } else {
                path + seq!['?'] + joined(kept, '&')
            }
        }),
        !is_overloaded(None),
{
    let query = joined(parts, '&');
    reveal_strlit("?");
    reveal_strlit("&s=");
    assert("?"@ =~= seq!['?']);
    law_joined_pieces_come_apart(parts, '&');
    lemma_staying_is_filtered(parts);
    lemma_put_together(staying(parts));
    law_what_a_text_holds(query, "&s="@);
    if is_overloaded(Some(query)) {
        let i = choose|i: int| 0 <= i && #[trigger] occurs_at(query, "&s="@, i);
        assert(query.subrange(i, i + 3)[0] == '&');
        assert(query.subrange(i, i + 3)[1] == 's');
        assert(query.subrange(i, i + 3)[2] == '=');
        assert(query[i] == '&');
    }
    if exists|i: int|
        0 <= i && i + 3 <= query.len() && #[trigger] query[i] == '&' && query[i + 1] == 's'
            && query[i + 2] == '=' {
        let i = choose|i: int|
            0 <= i && i + 3 <= query.len() && #[trigger] query[i] == '&' && query[i + 1] == 's'
                && query[i + 2] == '=';
        assert(query.subrange(i, i + 3) =~= "&s="@);
        assert(occurs_at(query, "&s="@, i));
    }
}

/// A client that names itself as a game, first of all, is one.
pub proof fn law_who_is_a_game(rest: Seq<char>, agent: Seq<char>)
    ensures
        is_game(Some("JackboxGames"@ + rest)),
        is_game(Some(agent)) ==> exists|rest: Seq<char>| agent == #[trigger] ("JackboxGames"@ + rest),
        !is_game(None),
{
    let n = "JackboxGames"@.len() as int;
    assert(("JackboxGames"@ + rest).subrange(0, n) =~= "JackboxGames"@);
    if is_game(Some(agent)) {
        assert(agent =~= "JackboxGames"@ + agent.skip(n));
    }
}

/// The host of an insecure request that ends in the insecure port, and names it nowhere before, is
/// the same host with the secure port; one that does not name the insecure port stays as it is.
pub proof fn law_the_port_is_exchanged(host: Seq<char>, http: u16, https: u16)
    requires
        forall|j: int|
            0 <= j < host.len() + 1 ==> !#[trigger] occurs_at(
                host + seq![':'] + decimal_text(http as nat),
                decimal_text(http as nat),
                j,
            ),
    ensures
        secure_host(host + seq![':'] + decimal_text(http as nat), http, https) == host + seq![':']
            + decimal_text(https as nat),
        !holds(host, decimal_text(http as nat)) ==> secure_host(host, http, https) == host,
{
    let port = decimal_text(http as nat);
    let none = Seq::<char>::empty();
    let head = host + seq![':'];
    lemma_decimal_text(http as nat);
    assert(head + port + none =~= head + port);
    assert forall|j: int| 0 <= j implies !#[trigger] occurs_at(none, port, j) by {}
    law_replacing(head, port, none, decimal_text(https as nat));
    assert(head + decimal_text(https as nat) + none =~= head + decimal_text(https as nat));
}

} // verus!
