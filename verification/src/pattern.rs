//! Search patterns: alternatives of characters, among which a dot stands for any character but a
//! line feed.
use vstd::prelude::*;
use vstd::utf8::encode_utf8;

use crate::text::{pieces, split, texts};

verus! {

/// A character of a pattern: a letter, a digit, a slash, a hyphen, a dot or a bar.
pub open spec fn is_pattern_char(c: char) -> bool {
    'a' <= c <= 'z' || 'A' <= c <= 'Z' || '0' <= c <= '9' || c == '/' || c == '-' || c == '.' || c
        == '|'
}

/// A pattern: some alternatives with bars between them, none of them empty.
pub open spec fn is_pattern(p: Seq<char>) -> bool {
    &&& p.len() <= 1000
    &&& forall|i: int| 0 <= i < p.len() ==> is_pattern_char(#[trigger] p[i])
    &&& forall|k: int| 0 <= k < pieces(p, '|').len() ==> (#[trigger] pieces(p, '|')[k]).len() > 0
}

/// One alternative fits the text at place `i`.
pub open spec fn fits(alternative: Seq<char>, s: Seq<char>, i: int) -> bool {
    &&& 0 <= i
    &&& i + alternative.len() <= s.len()
    &&& forall|k: int|
        0 <= k < alternative.len() ==> if alternative[k] == '.' {
            s[i + k] != '\n'
        } else {
            #[trigger] alternative[k] == s[i + k]
        }
}

/// The length of the first of the alternatives that fits the text at place `i`.
pub open spec fn fit_len(alternatives: Seq<Seq<char>>, s: Seq<char>, i: int) -> Option<nat>
    decreases alternatives.len(),
{
    if alternatives.len() == 0 {
        None
    } else if fits(alternatives[0], s, i) {
        Some(alternatives[0].len())
    } else {
        fit_len(alternatives.drop_first(), s, i)
    }
}

/// The first place at or after `from` where the pattern matches, and the length of the match.
pub open spec fn next_match(p: Seq<char>, s: Seq<char>, from: int) -> Option<(int, nat)>
    decreases s.len() + 1 - from,
{
    if from < 0 || from > s.len() {
        None
    } else {
        match fit_len(pieces(p, '|'), s, from) {
            Some(n) => Some((from, n)),
            None => next_match(p, s, from + 1),
        }
    }
}

/// The pattern matches somewhere in the text.
pub open spec fn is_match_of(p: Seq<char>, s: Seq<char>) -> bool {
    next_match(p, s, 0) is Some
}

/// The places where the pattern matches, taken from the left, each behind the match before it.
pub open spec fn match_places(p: Seq<char>, s: Seq<char>, from: int) -> Seq<int>
    decreases s.len() + 1 - from,
{
    match next_match(p, s, from) {
        Some((i, n)) => if from <= i && n > 0 && i + n <= s.len() {
            seq![i] + match_places(p, s, i + n)
        } else {
            Seq::empty()
        },
        None => Seq::empty(),
    }
}

/// The places where the pattern matches, counted in bytes.
pub open spec fn match_starts(p: Seq<char>, s: Seq<char>) -> Seq<usize> {
    let places = match_places(p, s, 0);
    Seq::new(places.len(), |j: int| encode_utf8(s.take(places[j])).len() as usize)
}

/// `regex_cursor::engines::meta::Regex::is_match`: whether the pattern matches somewhere. In a
/// regular expression letters, digits, slashes and hyphens stand for themselves, a dot stands for
/// any character but a line feed, and a bar separates alternatives.
#[verifier::external_body]
pub(crate) fn regex_is_match(pattern: &str, text: &str) -> (r: bool)
    requires
        is_pattern(pattern@),
    ensures
        r == is_match_of(pattern@, text@),
{
    let regex = regex_cursor::engines::meta::Regex::new(pattern).unwrap();
    regex.is_match(regex_cursor::Input::new(text))
}

/// `regex_cursor::engines::meta::Regex::find_iter`: where the successive matches start, counted in
/// bytes. A match is the leftmost one, there the first alternative that fits is taken, and the next
/// match is searched for behind it.
#[verifier::external_body]
fn regex_starts(pattern: &str, text: &str) -> (r: Vec<usize>)
    requires
        is_pattern(pattern@),
    ensures
        r@ == match_starts(pattern@, text@),
{
    let regex = regex_cursor::engines::meta::Regex::new(pattern).unwrap();
    regex.find_iter(regex_cursor::Input::new(text)).map(|m| m.start()).collect()
}

/// No alternative of the pattern is shorter than `n` characters.
pub open spec fn none_shorter(p: Seq<char>, n: int) -> bool {
    forall|k: int| 0 <= k < pieces(p, '|').len() ==> (#[trigger] pieces(p, '|')[k]).len() >= n
}

/// The length of the shortest alternative of a pattern.
pub(crate) fn shortest(pattern: &str) -> (r: usize)
    ensures
        none_shorter(pattern@, r as int),
        exists|k: int|
            0 <= k < pieces(pattern@, '|').len() && (#[trigger] pieces(pattern@, '|')[k]).len()
                == r,
{
    let parts = split(pattern, '|');
    let ghost all = pieces(pattern@, '|');
    assert(all[0] == parts@[0]@);
    let mut least: usize = parts[0].as_str().unicode_len();
    for i in 1..parts.len()
        invariant
            all == pieces(pattern@, '|'),
            texts(parts@) == all,
            forall|k: int| 0 <= k < i ==> (#[trigger] all[k]).len() >= least,
            exists|k: int| 0 <= k < all.len() && (#[trigger] all[k]).len() == least,
    {
        assert(all[i as int] == parts@[i as int]@);
        let n: usize = parts[i].as_str().unicode_len();
        if n < least {
            least = n;
        }
    }
    least
}

/// Where the successive matches start, counted in bytes. A text that is shorter than every
/// alternative is not searched.
pub(crate) fn starts_in(pattern: &str, least: usize, text: &str) -> (r: Vec<usize>)
    requires
        is_pattern(pattern@),
        none_shorter(pattern@, least as int),
    ensures
        r@ == match_starts(pattern@, text@),
{
    if text.unicode_len() < least {
        proof {
            lemma_next_match(pattern@, text@, 0);
            assert(match_starts(pattern@, text@) =~= Seq::<usize>::empty());
        }
        Vec::new()
    } else {
        regex_starts(pattern, text)
    }
}

/// A place where one of the alternatives fits.
pub open spec fn fits_some(p: Seq<char>, s: Seq<char>, i: int) -> bool {
    exists|k: int| 0 <= k < pieces(p, '|').len() && fits(#[trigger] pieces(p, '|')[k], s, i)
}

/// What fits is found.
pub proof fn lemma_fit_len(alternatives: Seq<Seq<char>>, s: Seq<char>, i: int)
    ensures
        match fit_len(alternatives, s, i) {
            Some(n) => exists|k: int|
                0 <= k < alternatives.len() && fits(#[trigger] alternatives[k], s, i)
                    && alternatives[k].len() == n,
            None => forall|k: int|
                0 <= k < alternatives.len() ==> !fits(#[trigger] alternatives[k], s, i),
        },
    decreases alternatives.len(),
{
    if alternatives.len() > 0 && !fits(alternatives[0], s, i) {
        let rest = alternatives.drop_first();
        lemma_fit_len(rest, s, i);
        match fit_len(rest, s, i) {
            Some(n) => {
                let k = choose|k: int|
                    0 <= k < rest.len() && fits(#[trigger] rest[k], s, i) && rest[k].len() == n;
                assert(alternatives[k + 1] == rest[k]);
            },
            None => {
                assert forall|k: int| 0 <= k < alternatives.len() implies !fits(
                    #[trigger] alternatives[k],
                    s,
                    i,
                ) by {
                    if k > 0 {
                        assert(rest[k - 1] == alternatives[k]);
                    }
                }
            },
        }
    }
}

/// Searching finds a place that fits, if there is one.
pub proof fn lemma_next_match(p: Seq<char>, s: Seq<char>, from: int)
    requires
        0 <= from,
    ensures
        match next_match(p, s, from) {
            Some((i, n)) => from <= i && i + n <= s.len() && fits_some(p, s, i),
            None => forall|i: int| from <= i ==> !#[trigger] fits_some(p, s, i),
        },
    decreases s.len() + 1 - from,
{
    if from <= s.len() {
        lemma_fit_len(pieces(p, '|'), s, from);
        lemma_next_match(p, s, from + 1);
    } else {
        assert forall|i: int| from <= i implies !#[trigger] fits_some(p, s, i) by {}
    }
}

/// A pattern matches somewhere exactly where one of its alternatives fits some place.
pub proof fn law_match_is_a_fit(p: Seq<char>, s: Seq<char>)
    ensures
        is_match_of(p, s) <==> exists|i: int| 0 <= i && #[trigger] fits_some(p, s, i),
{
    lemma_next_match(p, s, 0);
}

/// Every place where a match starts is one that fits.
pub proof fn lemma_places_fit(p: Seq<char>, s: Seq<char>, from: int)
    requires
        0 <= from,
    ensures
        forall|j: int|
            0 <= j < match_places(p, s, from).len() ==> {
                let i = #[trigger] match_places(p, s, from)[j];
                from <= i <= s.len() && fits_some(p, s, i)
            },
    decreases s.len() + 1 - from,
{
    lemma_next_match(p, s, from);
    match next_match(p, s, from) {
        Some((i, n)) => {
            if from <= i && n > 0 && i + n <= s.len() {
                lemma_places_fit(p, s, i + n);
                let rest = match_places(p, s, i + n);
                let all = match_places(p, s, from);
                assert(all =~= seq![i] + rest);
                assert forall|j: int| 0 <= j < all.len() implies {
                    let i = #[trigger] all[j];
                    from <= i <= s.len() && fits_some(p, s, i)
                } by {
                    if j > 0 {
                        assert(all[j] == rest[j - 1]);
                    }
                }
            }
        },
        None => {},
    }
}

/// An alternative without a dot fits where it stands, and a dot fits any character but a line feed.
pub proof fn law_what_fits(a: Seq<char>, s: Seq<char>, i: int)
    ensures
        !a.contains('.') ==> (fits(a, s, i) <==> 0 <= i && i + a.len() <= s.len() && s.subrange(
            i,
            i + a.len(),
        ) == a),
        fits(a, s, i) ==> 0 <= i && i + a.len() <= s.len() && forall|k: int|
            0 <= k < a.len() && #[trigger] a[k] != '.' ==> s[i + k] == a[k],
        fits(seq!['.'], s, i) <==> 0 <= i < s.len() && s[i] != '\n',
{
    if 0 <= i && i + a.len() <= s.len() {
        let found = s.subrange(i, i + a.len());
        if fits(a, s, i) && !a.contains('.') {
            assert forall|k: int| 0 <= k < a.len() implies found[k] == a[k] by {
                assert(a.contains(a[k]));
                assert(a[k] == s[i + k]);
            }
            assert(found =~= a);
        }
        if found == a && !a.contains('.') {
            assert forall|k: int| 0 <= k < a.len() implies if a[k] == '.' {
                s[i + k] != '\n'
            } else {
                #[trigger] a[k] == s[i + k]
            } by {
                assert(a.contains(a[k]));
                assert(found[k] == s[i + k]);
            }
        }
    }
    let dot = seq!['.'];
    assert(dot[0] == '.');
    if fits(dot, s, i) {
        assert(if dot[0] == '.' {
            s[i + 0] != '\n'
        } else {
            dot[0] == s[i + 0]
        });
    }
}

/// `n` is the length of the first alternative that fits the text at place `i`.
pub open spec fn is_first_fit(p: Seq<char>, s: Seq<char>, i: int, n: int) -> bool {
    exists|k: int|
        0 <= k < pieces(p, '|').len() && fits(#[trigger] pieces(p, '|')[k], s, i) && pieces(
            p,
            '|',
        )[k].len() == n && forall|l: int| 0 <= l < k ==> !fits(#[trigger] pieces(p, '|')[l], s, i)
}

/// Nothing fits between two places.
pub open spec fn none_fits(p: Seq<char>, s: Seq<char>, from: int, to: int) -> bool {
    forall|i: int| from <= i < to ==> !#[trigger] fits_some(p, s, i)
}

/// The alternative that is taken is the first one that fits.
proof fn lemma_first_fit(alternatives: Seq<Seq<char>>, s: Seq<char>, i: int)
    ensures
        fit_len(alternatives, s, i) matches Some(n) ==> exists|k: int|
            0 <= k < alternatives.len() && fits(#[trigger] alternatives[k], s, i)
                && alternatives[k].len() == n && forall|l: int|
                0 <= l < k ==> !fits(#[trigger] alternatives[l], s, i),
    decreases alternatives.len(),
{
    if alternatives.len() > 0 {
        if fits(alternatives[0], s, i) {
            assert(alternatives[0].len() == fit_len(alternatives, s, i)->0);
        } else {
            let rest = alternatives.drop_first();
            lemma_first_fit(rest, s, i);
            if let Some(n) = fit_len(rest, s, i) {
                let k = choose|k: int|
                    0 <= k < rest.len() && fits(#[trigger] rest[k], s, i) && rest[k].len() == n
                        && forall|l: int| 0 <= l < k ==> !fits(#[trigger] rest[l], s, i);
                assert(alternatives[k + 1] == rest[k]);
                assert forall|l: int| 0 <= l < k + 1 implies !fits(
                    #[trigger] alternatives[l],
                    s,
                    i,
                ) by {
                    if l > 0 {
                        assert(rest[l - 1] == alternatives[l]);
                    }
                }
            }
        }
    }
}

/// A search gives the first place that fits, with the first alternative that fits there.
proof fn lemma_next_is_first(p: Seq<char>, s: Seq<char>, from: int)
    requires
        0 <= from,
    ensures
        next_match(p, s, from) matches Some((i, n)) ==> from <= i && is_first_fit(p, s, i, n as int)
            && none_fits(p, s, from, i),
    decreases s.len() + 1 - from,
{
    if from <= s.len() {
        let all = pieces(p, '|');
        lemma_first_fit(all, s, from);
        lemma_fit_len(all, s, from);
        match fit_len(all, s, from) {
            Some(n) => {
                let k = choose|k: int|
                    0 <= k < all.len() && fits(#[trigger] all[k], s, from) && all[k].len() == n
                        && forall|l: int| 0 <= l < k ==> !fits(#[trigger] all[l], s, from);
                assert(fits(pieces(p, '|')[k], s, from));
            },
            None => {
                lemma_next_is_first(p, s, from + 1);
                assert(!fits_some(p, s, from));
            },
        }
    }
}

/// The matches are taken from the left: nothing fits before the first one, each takes the first
/// alternative that fits, nothing fits between the end of one and the next, and nothing fits behind
/// the last.
pub proof fn law_matches_are_leftmost(p: Seq<char>, s: Seq<char>, from: int)
    requires
        is_pattern(p),
        0 <= from <= s.len(),
    ensures
        ({
            let m = match_places(p, s, from);
            &&& m.len() == 0 ==> none_fits(p, s, from, s.len() as int + 1)
            &&& m.len() > 0 ==> from <= m[0] && none_fits(p, s, from, m[0])
            &&& forall|j: int|
                0 <= j < m.len() ==> exists|n: int|
                    n > 0 && #[trigger] is_first_fit(p, s, #[trigger] m[j], n) && m[j] + n
                        <= s.len() && if j + 1 < m.len() {
                        m[j] + n <= m[j + 1] && none_fits(p, s, m[j] + n, m[j + 1])
                    } else {
                        none_fits(p, s, m[j] + n, s.len() as int + 1)
                    }
        }),
    decreases s.len() + 1 - from,
{
    let m = match_places(p, s, from);
    lemma_next_match(p, s, from);
    lemma_next_is_first(p, s, from);
    if let Some((i, n)) = next_match(p, s, from) {
        let k = choose|k: int|
            0 <= k < pieces(p, '|').len() && fits(#[trigger] pieces(p, '|')[k], s, i) && pieces(
                p,
                '|',
            )[k].len() == n && forall|l: int|
                0 <= l < k ==> !fits(#[trigger] pieces(p, '|')[l], s, i);
        assert(pieces(p, '|')[k].len() > 0);
        law_matches_are_leftmost(p, s, i + n);
        let rest = match_places(p, s, i + n);
        assert(m =~= seq![i] + rest);
        assert forall|j: int| 0 <= j < m.len() implies exists|n: int|
            n > 0 && #[trigger] is_first_fit(p, s, #[trigger] m[j], n) && m[j] + n <= s.len()
                && if j + 1 < m.len() {
                m[j] + n <= m[j + 1] && none_fits(p, s, m[j] + n, m[j + 1])
            } else {
                none_fits(p, s, m[j] + n, s.len() as int + 1)
            } by {
            if j == 0 {
                assert(is_first_fit(p, s, m[0], n as int));
                if m.len() > 1 {
                    assert(m[1] == rest[0]);
                }
            } else {
                assert(m[j] == rest[j - 1]);
                if j + 1 < m.len() {
                    assert(m[j + 1] == rest[j]);
                }
            }
        }
    }
}

} // verus!
