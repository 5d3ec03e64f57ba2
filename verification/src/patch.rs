//! Rewriting of fetched scripts and style sheets, so that what they load is asked of this server.
use vstd::prelude::*;
use vstd::utf8::{decode_utf8, decode_utf8_encode_utf8, decode_utf8_split, encode_utf8};
use vstd::utf8::encode_utf8_decode_utf8;
use vstd::utf8::{encode_utf8_valid_utf8, is_ascii_chars, is_ascii_chars_encode_utf8};
use vstd::utf8::{is_char_boundary, is_char_boundary_iff_not_is_continuation_byte};
use vstd::utf8::{is_char_boundary_start_end_of_seq, valid_utf8_split};

use crate::pattern::{fits_some, is_pattern, lemma_places_fit, match_places, match_starts};
use crate::pattern::{is_first_fit, law_matches_are_leftmost, next_match, none_fits};
use crate::pattern::{none_shorter, shortest, starts_in};
use crate::stream::lemma_encode_concat;
use crate::text::{chars_of, occurs_at, opt_text, texts};

verus! {

/// A range of bytes, or none where a match of a query names nothing.
pub type Range = Option<(usize, usize)>;

/// The ranges of bytes that the matches of a query name in the syntax tree of a script of ASCII
/// characters.
pub uninterp spec fn script_ranges(text: Seq<char>, query: Seq<char>) -> Option<Seq<Range>>;

/// The ranges of bytes that the matches of a query name in the syntax tree of a style sheet of
/// ASCII characters.
pub uninterp spec fn sheet_ranges(text: Seq<char>, query: Seq<char>) -> Option<Seq<Range>>;

/// The view of ranges that may be missing.
pub open spec fn opt_ranges(o: Option<Vec<Range>>) -> Option<Seq<Range>> {
    match o {
        Some(v) => Some(v@),
        None => None,
    }
}

/// The query for the pieces of text in a script.
pub open spec fn script_query() -> Seq<char> {
    "(string_fragment) @frag"@
}

/// The query for the plain values in a style sheet.
pub open spec fn sheet_query() -> Seq<char> {
    "(plain_value) @frag"@
}

/// A text whose bytes 32 bits can count.
pub open spec fn is_countable(text: Seq<char>) -> bool {
    encode_utf8(text).len() <= u32::MAX
}

/// `tree_sitter::QueryCursor::matches` on the tree that `tree_sitter::Parser::parse` makes of the
/// text with the grammar `tree_sitter_javascript`: for each match the bytes of the first node that
/// it captures. There are none where the grammar or the query is not accepted. The result is
/// determined by the text and the query where the text is of ASCII characters. Of any other text
/// nothing is said: the grammar asks the C library for the classes of its characters, and what that
/// answers depends on the locale.
#[verifier::external_body]
fn query_script(text: &str, query: &str) -> (r: Option<Vec<Range>>)
    requires
        is_countable(text@),
        query@ == script_query(),
    ensures
        is_ascii_chars(text@) ==> opt_ranges(r) == script_ranges(text@, query@),
{
    let language = tree_sitter_javascript::language();
    let query = tree_sitter::Query::new(&language, query).ok()?;
    let mut parser = tree_sitter::Parser::new();
    parser.set_language(&language).ok()?;
    let tree = parser.parse(text, None)?;
    let mut cursor = tree_sitter::QueryCursor::new();
    let matches = cursor.matches(&query, tree.root_node(), text.as_bytes());
    Some(matches.map(|m| m.captures.first().map(|c| (c.node.start_byte(), c.node.end_byte()))).collect())
}

/// `tree_sitter::QueryCursor::matches` on the tree that `tree_sitter::Parser::parse` makes of the
/// text with the grammar `tree_sitter_css`: for each match the bytes of the first node that it
/// captures. There are none where the grammar or the query is not accepted. The result is
/// determined by the text and the query where the text is of ASCII characters. Of any other text
/// nothing is said: the grammar asks the C library for the classes of its characters, and what that
/// answers depends on the locale.
#[verifier::external_body]
fn query_sheet(text: &str, query: &str) -> (r: Option<Vec<Range>>)
    requires
        is_countable(text@),
        query@ == sheet_query(),
    ensures
        is_ascii_chars(text@) ==> opt_ranges(r) == sheet_ranges(text@, query@),
{
    let language = tree_sitter_css::language();
    let query = tree_sitter::Query::new(&language, query).ok()?;
    let mut parser = tree_sitter::Parser::new();
    parser.set_language(&language).ok()?;
    let tree = parser.parse(text, None)?;
    let mut cursor = tree_sitter::QueryCursor::new();
    let matches = cursor.matches(&query, tree.root_node(), text.as_bytes());
    Some(matches.map(|m| m.captures.first().map(|c| (c.node.start_byte(), c.node.end_byte()))).collect())
}

/// How many characters stand before a byte of the text.
pub open spec fn chars_before(t: Seq<char>, byte: usize) -> int {
    decode_utf8(encode_utf8(t).subrange(0, byte as int)).len() as int
}

/// The range of bytes begins and ends between characters.
pub open spec fn is_cut(t: Seq<char>, range: Range) -> bool {
    match range {
        Some((start, end)) => start <= end && is_char_boundary(encode_utf8(t), start as int)
            && is_char_boundary(encode_utf8(t), end as int),
        None => false,
    }
}

/// The characters of a range of bytes.
pub open spec fn cut(t: Seq<char>, range: Range) -> Seq<char> {
    t.subrange(chars_before(t, (range->0).0), chars_before(t, (range->0).1))
}

/// The places where something is put in: for each match in the range, as many characters behind
/// the start of the range as the match starts bytes behind it.
pub open spec fn places_in(t: Seq<char>, range: Range, pattern: Seq<char>) -> Seq<int> {
    let starts = match_starts(pattern, cut(t, range));
    Seq::new(starts.len(), |j: int| chars_before(t, (range->0).0) + starts[j])
}

/// Every place is one of the text.
pub open spec fn all_within(places: Seq<int>, n: nat) -> bool {
    forall|j: int| 0 <= j < places.len() ==> 0 <= #[trigger] places[j] <= n
}

/// The places where something is put in, range by range. There are none where a range cuts a
/// character in two or a place lies behind the text.
pub open spec fn insertions(t: Seq<char>, ranges: Seq<Range>, pattern: Seq<char>) -> Option<
    Seq<int>,
>
    decreases ranges.len(),
{
    if ranges.len() == 0 {
        Some(Seq::empty())
    } else {
        let range = ranges.last();
        match insertions(t, ranges.drop_last(), pattern) {
            Some(before) => if is_cut(t, range) && all_within(
                places_in(t, range, pattern),
                t.len(),
            ) {
                Some(before + places_in(t, range, pattern))
            } else {
                None
            },
            None => None,
        }
    }
}

/// How often a place is named.
pub open spec fn times_named(places: Seq<int>, i: int) -> nat
    decreases places.len(),
{
    if places.len() == 0 {
        0
    } else if places.last() == i {
        times_named(places.drop_last(), i) + 1
    } else {
        times_named(places.drop_last(), i)
    }
}

/// A piece, again and again.
pub open spec fn repeated(piece: Seq<char>, n: nat) -> Seq<char>
    decreases n,
{
    if n == 0 {
        Seq::empty()
    } else {
        repeated(piece, (n - 1) as nat) + piece
    }
}

/// The first `n` characters of the text, with the piece before each place and behind the last as
/// often as the place is named.
pub open spec fn woven(t: Seq<char>, places: Seq<int>, piece: Seq<char>, n: nat) -> Seq<char>
    decreases n,
{
    if n == 0 {
        repeated(piece, times_named(places, 0))
    } else {
        woven(t, places, piece, (n - 1) as nat).push(t[n - 1]) + repeated(
            piece,
            times_named(places, n as int),
        )
    }
}

/// The text with the piece put in before every match of the pattern in the ranges.
pub open spec fn patched(
    t: Seq<char>,
    ranges: Seq<Range>,
    pattern: Seq<char>,
    piece: Seq<char>,
) -> Option<Seq<char>> {
    match insertions(t, ranges, pattern) {
        Some(places) => Some(woven(t, places, piece, t.len())),
        None => None,
    }
}

/// The text with the piece put in before every match of the pattern in the ranges, if there are any.
pub open spec fn rewritten(
    t: Seq<char>,
    ranges: Option<Seq<Range>>,
    pattern: Seq<char>,
    piece: Seq<char>,
) -> Option<Seq<char>> {
    match ranges {
        Some(v) => patched(t, v, pattern, piece),
        None => None,
    }
}

/// What stands before a boundary is a beginning of the text.
proof fn lemma_prefix(t: Seq<char>, byte: usize)
    requires
        is_char_boundary(encode_utf8(t), byte as int),
    ensures
        0 <= byte <= encode_utf8(t).len(),
        0 <= chars_before(t, byte) <= t.len(),
        decode_utf8(encode_utf8(t).subrange(0, byte as int)) == t.take(chars_before(t, byte)),
{
    let b = encode_utf8(t);
    encode_utf8_valid_utf8(t);
    encode_utf8_decode_utf8(t);
    lemma_boundary_range(b, byte as int);
    decode_utf8_split(b, byte as int);
    let head = decode_utf8(b.subrange(0, byte as int));
    assert(t.take(head.len() as int) =~= head);
}

/// A boundary lies within the bytes.
proof fn lemma_boundary_range(b: Seq<u8>, i: int)
    requires
        vstd::utf8::valid_utf8(b),
        is_char_boundary(b, i),
    ensures
        0 <= i <= b.len(),
{
}

/// The bytes of a range encode its characters.
proof fn lemma_cut(t: Seq<char>, start: usize, end: usize, head: Seq<char>, piece: Seq<char>)
    requires
        is_cut(t, Some((start, end))),
        encode_utf8(head) == encode_utf8(t).subrange(0, end as int),
        encode_utf8(piece) == encode_utf8(head).subrange(
            start as int,
            encode_utf8(head).len() as int,
        ),
    ensures
        0 <= chars_before(t, start) <= chars_before(t, end) <= t.len(),
        piece == cut(t, Some((start, end))),
{
    let b = encode_utf8(t);
    let h = encode_utf8(head);
    lemma_prefix(t, start);
    lemma_prefix(t, end);
    encode_utf8_valid_utf8(t);
    encode_utf8_valid_utf8(head);
    encode_utf8_decode_utf8(head);
    encode_utf8_decode_utf8(piece);
    lemma_inner_boundary(b, start as int, end as int);
    decode_utf8_split(h, start as int);
    assert(h.subrange(0, start as int) =~= b.subrange(0, start as int));
    assert(head == t.take(chars_before(t, end)));
    assert(head =~= t.take(chars_before(t, start)) + piece);
    let from = chars_before(t, start);
    assert(piece.len() == chars_before(t, end) - from);
    assert forall|i: int| 0 <= i < piece.len() implies piece[i] == cut(t, Some((start, end)))[i] by {
        assert(head[from + i] == piece[i]);
    }
    assert(piece =~= cut(t, Some((start, end))));
}

/// A boundary of the bytes is one of every longer beginning of them.
proof fn lemma_inner_boundary(b: Seq<u8>, start: int, end: int)
    requires
        vstd::utf8::valid_utf8(b),
        start <= end,
        is_char_boundary(b, start),
        is_char_boundary(b, end),
    ensures
        vstd::utf8::valid_utf8(b.subrange(0, end)),
        is_char_boundary(b.subrange(0, end), start),
{
    lemma_boundary_range(b, start);
    lemma_boundary_range(b, end);
    valid_utf8_split(b, end);
    let h = b.subrange(0, end);
    is_char_boundary_start_end_of_seq(h);
    if start < end {
        is_char_boundary_iff_not_is_continuation_byte(b, start);
        is_char_boundary_iff_not_is_continuation_byte(h, start);
        assert(h[start] == b[start]);
    }
}

/// The text of a range.
fn cut_text(text: &str, range: &Range) -> (r: Option<String>)
    ensures
        match r {
            Some(piece) => is_cut(text@, *range) && piece@ == cut(text@, *range),
            None => !is_cut(text@, *range),
        },
{
    match range {
        Some((start, end)) => {
            if *start <= *end && text.is_char_boundary(*start) && text.is_char_boundary(*end) {
                proof {
                    encode_utf8_valid_utf8(text@);
                    lemma_inner_boundary(encode_utf8(text@), *start as int, *end as int);
                }
                let (head, _) = text.split_at(*end);
                let (_, piece) = head.split_at(*start);
                proof {
                    lemma_cut(text@, *start, *end, head@, piece@);
                }
                Some(piece.to_owned())
            } else {
                None
            }
        },
        None => None,
    }
}

/// The texts of the ranges.
fn cut_all(text: &str, ranges: &Vec<Range>) -> (r: Option<Vec<String>>)
    ensures
        match r {
            Some(v) => v@.len() == ranges@.len() && forall|k: int|
                0 <= k < ranges@.len() ==> is_cut(text@, #[trigger] ranges@[k]) && texts(v@)[k]
                    == cut(text@, ranges@[k]),
            None => exists|k: int| 0 <= k < ranges@.len() && !is_cut(text@, #[trigger] ranges@[k]),
        },
{
    let mut out: Vec<String> = Vec::new();
    for i in 0..ranges.len()
        invariant
            out@.len() == i,
            forall|k: int|
                0 <= k < i ==> is_cut(text@, #[trigger] ranges@[k]) && texts(out@)[k] == cut(
                    text@,
                    ranges@[k],
                ),
    {
        let ghost before = texts(out@);
        match cut_text(text, &ranges[i]) {
            Some(piece) => {
                out.push(piece);
                assert(texts(out@) =~= before.push(piece@));
            },
            None => {
                assert(!is_cut(text@, ranges@[i as int]));
                return None;
            },
        }
    }
    Some(out)
}

/// How the places grow with one more range.
proof fn lemma_insertions_step(t: Seq<char>, ranges: Seq<Range>, pattern: Seq<char>, k: int)
    requires
        0 <= k < ranges.len(),
    ensures
        insertions(t, ranges.take(k + 1), pattern) == match insertions(t, ranges.take(k), pattern) {
            Some(before) => if is_cut(t, ranges[k]) && all_within(
                places_in(t, ranges[k], pattern),
                t.len(),
            ) {
                Some(before + places_in(t, ranges[k], pattern))
            } else {
                None
            },
            None => None,
        },
{
    assert(ranges.take(k + 1).drop_last() =~= ranges.take(k));
    assert(ranges.take(k + 1).last() == ranges[k]);
}

/// Once there are no places, there are none with more ranges either.
proof fn lemma_insertions_stay_none(
    t: Seq<char>,
    ranges: Seq<Range>,
    pattern: Seq<char>,
    k: int,
    n: int,
)
    requires
        0 <= k <= n <= ranges.len(),
        insertions(t, ranges.take(k), pattern) is None,
    ensures
        insertions(t, ranges.take(n), pattern) is None,
    decreases n - k,
{
    if k < n {
        lemma_insertions_step(t, ranges, pattern, k);
        lemma_insertions_stay_none(t, ranges, pattern, k + 1, n);
    }
}

/// The places where something is put in.
fn places(text: &str, ranges: &Vec<Range>, pattern: &str) -> (r: Option<Vec<usize>>)
    requires
        is_pattern(pattern@),
    ensures
        match r {
            Some(v) => insertions(text@, ranges@, pattern@) == Some(
                Seq::new(v@.len(), |j: int| v@[j] as int),
            ) && forall|j: int| 0 <= j < v@.len() ==> #[trigger] v@[j] <= text@.len(),
            None => insertions(text@, ranges@, pattern@) is None,
        },
{
    let ghost t = text@;
    let ghost p = pattern@;
    let count: usize = ranges.len();
    proof {
        assert(ranges@.take(count as int) =~= ranges@);
    }
    let pieces = match cut_all(text, ranges) {
        Some(v) => v,
        None => {
            proof {
                let k = choose|k: int| 0 <= k < ranges@.len() && !is_cut(t, #[trigger] ranges@[k]);
                lemma_insertions_step(t, ranges@, p, k);
                lemma_insertions_stay_none(t, ranges@, p, k + 1, count as int);
            }
            return None;
        },
    };
    let least: usize = shortest(pattern);
    let n: usize = text.unicode_len();
    let mut out: Vec<usize> = Vec::new();
    assert(Seq::new(out@.len(), |j: int| out@[j] as int) =~= Seq::<int>::empty());
    for i in 0..count
        invariant
            t == text@,
            p == pattern@,
            n == t.len(),
            count == ranges@.len(),
            ranges@.take(count as int) == ranges@,
            pieces@.len() == count,
            is_pattern(p),
            none_shorter(p, least as int),
            forall|k: int|
                0 <= k < count ==> is_cut(t, #[trigger] ranges@[k]) && texts(pieces@)[k] == cut(
                    t,
                    ranges@[k],
                ),
            insertions(t, ranges@.take(i as int), p) == Some(
                Seq::new(out@.len(), |j: int| out@[j] as int),
            ),
            forall|j: int| 0 <= j < out@.len() ==> #[trigger] out@[j] <= t.len(),
    {
        let ghost r = ranges@[i as int];
        let ghost before = Seq::new(out@.len(), |j: int| out@[j] as int);
        let ghost added = places_in(t, r, p);
        proof {
            lemma_insertions_step(t, ranges@, p, i as int);
            assert(is_cut(t, ranges@[i as int]));
            assert(texts(pieces@)[i as int] == pieces@[i as int]@);
        }
        let here = starts_in(pattern, least, pieces[i].as_str());
        assert(here@ == match_starts(p, cut(t, r)));
        if here.len() == 0 {
            assert(before + added =~= before);
            assert(all_within(added, t.len()));
        } else if let Some((start, _)) = ranges[i] {
            let (head, _) = text.split_at(start);
            let base: usize = head.unicode_len();
            proof {
                lemma_prefix(t, start);
                encode_utf8_decode_utf8(head@);
                assert(base == chars_before(t, start));
                assert(before + added.take(0) =~= before);
            }
            for j in 0..here.len()
                invariant
                    n == t.len(),
                    base <= n,
                    base == chars_before(t, (r->0).0),
                    here@ == match_starts(p, cut(t, r)),
                    added == places_in(t, r, p),
                    count == ranges@.len(),
                    ranges@.take(count as int) == ranges@,
                    t == text@,
                    p == pattern@,
                    i < count,
                    insertions(t, ranges@.take(i + 1), p) == (if all_within(added, t.len()) {
                        Some(before + added)
                    } else {
                        None
                    }),
                    Seq::new(out@.len(), |k: int| out@[k] as int) == before + added.take(j as int),
                    forall|k: int| 0 <= k < out@.len() ==> #[trigger] out@[k] <= t.len(),
                    forall|k: int| 0 <= k < j ==> 0 <= #[trigger] added[k] <= t.len(),
            {
                let offset: usize = here[j];
                assert(added[j as int] == base + offset);
                if offset > n - base {
                    proof {
                        assert(!all_within(added, t.len()));
                        lemma_insertions_stay_none(t, ranges@, p, i + 1, count as int);
                    }
                    return None;
                }
                let ghost old_out = Seq::new(out@.len(), |k: int| out@[k] as int);
                out.push(base + offset);
                proof {
                    assert(Seq::new(out@.len(), |k: int| out@[k] as int) =~= old_out.push(
                        added[j as int],
                    ));
                    assert(added.take(j + 1) =~= added.take(j as int).push(added[j as int]));
                    assert(before + added.take(j + 1) =~= (before + added.take(j as int)).push(
                        added[j as int],
                    ));
                }
            }
            proof {
                assert(added.take(added.len() as int) =~= added);
                assert(all_within(added, t.len()));
            }
        }
    }
    Some(out)
}

/// Puts the piece in at the places.
fn weave(text: &str, at: &Vec<usize>, piece: &str) -> (r: String)
    requires
        forall|j: int| 0 <= j < at@.len() ==> #[trigger] at@[j] <= text@.len(),
    ensures
        r@ == woven(text@, Seq::new(at@.len(), |j: int| at@[j] as int), piece@, text@.len()),
{
    let ghost all = Seq::new(at@.len(), |j: int| at@[j] as int);
    let t = chars_of(text);
    let n: usize = t.len();
    let mut named: Vec<usize> = Vec::new();
    for _i in 0..n
        invariant
            named@.len() == _i,
            forall|k: int| 0 <= k < named@.len() ==> #[trigger] named@[k] == 0,
    {
        named.push(0);
    }
    named.push(0);
    assert forall|k: int| 0 <= k < named@.len() implies #[trigger] named@[k] == times_named(
        all.take(0),
        k,
    ) by {}
    for i in 0..at.len()
        invariant
            n == text@.len(),
            named@.len() == n + 1,
            all == Seq::new(at@.len(), |j: int| at@[j] as int),
            forall|j: int| 0 <= j < at@.len() ==> #[trigger] at@[j] <= text@.len(),
            forall|k: int|
                0 <= k < named@.len() ==> #[trigger] named@[k] == times_named(
                    all.take(i as int),
                    k,
                ) && named@[k] <= i,
    {
        let place: usize = at[i];
        let ghost before = named@;
        proof {
            assert(all.take(i + 1).drop_last() =~= all.take(i as int));
            assert(all.take(i + 1).last() == place);
        }
        let count: usize = named[place];
        named.set(place, count + 1);
        proof {
            assert forall|k: int| 0 <= k < named@.len() implies #[trigger] named@[k]
                == times_named(all.take(i + 1), k) && named@[k] <= i + 1 by {
                assert(before[k] == times_named(all.take(i as int), k));
            }
        }
    }
    assert(all.take(at@.len() as int) =~= all);
    let mut out = String::new();
    let first: usize = named[0];
    push_times(&mut out, piece, first);
    assert(out@ =~= woven(text@, all, piece@, 0));
    for i in 0..n
        invariant
            t@ == text@,
            n == text@.len(),
            named@.len() == n + 1,
            forall|k: int| 0 <= k < named@.len() ==> #[trigger] named@[k] == times_named(all, k),
            out@ == woven(text@, all, piece@, i as nat),
    {
        out.push(t[i]);
        let count: usize = named[i + 1];
        push_times(&mut out, piece, count);
        assert(out@ =~= woven(text@, all, piece@, (i + 1) as nat));
    }
    out
}

/// Appends the piece again and again.
fn push_times(out: &mut String, piece: &str, n: usize)
    ensures
        final(out)@ == old(out)@ + repeated(piece@, n as nat),
{
    let ghost start = out@;
    assert(start + repeated(piece@, 0) =~= start);
    for i in 0..n
        invariant
            out@ == start + repeated(piece@, i as nat),
    {
        out.append(piece);
        assert(out@ =~= start + repeated(piece@, (i + 1) as nat));
    }
}

/// The text with the piece put in before every match of the pattern in the ranges, unless a range
/// cuts a character in two or a place lies behind the text.
pub fn patch(text: &str, ranges: &Vec<Range>, pattern: &str, piece: &str) -> (r: Option<String>)
    requires
        is_pattern(pattern@),
    ensures
        match r {
            Some(out) => patched(text@, ranges@, pattern@, piece@) == Some(out@),
            None => patched(text@, ranges@, pattern@, piece@) is None,
        },
{
    match places(text, ranges, pattern) {
        Some(at) => Some(weave(text, &at, piece)),
        None => None,
    }
}

/// What is put in before the name of a host: the way to this server, and the mark behind which it
/// expects the host.
pub open spec fn detour(accessible_host: Seq<char>) -> Seq<char> {
    accessible_host + "/@"@
}

/// Rewrites a script: what its texts load from the known hosts is asked of this server. The texts
/// are where the grammar finds them; in a script of ASCII characters that is determined.
pub fn patch_script(text: &str, pattern: &str, accessible_host: &str) -> (r: Option<String>)
    requires
        is_pattern(pattern@),
        is_countable(text@),
    ensures
        exists|ranges: Option<Seq<Range>>| #[trigger]
            rewritten(text@, ranges, pattern@, detour(accessible_host@)) == opt_text(r) && (
            is_ascii_chars(text@) ==> ranges == script_ranges(text@, script_query())) && match r {
                Some(out) => ranges matches Some(v) && leads_through(
                    text@,
                    v,
                    pattern@,
                    accessible_host@,
                    out@,
                ),
                None => ranges matches Some(v) ==> !can_be_detoured(text@, v, pattern@),
            },
{
    let mut piece = accessible_host.to_owned();
    piece.append("/@");
    let ranges = query_script(text, "(string_fragment) @frag");
    let ghost named = opt_ranges(ranges);
    let out = match &ranges {
        Some(v) => patch(text, v, pattern, piece.as_str()),
        None => None,
    };
    proof {
        law_matches_lead_through_the_host(text@, named, pattern@, accessible_host@);
        assert(rewritten(text@, named, pattern@, detour(accessible_host@)) == opt_text(out));
    }
    out
}

/// Rewrites a style sheet: what its values load from the known hosts is asked of this server. The
/// values are where the grammar finds them; in a sheet of ASCII characters that is determined.
pub fn patch_sheet(text: &str, pattern: &str, accessible_host: &str) -> (r: Option<String>)
    requires
        is_pattern(pattern@),
        is_countable(text@),
    ensures
        exists|ranges: Option<Seq<Range>>| #[trigger]
            rewritten(text@, ranges, pattern@, detour(accessible_host@)) == opt_text(r) && (
            is_ascii_chars(text@) ==> ranges == sheet_ranges(text@, sheet_query())) && match r {
                Some(out) => ranges matches Some(v) && leads_through(
                    text@,
                    v,
                    pattern@,
                    accessible_host@,
                    out@,
                ),
                None => ranges matches Some(v) ==> !can_be_detoured(text@, v, pattern@),
            },
{
    let mut piece = accessible_host.to_owned();
    piece.append("/@");
    let ranges = query_sheet(text, "(plain_value) @frag");
    let ghost named = opt_ranges(ranges);
    let out = match &ranges {
        Some(v) => patch(text, v, pattern, piece.as_str()),
        None => None,
    };
    proof {
        law_matches_lead_through_the_host(text@, named, pattern@, accessible_host@);
        assert(rewritten(text@, named, pattern@, detour(accessible_host@)) == opt_text(out));
    }
    out
}

/// A text in which nothing matches is left as it is.
pub proof fn law_no_match_no_change(
    t: Seq<char>,
    ranges: Seq<Range>,
    pattern: Seq<char>,
    piece: Seq<char>,
)
    requires
        insertions(t, ranges, pattern) == Some(Seq::<int>::empty()),
    ensures
        patched(t, ranges, pattern, piece) == Some(t),
{
    lemma_woven_nothing(t, piece, t.len());
    assert(t.take(t.len() as int) =~= t);
}

/// Where nothing is put in, the characters stay.
proof fn lemma_woven_nothing(t: Seq<char>, piece: Seq<char>, n: nat)
    requires
        n <= t.len(),
    ensures
        woven(t, Seq::<int>::empty(), piece, n) == t.take(n as int),
    decreases n,
{
    if n > 0 {
        lemma_woven_nothing(t, piece, (n - 1) as nat);
        assert(t.take(n as int) =~= t.take(n - 1).push(t[n - 1]));
        assert(repeated(piece, 0) =~= Seq::<char>::empty());
        assert(woven(t, Seq::<int>::empty(), piece, n) =~= t.take(n as int));
    } else {
        assert(woven(t, Seq::<int>::empty(), piece, n) =~= t.take(0));
    }
}

/// How often the places up to the given one are named together.
spec fn named_up_to(places: Seq<int>, n: nat) -> nat
    decreases n,
{
    if n == 0 {
        times_named(places, 0)
    } else {
        named_up_to(places, (n - 1) as nat) + times_named(places, n as int)
    }
}

/// One more place is named once more.
proof fn lemma_named_once(places: Seq<int>, n: nat)
    requires
        places.len() > 0,
    ensures
        named_up_to(places, n) == named_up_to(places.drop_last(), n) + (if 0 <= places.last()
            <= n {
            1nat
        } else {
            0nat
        }),
    decreases n,
{
    if n > 0 {
        lemma_named_once(places, (n - 1) as nat);
    }
}

/// Places that are all of the text are each named once.
proof fn lemma_named_all(places: Seq<int>, n: nat)
    requires
        all_within(places, n),
    ensures
        named_up_to(places, n) == places.len(),
    decreases places.len(),
{
    if places.len() > 0 {
        let head = places.drop_last();
        assert forall|j: int| 0 <= j < head.len() implies 0 <= #[trigger] head[j] <= n by {
            assert(head[j] == places[j]);
        }
        lemma_named_all(head, n);
        lemma_named_once(places, n);
        assert(0 <= places[places.len() - 1] <= n);
    } else {
        lemma_named_none(places, n);
    }
}

/// No place is named by none.
proof fn lemma_named_none(places: Seq<int>, n: nat)
    requires
        places.len() == 0,
    ensures
        named_up_to(places, n) == 0,
    decreases n,
{
    if n > 0 {
        lemma_named_none(places, (n - 1) as nat);
    }
}

/// The length of a repeated piece.
proof fn lemma_repeated_len(piece: Seq<char>, n: nat)
    ensures
        repeated(piece, n).len() == n * piece.len(),
    decreases n,
{
    if n > 0 {
        lemma_repeated_len(piece, (n - 1) as nat);
        assert(n * piece.len() == (n - 1) * piece.len() + piece.len()) by (nonlinear_arith)
            requires
                n > 0,
        ;
    } else {
        assert(n * piece.len() == 0) by (nonlinear_arith)
            requires
                n == 0,
        ;
    }
}

/// The length of a text with pieces put in.
proof fn lemma_woven_len(t: Seq<char>, places: Seq<int>, piece: Seq<char>, n: nat)
    ensures
        woven(t, places, piece, n).len() == n + named_up_to(places, n) * piece.len(),
    decreases n,
{
    lemma_repeated_len(piece, times_named(places, n as int));
    if n > 0 {
        lemma_woven_len(t, places, piece, (n - 1) as nat);
        let a = named_up_to(places, (n - 1) as nat);
        let b = times_named(places, n as int);
        let l = piece.len();
        assert((a + b) * l == a * l + b * l) by (nonlinear_arith);
    }
}

/// The places where something is put in are places of the text.
proof fn lemma_insertions_within(t: Seq<char>, ranges: Seq<Range>, pattern: Seq<char>)
    ensures
        insertions(t, ranges, pattern) matches Some(places) ==> all_within(places, t.len()),
    decreases ranges.len(),
{
    if ranges.len() > 0 {
        lemma_insertions_within(t, ranges.drop_last(), pattern);
        if let Some(before) = insertions(t, ranges.drop_last(), pattern) {
            let added = places_in(t, ranges.last(), pattern);
            if all_within(added, t.len()) {
                let all = before + added;
                assert forall|j: int| 0 <= j < all.len() implies 0 <= #[trigger] all[j]
                    <= t.len() by {
                    if j < before.len() {
                        assert(all[j] == before[j]);
                    } else {
                        assert(all[j] == added[j - before.len()]);
                    }
                }
            }
        }
    }
}

/// A patched text is longer by one piece for each match, and by nothing else.
pub proof fn law_one_piece_for_each_match(
    t: Seq<char>,
    ranges: Seq<Range>,
    pattern: Seq<char>,
    piece: Seq<char>,
)
    ensures
        insertions(t, ranges, pattern) matches Some(places) ==> (patched(
            t,
            ranges,
            pattern,
            piece,
        ) matches Some(out) && out.len() == t.len() + places.len() * piece.len()),
{
    if let Some(places) = insertions(t, ranges, pattern) {
        lemma_insertions_within(t, ranges, pattern);
        lemma_named_all(places, t.len());
        lemma_woven_len(t, places, piece, t.len());
    }
}

/// In a range of ASCII characters, every place where something is put in is one where the text
/// goes on with a match of the pattern.
pub proof fn law_what_follows_matches(t: Seq<char>, range: Range, pattern: Seq<char>, j: int)
    requires
        is_cut(t, range),
        is_ascii_chars(cut(t, range)),
        0 <= j < places_in(t, range, pattern).len(),
    ensures
        fits_some(pattern, t, places_in(t, range, pattern)[j]),
{
    let (start, end) = range->0;
    let s = cut(t, range);
    let base = chars_before(t, start);
    lemma_prefix(t, start);
    lemma_prefix(t, end);
    lemma_chars_before_grow(t, start, end);
    lemma_places_fit(pattern, s, 0);
    let at = match_places(pattern, s, 0);
    let i = at[j];
    assert(is_ascii_chars(s.take(i)));
    is_ascii_chars_encode_utf8(s.take(i));
    lemma_usize(t, range, i);
    assert(places_in(t, range, pattern)[j] == base + i);
    let k = choose|k: int|
        0 <= k < crate::text::pieces(pattern, '|').len() && crate::pattern::fits(
            #[trigger] crate::text::pieces(pattern, '|')[k],
            s,
            i,
        );
    let a = crate::text::pieces(pattern, '|')[k];
    assert(crate::pattern::fits(a, t, base + i)) by {
        assert forall|m: int| 0 <= m < a.len() implies if a[m] == '.' {
            t[base + i + m] != '\n'
        } else {
            #[trigger] a[m] == t[base + i + m]
        } by {
            assert(s[i + m] == t[base + i + m]);
            assert(a[m] == '.' || a[m] == s[i + m]);
        }
    }
}

/// No more characters stand before an earlier boundary than before a later one.
proof fn lemma_chars_before_grow(t: Seq<char>, start: usize, end: usize)
    requires
        is_cut(t, Some((start, end))),
    ensures
        chars_before(t, start) <= chars_before(t, end),
{
    let b = encode_utf8(t);
    encode_utf8_valid_utf8(t);
    lemma_inner_boundary(b, start as int, end as int);
    let h = b.subrange(0, end as int);
    decode_utf8_split(h, start as int);
    assert(h.subrange(0, start as int) =~= b.subrange(0, start as int));
}

/// A place in a range is no greater than the range is long.
proof fn lemma_usize(t: Seq<char>, range: Range, i: int)
    requires
        is_cut(t, range),
        is_ascii_chars(cut(t, range)),
        0 <= i <= cut(t, range).len(),
    ensures
        i <= usize::MAX,
{
    let (start, end) = range->0;
    let b = encode_utf8(t);
    let s = cut(t, range);
    lemma_prefix(t, start);
    lemma_prefix(t, end);
    lemma_chars_before_grow(t, start, end);
    encode_utf8_valid_utf8(t);
    valid_utf8_split(b, end as int);
    vstd::utf8::decode_utf8_encode_utf8(b.subrange(0, end as int));
    lemma_encoded_len(t.take(chars_before(t, end)));
    assert(b.subrange(0, end as int).len() == end);
}

/// A text has at least as many bytes as characters.
proof fn lemma_encoded_len(t: Seq<char>)
    ensures
        encode_utf8(t).len() >= t.len(),
    decreases t.len(),
{
    if t.len() > 0 {
        lemma_encoded_len(t.drop_first());
    }
}

/// What a range names is its bytes: they encode its characters, and the bytes before its start
/// encode the characters before it.
pub proof fn law_ranges_name_their_bytes(t: Seq<char>, start: usize, end: usize)
    requires
        start <= end,
        is_char_boundary(encode_utf8(t), start as int),
        is_char_boundary(encode_utf8(t), end as int),
    ensures
        is_cut(t, Some((start, end))),
        encode_utf8(cut(t, Some((start, end)))) == encode_utf8(t).subrange(
            start as int,
            end as int,
        ),
        0 <= chars_before(t, start) <= chars_before(t, end) <= t.len(),
        encode_utf8(t.take(chars_before(t, start))) == encode_utf8(t).subrange(0, start as int),
        cut(t, Some((start, end))) == t.subrange(chars_before(t, start), chars_before(t, end)),
{
    let b = encode_utf8(t);
    encode_utf8_valid_utf8(t);
    lemma_prefix(t, start);
    lemma_prefix(t, end);
    lemma_chars_before_grow(t, start, end);
    valid_utf8_split(b, start as int);
    valid_utf8_split(b, end as int);
    decode_utf8_encode_utf8(b.subrange(0, start as int));
    decode_utf8_encode_utf8(b.subrange(0, end as int));
    let s = cut(t, Some((start, end)));
    let head = t.take(chars_before(t, start));
    assert(t.take(chars_before(t, end)) =~= head + s);
    lemma_encode_concat(head, s);
    assert(b.subrange(0, end as int).subrange(start as int, end as int) =~= b.subrange(
        start as int,
        end as int,
    ));
    assert(encode_utf8(s) =~= b.subrange(start as int, end as int));
}

/// A match in the range is at place `i`: as many characters behind the start of the range as the
/// match starts bytes behind it.
pub open spec fn is_hit(t: Seq<char>, range: Range, pattern: Seq<char>, i: int) -> bool {
    exists|j: int|
        0 <= j < match_places(pattern, cut(t, range), 0).len() && i == chars_before(
            t,
            (range->0).0,
        ) + encode_utf8(
            cut(t, range).take(#[trigger] match_places(pattern, cut(t, range), 0)[j]),
        ).len()
}

/// In how many of the ranges a match is at place `i`.
pub open spec fn hits(t: Seq<char>, ranges: Seq<Range>, pattern: Seq<char>, i: int) -> nat
    decreases ranges.len(),
{
    if ranges.len() == 0 {
        0
    } else {
        hits(t, ranges.drop_last(), pattern, i) + if is_hit(t, ranges.last(), pattern, i) {
            1nat
        } else {
            0nat
        }
    }
}

/// Every range begins and ends between characters, and every match is at a place of the text.
pub open spec fn can_be_detoured(t: Seq<char>, ranges: Seq<Range>, pattern: Seq<char>) -> bool {
    forall|r: int|
        0 <= r < ranges.len() ==> match #[trigger] ranges[r] {
            Some((start, end)) => {
                &&& start <= end
                &&& is_char_boundary(encode_utf8(t), start as int)
                &&& is_char_boundary(encode_utf8(t), end as int)
                &&& forall|i: int| #[trigger] is_hit(t, ranges[r], pattern, i) ==> i <= t.len()
            },
            None => false,
        }
}

/// Where something is put in before place `i`, if the character at place `i` is moved to
/// `moved[i]`.
pub open spec fn gap_before(moved: Seq<int>, i: int) -> int {
    if i == 0 {
        0
    } else {
        moved[i - 1] + 1
    }
}

/// `out` is the text with the piece put in before every match, once for each, and with nothing else
/// changed: the character at place `i` is moved to `moved[i]`, and what stands between the
/// characters are the pieces.
pub open spec fn is_detoured(
    t: Seq<char>,
    ranges: Seq<Range>,
    pattern: Seq<char>,
    piece: Seq<char>,
    out: Seq<char>,
    moved: Seq<int>,
) -> bool {
    &&& moved.len() == t.len() + 1
    &&& moved.last() == out.len()
    &&& forall|i: int|
        0 <= i < t.len() ==> 0 <= #[trigger] moved[i] < out.len() && out[moved[i]] == t[i]
    &&& forall|i: int|
        0 <= i <= t.len() ==> #[trigger] moved[i] == gap_before(moved, i) + hits(
            t,
            ranges,
            pattern,
            i,
        ) * piece.len()
    &&& forall|i: int, k: int|
        0 <= i <= t.len() && 0 <= k < hits(t, ranges, pattern, i) ==> #[trigger] occurs_at(
            out,
            piece,
            gap_before(moved, i) + k * piece.len(),
        )
}

/// In every range of ASCII characters, every match has the piece directly in front of it.
pub open spec fn stands_before_matches(
    t: Seq<char>,
    ranges: Seq<Range>,
    pattern: Seq<char>,
    piece: Seq<char>,
    out: Seq<char>,
    moved: Seq<int>,
) -> bool {
    forall|r: int, j: int|
        0 <= r < ranges.len() && is_ascii_chars(cut(t, ranges[r])) && 0 <= j < match_places(
            pattern,
            cut(t, ranges[r]),
            0,
        ).len() ==> {
            let c = chars_before(t, (ranges[r]->0).0) + #[trigger] match_places(
                pattern,
                cut(t, ranges[r]),
                0,
            )[j];
            &&& 0 <= c < t.len()
            &&& fits_some(pattern, t, c)
            &&& occurs_at(out, piece, moved[c] - piece.len())
        }
}

/// Every match of the pattern in the ranges is reached by way of `host`: directly in front of it
/// stands the host with the mark, and without what was put in the text is as it was.
pub open spec fn leads_through(
    t: Seq<char>,
    ranges: Seq<Range>,
    pattern: Seq<char>,
    host: Seq<char>,
    out: Seq<char>,
) -> bool {
    exists|moved: Seq<int>| #[trigger]
        is_detoured(t, ranges, pattern, host + "/@"@, out, moved) && stands_before_matches(
            t,
            ranges,
            pattern,
            host + "/@"@,
            out,
            moved,
        )
}

/// Later matches stand further behind.
proof fn lemma_places_increase(p: Seq<char>, s: Seq<char>, from: int)
    requires
        0 <= from,
    ensures
        forall|j: int|
            0 <= j < match_places(p, s, from).len() ==> from <= #[trigger] match_places(
                p,
                s,
                from,
            )[j] <= s.len(),
        forall|j: int, k: int|
            0 <= j < k < match_places(p, s, from).len() ==> match_places(p, s, from)[j]
                < match_places(p, s, from)[k],
    decreases s.len() + 1 - from,
{
    lemma_places_fit(p, s, from);
    if let Some((i, n)) = next_match(p, s, from) {
        if from <= i && n > 0 && i + n <= s.len() {
            let all = match_places(p, s, from);
            let rest = match_places(p, s, i + n);
            lemma_places_increase(p, s, i + n);
            assert(all =~= seq![i] + rest);
            assert forall|j: int, k: int| 0 <= j < k < all.len() implies all[j] < all[k] by {
                assert(all[k] == rest[k - 1]);
                if j > 0 {
                    assert(all[j] == rest[j - 1]);
                }
            }
        }
    }
}

/// More characters have more bytes.
proof fn lemma_encoded_grows(s: Seq<char>, a: int, b: int)
    requires
        0 <= a <= b <= s.len(),
    ensures
        encode_utf8(s.take(a)).len() + (b - a) <= encode_utf8(s.take(b)).len(),
{
    let mid = s.subrange(a, b);
    assert(s.take(b) =~= s.take(a) + mid);
    lemma_encode_concat(s.take(a), mid);
    lemma_encoded_len(mid);
}

/// The places of one range are those of its matches, each once.
proof fn lemma_places_are_hits(t: Seq<char>, range: Range, pattern: Seq<char>)
    requires
        is_cut(t, range),
    ensures
        forall|i: int|
            times_named(places_in(t, range, pattern), i) == (if is_hit(t, range, pattern, i) {
                1nat
            } else {
                0nat
            }),
        all_within(places_in(t, range, pattern), t.len()) <==> forall|i: int| #[trigger]
            is_hit(t, range, pattern, i) ==> i <= t.len(),
{
    let (start, end) = range->0;
    let s = cut(t, range);
    let m = match_places(pattern, s, 0);
    let base = chars_before(t, start);
    let places = places_in(t, range, pattern);
    law_ranges_name_their_bytes(t, start, end);
    encode_utf8_valid_utf8(t);
    lemma_boundary_range(encode_utf8(t), start as int);
    lemma_boundary_range(encode_utf8(t), end as int);
    lemma_places_increase(pattern, s, 0);
    assert(s.take(s.len() as int) =~= s);
    assert forall|j: int| 0 <= j < places.len() implies #[trigger] places[j] == base + encode_utf8(
        s.take(m[j]),
    ).len() by {
        lemma_encoded_grows(s, m[j], s.len() as int);
        assert(encode_utf8(s).len() == end - start);
    }
    assert forall|j: int, k: int| 0 <= j < k < places.len() implies places[j] < places[k] by {
        lemma_encoded_grows(s, m[j], m[k]);
    }
    assert forall|i: int| #[trigger] is_hit(t, range, pattern, i) <==> places.contains(i) by {
        if is_hit(t, range, pattern, i) {
            let j = choose|j: int|
                0 <= j < m.len() && i == base + encode_utf8(s.take(#[trigger] m[j])).len();
            assert(places[j] == i);
        }
        if places.contains(i) {
            let j = choose|j: int| 0 <= j < places.len() && places[j] == i;
            assert(m[j] == m[j]);
            assert(i == base + encode_utf8(s.take(m[j])).len());
        }
    }
    assert forall|i: int|
        times_named(places, i) == (if is_hit(t, range, pattern, i) {
            1nat
        } else {
            0nat
        }) by {
        lemma_named_at_most_once(places, i);
    }
    if all_within(places, t.len()) {
        assert forall|i: int| #[trigger] is_hit(t, range, pattern, i) implies i <= t.len() by {
            assert(places.contains(i));
            let j = choose|j: int| 0 <= j < places.len() && places[j] == i;
            assert(places[j] <= t.len());
        }
    }
    if forall|i: int| #[trigger] is_hit(t, range, pattern, i) ==> i <= t.len() {
        assert forall|j: int| 0 <= j < places.len() implies 0 <= #[trigger] places[j] <= t.len() by {
            assert(places.contains(places[j]));
            assert(is_hit(t, range, pattern, places[j]));
        }
    }
}

/// A place of an increasing row is named once.
proof fn lemma_named_at_most_once(places: Seq<int>, i: int)
    requires
        forall|j: int, k: int| 0 <= j < k < places.len() ==> places[j] < places[k],
    ensures
        times_named(places, i) == (if places.contains(i) {
            1nat
        } else {
            0nat
        }),
    decreases places.len(),
{
    if places.len() > 0 {
        let head = places.drop_last();
        lemma_named_at_most_once(head, i);
        let n = places.len() - 1;
        if places.last() == i {
            assert(places[n] == i);
            if head.contains(i) {
                let j = choose|j: int| 0 <= j < head.len() && head[j] == i;
                assert(places[j] < places[n]);
            }
        } else {
            if places.contains(i) {
                let j = choose|j: int| 0 <= j < places.len() && places[j] == i;
                assert(head[j] == i);
            }
            if head.contains(i) {
                let j = choose|j: int| 0 <= j < head.len() && head[j] == i;
                assert(places[j] == i);
            }
        }
    }
}

/// How often a place is named in two rows.
proof fn lemma_named_in_both(a: Seq<int>, b: Seq<int>, i: int)
    ensures
        times_named(a + b, i) == times_named(a, i) + times_named(b, i),
    decreases b.len(),
{
    if b.len() == 0 {
        assert(a + b =~= a);
    } else {
        assert((a + b).drop_last() =~= a + b.drop_last());
        lemma_named_in_both(a, b.drop_last(), i);
    }
}

/// Something can be put in exactly where every range and every match allows it, and it is put in at
/// the matches.
proof fn lemma_insertions_are_hits(t: Seq<char>, ranges: Seq<Range>, pattern: Seq<char>)
    ensures
        insertions(t, ranges, pattern) is Some <==> can_be_detoured(t, ranges, pattern),
        insertions(t, ranges, pattern) matches Some(places) ==> forall|i: int|
            times_named(places, i) == hits(t, ranges, pattern, i),
    decreases ranges.len(),
{
    if ranges.len() > 0 {
        let head = ranges.drop_last();
        let range = ranges.last();
        let n = ranges.len() - 1;
        lemma_insertions_are_hits(t, head, pattern);
        if is_cut(t, range) {
            lemma_places_are_hits(t, range, pattern);
            law_ranges_name_their_bytes(t, (range->0).0, (range->0).1);
        }
        assert(ranges[n] == range);
        if can_be_detoured(t, ranges, pattern) {
            assert(is_cut(t, ranges[n]));
            assert forall|r: int| 0 <= r < head.len() implies match #[trigger] head[r] {
                Some((start, end)) => {
                    &&& start <= end
                    &&& is_char_boundary(encode_utf8(t), start as int)
                    &&& is_char_boundary(encode_utf8(t), end as int)
                    &&& forall|i: int| #[trigger] is_hit(t, head[r], pattern, i) ==> i <= t.len()
                },
                None => false,
            } by {
                assert(head[r] == ranges[r]);
            }
            assert(can_be_detoured(t, head, pattern));
        }
        if let Some(before) = insertions(t, head, pattern) {
            if is_cut(t, range) && all_within(places_in(t, range, pattern), t.len()) {
                assert forall|r: int| 0 <= r < ranges.len() implies match #[trigger] ranges[r] {
                    Some((start, end)) => {
                        &&& start <= end
                        &&& is_char_boundary(encode_utf8(t), start as int)
                        &&& is_char_boundary(encode_utf8(t), end as int)
                        &&& forall|i: int| #[trigger]
                            is_hit(t, ranges[r], pattern, i) ==> i <= t.len()
                    },
                    None => false,
                } by {
                    if r < n {
                        assert(head[r] == ranges[r]);
                    }
                }
                let added = places_in(t, range, pattern);
                assert forall|i: int|
                    times_named(before + added, i) == hits(t, ranges, pattern, i) by {
                    lemma_named_in_both(before, added, i);
                }
            }
        }
    }
}

/// Where the character at place `i` is moved to.
spec fn moved_to(places: Seq<int>, l: nat, i: nat) -> int {
    (i + named_up_to(places, i) * l) as int
}

/// Where something is put in before the character at place `i`.
spec fn gap_at(places: Seq<int>, l: nat, i: nat) -> int {
    if i == 0 {
        0
    } else {
        moved_to(places, l, (i - 1) as nat) + 1
    }
}

/// The pieces of a repeated piece.
proof fn lemma_repeated_holds(piece: Seq<char>, n: nat, k: int)
    requires
        0 <= k < n,
    ensures
        k * piece.len() + piece.len() <= repeated(piece, n).len(),
        0 <= k * piece.len(),
        occurs_at(repeated(piece, n), piece, k * piece.len()),
    decreases n,
{
    let l = piece.len() as int;
    let before = repeated(piece, (n - 1) as nat);
    let all = repeated(piece, n);
    lemma_repeated_len(piece, (n - 1) as nat);
    lemma_repeated_len(piece, n);
    assert(0 <= k * l) by (nonlinear_arith)
        requires
            0 <= k,
            0 <= l,
    ;
    if k == n - 1 {
        assert(all.subrange(k * l, k * l + l) =~= piece);
    } else {
        lemma_repeated_holds(piece, (n - 1) as nat, k);
        assert(all.subrange(k * l, k * l + l) =~= before.subrange(k * l, k * l + l));
    }
}

/// Where the characters and the pieces stand in a text with pieces put in.
proof fn lemma_woven_stands(t: Seq<char>, places: Seq<int>, piece: Seq<char>, n: nat)
    requires
        n <= t.len(),
    ensures
        woven(t, places, piece, n).len() == moved_to(places, piece.len(), n),
        forall|i: nat|
            i < n ==> 0 <= #[trigger] moved_to(places, piece.len(), i) < woven(
                t,
                places,
                piece,
                n,
            ).len() && woven(t, places, piece, n)[moved_to(places, piece.len(), i)] == t[i as int],
        forall|i: nat, k: int|
            i <= n && 0 <= k < times_named(places, i as int) ==> #[trigger] occurs_at(
                woven(t, places, piece, n),
                piece,
                gap_at(places, piece.len(), i) + k * piece.len(),
            ),
    decreases n,
{
    let l = piece.len();
    let w = woven(t, places, piece, n);
    let added = repeated(piece, times_named(places, n as int));
    lemma_woven_len(t, places, piece, n);
    if n == 0 {
        assert forall|i: nat, k: int|
            i <= n && 0 <= k < times_named(places, i as int) implies #[trigger] occurs_at(
            w,
            piece,
            gap_at(places, l, i) + k * l,
        ) by {
            lemma_repeated_holds(piece, times_named(places, 0), k);
        }
    } else {
        let m = (n - 1) as nat;
        let v = woven(t, places, piece, m);
        lemma_woven_len(t, places, piece, m);
        lemma_woven_stands(t, places, piece, m);
        assert(v.len() == moved_to(places, l, m));
        assert(w =~= v + seq![t[n - 1]] + added);
        assert forall|i: nat| i < n implies 0 <= #[trigger] moved_to(places, l, i) < w.len()
            && w[moved_to(places, l, i)] == t[i as int] by {
            if i < m {
                assert(v[moved_to(places, l, i)] == t[i as int]);
            }
        }
        assert forall|i: nat, k: int|
            i <= n && 0 <= k < times_named(places, i as int) implies #[trigger] occurs_at(
            w,
            piece,
            gap_at(places, l, i) + k * l,
        ) by {
            let at = gap_at(places, l, i) + k * l;
            if i < n {
                assert(occurs_at(v, piece, at));
                assert(w.subrange(at, at + l) =~= v.subrange(at, at + l));
            } else {
                lemma_repeated_holds(piece, times_named(places, n as int), k);
                assert(w.subrange(at, at + l) =~= added.subrange(k * l, k * l + l));
            }
        }
    }
}

/// Every match is counted.
proof fn lemma_hit_counts(
    t: Seq<char>,
    ranges: Seq<Range>,
    pattern: Seq<char>,
    r: int,
    i: int,
)
    requires
        0 <= r < ranges.len(),
        is_hit(t, ranges[r], pattern, i),
    ensures
        hits(t, ranges, pattern, i) > 0,
    decreases ranges.len(),
{
    if r < ranges.len() - 1 {
        assert(ranges.drop_last()[r] == ranges[r]);
        lemma_hit_counts(t, ranges.drop_last(), pattern, r, i);
    }
}

/// In a rewritten text every known host is reached by way of this server: in front of every match
/// in a range, however many ranges there are, stands the host of this server with the mark, and
/// without what was put in the text is as it was. A text is rewritten whenever there are ranges
/// which begin and end between characters and whose matches are at places of the text.
pub proof fn law_matches_lead_through_the_host(
    t: Seq<char>,
    ranges: Option<Seq<Range>>,
    pattern: Seq<char>,
    host: Seq<char>,
)
    requires
        is_pattern(pattern),
    ensures
        match rewritten(t, ranges, pattern, detour(host)) {
            Some(out) => ranges matches Some(v) && can_be_detoured(t, v, pattern) && leads_through(
                t,
                v,
                pattern,
                host,
                out,
            ),
            None => ranges matches Some(v) ==> !can_be_detoured(t, v, pattern),
        },
{
    if let Some(v) = ranges {
        lemma_insertions_are_hits(t, v, pattern);
        if let Some(places) = insertions(t, v, pattern) {
            let piece = host + "/@"@;
            let l = piece.len();
            let n = t.len();
            let out = woven(t, places, piece, n);
            assert(rewritten(t, ranges, pattern, detour(host)) == Some(out));
            let moved = Seq::new((n + 1) as nat, |i: int| moved_to(places, l, i as nat));
            lemma_woven_stands(t, places, piece, n);
            assert forall|i: int| 0 <= i < n implies 0 <= #[trigger] moved[i] < out.len()
                && out[moved[i]] == t[i] by {
                assert(moved[i] == moved_to(places, l, i as nat));
            }
            assert forall|i: int| 0 <= i <= n implies #[trigger] moved[i] == gap_before(moved, i)
                + hits(t, v, pattern, i) * l by {
                assert(times_named(places, i) == hits(t, v, pattern, i));
                if i > 0 {
                    let a = named_up_to(places, (i - 1) as nat);
                    let b = times_named(places, i);
                    assert((a + b) * l == a * l + b * l) by (nonlinear_arith);
                    assert(moved[i - 1] == moved_to(places, l, (i - 1) as nat));
                }
            }
            assert forall|i: int, k: int|
                0 <= i <= n && 0 <= k < hits(t, v, pattern, i) implies #[trigger] occurs_at(
                out,
                piece,
                gap_before(moved, i) + k * l,
            ) by {
                assert(times_named(places, i) == hits(t, v, pattern, i));
                let gap = gap_at(places, l, i as nat);
                assert(gap == gap_before(moved, i));
                assert(occurs_at(out, piece, gap + k * l));
            }
            assert(is_detoured(t, v, pattern, piece, out, moved));
            lemma_stands_before(t, v, pattern, piece, out, moved);
            assert(leads_through(t, v, pattern, host, out));
        }
    }
}

/// What is put in for a match stands directly in front of it.
proof fn lemma_stands_before(
    t: Seq<char>,
    ranges: Seq<Range>,
    pattern: Seq<char>,
    piece: Seq<char>,
    out: Seq<char>,
    moved: Seq<int>,
)
    requires
        is_pattern(pattern),
        can_be_detoured(t, ranges, pattern),
        is_detoured(t, ranges, pattern, piece, out, moved),
    ensures
        stands_before_matches(t, ranges, pattern, piece, out, moved),
{
    assert forall|r: int, j: int|
        0 <= r < ranges.len() && is_ascii_chars(cut(t, ranges[r])) && 0 <= j < match_places(
            pattern,
            cut(t, ranges[r]),
            0,
        ).len() implies {
        let c = chars_before(t, (ranges[r]->0).0) + #[trigger] match_places(
            pattern,
            cut(t, ranges[r]),
            0,
        )[j];
        &&& 0 <= c < t.len()
        &&& fits_some(pattern, t, c)
        &&& occurs_at(out, piece, moved[c] - piece.len())
    } by {
        let range = ranges[r];
        let (start, end) = range->0;
        law_ranges_name_their_bytes(t, start, end);
        let s = cut(t, range);
        let m = match_places(pattern, s, 0);
        let base = chars_before(t, start);
        let c = base + m[j];
        law_matches_are_leftmost(pattern, s, 0);
        let n = choose|n: int|
            n > 0 && #[trigger] is_first_fit(pattern, s, m[j], n) && m[j] + n <= s.len() && if j + 1
                < m.len() {
                m[j] + n <= m[j + 1] && none_fits(pattern, s, m[j] + n, m[j + 1])
            } else {
                none_fits(pattern, s, m[j] + n, s.len() as int + 1)
            };
        lemma_places_increase(pattern, s, 0);
        lemma_places_are_hits(t, range, pattern);
        law_what_follows_matches(t, range, pattern, j);
        let ascii = s.take(m[j]);
        assert(is_ascii_chars(ascii));
        is_ascii_chars_encode_utf8(ascii);
        assert(encode_utf8(ascii).len() == m[j]);
        assert(is_hit(t, range, pattern, c));
        lemma_encoded_grows(s, m[j], s.len() as int);
        assert(s.take(s.len() as int) =~= s);
        encode_utf8_valid_utf8(t);
        lemma_boundary_range(encode_utf8(t), end as int);
        assert(places_in(t, range, pattern)[j] == c);
        lemma_hit_counts(t, ranges, pattern, r, c);
        let h = hits(t, ranges, pattern, c);
        let k = h - 1;
        let l = piece.len();
        assert(h * l == k * l + l) by (nonlinear_arith)
            requires
                k == h - 1,
        ;
        assert(moved[c] == gap_before(moved, c) + h * l);
        assert(occurs_at(out, piece, gap_before(moved, c) + k * l));
    }
}

} // verus!
