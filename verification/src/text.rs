//! Text as a sequence of characters: searching, splitting, replacing and trimming.
use vstd::prelude::*;
use vstd::slice::slice_subrange;

verus! {

/// `sep` stands in `s` at place `i`.
pub open spec fn occurs_at(s: Seq<char>, sep: Seq<char>, i: int) -> bool {
    0 <= i && i + sep.len() <= s.len() && s.subrange(i, i + sep.len()) == sep
}

/// The first place at or after `from` where `sep` stands in `s`.
pub open spec fn first_from(s: Seq<char>, sep: Seq<char>, from: int) -> Option<int>
    decreases s.len() + 1 - from,
{
    if from < 0 || from + sep.len() > s.len() {
        None
    } else if occurs_at(s, sep, from) {
        Some(from)
    } else {
        first_from(s, sep, from + 1)
    }
}

/// `s` holds `sep` somewhere.
pub open spec fn holds(s: Seq<char>, sep: Seq<char>) -> bool {
    first_from(s, sep, 0) is Some
}

/// The text before and the text after the first `sep` of `s`.
pub open spec fn cut_once(s: Seq<char>, sep: Seq<char>) -> Option<(Seq<char>, Seq<char>)> {
    match first_from(s, sep, 0) {
        Some(i) => Some((s.take(i), s.skip(i + sep.len()))),
        None => None,
    }
}

/// The pieces of `s` between the occurrences of `c`; there is always at least one.
pub open spec fn pieces(s: Seq<char>, c: char) -> Seq<Seq<char>>
    decreases s.len(),
{
    match first_from(s, seq![c], 0) {
        None => seq![s],
        Some(i) => if 0 <= i < s.len() {
            seq![s.take(i)] + pieces(s.skip(i + 1), c)
        } else {
            seq![s]
        },
    }
}

/// `s` with every non-overlapping `from`, taken from the left, turned into `to`.
pub open spec fn replaced(s: Seq<char>, from: Seq<char>, to: Seq<char>) -> Seq<char>
    decreases s.len(),
{
    match first_from(s, from, 0) {
        None => s,
        Some(i) => if from.len() > 0 && 0 <= i && i + from.len() <= s.len() {
            s.take(i) + to + replaced(s.skip(i + from.len()), from, to)
        } else {
            s
        },
    }
}

/// The characters with the Unicode property `White_Space`.
pub open spec fn white(c: char) -> bool {
    let u = c as u32;
    ||| 0x09 <= u <= 0x0d
    ||| u == 0x20
    ||| u == 0x85
    ||| u == 0xa0
    ||| u == 0x1680
    ||| 0x2000 <= u <= 0x200a
    ||| u == 0x2028
    ||| u == 0x2029
    ||| u == 0x202f
    ||| u == 0x205f
    ||| u == 0x3000
}

/// `s` without the white space at its start.
pub open spec fn trimmed_start(s: Seq<char>) -> Seq<char>
    decreases s.len(),
{
    if s.len() > 0 && white(s[0]) {
        trimmed_start(s.skip(1))
    } else {
        s
    }
}

/// `s` without the white space at its end.
pub open spec fn trimmed_end(s: Seq<char>) -> Seq<char>
    decreases s.len(),
{
    if s.len() > 0 && white(s.last()) {
        trimmed_end(s.drop_last())
    } else {
        s
    }
}

/// `s` without the white space at both its ends.
pub open spec fn trimmed(s: Seq<char>) -> Seq<char> {
    trimmed_end(trimmed_start(s))
}

/// The views of a list of texts.
pub open spec fn texts(v: Seq<String>) -> Seq<Seq<char>> {
    Seq::new(v.len(), |i: int| v[i]@)
}

/// The view of a text that may be missing.
pub open spec fn opt_text(o: Option<String>) -> Option<Seq<char>> {
    match o {
        Some(s) => Some(s@),
        None => None,
    }
}

/// The view of a borrowed text that may be missing.
pub open spec fn opt_str(o: Option<&str>) -> Option<Seq<char>> {
    match o {
        Some(s) => Some(s@),
        None => None,
    }
}

/// What `first_from` finds is the least place that fits.
pub proof fn lemma_first_from(s: Seq<char>, sep: Seq<char>, from: int)
    requires
        0 <= from,
    ensures
        match first_from(s, sep, from) {
            Some(i) => from <= i && occurs_at(s, sep, i) && forall|j: int|
                from <= j < i ==> !#[trigger] occurs_at(s, sep, j),
            None => forall|j: int| from <= j ==> !#[trigger] occurs_at(s, sep, j),
        },
    decreases s.len() + 1 - from,
{
    if from + sep.len() <= s.len() && !occurs_at(s, sep, from) {
        lemma_first_from(s, sep, from + 1);
    }
}

/// A place that fits and has none before it is the one that `first_from` finds.
pub proof fn lemma_first_from_is(s: Seq<char>, sep: Seq<char>, from: int, at: int)
    requires
        0 <= from <= at,
        occurs_at(s, sep, at),
        forall|j: int| from <= j < at ==> !#[trigger] occurs_at(s, sep, j),
    ensures
        first_from(s, sep, from) == Some(at),
    decreases at - from,
{
    if from < at {
        lemma_first_from_is(s, sep, from + 1, at);
    }
}

/// Where nothing fits, `first_from` finds nothing.
pub proof fn lemma_first_from_none(s: Seq<char>, sep: Seq<char>, from: int)
    requires
        0 <= from,
        forall|j: int| from <= j ==> !#[trigger] occurs_at(s, sep, j),
    ensures
        first_from(s, sep, from) is None,
    decreases s.len() + 1 - from,
{
    if from + sep.len() <= s.len() {
        lemma_first_from_none(s, sep, from + 1);
    }
}

/// A text is cut at the first of a character that its head does not hold.
pub proof fn lemma_cut_at_char(head: Seq<char>, c: char, tail: Seq<char>)
    requires
        !head.contains(c),
    ensures
        cut_once(head + seq![c] + tail, seq![c]) == Some((head, tail)),
{
    let s = head + seq![c] + tail;
    let n = head.len() as int;
    assert(s.subrange(n, n + 1) =~= seq![c]);
    assert forall|j: int| 0 <= j < n implies !#[trigger] occurs_at(s, seq![c], j) by {
        if occurs_at(s, seq![c], j) {
            assert(s.subrange(j, j + 1)[0] == c);
            assert(head[j] == c);
        }
    }
    lemma_first_from_is(s, seq![c], 0, n);
    assert(s.take(n) =~= head);
    assert(s.skip(n + 1) =~= tail);
}

/// The characters of `s`.
pub fn chars_of(s: &str) -> (r: Vec<char>)
    ensures
        r@ == s@,
{
    let mut out: Vec<char> = Vec::new();
    for c in it: s.chars()
        invariant
            out@ == it.seq().take(it.index()),
            it.seq() == s@,
    {
        out.push(c);
        assert(it.seq().take(it.index() + 1) =~= it.seq().take(it.index()).push(c));
    }
    assert(s@.take(s@.len() as int) =~= s@);
    out
}

/// The text that consists of `v`.
pub fn text_of(v: &[char]) -> (r: String)
    ensures
        r@ == v@,
{
    let mut out = String::new();
    for i in 0..v.len()
        invariant
            out@ == v@.take(i as int),
    {
        out.push(v[i]);
        assert(v@.take(i + 1) =~= v@.take(i as int).push(v@[i as int]));
    }
    assert(v@.take(v@.len() as int) =~= v@);
    out
}

/// The text of `v` from place `from` up to place `to`.
pub fn text_between(v: &Vec<char>, from: usize, to: usize) -> (r: String)
    requires
        from <= to <= v@.len(),
    ensures
        r@ == v@.subrange(from as int, to as int),
{
    text_of(slice_subrange(v.as_slice(), from, to))
}

/// Whether two texts are the same.
pub fn same(a: &str, b: &str) -> (r: bool)
    ensures
        r == (a@ == b@),
{
    a.to_owned() == b.to_owned()
}

/// Whether `sep` stands in `s` at place `i`.
pub fn stands_at(s: &Vec<char>, sep: &Vec<char>, i: usize) -> (r: bool)
    ensures
        r == occurs_at(s@, sep@, i as int),
{
    if i > s.len() || sep.len() > s.len() - i {
        return false;
    }
    let n: usize = s.len();
    for k in 0..sep.len()
        invariant
            n == s@.len(),
            i + sep@.len() <= s@.len(),
            forall|j: int| 0 <= j < k ==> s@[i + j] == sep@[j],
    {
        if s[i + k] != sep[k] {
            proof {
                if occurs_at(s@, sep@, i as int) {
                    assert(s@.subrange(i as int, i + sep@.len())[k as int] == sep@[k as int]);
                }
            }
            return false;
        }
    }
    assert(s@.subrange(i as int, i + sep@.len()) =~= sep@);
    true
}

/// The first place at or after `from` where `sep` stands in `s`.
pub fn find_from(s: &Vec<char>, sep: &Vec<char>, from: usize) -> (r: Option<usize>)
    ensures
        match r {
            Some(i) => first_from(s@, sep@, from as int) == Some(i as int),
            None => first_from(s@, sep@, from as int) is None,
        },
{
    let mut i: usize = from;
    while i <= s.len() && sep.len() <= s.len() - i
        invariant
            from <= i,
            first_from(s@, sep@, from as int) == first_from(s@, sep@, i as int),
            i <= s@.len() + 1 || i == from,
        decreases s@.len() + 1 - i,
    {
        if stands_at(s, sep, i) {
            return Some(i);
        }
        if i == s.len() {
            assert(first_from(s@, sep@, i + 1) is None);
            return None;
        }
        i = i + 1;
    }
    None
}

/// Whether `s` holds `sep` somewhere.
pub fn contains(s: &str, sep: &str) -> (r: bool)
    ensures
        r == holds(s@, sep@),
{
    find_from(&chars_of(s), &chars_of(sep), 0).is_some()
}

/// Whether `s` starts with `head`.
pub fn starts_with(s: &str, head: &str) -> (r: bool)
    ensures
        r == occurs_at(s@, head@, 0),
{
    stands_at(&chars_of(s), &chars_of(head), 0)
}

/// The text before and the text after the first `sep` of `s`.
pub fn split_once(s: &str, sep: &str) -> (r: Option<(String, String)>)
    ensures
        match r {
            Some((a, b)) => cut_once(s@, sep@) == Some((a@, b@)),
            None => cut_once(s@, sep@) is None,
        },
{
    let sc = chars_of(s);
    let pc = chars_of(sep);
    let n: usize = sc.len();
    match find_from(&sc, &pc, 0) {
        Some(i) => {
            proof {
                lemma_first_from(s@, sep@, 0);
                assert(s@.take(i as int) =~= s@.subrange(0, i as int));
                assert(s@.skip(i + sep@.len()) =~= s@.subrange(
                    i + sep@.len(),
                    s@.len() as int,
                ));
            }
            Some((text_between(&sc, 0, i), text_between(&sc, i + pc.len(), n)))
        },
        None => None,
    }
}

/// The pieces of `s` between the occurrences of `c`.
pub fn split(s: &str, c: char) -> (r: Vec<String>)
    ensures
        texts(r@) == pieces(s@, c),
        r@.len() > 0,
{
    let sc = chars_of(s);
    let mut sep: Vec<char> = Vec::new();
    sep.push(c);
    assert(sep@ =~= seq![c]);
    let mut out: Vec<String> = Vec::new();
    let mut from: usize = 0;
    let n: usize = sc.len();
    assert(texts(out@) + pieces(s@.skip(0), c) =~= pieces(s@, c)) by {
        assert(s@.skip(0) =~= s@);
    }
    loop
        invariant
            sc@ == s@,
            sep@ == seq![c],
            n == s@.len(),
            from <= s@.len(),
            texts(out@) + pieces(s@.skip(from as int), c) == pieces(s@, c),
        decreases s@.len() - from,
    {
        let found = find_from(&sc, &sep, from);
        let ghost rest = s@.skip(from as int);
        let ghost before = texts(out@);
        proof {
            lemma_first_from_skip(s@, seq![c], from as int);
            lemma_first_from(s@, seq![c], from as int);
        }
        match found {
            Some(i) => {
                let piece = text_between(&sc, from, i);
                proof {
                    assert(rest.take(i - from) =~= s@.subrange(from as int, i as int));
                    assert(rest.skip(i - from + 1) =~= s@.skip(i + 1));
                    assert(pieces(rest, c) =~= seq![piece@] + pieces(s@.skip(i + 1), c));
                }
                out.push(piece);
                proof {
                    assert(texts(out@) =~= before.push(piece@));
                    assert(texts(out@) + pieces(s@.skip(i + 1), c) =~= before + pieces(rest, c));
                }
                from = i + 1;
            },
            None => {
                let piece = text_between(&sc, from, n);
                proof {
                    assert(rest =~= s@.subrange(from as int, s@.len() as int));
                    assert(pieces(rest, c) =~= seq![rest]);
                }
                out.push(piece);
                proof {
                    assert(texts(out@) =~= before.push(piece@));
                    assert(texts(out@) =~= before + pieces(rest, c));
                }
                return out;
            },
        }
    }
}

/// Searching from a place is searching in what follows that place.
pub proof fn lemma_first_from_skip(s: Seq<char>, sep: Seq<char>, from: int)
    requires
        0 <= from <= s.len(),
    ensures
        match first_from(s, sep, from) {
            Some(i) => first_from(s.skip(from), sep, 0) == Some(i - from),
            None => first_from(s.skip(from), sep, 0) is None,
        },
{
    let rest = s.skip(from);
    assert forall|j: int| 0 <= j implies #[trigger] occurs_at(rest, sep, j) == occurs_at(
        s,
        sep,
        j + from,
    ) by {
        if j + sep.len() <= rest.len() {
            assert(rest.subrange(j, j + sep.len()) =~= s.subrange(j + from, j + from + sep.len()));
        }
    }
    lemma_first_from(s, sep, from);
    match first_from(s, sep, from) {
        Some(i) => {
            assert(occurs_at(rest, sep, i - from));
            lemma_first_from_is(rest, sep, 0, i - from);
        },
        None => {
            lemma_first_from_none(rest, sep, 0);
        },
    }
}

/// `s` with every `from`, taken from the left, turned into `to`.
pub fn replace_all(s: &str, from: &str, to: &str) -> (r: String)
    requires
        from@.len() > 0,
    ensures
        r@ == replaced(s@, from@, to@),
{
    let sc = chars_of(s);
    let fc = chars_of(from);
    let mut out = String::new();
    let mut at: usize = 0;
    let n: usize = sc.len();
    assert(s@.skip(0) =~= s@);
    loop
        invariant
            sc@ == s@,
            fc@ == from@,
            n == s@.len(),
            from@.len() > 0,
            at <= s@.len(),
            out@ + replaced(s@.skip(at as int), from@, to@) == replaced(s@, from@, to@),
        decreases s@.len() - at,
    {
        let found = find_from(&sc, &fc, at);
        let ghost rest = s@.skip(at as int);
        let ghost before = out@;
        proof {
            lemma_first_from_skip(s@, from@, at as int);
            lemma_first_from(s@, from@, at as int);
        }
        match found {
            Some(i) => {
                let kept = text_between(&sc, at, i);
                out.append(kept.as_str());
                out.append(to);
                proof {
                    assert(rest.take(i - at) =~= s@.subrange(at as int, i as int));
                    assert(rest.skip(i - at + from@.len()) =~= s@.skip(i + from@.len()));
                    assert(out@ + replaced(s@.skip(i + from@.len()), from@, to@) =~= before
                        + replaced(rest, from@, to@));
                }
                at = i + fc.len();
            },
            None => {
                let kept = text_between(&sc, at, n);
                out.append(kept.as_str());
                proof {
                    assert(rest =~= s@.subrange(at as int, s@.len() as int));
                }
                return out;
            },
        }
    }
}

/// Whether `c` has the Unicode property `White_Space`.
pub fn is_white(c: char) -> (r: bool)
    ensures
        r == white(c),
{
    let u: u32 = c as u32;
    (0x09 <= u && u <= 0x0d) || u == 0x20 || u == 0x85 || u == 0xa0 || u == 0x1680 || (0x2000 <= u
        && u <= 0x200a) || u == 0x2028 || u == 0x2029 || u == 0x202f || u == 0x205f || u == 0x3000
}

/// `s` without the white space at both its ends.
pub fn trim(s: &str) -> (r: String)
    ensures
        r@ == trimmed(s@),
{
    let sc = chars_of(s);
    let mut a: usize = 0;
    assert(s@.skip(0) =~= s@);
    while a < sc.len() && is_white(sc[a])
        invariant
            sc@ == s@,
            a <= s@.len(),
            trimmed_start(s@.skip(a as int)) == trimmed_start(s@),
        decreases s@.len() - a,
    {
        assert(s@.skip(a as int).skip(1) =~= s@.skip(a + 1));
        a = a + 1;
    }
    let ghost head = s@.skip(a as int);
    assert(trimmed_start(s@) == head);
    let mut b: usize = sc.len();
    assert(s@.subrange(a as int, b as int) =~= head);
    while a < b && is_white(sc[b - 1])
        invariant
            sc@ == s@,
            a <= b <= s@.len(),
            trimmed_end(s@.subrange(a as int, b as int)) == trimmed_end(head),
        decreases b,
    {
        assert(s@.subrange(a as int, b as int).drop_last() =~= s@.subrange(a as int, b - 1));
        b = b - 1;
    }
    text_between(&sc, a, b)
}

/// What stands at a place stands there character by character.
pub proof fn law_what_stands_at_a_place(s: Seq<char>, sep: Seq<char>, i: int)
    ensures
        occurs_at(s, sep, i) <==> 0 <= i && i + sep.len() <= s.len() && forall|k: int|
            0 <= k < sep.len() ==> #[trigger] sep[k] == s[i + k],
{
    if occurs_at(s, sep, i) {
        assert forall|k: int| 0 <= k < sep.len() implies #[trigger] sep[k] == s[i + k] by {
            assert(s.subrange(i, i + sep.len())[k] == sep[k]);
        }
    }
    if 0 <= i && i + sep.len() <= s.len() && forall|k: int|
        0 <= k < sep.len() ==> #[trigger] sep[k] == s[i + k] {
        assert(s.subrange(i, i + sep.len()) =~= sep);
    }
}

/// A text holds another one exactly where that one stands at some place of it.
pub proof fn law_what_a_text_holds(s: Seq<char>, sep: Seq<char>)
    ensures
        holds(s, sep) <==> exists|i: int| 0 <= i && #[trigger] occurs_at(s, sep, i),
{
    lemma_first_from(s, sep, 0);
}

/// A text is cut where the separator first stands: the two parts with the separator between them
/// are the text again, and the separator stands nowhere further left. A text that does not hold the
/// separator is not cut.
pub proof fn law_cutting_loses_nothing(s: Seq<char>, sep: Seq<char>)
    ensures
        match cut_once(s, sep) {
            Some((a, b)) => s == a + sep + b && forall|j: int|
                0 <= j < a.len() ==> !#[trigger] occurs_at(s, sep, j),
            None => forall|j: int| 0 <= j ==> !#[trigger] occurs_at(s, sep, j),
        },
{
    lemma_first_from(s, sep, 0);
    if let Some(i) = first_from(s, sep, 0) {
        assert(s =~= s.take(i) + s.subrange(i, i + sep.len()) + s.skip(i + sep.len()));
    }
}

/// Pieces with a separator between each two of them.
pub open spec fn joined(parts: Seq<Seq<char>>, c: char) -> Seq<char>
    decreases parts.len(),
{
    if parts.len() == 0 {
        Seq::empty()
    } else if parts.len() == 1 {
        parts[0]
    } else {
        parts[0] + seq![c] + joined(parts.drop_first(), c)
    }
}

/// The pieces of a text with the separator between them are the text again, and none of them holds
/// the separator.
pub proof fn law_pieces_make_up_the_text(s: Seq<char>, c: char)
    ensures
        pieces(s, c).len() > 0,
        joined(pieces(s, c), c) == s,
        forall|k: int| 0 <= k < pieces(s, c).len() ==> !(#[trigger] pieces(s, c)[k]).contains(c),
    decreases s.len(),
{
    let all = pieces(s, c);
    lemma_first_from(s, seq![c], 0);
    match first_from(s, seq![c], 0) {
        None => {
            if s.contains(c) {
                let i = choose|i: int| 0 <= i < s.len() && s[i] == c;
                assert(s.subrange(i, i + 1) =~= seq![c]);
                assert(occurs_at(s, seq![c], i));
            }
            assert(all =~= seq![s]);
        },
        Some(i) => {
            let head = s.take(i);
            let rest = s.skip(i + 1);
            law_pieces_make_up_the_text(rest, c);
            assert(all == seq![head] + pieces(rest, c));
            assert(all.drop_first() =~= pieces(rest, c));
            assert(s.subrange(i, i + 1)[0] == c);
            assert(head + seq![c] + rest =~= s);
            if head.contains(c) {
                let j = choose|j: int| 0 <= j < head.len() && head[j] == c;
                assert(s.subrange(j, j + 1) =~= seq![c]);
                assert(occurs_at(s, seq![c], j));
            }
            assert forall|k: int| 0 <= k < all.len() implies !(#[trigger] all[k]).contains(c) by {
                if k > 0 {
                    assert(all[k] == pieces(rest, c)[k - 1]);
                }
            }
        },
    }
}

/// Pieces that do not hold the separator are the pieces of the text that they make up.
pub proof fn law_joined_pieces_come_apart(parts: Seq<Seq<char>>, c: char)
    requires
        parts.len() > 0,
        forall|k: int| 0 <= k < parts.len() ==> !(#[trigger] parts[k]).contains(c),
    ensures
        pieces(joined(parts, c), c) == parts,
    decreases parts.len(),
{
    let s = joined(parts, c);
    if parts.len() == 1 {
        assert forall|j: int| 0 <= j implies !#[trigger] occurs_at(s, seq![c], j) by {
            if occurs_at(s, seq![c], j) {
                assert(s.subrange(j, j + 1)[0] == c);
                assert(parts[0].contains(c));
            }
        }
        lemma_first_from_none(s, seq![c], 0);
        assert(pieces(s, c) =~= parts);
    } else {
        let rest = parts.drop_first();
        assert forall|k: int| 0 <= k < rest.len() implies !(#[trigger] rest[k]).contains(c) by {
            assert(rest[k] == parts[k + 1]);
        }
        law_joined_pieces_come_apart(rest, c);
        lemma_cut_at_char(parts[0], c, joined(rest, c));
        lemma_first_from(s, seq![c], 0);
        let i = first_from(s, seq![c], 0)->0;
        assert(s.skip(i + seq![c].len()) == s.skip(i + 1));
        assert(pieces(s, c) =~= seq![parts[0]] + pieces(joined(rest, c), c));
        assert(pieces(s, c) =~= parts);
    }
}

/// Where nothing is found, nothing is replaced; where something is, what stands before the first
/// place stays, the replacement follows, and so on behind it.
pub proof fn law_replacing(head: Seq<char>, from: Seq<char>, tail: Seq<char>, to: Seq<char>)
    requires
        from.len() > 0,
        forall|j: int| 0 <= j < head.len() ==> !#[trigger] occurs_at(head + from + tail, from, j),
    ensures
        replaced(head + from + tail, from, to) == head + to + replaced(tail, from, to),
        (forall|j: int| 0 <= j ==> !#[trigger] occurs_at(tail, from, j)) ==> replaced(tail, from, to)
            == tail,
{
    let s = head + from + tail;
    let n = head.len() as int;
    assert(s.subrange(n, n + from.len()) =~= from);
    lemma_first_from_is(s, from, 0, n);
    assert(s.take(n) =~= head);
    assert(s.skip(n + from.len()) =~= tail);
    if forall|j: int| 0 <= j ==> !#[trigger] occurs_at(tail, from, j) {
        lemma_first_from_none(tail, from, 0);
    }
}

/// Trimming takes white space away from both ends, all of it and nothing else.
pub proof fn law_trimming(s: Seq<char>)
    ensures
        exists|a: int, b: int|
            0 <= a <= b <= s.len() && #[trigger] s.subrange(a, b) == trimmed(s) && (forall|i: int|
                0 <= i < a || b <= i < s.len() ==> white(#[trigger] s[i])),
        trimmed(s).len() > 0 ==> !white(trimmed(s)[0]) && !white(trimmed(s).last()),
{
    lemma_trimmed_start(s);
    let head = trimmed_start(s);
    let a = s.len() - head.len();
    lemma_trimmed_end(head);
    let mid = trimmed_end(head);
    let b = a + mid.len();
    assert(s.subrange(a, b) =~= mid);
    assert forall|i: int| 0 <= i < a || b <= i < s.len() implies white(#[trigger] s[i]) by {
        if b <= i {
            assert(head[i - a] == s[i]);
        }
    }
    if mid.len() > 0 {
        assert(mid[0] == head[0]);
    }
}

/// What is taken away from the start.
proof fn lemma_trimmed_start(s: Seq<char>)
    ensures
        trimmed_start(s).len() <= s.len(),
        trimmed_start(s) == s.skip(s.len() - trimmed_start(s).len()),
        forall|i: int| 0 <= i < s.len() - trimmed_start(s).len() ==> white(#[trigger] s[i]),
        trimmed_start(s).len() > 0 ==> !white(trimmed_start(s)[0]),
    decreases s.len(),
{
    if s.len() > 0 && white(s[0]) {
        let rest = s.skip(1);
        lemma_trimmed_start(rest);
        let n = s.len() - trimmed_start(s).len();
        assert(s.skip(n) =~= rest.skip(n - 1));
        assert forall|i: int| 0 <= i < n implies white(#[trigger] s[i]) by {
            if i > 0 {
                assert(rest[i - 1] == s[i]);
            }
        }
    } else {
        assert(s.skip(0) =~= s);
    }
}

/// What is taken away from the end.
proof fn lemma_trimmed_end(s: Seq<char>)
    ensures
        trimmed_end(s).len() <= s.len(),
        trimmed_end(s) == s.take(trimmed_end(s).len() as int),
        forall|i: int| trimmed_end(s).len() <= i < s.len() ==> white(#[trigger] s[i]),
        trimmed_end(s).len() > 0 ==> !white(trimmed_end(s).last()),
    decreases s.len(),
{
    if s.len() > 0 && white(s.last()) {
        let rest = s.drop_last();
        lemma_trimmed_end(rest);
        let n = trimmed_end(s).len() as int;
        assert(s.take(n) =~= rest.take(n));
        assert forall|i: int| n <= i < s.len() implies white(#[trigger] s[i]) by {
            if i < rest.len() {
                assert(rest[i] == s[i]);
            }
        }
    } else {
        assert(s.take(s.len() as int) =~= s);
    }
}

/// White space is: the tab, the line feed and the three signs behind it, the space, the next line,
/// the space without a break, and the spaces and separators of other scripts and of typesetting.
pub proof fn law_white_space(c: char)
    ensures
        white(c) <==> c == '\t' || c == '\n' || c == '\u{b}' || c == '\u{c}' || c == '\r' || c == ' '
            || c == '\u{85}' || c == '\u{a0}' || c == '\u{1680}' || '\u{2000}' <= c <= '\u{200a}' || c
            == '\u{2028}' || c == '\u{2029}' || c == '\u{202f}' || c == '\u{205f}' || c == '\u{3000}',
{
}

} // verus!
