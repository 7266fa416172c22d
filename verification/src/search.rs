//! The search engine: line splitting and substring matching.
//!
//! The specification-level model works on `Seq<char>`. Contents are split
//! into lines at `\n` or `\r\n` separators (the separator is not part of a
//! line), and a line matches a query when it contains the query as a
//! contiguous substring, after ASCII case folding when the search is
//! case-insensitive.

use vstd::prelude::*;

verus! {

/// ASCII case folding of a single character: `A`..`Z` map to `a`..`z`,
/// every other character is unchanged.
pub open spec fn fold_char(c: char) -> char {
    if 65 <= c as u32 && c as u32 <= 90 {
        ((c as u32 + 32) as u8) as char
    } else {
        c
    }
}

/// ASCII case folding of a whole string.
pub open spec fn fold_chars(s: Seq<char>) -> Seq<char> {
    s.map_values(|c: char| fold_char(c))
}

/// `needle` occurs in `hay` starting at position `i`.
pub open spec fn matches_at(hay: Seq<char>, needle: Seq<char>, i: int) -> bool {
    0 <= i && i + needle.len() <= hay.len() && hay.subrange(i, i + needle.len()) == needle
}

/// `needle` occurs somewhere in `hay` as a contiguous substring.
pub open spec fn has_substring(hay: Seq<char>, needle: Seq<char>) -> bool {
    exists|i: int| matches_at(hay, needle, i)
}

/// The matching rule for one line: plain substring containment, or
/// containment after ASCII case folding of both sides.
pub open spec fn line_matches(line: Seq<char>, query: Seq<char>, case_insensitive: bool) -> bool {
    if case_insensitive {
        has_substring(fold_chars(line), fold_chars(query))
    } else {
        has_substring(line, query)
    }
}

/// A trailing carriage return is dropped: it belongs to a `\r\n` separator.
pub open spec fn strip_cr(s: Seq<char>) -> Seq<char> {
    if s.len() > 0 && s[s.len() - 1] == '\r' {
        s.take(s.len() - 1)
    } else {
        s
    }
}

/// Position of the first `\n` in `s`, or `s.len()` when there is none.
pub open spec fn first_newline(s: Seq<char>) -> nat
    decreases s.len(),
{
    if s.len() == 0 {
        0
    } else if s[0] == '\n' {
        0
    } else {
        1 + first_newline(s.skip(1))
    }
}

/// The lines of `s`: segments separated by `\n`, with a `\r` that
/// immediately precedes a `\n` dropped, and an optional final segment
/// after the last separator. An empty text has no lines, and a final
/// separator does not open an empty last line.
pub open spec fn spec_lines(s: Seq<char>) -> Seq<Seq<char>>
    decreases s.len(),
{
    if s.len() == 0 {
        Seq::empty()
    } else {
        let i = first_newline(s) as int;
        if i >= s.len() {
            seq![s]
        } else {
            seq![strip_cr(s.take(i))] + spec_lines(s.skip(i + 1))
        }
    }
}

/// The views of a vector of lines, one character sequence per line.
pub open spec fn line_views(lines: Seq<String>) -> Seq<Seq<char>> {
    lines.map_values(|l: String| l@)
}

/// The lines of `contents` that match `query`, in their original order.
pub open spec fn spec_search(contents: Seq<char>, query: Seq<char>, case_insensitive: bool) -> Seq<
    Seq<char>,
> {
    spec_lines(contents).filter(|line: Seq<char>| line_matches(line, query, case_insensitive))
}

/// The characters of `s`, one `Vec` element per character.
fn chars_of(s: &str) -> (v: Vec<char>)
    ensures
        v@ == s@,
{
    let n = s.unicode_len();
    let mut v: Vec<char> = Vec::new();
    let mut i: usize = 0;
    while i < n
        invariant
            i <= n,
            n == s@.len(),
            v@ == s@.take(i as int),
        decreases n - i,
    {
        v.push(s.get_char(i));
        proof {
            assert(v@ =~= s@.take(i + 1));
        }
        i = i + 1;
    }
    proof {
        assert(s@.take(n as int) =~= s@);
    }
    v
}

/// ASCII case folding of one character.
fn fold_char_exec(c: char) -> (r: char)
    ensures
        r == fold_char(c),
{
    let u = c as u32;
    if 65 <= u && u <= 90 {
        ((u + 32) as u8) as char
    } else {
        c
    }
}

/// ASCII case folding of a character vector.
fn fold_vec(v: Vec<char>) -> (r: Vec<char>)
    ensures
        r@ == fold_chars(v@),
{
    let n = v.len();
    let mut r: Vec<char> = Vec::new();
    let mut i: usize = 0;
    while i < n
        invariant
            i <= n,
            n == v@.len(),
            r@ == fold_chars(v@.take(i as int)),
        decreases n - i,
    {
        r.push(fold_char_exec(v[i]));
        proof {
            assert(r@ =~= fold_chars(v@.take(i + 1)));
        }
        i = i + 1;
    }
    proof {
        assert(fold_chars(v@.take(n as int)) =~= fold_chars(v@));
    }
    r
}

/// Whether `needle` occurs in `hay` starting exactly at position `i`.
fn match_at(hay: &Vec<char>, needle: &Vec<char>, i: usize) -> (b: bool)
    requires
        i + needle@.len() <= hay@.len(),
    ensures
        b == matches_at(hay@, needle@, i as int),
{
    let hlen = hay.len();
    let nlen = needle.len();
    let mut j: usize = 0;
    while j < nlen
        invariant
            0 <= j <= nlen,
            nlen == needle@.len(),
            hlen == hay@.len(),
            i + nlen <= hlen,
            forall|t: int| 0 <= t < j ==> hay@[i + t] == needle@[t],
        decreases nlen - j,
    {
        if hay[i + j] != needle[j] {
            proof {
                assert(hay@.subrange(i as int, i + nlen as int)[j as int] == hay@[i + j]);
            }
            return false;
        }
        j = j + 1;
    }
    proof {
        assert(hay@.subrange(i as int, i + nlen as int) =~= needle@);
    }
    true
}

/// Whether `needle` occurs in `hay` as a contiguous substring, by direct
/// comparison at every starting position.
fn contains_chars(hay: &Vec<char>, needle: &Vec<char>) -> (b: bool)
    ensures
        b == has_substring(hay@, needle@),
{
    let hlen = hay.len();
    let nlen = needle.len();
    if nlen > hlen {
        assert(forall|i: int| !matches_at(hay@, needle@, i));
        return false;
    }
    if nlen == 0 {
        proof {
            assert(hay@.subrange(0, 0) =~= needle@);
            assert(matches_at(hay@, needle@, 0));
        }
        return true;
    }
    let mut i: usize = 0;
    while i <= hlen - nlen
        invariant
            0 <= i <= hlen - nlen + 1,
            1 <= nlen <= hlen,
            hlen == hay@.len(),
            nlen == needle@.len(),
            forall|k: int| 0 <= k < i ==> !matches_at(hay@, needle@, k),
        decreases hlen - nlen - i + 1,
    {
        if match_at(hay, needle, i) {
            return true;
        }
        i = i + 1;
    }
    proof {
        assert forall|k: int| !matches_at(hay@, needle@, k) by {
            if 0 <= k <= hlen - nlen {
                assert(!matches_at(hay@, needle@, k));
            }
        }
    }
    false
}

/// A position with no `\n` before it and a `\n` (or the end) at it is
/// exactly `first_newline`.
proof fn lemma_first_newline_is(s: Seq<char>, k: int)
    requires
        0 <= k <= s.len(),
        forall|j: int| 0 <= j < k ==> s[j] != '\n',
        k < s.len() ==> s[k] == '\n',
    ensures
        first_newline(s) == k,
    decreases s.len(),
{
    if s.len() == 0 {
    } else if s[0] == '\n' {
        assert(k == 0);
    } else {
        assert(k >= 1);
        assert forall|j: int| 0 <= j < k - 1 implies s.skip(1)[j] != '\n' by {
            assert(s.skip(1)[j] == s[j + 1]);
        }
        assert(k - 1 < s.skip(1).len() ==> s.skip(1)[k - 1] == '\n');
        lemma_first_newline_is(s.skip(1), k - 1);
    }
}

/// Position of the first `\n` in `contents` at or after `from`, or the
/// length when there is none.
fn find_newline(contents: &str, from: usize, n: usize) -> (j: usize)
    requires
        from <= n,
        n == contents@.len(),
    ensures
        from <= j <= n,
        j < n ==> contents@[j as int] == '\n',
        j - from == first_newline(contents@.skip(from as int)),
{
    let ghost rem = contents@.skip(from as int);
    let mut j: usize = from;
    while j < n
        invariant
            from <= j <= n,
            n == contents@.len(),
            rem == contents@.skip(from as int),
            forall|k: int| from <= k < j ==> contents@[k] != '\n',
        decreases n - j,
    {
        if contents.get_char(j) == '\n' {
            proof {
                assert forall|t: int| 0 <= t < j - from implies rem[t] != '\n' by {
                    assert(rem[t] == contents@[from + t]);
                }
                assert(rem[j - from] == contents@[j as int]);
                lemma_first_newline_is(rem, j - from);
            }
            return j;
        }
        j = j + 1;
    }
    proof {
        assert forall|t: int| 0 <= t < n - from implies rem[t] != '\n' by {
            assert(rem[t] == contents@[from + t]);
        }
        lemma_first_newline_is(rem, n - from);
    }
    j
}

/// Splits `contents` into its lines. Lines are separated by `\n` or
/// `\r\n`; the separator belongs to no line, and a final separator does
/// not open an empty last line.
pub fn split_lines(contents: &str) -> (lines: Vec<String>)
    ensures
        line_views(lines@) == spec_lines(contents@),
{
    let n = contents.unicode_len();
    let mut lines: Vec<String> = Vec::new();
    let mut start: usize = 0;
    proof {
        assert(contents@.skip(0) =~= contents@);
        assert(line_views(lines@) + spec_lines(contents@) =~~= spec_lines(contents@));
    }
    while start < n
        invariant
            start <= n,
            n == contents@.len(),
            spec_lines(contents@) == line_views(lines@) + spec_lines(
                contents@.skip(start as int),
            ),
        decreases n - start,
    {
        let ghost rem = contents@.skip(start as int);
        let ghost prev = lines@;
        let j = find_newline(contents, start, n);
        proof {
            assert(rem.len() > 0);
            assert(first_newline(rem) == j - start);
        }
        if j < n {
            let end = if j > start && contents.get_char(j - 1) == '\r' {
                j - 1
            } else {
                j
            };
            let line = contents.substring_char(start, end).to_owned();
            proof {
                assert(rem.take(j - start) =~= contents@.subrange(start as int, j as int));
                let seg = rem.take(j - start);
                if j > start && contents@[j - 1] == '\r' {
                    assert(seg[j - start - 1] == '\r');
                    assert(strip_cr(seg) =~= contents@.subrange(start as int, end as int));
                } else {
                    if seg.len() > 0 {
                        assert(seg[seg.len() - 1] == contents@[j - 1]);
                    }
                    assert(strip_cr(seg) =~= contents@.subrange(start as int, end as int));
                }
                assert(rem.skip(j - start + 1) =~= contents@.skip(j + 1));
                assert(spec_lines(rem) == seq![line@] + spec_lines(contents@.skip(j + 1)));
                assert(line_views(prev.push(line)) =~= line_views(prev).push(line@));
                assert(line_views(prev) + spec_lines(rem) =~~= line_views(prev.push(line))
                    + spec_lines(contents@.skip(j + 1)));
            }
            lines.push(line);
            start = j + 1;
        } else {
            let line = contents.substring_char(start, n).to_owned();
            proof {
                assert(rem =~= contents@.subrange(start as int, n as int));
                assert(spec_lines(rem) == seq![line@]);
                assert(contents@.skip(n as int) =~= Seq::<char>::empty());
                assert(line_views(prev.push(line)) =~= line_views(prev).push(line@));
                assert(line_views(prev) + spec_lines(rem) =~~= line_views(prev.push(line))
                    + spec_lines(contents@.skip(n as int)));
            }
            lines.push(line);
            start = n;
        }
    }
    proof {
        assert(contents@.skip(n as int) =~= Seq::<char>::empty());
        assert(line_views(lines@) + spec_lines(contents@.skip(n as int)) =~~= line_views(lines@));
    }
    lines
}

/// Searches `contents` for `query`, line by line: returns exactly the
/// lines that contain `query` as a contiguous substring, in their
/// original order. When `case_insensitive` is set, both sides are put
/// through ASCII case folding before the comparison. No line matching
/// yields an empty vector, never an error, and the inputs are untouched.
pub fn search(contents: &str, query: &str, case_insensitive: bool) -> (result: Vec<String>)
    ensures
        line_views(result@) == spec_search(contents@, query@, case_insensitive),
{
    let lines = split_lines(contents);
    let qchars = chars_of(query);
    let needle = if case_insensitive {
        fold_vec(qchars)
    } else {
        qchars
    };
    let mut result: Vec<String> = Vec::new();
    let mut k: usize = 0;
    proof {
        let pred = |line: Seq<char>| line_matches(line, query@, case_insensitive);
        assert(spec_lines(contents@).take(0) =~= Seq::<Seq<char>>::empty());
        reveal(Seq::filter);
        assert(line_views(result@) =~~= spec_lines(contents@).take(0).filter(pred));
    }
    while k < lines.len()
        invariant
            k <= lines@.len(),
            line_views(lines@) == spec_lines(contents@),
            needle@ == if case_insensitive {
                fold_chars(query@)
            } else {
                query@
            },
            line_views(result@) == spec_lines(contents@).take(k as int).filter(
                |line: Seq<char>| line_matches(line, query@, case_insensitive),
            ),
        decreases lines@.len() - k,
    {
        let ghost pred = |line: Seq<char>| line_matches(line, query@, case_insensitive);
        let ghost all = spec_lines(contents@);
        let ghost prev = result@;
        let lchars = chars_of(lines[k].as_str());
        let hay = if case_insensitive {
            fold_vec(lchars)
        } else {
            lchars
        };
        let matched = contains_chars(&hay, &needle);
        proof {
            assert(lines@[k as int]@ == all[k as int]);
            assert(matched == pred(all[k as int]));
            assert(all.take(k + 1) =~= all.take(k as int).push(all[k as int]));
            all.take(k as int).lemma_filter_push(all[k as int], pred);
        }
        if matched {
            let line = lines[k].clone();
            result.push(line);
            proof {
                assert(line_views(prev.push(line)) =~= line_views(prev).push(line@));
            }
        }
        k = k + 1;
    }
    proof {
        assert(spec_lines(contents@).take(lines@.len() as int) =~= spec_lines(contents@));
    }
    result
}

/// Filtering keeps a sequence whole when the predicate holds of every
/// element.
proof fn lemma_filter_all_true<A>(s: Seq<A>, pred: spec_fn(A) -> bool)
    requires
        forall|i: int| 0 <= i < s.len() ==> pred(s[i]),
    ensures
        s.filter(pred) == s,
    decreases s.len(),
{
    reveal(Seq::filter);
    if s.len() == 0 {
        assert(s.filter(pred) =~= s);
    } else {
        assert(forall|i: int| 0 <= i < s.drop_last().len() ==> pred(s.drop_last()[i]));
        lemma_filter_all_true(s.drop_last(), pred);
        assert(pred(s.last()));
        assert(s.drop_last().push(s.last()) =~= s);
    }
}

/// Every line that a search returns contains the query as a contiguous
/// substring, under the case rule selected by `case_insensitive`.
pub proof fn lemma_search_lines_match(contents: Seq<char>, query: Seq<char>, case_insensitive: bool)
    ensures
        forall|i: int|
            0 <= i < spec_search(contents, query, case_insensitive).len() ==> line_matches(
                #[trigger] spec_search(contents, query, case_insensitive)[i],
                query,
                case_insensitive,
            ),
{
    let pred = |line: Seq<char>| line_matches(line, query, case_insensitive);
    let found = spec_search(contents, query, case_insensitive);
    assert forall|i: int| 0 <= i < found.len() implies line_matches(
        found[i],
        query,
        case_insensitive,
    ) by {
        spec_lines(contents).lemma_filter_pred(pred, i);
    }
}

/// Searching with the empty query in case-sensitive mode returns every
/// line of the contents unchanged, in their original order.
pub proof fn lemma_search_empty_query(contents: Seq<char>)
    ensures
        spec_search(contents, Seq::empty(), false) == spec_lines(contents),
{
    let pred = |line: Seq<char>| line_matches(line, Seq::<char>::empty(), false);
    let all = spec_lines(contents);
    assert forall|i: int| 0 <= i < all.len() implies pred(all[i]) by {
        let line = all[i];
        assert(line.subrange(0, 0) =~= Seq::<char>::empty());
        assert(matches_at(line, Seq::<char>::empty(), 0));
    }
    lemma_filter_all_true(all, pred);
}

/// Two searches over identical contents, query and case mode return
/// identical line sequences.
pub proof fn lemma_search_deterministic(
    first: Seq<Seq<char>>,
    second: Seq<Seq<char>>,
    contents: Seq<char>,
    query: Seq<char>,
    case_insensitive: bool,
)
    requires
        first == spec_search(contents, query, case_insensitive),
        second == spec_search(contents, query, case_insensitive),
    ensures
        first == second,
{
}

/// Searching empty contents returns no lines, whatever the query and
/// whatever the case mode.
pub proof fn lemma_search_empty_contents(query: Seq<char>, case_insensitive: bool)
    ensures
        spec_search(Seq::empty(), query, case_insensitive) == Seq::<Seq<char>>::empty(),
{
    reveal(Seq::filter);
    assert(spec_lines(Seq::<char>::empty()) =~~= Seq::<Seq<char>>::empty());
}

} // verus!
