//! Line-oriented substring search.

use vstd::prelude::*;

verus! {

/// The standard lowercase conversion, as `str::to_lowercase` performs it: a
/// fixed, locale-independent function of the characters alone. Its value is
/// not written out here; [`to_lowercase`] is the one way to compute it, and
/// the case-insensitive contracts speak of it by this name.
pub uninterp spec fn lower_of(s: Seq<char>) -> Seq<char>;

/// Relies on `str::to_lowercase`: the standard, locale-independent lowercase
/// conversion, whose result depends on the characters of its input alone.
#[verifier::external_body]
fn to_lowercase(s: &str) -> (r: String)
    ensures
        r@ == lower_of(s@),
{
    s.to_lowercase()
}

/// Position of the first occurrence of `c` in `s`, or `s.len()` when `c`
/// does not occur.
pub open spec fn find_char(s: Seq<char>, c: char) -> int
    decreases s.len(),
{
    if s.len() == 0 {
        0
    } else if s[0] == c {
        0
    } else {
        1 + find_char(s.skip(1), c)
    }
}

/// [`find_char`] names the first occurrence: the position is in range
/// exactly when the character occurs, the character stands there, and
/// nowhere earlier.
pub proof fn lemma_find_char(s: Seq<char>, c: char)
    ensures
        0 <= find_char(s, c) <= s.len(),
        find_char(s, c) < s.len() ==> s[find_char(s, c)] == c,
        forall|k: int| 0 <= k < find_char(s, c) ==> s[k] != c,
    decreases s.len(),
{
    if s.len() > 0 && s[0] != c {
        lemma_find_char(s.skip(1), c);
        let i = find_char(s, c);
        assert forall|k: int| 0 <= k < i implies s[k] != c by {
            if k > 0 {
                assert(s.skip(1)[k - 1] != c);
            }
        }
    }
}

/// A line as it is reported: the line-break characters do not belong to it,
/// so a carriage return that immediately preceded the line feed is dropped.
pub open spec fn strip_cr(l: Seq<char>) -> Seq<char> {
    if l.len() > 0 && l.last() == '\r' {
        l.drop_last()
    } else {
        l
    }
}

/// The lines of a text: the text is split at every line feed, a carriage
/// return directly before a line feed belongs to the break, and a final
/// break ends the last line rather than opening an empty one.
pub open spec fn lines_spec(s: Seq<char>) -> Seq<Seq<char>>
    decreases s.len(),
    via lines_spec_decreases
{
    if s.len() == 0 {
        Seq::empty()
    } else if find_char(s, '\n') == s.len() {
        seq![s]
    } else {
        let i = find_char(s, '\n');
        seq![strip_cr(s.take(i))] + lines_spec(s.skip(i + 1))
    }
}

#[via_fn]
proof fn lines_spec_decreases(s: Seq<char>) {
    lemma_find_char(s, '\n');
}

/// The views of a sequence of borrowed lines.
pub open spec fn line_views(lines: Seq<&str>) -> Seq<Seq<char>> {
    lines.map_values(|l: &str| l@)
}

/// Splits a text into its lines, as [`lines_spec`] describes. Each returned
/// line borrows from `contents`.
pub fn lines_of<'a>(contents: &'a str) -> (r: Vec<&'a str>)
    ensures
        line_views(r@) == lines_spec(contents@),
{
    let ghost s = contents@;
    let len = contents.unicode_len();
    let mut result: Vec<&'a str> = Vec::new();
    let mut start: usize = 0;
    proof {
        assert(s.skip(0) =~= s);
        assert(line_views(result@) + lines_spec(s) =~= lines_spec(s));
    }
    while start < len
        invariant
            len == s.len(),
            s == contents@,
            0 <= start <= len,
            line_views(result@) + lines_spec(s.skip(start as int)) == lines_spec(s),
        decreases len - start,
    {
        let ghost rem = s.skip(start as int);
        let mut j: usize = start;
        while j < len && contents.get_char(j) != '\n'
            invariant
                len == s.len(),
                s == contents@,
                start <= j <= len,
                forall|k: int| start <= k < j ==> s[k] != '\n',
            decreases len - j,
        {
            j += 1;
        }
        proof {
            lemma_find_char(rem, '\n');
            assert forall|k: int| 0 <= k < j - start implies rem[k] != '\n' by {
                assert(rem[k] == s[start + k]);
            }
            if j < len {
                assert(rem[j - start] == s[j as int]);
            }
            assert(find_char(rem, '\n') == j - start);
        }
        if j == len {
            result.push(contents.substring_char(start, len));
            proof {
                assert(rem =~= s.subrange(start as int, len as int));
                assert(lines_spec(rem) =~= seq![rem]);
                assert(line_views(result@) =~= line_views(result@.drop_last()).push(rem));
                assert(line_views(result@) + lines_spec(s.skip(len as int)) =~= lines_spec(s));
            }
            start = len;
        } else {
            let end = if j > start && contents.get_char(j - 1) == '\r' {
                j - 1
            } else {
                j
            };
            result.push(contents.substring_char(start, end));
            proof {
                let f = j - start;
                assert(lines_spec(rem) == seq![strip_cr(rem.take(f))] + lines_spec(rem.skip(f + 1)));
                assert(rem.take(f) =~= s.subrange(start as int, j as int));
                assert(rem.skip(f + 1) =~= s.skip(j + 1));
                assert(strip_cr(rem.take(f)) =~= s.subrange(start as int, end as int)) by {
                    if j > start && s[j - 1] == '\r' {
                        assert(rem.take(f).last() == '\r');
                        assert(rem.take(f).drop_last() =~= s.subrange(start as int, end as int));
                    } else {
                        if rem.take(f).len() > 0 && rem.take(f).last() == '\r' {
                            assert(s[j - 1] == '\r');
                        }
                    }
                }
                assert(line_views(result@) =~= line_views(result@.drop_last()).push(
                    s.subrange(start as int, end as int),
                ));
                assert(line_views(result@) + lines_spec(s.skip(j + 1)) =~= lines_spec(s));
            }
            start = j + 1;
        }
    }
    proof {
        assert(s.skip(start as int) =~= Seq::<char>::empty());
        assert(line_views(result@) + lines_spec(s.skip(start as int)) =~= line_views(result@));
    }
    result
}

/// `needle` occurs in `hay` starting at position `i`.
pub open spec fn is_match_at(hay: Seq<char>, needle: Seq<char>, i: int) -> bool {
    &&& 0 <= i
    &&& i + needle.len() <= hay.len()
    &&& hay.subrange(i, i + needle.len()) == needle
}

/// `needle` occurs somewhere in `hay` as a contiguous substring. An empty
/// needle occurs in every text.
pub open spec fn contains_seq(hay: Seq<char>, needle: Seq<char>) -> bool {
    exists|i: int| is_match_at(hay, needle, i)
}

/// Case-sensitive substring test: `needle` occurs in `hay` exactly.
pub fn contains_substring(hay: &str, needle: &str) -> (r: bool)
    ensures
        r == contains_seq(hay@, needle@),
{
    let hay_len = hay.unicode_len();
    let needle_len = needle.unicode_len();
    if needle_len > hay_len {
        assert(!contains_seq(hay@, needle@));
        return false;
    }
    if needle_len == 0 {
        assert(is_match_at(hay@, needle@, 0)) by {
            assert(hay@.subrange(0, 0) =~= needle@);
        }
        return true;
    }
    let mut i: usize = 0;
    while i <= hay_len - needle_len
        invariant
            needle_len == needle@.len(),
            hay_len == hay@.len(),
            1 <= needle_len <= hay_len,
            0 <= i <= hay_len - needle_len + 1,
            forall|k: int| 0 <= k < i ==> !is_match_at(hay@, needle@, k),
        decreases hay_len - needle_len - i + 1,
    {
        let mut j: usize = 0;
        let mut still_equal = true;
        while still_equal && j < needle_len
            invariant
                needle_len == needle@.len(),
                hay_len == hay@.len(),
                needle_len <= hay_len,
                0 <= i <= hay_len - needle_len,
                0 <= j <= needle_len,
                still_equal ==> forall|k: int| 0 <= k < j ==> hay@[i + k] == needle@[k],
                !still_equal ==> !is_match_at(hay@, needle@, i as int),
            decreases needle_len - j + (if still_equal { 1int } else { 0int }),
        {
            if hay.get_char(i + j) != needle.get_char(j) {
                assert(hay@.subrange(i as int, i + needle@.len())[j as int] == hay@[i + j]);
                still_equal = false;
            } else {
                j += 1;
            }
        }
        if still_equal {
            assert(is_match_at(hay@, needle@, i as int)) by {
                assert(hay@.subrange(i as int, i + needle@.len()) =~= needle@);
            }
            return true;
        }
        i += 1;
    }
    assert forall|k: int| 0 <= k implies !is_match_at(hay@, needle@, k) by {
        if k + needle@.len() <= hay@.len() {
            assert(k < i);
        }
    }
    return false;
}

/// The test a line must pass to be reported by [`search`]: it contains the
/// query exactly.
pub open spec fn matches_query(query: Seq<char>) -> spec_fn(Seq<char>) -> bool {
    |l: Seq<char>| contains_seq(l, query)
}

/// The test a line must pass to be reported by [`search_case_insensitive`]:
/// once both are taken through the standard lowercase conversion, it
/// contains the query.
pub open spec fn matches_query_fold(query: Seq<char>) -> spec_fn(Seq<char>) -> bool {
    |l: Seq<char>| contains_seq(lower_of(l), lower_of(query))
}

/// What [`search`] returns: the lines of `content`, in their original order,
/// that contain `query` as a contiguous substring.
pub open spec fn search_spec(query: Seq<char>, content: Seq<char>) -> Seq<Seq<char>> {
    lines_spec(content).filter(matches_query(query))
}

/// What [`search_case_insensitive`] returns: the lines of `content`, in
/// their original order, that contain `query` once both line and query are
/// taken through the standard lowercase conversion [`lower_of`].
pub open spec fn search_fold_spec(query: Seq<char>, content: Seq<char>) -> Seq<Seq<char>> {
    lines_spec(content).filter(matches_query_fold(query))
}

/// Filtering a sequence extended by one element keeps the old result and
/// appends the new element exactly when it passes the test.
proof fn lemma_filter_push(s: Seq<Seq<char>>, pred: spec_fn(Seq<char>) -> bool, x: Seq<char>)
    ensures
        s.push(x).filter(pred) == (if pred(x) {
            s.filter(pred).push(x)
        } else {
            s.filter(pred)
        }),
{
    reveal(Seq::filter);
    assert(s.push(x).drop_last() =~= s);
    assert(s.push(x).last() == x);
}

/// Case-sensitive search: every line of `contents` that contains `query` as
/// a contiguous substring, in original order. An empty query matches every
/// line. The returned lines borrow from `contents`.
pub fn search<'a>(query: &str, contents: &'a str) -> (r: Vec<&'a str>)
    ensures
        line_views(r@) == search_spec(query@, contents@),
{
    let ghost pred = matches_query(query@);
    let lines = lines_of(contents);
    let ghost lv = line_views(lines@);
    let mut result: Vec<&'a str> = Vec::new();
    let mut i: usize = 0;
    proof {
        assert(lv.take(0) =~= Seq::<Seq<char>>::empty());
        assert(line_views(result@) =~= lv.take(0).filter(pred));
    }
    while i < lines.len()
        invariant
            lv == line_views(lines@),
            lv == lines_spec(contents@),
            0 <= i <= lines@.len(),
            line_views(result@) == lv.take(i as int).filter(pred),
            pred == matches_query(query@),
        decreases lines@.len() - i,
    {
        let line = lines[i];
        proof {
            assert(lv.take(i + 1) =~= lv.take(i as int).push(lv[i as int]));
            lemma_filter_push(lv.take(i as int), pred, lv[i as int]);
        }
        if contains_substring(line, query) {
            result.push(line);
            proof {
                assert(line_views(result@) =~= line_views(result@.drop_last()).push(line@));
            }
        }
        i += 1;
    }
    proof {
        assert(lv.take(lines@.len() as int) =~= lv);
    }
    result
}

/// Case-insensitive search: every line of `contents` that contains `query`
/// once both line and query are taken through the standard lowercase
/// conversion, in original order. The returned lines borrow from `contents`
/// unchanged: they keep their original case.
pub fn search_case_insensitive<'a>(query: &str, contents: &'a str) -> (r: Vec<&'a str>)
    ensures
        line_views(r@) == search_fold_spec(query@, contents@),
{
    let ghost pred = matches_query_fold(query@);
    let lowered_query = to_lowercase(query);
    let lines = lines_of(contents);
    let ghost lv = line_views(lines@);
    let mut result: Vec<&'a str> = Vec::new();
    let mut i: usize = 0;
    proof {
        assert(lv.take(0) =~= Seq::<Seq<char>>::empty());
        assert(line_views(result@) =~= lv.take(0).filter(pred));
    }
    while i < lines.len()
        invariant
            lv == line_views(lines@),
            lv == lines_spec(contents@),
            0 <= i <= lines@.len(),
            line_views(result@) == lv.take(i as int).filter(pred),
            pred == matches_query_fold(query@),
            lowered_query@ == lower_of(query@),
        decreases lines@.len() - i,
    {
        let line = lines[i];
        proof {
            assert(lv.take(i + 1) =~= lv.take(i as int).push(lv[i as int]));
            lemma_filter_push(lv.take(i as int), pred, lv[i as int]);
        }
        let lowered_line = to_lowercase(line);
        if contains_substring(lowered_line.as_str(), lowered_query.as_str()) {
            result.push(line);
            proof {
                assert(line_views(result@) =~= line_views(result@.drop_last()).push(line@));
            }
        }
        i += 1;
    }
    proof {
        assert(lv.take(lines@.len() as int) =~= lv);
    }
    result
}

} // verus!
