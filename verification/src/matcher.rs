//! The line matcher: which lines of a document contain the query, exactly or
//! up to case.

use vstd::prelude::*;
use vstd::string::StrSliceExecFns;
use crate::config::Config;
use crate::lines::lines_spec;
use crate::lines::split_lines;

verus! {

/// `needle` occurs in `hay` as a contiguous run starting at position `at`.
pub open spec fn contains_at(hay: Seq<char>, needle: Seq<char>, at: int) -> bool {
    0 <= at && at + needle.len() <= hay.len() && hay.subrange(at, at + needle.len()) == needle
}

/// `needle` occurs somewhere in `hay`; the empty needle occurs in every text.
pub open spec fn seq_contains(hay: Seq<char>, needle: Seq<char>) -> bool {
    exists|at: int| contains_at(hay, needle, at)
}

/// What `str::to_lowercase` returns for the given characters.
pub uninterp spec fn lower_of(s: Seq<char>) -> Seq<char>;

/// Relies on str::to_lowercase: the result is the standard Unicode lowercase
/// mapping of the input and depends on the input characters alone.
#[verifier::external_body]
fn lowercase(s: &str) -> (lowered: String)
    ensures
        lowered@ == lower_of(s@),
{
    s.to_lowercase()
}

/// The lines among `lines` that contain `query`, in their original order.
pub open spec fn matching_lines(lines: Seq<Seq<char>>, query: Seq<char>) -> Seq<Seq<char>>
    decreases lines.len(),
{
    if lines.len() == 0 {
        Seq::empty()
    } else {
        let kept = matching_lines(lines.drop_last(), query);
        if seq_contains(lines.last(), query) {
            kept.push(lines.last())
        } else {
            kept
        }
    }
}

/// The lines among `lines` whose lowercase form contains the lowercase form
/// of `query`, in their original order.
pub open spec fn matching_lines_ci(lines: Seq<Seq<char>>, query: Seq<char>) -> Seq<Seq<char>>
    decreases lines.len(),
{
    if lines.len() == 0 {
        Seq::empty()
    } else {
        let kept = matching_lines_ci(lines.drop_last(), query);
        if seq_contains(lower_of(lines.last()), lower_of(query)) {
            kept.push(lines.last())
        } else {
            kept
        }
    }
}

/// What `search` returns: the lines of `text` that contain `query`.
pub open spec fn search_spec(query: Seq<char>, text: Seq<char>) -> Seq<Seq<char>> {
    matching_lines(lines_spec(text), query)
}

/// What `search_case_insensitive` returns: the original lines of `text`
/// whose lowercase form contains the lowercase form of `query`.
pub open spec fn search_ci_spec(query: Seq<char>, text: Seq<char>) -> Seq<Seq<char>> {
    matching_lines_ci(lines_spec(text), query)
}

/// Does `needle` occur in `hay` starting at character position `at`?
fn match_at(hay: &str, needle: &str, at: usize) -> (matched: bool)
    requires
        at + needle@.len() <= hay@.len(),
    ensures
        matched == contains_at(hay@, needle@, at as int),
{
    let hay_len = hay.unicode_len();
    let needle_len = needle.unicode_len();
    let mut j: usize = 0;
    while j < needle_len
        invariant
            j <= needle_len,
            hay_len == hay@.len(),
            needle_len == needle@.len(),
            at + needle_len <= hay_len,
            forall|k: int| 0 <= k < j ==> hay@[at + k] == needle@[k],
        decreases needle_len - j,
    {
        if hay.get_char(at + j) != needle.get_char(j) {
            proof {
                let window = hay@.subrange(at as int, at + needle@.len());
                assert(window[j as int] != needle@[j as int]);
            }
            return false;
        }
        j = j + 1;
    }
    proof {
        assert(hay@.subrange(at as int, at + needle@.len()) =~= needle@);
    }
    true
}

/// Does `hay` contain `needle` as a contiguous run of characters anywhere?
fn contains_str(hay: &str, needle: &str) -> (found: bool)
    ensures
        found == seq_contains(hay@, needle@),
{
    let hay_len = hay.unicode_len();
    let needle_len = needle.unicode_len();
    if needle_len > hay_len {
        proof {
            assert(forall|at: int| !contains_at(hay@, needle@, at));
        }
        return false;
    }
    if needle_len == 0 {
        proof {
            assert(hay@.subrange(0, 0) =~= needle@);
            assert(contains_at(hay@, needle@, 0));
        }
        return true;
    }
    let mut i: usize = 0;
    while i <= hay_len - needle_len
        invariant
            0 < needle_len <= hay_len,
            hay_len == hay@.len(),
            needle_len == needle@.len(),
            i <= hay_len - needle_len + 1,
            forall|at: int| 0 <= at < i ==> !contains_at(hay@, needle@, at),
        decreases hay_len - i,
    {
        if match_at(hay, needle, i) {
            return true;
        }
        i = i + 1;
    }
    proof {
        assert(forall|at: int| !contains_at(hay@, needle@, at));
    }
    false
}

/// The lines of `content` that contain `query` verbatim, in document order.
/// Each physical line appears at most once, however often the query occurs
/// within it; the empty query matches every line.
pub fn search<'a>(query: &str, content: &'a str) -> (found: Vec<&'a str>)
    ensures
        found.deep_view() == search_spec(query@, content@),
{
    let lines = split_lines(content);
    let mut found: Vec<&'a str> = Vec::new();
    let mut i: usize = 0;
    proof {
        assert(found.deep_view() =~= Seq::<Seq<char>>::empty());
        assert(lines.deep_view().subrange(0, 0) =~= Seq::<Seq<char>>::empty());
    }
    while i < lines.len()
        invariant
            i <= lines@.len(),
            lines@.len() == lines.deep_view().len(),
            lines.deep_view() == lines_spec(content@),
            found.deep_view() == matching_lines(lines.deep_view().subrange(0, i as int), query@),
        decreases lines@.len() - i,
    {
        let line = lines[i];
        let ghost kept = found.deep_view();
        let ghost prefix = lines.deep_view().subrange(0, i as int);
        let ghost extended = lines.deep_view().subrange(0, i + 1);
        proof {
            assert(extended.drop_last() =~= prefix);
            assert(extended.last() == line@);
        }
        if contains_str(line, query) {
            found.push(line);
            proof {
                assert(found.deep_view() =~= kept.push(line@));
                assert(found.deep_view() == matching_lines(extended, query@));
            }
        } else {
            proof {
                assert(found.deep_view() == matching_lines(extended, query@));
            }
        }
        i = i + 1;
    }
    proof {
        assert(lines.deep_view().subrange(0, lines@.len() as int) =~= lines.deep_view());
    }
    found
}

/// The lines of `content` whose lowercase form contains the lowercase form
/// of `query`, in document order. The returned slices are the original,
/// non-lowercased lines.
pub fn search_case_insensitive<'a>(query: &str, content: &'a str) -> (found: Vec<&'a str>)
    ensures
        found.deep_view() == search_ci_spec(query@, content@),
{
    let query_lower = lowercase(query);
    let lines = split_lines(content);
    let mut found: Vec<&'a str> = Vec::new();
    let mut i: usize = 0;
    proof {
        assert(found.deep_view() =~= Seq::<Seq<char>>::empty());
        assert(lines.deep_view().subrange(0, 0) =~= Seq::<Seq<char>>::empty());
    }
    while i < lines.len()
        invariant
            i <= lines@.len(),
            lines@.len() == lines.deep_view().len(),
            lines.deep_view() == lines_spec(content@),
            query_lower@ == lower_of(query@),
            found.deep_view() == matching_lines_ci(
                lines.deep_view().subrange(0, i as int),
                query@,
            ),
        decreases lines@.len() - i,
    {
        let line = lines[i];
        let line_lower = lowercase(line);
        let ghost kept = found.deep_view();
        let ghost prefix = lines.deep_view().subrange(0, i as int);
        let ghost extended = lines.deep_view().subrange(0, i + 1);
        proof {
            assert(extended.drop_last() =~= prefix);
            assert(extended.last() == line@);
        }
        if contains_str(line_lower.as_str(), query_lower.as_str()) {
            found.push(line);
            proof {
                assert(found.deep_view() =~= kept.push(line@));
                assert(found.deep_view() == matching_lines_ci(extended, query@));
            }
        } else {
            proof {
                assert(found.deep_view() == matching_lines_ci(extended, query@));
            }
        }
        i = i + 1;
    }
    proof {
        assert(lines.deep_view().subrange(0, lines@.len() as int) =~= lines.deep_view());
    }
    found
}

proof fn lemma_matching_lines_complete(lines: Seq<Seq<char>>, query: Seq<char>, i: int)
    requires
        0 <= i < lines.len(),
        seq_contains(lines[i], query),
    ensures
        matching_lines(lines, query).contains(lines[i]),
    decreases lines.len(),
{
    let kept = matching_lines(lines.drop_last(), query);
    if i == lines.len() - 1 {
        assert(matching_lines(lines, query) == kept.push(lines.last()));
        assert(kept.push(lines.last())[kept.len() as int] == lines[i]);
    } else {
        assert(lines.drop_last()[i] == lines[i]);
        lemma_matching_lines_complete(lines.drop_last(), query, i);
        let j = choose|j: int| 0 <= j < kept.len() && kept[j] == lines[i];
        assert(matching_lines(lines, query)[j] == lines[i]);
    }
}

proof fn lemma_matching_lines_sound(lines: Seq<Seq<char>>, query: Seq<char>, line: Seq<char>)
    requires
        matching_lines(lines, query).contains(line),
    ensures
        lines.contains(line),
        seq_contains(line, query),
    decreases lines.len(),
{
    if lines.len() == 0 {
    } else {
        let kept = matching_lines(lines.drop_last(), query);
        let j = choose|j: int|
            0 <= j < matching_lines(lines, query).len() && matching_lines(lines, query)[j]
                == line;
        if seq_contains(lines.last(), query) && j == kept.len() {
            assert(line == lines.last());
            assert(lines[lines.len() - 1] == line);
        } else {
            assert(kept[j] == line);
            lemma_matching_lines_sound(lines.drop_last(), query, line);
            let k = choose|k: int|
                0 <= k < lines.drop_last().len() && lines.drop_last()[k] == line;
            assert(lines[k] == line);
        }
    }
}

proof fn lemma_matching_lines_ci_complete(lines: Seq<Seq<char>>, query: Seq<char>, i: int)
    requires
        0 <= i < lines.len(),
        seq_contains(lower_of(lines[i]), lower_of(query)),
    ensures
        matching_lines_ci(lines, query).contains(lines[i]),
    decreases lines.len(),
{
    let kept = matching_lines_ci(lines.drop_last(), query);
    if i == lines.len() - 1 {
        assert(matching_lines_ci(lines, query) == kept.push(lines.last()));
        assert(kept.push(lines.last())[kept.len() as int] == lines[i]);
    } else {
        assert(lines.drop_last()[i] == lines[i]);
        lemma_matching_lines_ci_complete(lines.drop_last(), query, i);
        let j = choose|j: int| 0 <= j < kept.len() && kept[j] == lines[i];
        assert(matching_lines_ci(lines, query)[j] == lines[i]);
    }
}

/// Every line of the text that contains the query verbatim appears in the
/// case-sensitive search results.
pub proof fn lemma_search_finds_line(query: Seq<char>, text: Seq<char>, i: int)
    requires
        text.len() > 0,
        0 <= i < lines_spec(text).len(),
        seq_contains(lines_spec(text)[i], query),
    ensures
        search_spec(query, text).contains(lines_spec(text)[i]),
{
    lemma_matching_lines_complete(lines_spec(text), query, i);
}

/// A line matched case-sensitively is also matched case-insensitively,
/// whenever lowercasing preserves the containment of the query in that line.
pub proof fn lemma_sensitive_match_is_insensitive_match(
    query: Seq<char>,
    text: Seq<char>,
    line: Seq<char>,
)
    requires
        search_spec(query, text).contains(line),
        seq_contains(lower_of(line), lower_of(query)),
    ensures
        search_ci_spec(query, text).contains(line),
{
    lemma_matching_lines_sound(lines_spec(text), query, line);
    let i = choose|i: int| 0 <= i < lines_spec(text).len() && lines_spec(text)[i] == line;
    lemma_matching_lines_ci_complete(lines_spec(text), query, i);
}

/// The empty query matches every line: searching for it returns all lines of
/// the text.
pub proof fn lemma_search_empty_query(text: Seq<char>)
    ensures
        search_spec(Seq::<char>::empty(), text) == lines_spec(text),
{
    lemma_matching_lines_empty_query(lines_spec(text));
}

proof fn lemma_matching_lines_empty_query(lines: Seq<Seq<char>>)
    ensures
        matching_lines(lines, Seq::<char>::empty()) == lines,
    decreases lines.len(),
{
    if lines.len() == 0 {
        assert(matching_lines(lines, Seq::<char>::empty()) =~= lines);
    } else {
        lemma_matching_lines_empty_query(lines.drop_last());
        assert(lines.last().subrange(0, 0) =~= Seq::<char>::empty());
        assert(contains_at(lines.last(), Seq::<char>::empty(), 0));
        assert(matching_lines(lines, Seq::<char>::empty()) =~= lines);
    }
}

/// Searching in the empty text yields no lines at all.
pub proof fn lemma_search_empty_text(query: Seq<char>)
    requires
        query.len() > 0,
    ensures
        search_spec(query, Seq::<char>::empty()) == Seq::<Seq<char>>::empty(),
{
    assert(lines_spec(Seq::<char>::empty()) =~= Seq::<Seq<char>>::empty());
    assert(search_spec(query, Seq::<char>::empty()) =~= Seq::<Seq<char>>::empty());
}

/// The case-sensitive search outcome is a function of the query and the text
/// alone: any two results that meet the search contract on the same inputs
/// are equal.
pub proof fn lemma_search_deterministic(
    query: Seq<char>,
    text: Seq<char>,
    first: Seq<Seq<char>>,
    second: Seq<Seq<char>>,
)
    requires
        first == search_spec(query, text),
        second == search_spec(query, text),
    ensures
        first == second,
{
}

/// The case-insensitive search outcome is a function of the query and the
/// text alone: any two results that meet the contract on the same inputs are
/// equal.
pub proof fn lemma_search_case_insensitive_deterministic(
    query: Seq<char>,
    text: Seq<char>,
    first: Seq<Seq<char>>,
    second: Seq<Seq<char>>,
)
    requires
        first == search_ci_spec(query, text),
        second == search_ci_spec(query, text),
    ensures
        first == second,
{
}

/// The matching stage of a run: picks the matching mode the configuration
/// asks for and returns the matching lines of `content`, in document order.
pub fn run_search<'a>(config: &Config, content: &'a str) -> (found: Vec<&'a str>)
    ensures
        config.case_sensitive ==> found.deep_view() == search_spec(config.query@, content@),
        !config.case_sensitive ==> found.deep_view() == search_ci_spec(config.query@, content@),
{
    if config.case_sensitive {
        search(config.query.as_str(), content)
    } else {
        search_case_insensitive(config.query.as_str(), content)
    }
}

} // verus!
