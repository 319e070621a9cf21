//! Splitting a document into its lines.

use vstd::prelude::*;
use vstd::string::StrSliceExecFns;

verus! {

/// The lines of `text`: the maximal runs of characters between line feeds,
/// without the separators themselves. A trailing line feed closes the last
/// line and produces no empty line after it.
pub open spec fn lines_spec(text: Seq<char>) -> Seq<Seq<char>>
    decreases text.len(),
{
    if text.len() == 0 {
        Seq::empty()
    } else if text[0] == '\n' {
        seq![Seq::<char>::empty()] + lines_spec(text.drop_first())
    } else {
        let rest = lines_spec(text.drop_first());
        if rest.len() == 0 {
            seq![seq![text[0]]]
        } else {
            seq![seq![text[0]] + rest[0]] + rest.drop_first()
        }
    }
}

/// A non-empty text has at least one line.
proof fn lemma_lines_nonempty(text: Seq<char>)
    requires
        text.len() > 0,
    ensures
        lines_spec(text).len() > 0,
{
    if text[0] == '\n' {
    } else {
        let rest = lines_spec(text.drop_first());
        if rest.len() == 0 {
        } else {
        }
    }
}

/// Splitting distributes over a prefix that ends in a line feed: the lines of
/// `prefix + tail` are the lines of `prefix` followed by the lines of `tail`.
proof fn lemma_lines_concat(prefix: Seq<char>, tail: Seq<char>)
    requires
        prefix.len() > 0,
        prefix.last() == '\n',
    ensures
        lines_spec(prefix + tail) == lines_spec(prefix) + lines_spec(tail),
    decreases prefix.len(),
{
    let whole = prefix + tail;
    assert(lines_spec(Seq::<char>::empty()) =~= Seq::<Seq<char>>::empty());
    assert(whole.len() > 0);
    assert(whole[0] == prefix[0]);
    assert(whole.drop_first() =~= prefix.drop_first() + tail);
    if prefix.len() == 1 {
        assert(prefix[0] == '\n');
        assert(prefix.drop_first() =~= Seq::<char>::empty());
        assert(whole.drop_first() =~= tail);
        assert(lines_spec(prefix) =~= seq![Seq::<char>::empty()]);
        assert(lines_spec(whole) =~= lines_spec(prefix) + lines_spec(tail));
    } else if prefix[0] == '\n' {
        let pd = prefix.drop_first();
        assert(pd.len() > 0);
        assert(pd.last() == prefix.last());
        lemma_lines_concat(pd, tail);
        assert(lines_spec(whole) =~= lines_spec(prefix) + lines_spec(tail));
    } else {
        let pd = prefix.drop_first();
        assert(pd.len() > 0);
        assert(pd.last() == prefix.last());
        lemma_lines_concat(pd, tail);
        lemma_lines_nonempty(pd);
        let rest = lines_spec(pd + tail);
        assert(rest == lines_spec(pd) + lines_spec(tail));
        assert(rest.len() > 0);
        assert(rest[0] == lines_spec(pd)[0]);
        assert(rest.drop_first() =~= lines_spec(pd).drop_first() + lines_spec(tail));
        assert(lines_spec(whole) =~= lines_spec(prefix) + lines_spec(tail));
    }
}

/// A run of characters without a line feed, closed by one line feed, is
/// exactly one line.
proof fn lemma_lines_closed_line(line: Seq<char>)
    requires
        forall|k: int| 0 <= k < line.len() ==> line[k] != '\n',
    ensures
        lines_spec(line.push('\n')) == seq![line],
    decreases line.len(),
{
    let closed = line.push('\n');
    assert(lines_spec(Seq::<char>::empty()) =~= Seq::<Seq<char>>::empty());
    if line.len() == 0 {
        assert(line =~= Seq::<char>::empty());
        assert(closed[0] == '\n');
        assert(closed.drop_first() =~= Seq::<char>::empty());
        assert(lines_spec(closed) =~= seq![line]);
    } else {
        assert(closed[0] == line[0]);
        assert(closed[0] != '\n');
        assert(closed.drop_first() =~= line.drop_first().push('\n'));
        lemma_lines_closed_line(line.drop_first());
        let rest = lines_spec(closed.drop_first());
        assert(rest == seq![line.drop_first()]);
        assert(rest.len() == 1);
        assert(seq![closed[0]] + rest[0] =~= line);
        assert(lines_spec(closed) =~= seq![line]);
    }
}

/// A text without any line feed is a single line, or no line at all when it
/// is empty.
proof fn lemma_lines_open_line(line: Seq<char>)
    requires
        forall|k: int| 0 <= k < line.len() ==> line[k] != '\n',
    ensures
        lines_spec(line) == (if line.len() == 0 {
            Seq::<Seq<char>>::empty()
        } else {
            seq![line]
        }),
    decreases line.len(),
{
    if line.len() == 0 {
    } else {
        lemma_lines_open_line(line.drop_first());
        let rest = lines_spec(line.drop_first());
        if line.len() == 1 {
            assert(line.drop_first().len() == 0);
            assert(rest.len() == 0);
            assert(seq![line[0]] =~= line);
            assert(lines_spec(line) =~= seq![line]);
        } else {
            assert(rest == seq![line.drop_first()]);
            assert(rest.len() == 1);
            assert(seq![line[0]] + line.drop_first() =~= line);
            assert(rest.drop_first() =~= Seq::<Seq<char>>::empty());
            assert(lines_spec(line) =~= seq![line]);
        }
    }
}

/// Splits `content` into its lines: borrowed slices between the line feeds,
/// in document order, without the separators. A trailing line feed produces
/// no empty final element.
pub fn split_lines<'a>(content: &'a str) -> (lines: Vec<&'a str>)
    ensures
        lines.deep_view() == lines_spec(content@),
{
    let text_len = content.unicode_len();
    let mut lines: Vec<&'a str> = Vec::new();
    let mut start: usize = 0;
    let mut i: usize = 0;
    proof {
        assert(lines.deep_view() =~= Seq::<Seq<char>>::empty());
        assert(content@.skip(0) =~= content@);
        assert(lines.deep_view() + lines_spec(content@.skip(0)) =~= lines_spec(content@));
    }
    while i < text_len
        invariant
            text_len == content@.len(),
            start <= i <= text_len,
            forall|k: int| start <= k < i ==> content@[k] != '\n',
            lines.deep_view() + lines_spec(content@.skip(start as int)) == lines_spec(content@),
        decreases text_len - i,
    {
        if content.get_char(i) == '\n' {
            let line = content.substring_char(start, i);
            let ghost previous = lines.deep_view();
            lines.push(line);
            proof {
                let t = content@;
                let seg = t.subrange(start as int, i as int);
                let closed = t.subrange(start as int, i + 1);
                assert(closed =~= seg.push('\n'));
                lemma_lines_closed_line(seg);
                assert(t.skip(start as int) =~= closed + t.skip(i + 1));
                lemma_lines_concat(closed, t.skip(i + 1));
                assert(lines.deep_view() =~= previous.push(seg));
                assert(previous.push(seg) + lines_spec(t.skip(i + 1)) =~= previous + (seq![seg]
                    + lines_spec(t.skip(i + 1))));
                assert(lines.deep_view() + lines_spec(t.skip(i + 1)) =~= lines_spec(t));
            }
            start = i + 1;
        }
        i = i + 1;
    }
    if start < text_len {
        let line = content.substring_char(start, text_len);
        let ghost previous = lines.deep_view();
        lines.push(line);
        proof {
            let t = content@;
            let seg = t.skip(start as int);
            lemma_lines_open_line(seg);
            assert(line@ =~= seg);
            assert(lines.deep_view() =~= previous.push(seg));
            assert(previous.push(seg) =~= previous + seq![seg]);
            assert(lines.deep_view() =~= lines_spec(t));
        }
    } else {
        proof {
            let t = content@;
            assert(t.skip(start as int) =~= Seq::<char>::empty());
            assert(lines_spec(t.skip(start as int)) =~= Seq::<Seq<char>>::empty());
            assert(lines.deep_view() + lines_spec(t.skip(start as int)) =~= lines.deep_view());
        }
    }
    lines
}

} // verus!
