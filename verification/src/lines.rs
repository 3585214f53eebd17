//! Text as a sequence of lines, and what indenting every line does to it.
//!
//! A line ends at a line feed, or at a carriage return directly followed by a
//! line feed. The last line needs no line ending, and a text that ends with a
//! line ending has no empty line after it.

use vstd::prelude::*;

verus! {

/// Where the first line of `text` stops: the position of its first line
/// feed, or the length of `text` if it holds none.
pub open spec fn line_end(text: Seq<char>) -> int
    decreases text.len(),
{
    if text.len() == 0 || text[0] == '\n' {
        0
    } else {
        1 + line_end(text.drop_first())
    }
}

/// `line` without the carriage return at its end, if it has one.
pub open spec fn without_return(line: Seq<char>) -> Seq<char> {
    if line.len() > 0 && line.last() == '\r' {
        line.drop_last()
    } else {
        line
    }
}

/// The lines of `text`, without their line endings.
pub open spec fn split_lines(text: Seq<char>) -> Seq<Seq<char>>
    decreases text.len(),
{
    if text.len() == 0 {
        Seq::empty()
    } else {
        let end = line_end(text);
        if 0 <= end < text.len() {
            seq![without_return(text.take(end))] + split_lines(text.skip(end + 1))
        } else {
            seq![text]
        }
    }
}

/// No line feed occurs in `text`.
pub open spec fn single_line(text: Seq<char>) -> bool {
    forall|i: int| 0 <= i < text.len() ==> text[i] != '\n'
}

/// One line moved four columns to the right and closed by a line feed.
pub open spec fn indent_line(line: Seq<char>) -> Seq<char> {
    "    "@ + line + "\n"@
}

/// Every line of `text` moved four columns to the right, each closed by a
/// single line feed.
pub open spec fn indented(text: Seq<char>) -> Seq<char> {
    split_lines(text).map_values(|line: Seq<char>| indent_line(line)).flatten()
}

/// The lines, each closed by a line feed, one after the other.
pub open spec fn unlines(lines: Seq<Seq<char>>) -> Seq<char> {
    lines.map_values(|line: Seq<char>| line + "\n"@).flatten()
}

/// `line_end` is a position in the text, nothing before it is a line feed,
/// and a line feed stands there unless it is the end of the text.
pub proof fn lemma_line_end(text: Seq<char>)
    ensures
        0 <= line_end(text) <= text.len(),
        single_line(text.take(line_end(text))),
        line_end(text) < text.len() ==> text[line_end(text)] == '\n',
    decreases text.len(),
{
    if text.len() == 0 || text[0] == '\n' {
    } else {
        let rest = text.drop_first();
        lemma_line_end(rest);
        let first = text.take(line_end(text));
        let before = rest.take(line_end(rest));
        assert forall|i: int| 0 <= i < first.len() implies first[i] != '\n' by {
            if i > 0 {
                assert(before[i - 1] == text[i]);
            }
        }
    }
}

/// The first line feed of a text is where its first line stops.
pub proof fn lemma_line_end_at(text: Seq<char>, at: int)
    requires
        0 <= at <= text.len(),
        single_line(text.take(at)),
        at < text.len() ==> text[at] == '\n',
    ensures
        line_end(text) == at,
    decreases text.len(),
{
    if text.len() == 0 {
    } else if at == 0 {
    } else {
        assert(text.take(at)[0] == text[0]);
        let rest = text.drop_first();
        let before = rest.take(at - 1);
        assert forall|i: int| 0 <= i < before.len() implies before[i] != '\n' by {
            assert(text.take(at)[i + 1] == text[i + 1]);
        }
        lemma_line_end_at(rest, at - 1);
    }
}

/// A text without a line feed is one line, unless it is empty.
pub proof fn lemma_split_single_line(text: Seq<char>)
    requires
        single_line(text),
    ensures
        split_lines(text) == if text.len() == 0 {
            Seq::<Seq<char>>::empty()
        } else {
            seq![text]
        },
{
    if text.len() > 0 {
        assert(text.take(text.len() as int) =~= text);
        lemma_line_end_at(text, text.len() as int);
    }
}

/// A line followed by a line feed, and then more text: the first line is
/// that line without its carriage return, the others are those of the rest.
pub proof fn lemma_split_first_line(line: Seq<char>, rest: Seq<char>)
    requires
        single_line(line),
    ensures
        split_lines(line + "\n"@ + rest) == seq![without_return(line)] + split_lines(rest),
{
    reveal_strlit("\n");
    let text = line + "\n"@ + rest;
    let at = line.len() as int;
    assert("\n"@ =~= seq!['\n']);
    assert(text[at] == '\n');
    assert(text.take(at) =~= line);
    assert(text.skip(at + 1) =~= rest);
    lemma_line_end_at(text, at);
}

/// Lines that follow a text which is empty or ends with a line feed are
/// split as if they stood alone.
pub proof fn lemma_split_lines_concat(head: Seq<char>, tail: Seq<char>)
    requires
        head.len() == 0 || head.last() == '\n',
    ensures
        split_lines(head + tail) == split_lines(head) + split_lines(tail),
    decreases head.len(),
{
    reveal_strlit("\n");
    if head.len() == 0 {
        assert(head + tail =~= tail);
        assert(split_lines(head) + split_lines(tail) =~= split_lines(tail));
    } else {
        lemma_line_end(head);
        let end = line_end(head);
        assert(end < head.len()) by {
            if end == head.len() {
                assert(head.take(end)[end - 1] == head[end - 1]);
            }
        }
        let line = head.take(end);
        let rest = head.skip(end + 1);
        assert("\n"@ =~= seq!['\n']);
        assert(head =~= line + "\n"@ + rest);
        assert(head + tail =~= line + "\n"@ + (rest + tail));
        assert(rest.len() == 0 || rest.last() == '\n') by {
            if rest.len() > 0 {
                assert(rest.last() == head.last());
            }
        }
        lemma_split_first_line(line, rest);
        lemma_split_first_line(line, rest + tail);
        lemma_split_lines_concat(rest, tail);
        assert(seq![without_return(line)] + (split_lines(rest) + split_lines(tail)) =~= (
        seq![without_return(line)] + split_lines(rest)) + split_lines(tail));
    }
}

/// Indenting goes line by line: what follows a text that is empty or ends
/// with a line feed is indented as if it stood alone.
pub proof fn lemma_indented_concat(head: Seq<char>, tail: Seq<char>)
    requires
        head.len() == 0 || head.last() == '\n',
    ensures
        indented(head + tail) == indented(head) + indented(tail),
{
    lemma_split_lines_concat(head, tail);
    let f = |line: Seq<char>| indent_line(line);
    let a = split_lines(head);
    let b = split_lines(tail);
    assert((a + b).map_values(f) =~= a.map_values(f) + b.map_values(f));
    vstd::seq_lib::lemma_flatten_concat(a.map_values(f), b.map_values(f));
}

/// One line with its line feed is indented to the line without its carriage
/// return, four columns to the right.
pub proof fn lemma_indented_closed_line(line: Seq<char>)
    requires
        single_line(line),
    ensures
        indented(line + "\n"@) == indent_line(without_return(line)),
{
    lemma_split_first_line(line, Seq::empty());
    assert(line + "\n"@ + Seq::<char>::empty() =~= line + "\n"@);
    assert(split_lines(Seq::<char>::empty()) =~= Seq::<Seq<char>>::empty());
    let f = |line: Seq<char>| indent_line(line);
    let one = seq![without_return(line)];
    assert(split_lines(line + "\n"@) =~= one);
    assert(one.map_values(f) =~= seq![indent_line(without_return(line))]);
    seq![indent_line(without_return(line))].lemma_flatten_one_element();
}

/// A last line without a line feed is indented as it is, and gets one.
pub proof fn lemma_indented_open_line(line: Seq<char>)
    requires
        single_line(line),
        line.len() > 0,
    ensures
        indented(line) == indent_line(line),
{
    lemma_split_single_line(line);
    let f = |line: Seq<char>| indent_line(line);
    assert(seq![line].map_values(f) =~= seq![indent_line(line)]);
    seq![indent_line(line)].lemma_flatten_one_element();
}

/// The empty text has no line, so indenting it gives the empty text.
pub proof fn lemma_indented_empty()
    ensures
        indented(Seq::empty()) == Seq::<char>::empty(),
{
    let f = |line: Seq<char>| indent_line(line);
    assert(split_lines(Seq::<char>::empty()).map_values(f) =~= Seq::<Seq<char>>::empty());
}

/// A line that can stand in a text as it is: it holds no line feed and does
/// not end with a carriage return.
pub open spec fn whole_line(line: Seq<char>) -> bool {
    single_line(line) && (line.len() == 0 || line.last() != '\r')
}

/// The lines of two lists, each closed by a line feed, are those of the
/// first list followed by those of the second.
pub proof fn lemma_unlines_concat(first: Seq<Seq<char>>, second: Seq<Seq<char>>)
    ensures
        unlines(first + second) == unlines(first) + unlines(second),
{
    let f = |line: Seq<char>| line + "\n"@;
    assert((first + second).map_values(f) =~= first.map_values(f) + second.map_values(f));
    vstd::seq_lib::lemma_flatten_concat(first.map_values(f), second.map_values(f));
}

/// One line, closed by a line feed.
pub proof fn lemma_unlines_one(line: Seq<char>)
    ensures
        unlines(seq![line]) == line + "\n"@,
{
    let f = |line: Seq<char>| line + "\n"@;
    assert(seq![line].map_values(f) =~= seq![line + "\n"@]);
    seq![line + "\n"@].lemma_flatten_one_element();
}

/// No line at all gives the empty text.
pub proof fn lemma_unlines_empty()
    ensures
        unlines(Seq::empty()) == Seq::<char>::empty(),
{
    let f = |line: Seq<char>| line + "\n"@;
    assert(Seq::<Seq<char>>::empty().map_values(f) =~= Seq::<Seq<char>>::empty());
}

/// Whole lines, each closed by a line feed, are split into the same lines
/// again.
pub proof fn lemma_split_unlines(lines: Seq<Seq<char>>)
    requires
        forall|i: int| 0 <= i < lines.len() ==> whole_line(#[trigger] lines[i]),
    ensures
        split_lines(unlines(lines)) == lines,
    decreases lines.len(),
{
    if lines.len() == 0 {
        lemma_unlines_empty();
        assert(lines =~= Seq::<Seq<char>>::empty());
    } else {
        let first = lines[0];
        let rest = lines.drop_first();
        assert(lines =~= seq![first] + rest);
        lemma_unlines_concat(seq![first], rest);
        lemma_unlines_one(first);
        assert forall|i: int| 0 <= i < rest.len() implies whole_line(#[trigger] rest[i]) by {
            assert(rest[i] == lines[i + 1]);
        }
        lemma_split_unlines(rest);
        assert(whole_line(first));
        lemma_split_first_line(first, unlines(rest));
        assert(without_return(first) == first);
    }
}

/// Indenting whole lines puts four spaces before each of them.
pub proof fn lemma_indented_unlines(lines: Seq<Seq<char>>)
    requires
        forall|i: int| 0 <= i < lines.len() ==> whole_line(#[trigger] lines[i]),
    ensures
        indented(unlines(lines)) == unlines(lines.map_values(|line: Seq<char>| "    "@ + line)),
{
    lemma_split_unlines(lines);
    let moved = lines.map_values(|line: Seq<char>| "    "@ + line);
    let a = lines.map_values(|line: Seq<char>| indent_line(line));
    let b = moved.map_values(|line: Seq<char>| line + "\n"@);
    assert(a =~= b) by {
        assert forall|i: int| 0 <= i < a.len() implies a[i] == b[i] by {
            assert(a[i] =~= b[i]);
        }
    }
}

} // verus!
