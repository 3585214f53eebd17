//! Brackets in text: when every closing bracket has its opening bracket
//! before it and every opening bracket is closed.

use vstd::prelude::*;

use crate::lines::{
    indent_line, indented, lemma_indented_closed_line, lemma_indented_concat,
    lemma_indented_empty, lemma_indented_open_line, lemma_line_end, line_end, single_line,
    without_return,
};

verus! {

/// The character `c` does not occur in `text`.
pub open spec fn avoids(text: Seq<char>, c: char) -> bool {
    forall|i: int| 0 <= i < text.len() ==> text[i] != c
}

/// Reads `text` from left to right with `depth` brackets open at its start:
/// `open` opens one more, `close` closes one. The result is the number of
/// brackets that are open at the end, or `None` if `close` comes where none
/// is open.
pub open spec fn closing(text: Seq<char>, open: char, close: char, depth: nat) -> Option<nat>
    decreases text.len(),
{
    if text.len() == 0 {
        Some(depth)
    } else if text[0] == open {
        closing(text.drop_first(), open, close, depth + 1)
    } else if text[0] == close {
        if depth == 0 {
            None
        } else {
            closing(text.drop_first(), open, close, (depth - 1) as nat)
        }
    } else {
        closing(text.drop_first(), open, close, depth)
    }
}

/// Every `close` in `text` closes an `open` before it, and no `open` is left
/// open at the end.
pub open spec fn balanced(text: Seq<char>, open: char, close: char) -> bool {
    closing(text, open, close, 0) == Some(0nat)
}

/// `text` is balanced wherever it stands: it leaves as many brackets open as
/// it found, and closes none of those.
pub open spec fn level(text: Seq<char>, open: char, close: char) -> bool {
    forall|depth: nat| #[trigger] closing(text, open, close, depth) == Some(depth)
}

/// Reading two texts one after the other is reading the second from where
/// the first ended.
pub proof fn lemma_closing_concat(a: Seq<char>, b: Seq<char>, open: char, close: char, depth: nat)
    ensures
        closing(a + b, open, close, depth) == match closing(a, open, close, depth) {
            Some(after) => closing(b, open, close, after),
            None => None,
        },
    decreases a.len(),
{
    if a.len() == 0 {
        assert(a + b =~= b);
    } else {
        assert((a + b)[0] == a[0]);
        assert((a + b).drop_first() =~= a.drop_first() + b);
        if a[0] == open {
            lemma_closing_concat(a.drop_first(), b, open, close, depth + 1);
        } else if a[0] == close {
            if depth > 0 {
                lemma_closing_concat(a.drop_first(), b, open, close, (depth - 1) as nat);
            }
        } else {
            lemma_closing_concat(a.drop_first(), b, open, close, depth);
        }
    }
}

/// A text without brackets is level.
pub proof fn lemma_level_free(text: Seq<char>, open: char, close: char)
    requires
        avoids(text, open),
        avoids(text, close),
    ensures
        level(text, open, close),
    decreases text.len(),
{
    if text.len() > 0 {
        let rest = text.drop_first();
        assert(avoids(rest, open) && avoids(rest, close)) by {
            assert forall|i: int| 0 <= i < rest.len() implies rest[i] != open && rest[i]
                != close by {
                assert(rest[i] == text[i + 1]);
            }
        }
        lemma_level_free(rest, open, close);
        assert forall|depth: nat| #[trigger]
            closing(text, open, close, depth) == Some(depth) by {
            assert(text[0] != open && text[0] != close);
            assert(closing(rest, open, close, depth) == Some(depth));
        }
    }
}

/// Two level texts one after the other are level.
pub proof fn lemma_level_concat(a: Seq<char>, b: Seq<char>, open: char, close: char)
    requires
        level(a, open, close),
        level(b, open, close),
    ensures
        level(a + b, open, close),
{
    assert forall|depth: nat| #[trigger] closing(a + b, open, close, depth) == Some(depth) by {
        lemma_closing_concat(a, b, open, close, depth);
        assert(closing(a, open, close, depth) == Some(depth));
        assert(closing(b, open, close, depth) == Some(depth));
    }
}

/// A level text between an opening and a closing bracket is level.
pub proof fn lemma_level_wrapped(inner: Seq<char>, open: char, close: char)
    requires
        level(inner, open, close),
        open != close,
    ensures
        level(seq![open] + inner + seq![close], open, close),
{
    let text = seq![open] + inner + seq![close];
    assert forall|depth: nat| #[trigger] closing(text, open, close, depth) == Some(depth) by {
        let tail = inner + seq![close];
        assert(text =~= seq![open] + tail);
        assert(text[0] == open);
        assert(text.drop_first() =~= tail);
        lemma_closing_concat(inner, seq![close], open, close, depth + 1);
        assert(closing(inner, open, close, depth + 1) == Some(depth + 1));
        let last = seq![close];
        assert(last[0] == close);
        assert(last.drop_first() =~= Seq::<char>::empty());
        assert(closing(last.drop_first(), open, close, depth) == Some(depth));
        assert(closing(last, open, close, depth + 1) == Some(depth));
    }
}

/// Level texts one after the other are level.
pub proof fn lemma_level_flatten(parts: Seq<Seq<char>>, open: char, close: char)
    requires
        forall|i: int| 0 <= i < parts.len() ==> level(#[trigger] parts[i], open, close),
    ensures
        level(parts.flatten(), open, close),
    decreases parts.len(),
{
    if parts.len() == 0 {
        lemma_level_free(parts.flatten(), open, close);
    } else {
        let rest = parts.drop_first();
        assert forall|i: int| 0 <= i < rest.len() implies level(#[trigger] rest[i], open, close) by {
            assert(rest[i] == parts[i + 1]);
        }
        lemma_level_flatten(rest, open, close);
        lemma_level_concat(parts.first(), rest.flatten(), open, close);
    }
}

/// Indenting the lines of a text changes nothing for brackets that are not
/// a space, a line feed or a carriage return.
pub proof fn lemma_closing_indented(text: Seq<char>, open: char, close: char, depth: nat)
    requires
        open != ' ' && open != '\n' && open != '\r',
        close != ' ' && close != '\n' && close != '\r',
    ensures
        closing(indented(text), open, close, depth) == closing(text, open, close, depth),
    decreases text.len(),
{
    reveal_strlit("    ");
    reveal_strlit("\n");
    let pad = "    "@;
    let feed = "\n"@;
    assert(avoids(pad, open) && avoids(pad, close));
    assert(avoids(feed, open) && avoids(feed, close));
    lemma_level_free(pad, open, close);
    lemma_level_free(feed, open, close);
    if text.len() == 0 {
        lemma_indented_empty();
        assert(text =~= Seq::<char>::empty());
    } else {
        lemma_line_end(text);
        let end = line_end(text);
        let line = text.take(end);
        // The line without its carriage return reads as the line does.
        let bare = without_return(line);
        assert(closing(bare, open, close, depth) == closing(line, open, close, depth)) by {
            if line.len() > 0 && line.last() == '\r' {
                let cr = seq!['\r'];
                assert(line =~= bare + cr);
                assert(avoids(cr, open) && avoids(cr, close));
                lemma_level_free(cr, open, close);
                lemma_closing_concat(bare, cr, open, close, depth);
                if closing(bare, open, close, depth) is Some {
                    let after = closing(bare, open, close, depth)->0;
                    assert(closing(cr, open, close, after) == Some(after));
                }
            }
        }
        if end < text.len() {
            let rest = text.skip(end + 1);
            assert(text =~= (line + feed) + rest);
            lemma_indented_closed_line(line);
            lemma_indented_concat(line + feed, rest);
            lemma_closing_indented(rest, open, close, depth);
            // The text itself.
            lemma_closing_concat(line + feed, rest, open, close, depth);
            lemma_closing_concat(line, feed, open, close, depth);
            // The indented text.
            let first = indent_line(bare);
            assert(first =~= pad + (bare + feed));
            lemma_closing_concat(first, indented(rest), open, close, depth);
            lemma_closing_concat(pad, bare + feed, open, close, depth);
            lemma_closing_concat(bare, feed, open, close, depth);
            assert(closing(pad, open, close, depth) == Some(depth));
            match closing(line, open, close, depth) {
                Some(after) => {
                    assert(closing(feed, open, close, after) == Some(after));
                    lemma_closing_indented(rest, open, close, after);
                },
                None => {},
            }
        } else {
            assert(line =~= text);
            assert(single_line(text));
            lemma_indented_open_line(text);
            let whole = indent_line(text);
            assert(whole =~= pad + (text + feed));
            lemma_closing_concat(pad, text + feed, open, close, depth);
            lemma_closing_concat(text, feed, open, close, depth);
            assert(closing(pad, open, close, depth) == Some(depth));
            match closing(text, open, close, depth) {
                Some(after) => {
                    assert(closing(feed, open, close, after) == Some(after));
                },
                None => {},
            }
        }
    }
}

/// Indenting the lines of a level text gives a level text.
pub proof fn lemma_level_indented(text: Seq<char>, open: char, close: char)
    requires
        level(text, open, close),
        open != ' ' && open != '\n' && open != '\r',
        close != ' ' && close != '\n' && close != '\r',
    ensures
        level(indented(text), open, close),
{
    assert forall|depth: nat| #[trigger]
        closing(indented(text), open, close, depth) == Some(depth) by {
        lemma_closing_indented(text, open, close, depth);
        assert(closing(text, open, close, depth) == Some(depth));
    }
}

} // verus!
