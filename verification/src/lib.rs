//! Scene description: a tree of typed primitives with attributes and
//! metadata, and the text that is written for it.

use vstd::prelude::*;

pub mod balance;
pub mod layout;
pub mod lines;
pub mod nesting;
pub mod number;
pub mod ordered_map;
pub mod plain;
pub mod prim;
pub mod stage;
pub mod text;

use crate::number::Number;
use crate::ordered_map::OrderedMap;
use crate::text::quoted;
use crate::lines::{
    indent_line, indented, lemma_indented_closed_line, lemma_indented_concat,
    lemma_indented_empty, lemma_indented_open_line, single_line, without_return,
};

verus! {

/// A value in a metadata slot: a string or a number.
#[derive(Debug)]
pub enum MetaValue {
    String(String),
    Float(Number),
}

/// What a metadata value holds: the characters of the string, or the numeral
/// of the number.
pub enum MetaValueView {
    String(Seq<char>),
    Float(Seq<char>),
}

impl View for MetaValue {
    type V = MetaValueView;

    open spec fn view(&self) -> MetaValueView {
        match self {
            MetaValue::String(s) => MetaValueView::String(s@),
            MetaValue::Float(n) => MetaValueView::Float(n@),
        }
    }
}

/// The entries of a metadata mapping, each value by what it holds.
pub open spec fn meta_view(entries: Seq<(Seq<char>, MetaValue)>) -> Seq<
    (Seq<char>, MetaValueView),
> {
    entries.map_values(|e: (Seq<char>, MetaValue)| (e.0, e.1@))
}

/// Why no text was written.
#[derive(Clone, Copy, Debug, PartialEq, Eq)]
pub enum SerializeError {
    /// The scene holds an attribute for whose value no text is defined.
    UnimplementedFormat,
}

/// A spatial axis.
#[derive(Clone, Copy, Debug, PartialEq, Eq)]
pub enum Axis {
    X,
    Y,
    Z,
}

/// The letter that names an axis.
pub open spec fn axis_text(axis: Axis) -> Seq<char> {
    match axis {
        Axis::X => "X"@,
        Axis::Y => "Y"@,
        Axis::Z => "Z"@,
    }
}

impl Axis {
    /// The letter that names this axis.
    pub fn text(&self) -> (name: &'static str)
        ensures
            name@ == axis_text(*self),
    {
        match self {
            Axis::X => "X",
            Axis::Y => "Y",
            Axis::Z => "Z",
        }
    }
}

/// How a metadata value is written: a string between double quotes, a number
/// as its numeral.
pub open spec fn meta_value_text(value: MetaValueView) -> Seq<char> {
    match value {
        MetaValueView::String(s) => quoted(s),
        MetaValueView::Float(n) => n,
    }
}

/// The line of one metadata entry: four spaces, the name, ` = `, the value,
/// and a line feed.
pub open spec fn meta_line(name: Seq<char>, value: MetaValueView) -> Seq<char> {
    "    "@ + name + " = "@ + meta_value_text(value) + "\n"@
}

/// The lines of the metadata entries, in their order.
pub open spec fn meta_lines(entries: Seq<(Seq<char>, MetaValueView)>) -> Seq<char> {
    entries.map_values(|e: (Seq<char>, MetaValueView)| meta_line(e.0, e.1)).flatten()
}

/// The metadata block: nothing for no entries; otherwise the lines of the
/// entries between a line with `(` and a line with `)`.
pub open spec fn meta_block(entries: Seq<(Seq<char>, MetaValueView)>) -> Seq<char> {
    if entries.len() == 0 {
        Seq::empty()
    } else {
        "(\n"@ + meta_lines(entries) + ")\n"@
    }
}

/// The line that is written for one metadata entry.
pub fn format_meta_line(name: &str, value: &MetaValue) -> (line: String)
    ensures
        line@ == meta_line(name@, value@),
{
    let mut line = String::from_str("    ");
    line.append(name);
    line.append(" = ");
    match value {
        MetaValue::String(s) => {
            line.append("\"");
            line.append(s.as_str());
            line.append("\"");
            assert(line@ =~= "    "@ + name@ + " = "@ + quoted(s@));
        },
        MetaValue::Float(v) => {
            line.append(v.as_str());
        },
    }
    line.append("\n");
    line
}

/// Appends the metadata block of `meta` to `build`.
pub fn push_meta_block(build: &mut String, meta: &OrderedMap<MetaValue>)
    ensures
        final(build)@ == old(build)@ + meta_block(meta_view(meta@)),
{
    let ghost entries = meta_view(meta@);
    let ghost line_of = |e: (Seq<char>, MetaValueView)| meta_line(e.0, e.1);
    if !meta.is_empty() {
        build.append("(\n");
        let n = meta.len();
        let mut i: usize = 0;
        assert(entries.take(0).map_values(line_of) =~= Seq::<Seq<char>>::empty());
        while i < n
            invariant
                i <= n,
                n == meta@.len(),
                entries == meta_view(meta@),
                line_of == |e: (Seq<char>, MetaValueView)| meta_line(e.0, e.1),
                build@ == old(build)@ + "(\n"@ + entries.take(i as int).map_values(
                    line_of,
                ).flatten(),
            decreases n - i,
        {
            let line = format_meta_line(meta.key_at(i), meta.value_at(i));
            build.append(line.as_str());
            proof {
                let done = entries.take(i as int).map_values(line_of);
                assert(entries.take(i + 1).map_values(line_of) =~= done.push(line@));
                done.lemma_flatten_push(line@);
                assert(build@ =~= old(build)@ + "(\n"@ + done.push(line@).flatten());
            }
            i = i + 1;
        }
        build.append(")\n");
        assert(entries.take(n as int) =~= entries);
        assert(build@ =~= old(build)@ + ("(\n"@ + meta_lines(entries) + ")\n"@));
    } else {
        assert(build@ =~= old(build)@ + Seq::<char>::empty());
    }
}

/// Moves every line of `in_text` four columns to the right. Each line of the
/// result ends with a single line feed, whether the line it came from ended
/// with a line feed, with a carriage return and a line feed, or with the text.
pub fn indent_lines(in_text: &str) -> (build: String)
    ensures
        build@ == indented(in_text@),
{
    let mut build = String::new();
    // No character of the current line has been read yet.
    let mut fresh = true;
    // The last character read was a carriage return, which is not written yet.
    let mut held = false;
    let ghost text = in_text@;
    let ghost mut start: int = 0;
    proof {
        lemma_indented_empty();
        assert(text.take(0) =~= Seq::<char>::empty());
    }
    for c in it: in_text.chars()
        invariant
            it.seq() == text,
            text == in_text@,
            0 <= start <= it.index(),
            start == 0 || text[start - 1] == '\n',
            single_line(text.subrange(start, it.index() as int)),
            fresh <==> it.index() == start,
            held <==> (it.index() > start && text[it.index() - 1] == '\r'),
            build@ == indented(text.take(start)) + (if fresh {
                Seq::<char>::empty()
            } else {
                "    "@ + text.subrange(start, it.index() - (if held { 1int } else { 0int }))
            }),
    {
        let ghost i = it.index() as int;
        let ghost line = text.subrange(start, i);
        if fresh {
            build.append("    ");
            fresh = false;
            assert(build@ =~= indented(text.take(start)) + ("    "@ + text.subrange(start, i)));
        }
        if c == '\n' {
            build.push('\n');
            proof {
                reveal_strlit("\n");
                assert("\n"@ =~= seq!['\n']);
                let head = text.take(start);
                assert(text.subrange(start, i - (if held { 1int } else { 0int })) =~= without_return(line)) by {
                    if line.len() > 0 {
                        assert(line.last() == text[i - 1]);
                    }
                }
                assert(build@ =~= indented(head) + indent_line(without_return(line)));
                assert(text.take(i + 1) =~= head + (line + "\n"@));
                lemma_indented_closed_line(line);
                lemma_indented_concat(head, line + "\n"@);
                start = i + 1;
                assert(text.subrange(start, i + 1) =~= Seq::<char>::empty());
            }
            fresh = true;
            held = false;
        } else {
            if held {
                build.push('\r');
                assert(text.subrange(start, i) =~= text.subrange(start, i - 1).push('\r'));
            }
            if c == '\r' {
                held = true;
            } else {
                build.push(c);
                held = false;
            }
            proof {
                let longer = text.subrange(start, i + 1);
                assert(longer =~= line.push(c));
                assert(single_line(longer));
                assert(build@ =~= indented(text.take(start)) + ("    "@ + text.subrange(
                    start,
                    i + 1 - (if held { 1int } else { 0int }),
                )));
            }
        }
    }
    if !fresh {
        if held {
            build.push('\r');
        }
        build.push('\n');
        proof {
            reveal_strlit("\n");
            assert("\n"@ =~= seq!['\n']);
            let n = text.len() as int;
            let head = text.take(start);
            let last = text.skip(start);
            assert(text.subrange(start, n) =~= last);
            assert(text.subrange(start, n) =~= text.subrange(start, n - 1).push(text[n - 1]));
            assert(build@ =~= indented(head) + indent_line(last));
            lemma_indented_open_line(last);
            lemma_indented_concat(head, last);
            assert(head + last =~= text);
        }
    } else {
        assert(text.take(start) =~= text);
    }
    build
}

} // verus!
