//! Scene text line by line: which lines a scene is written as, and how far
//! each of them is indented.

use vstd::prelude::*;

use crate::balance::avoids;
use crate::lines::{
    indented, lemma_indented_unlines, lemma_split_unlines, lemma_unlines_concat,
    lemma_unlines_empty, lemma_unlines_one, single_line, split_lines, unlines, whole_line,
};
use crate::number::{is_digit, is_numeral, is_numeral_char, lemma_numeral_chars};
use crate::plain::{
    attribute_avoids, attribute_valid, meta_avoids, meta_names_start, meta_valid,
    meta_value_avoids, meta_value_valid, prim_avoids, prim_names_start, prim_valid, stage_avoids,
    stage_names_start, stage_valid, triple_valid,
};
use crate::prim::{
    attribute_line, attribute_row, attribute_rows, attribute_value_text, int_texts, prim_header,
    prim_text, prim_type_text, sub_blocks, triple_text, triple_texts, type_tag, AttributeView,
    PrimView, Triple,
};
use crate::stage::{document_header, prim_blocks, stage_text, StageView};
use crate::text::{decimal_text, joined};
use crate::{meta_block, meta_line, meta_lines, meta_value_text, MetaValueView};

verus! {

/// One line of scene text: how deep it is nested, and what stands on it
/// after the indentation.
pub struct Row {
    pub depth: nat,
    pub body: Seq<char>,
}

/// `count` spaces.
pub open spec fn spaces(count: nat) -> Seq<char> {
    Seq::new(count, |i: int| ' ')
}

/// The line of a row: four spaces for each level of nesting, then the body.
pub open spec fn row_line(row: Row) -> Seq<char> {
    spaces(4 * row.depth) + row.body
}

/// The lines of the rows.
pub open spec fn lines_of(rows: Seq<Row>) -> Seq<Seq<char>> {
    rows.map_values(|row: Row| row_line(row))
}

/// The rows, each nested one level deeper.
pub open spec fn raised(rows: Seq<Row>) -> Seq<Row> {
    rows.map_values(|row: Row| Row { depth: row.depth + 1, body: row.body })
}

/// The number of spaces that a line starts with.
pub open spec fn indentation(line: Seq<char>) -> nat
    decreases line.len(),
{
    if line.len() == 0 || line[0] != ' ' {
        0
    } else {
        1 + indentation(line.drop_first())
    }
}

/// A body that can stand on a line of its own: it is not empty, does not
/// start with a space, holds no line feed and does not end with a carriage
/// return.
pub open spec fn plain_body(body: Seq<char>) -> bool {
    body.len() > 0 && body[0] != ' ' && single_line(body) && body.last() != '\r'
}

/// Every row has a plain body.
pub open spec fn plain_rows(rows: Seq<Row>) -> bool {
    forall|i: int| 0 <= i < rows.len() ==> plain_body((#[trigger] rows[i]).body)
}

/// A line that is spaces and then a plain body is indented by the number of
/// those spaces.
pub proof fn lemma_indentation(count: nat, body: Seq<char>)
    requires
        body.len() > 0,
        body[0] != ' ',
    ensures
        indentation(spaces(count) + body) == count,
    decreases count,
{
    let line = spaces(count) + body;
    if count == 0 {
        assert(line =~= body);
    } else {
        assert(line[0] == ' ');
        assert(line.drop_first() =~= spaces((count - 1) as nat) + body);
        lemma_indentation((count - 1) as nat, body);
    }
}

/// The line of a row with a plain body is a whole line, indented by four
/// spaces for each level of its nesting.
pub proof fn lemma_row_line(row: Row)
    requires
        plain_body(row.body),
    ensures
        whole_line(row_line(row)),
        indentation(row_line(row)) == 4 * row.depth,
{
    lemma_indentation(4 * row.depth, row.body);
    let line = row_line(row);
    assert(line.last() == row.body.last());
    assert forall|i: int| 0 <= i < line.len() implies line[i] != '\n' by {
        if i >= 4 * row.depth {
            assert(line[i] == row.body[i - 4 * row.depth]);
        }
    }
}

/// Rows one after the other are plain if each of the two lists is.
pub proof fn lemma_plain_rows_concat(first: Seq<Row>, second: Seq<Row>)
    requires
        plain_rows(first),
        plain_rows(second),
    ensures
        plain_rows(first + second),
{
    assert forall|i: int| 0 <= i < (first + second).len() implies plain_body(
        (#[trigger] (first + second)[i]).body,
    ) by {
        if i < first.len() {
            assert((first + second)[i] == first[i]);
        } else {
            assert((first + second)[i] == second[i - first.len()]);
        }
    }
}

/// The lines of plain rows are whole lines.
pub proof fn lemma_lines_whole(rows: Seq<Row>)
    requires
        plain_rows(rows),
    ensures
        forall|i: int| 0 <= i < lines_of(rows).len() ==> whole_line(#[trigger] lines_of(rows)[i]),
{
    assert forall|i: int| 0 <= i < lines_of(rows).len() implies whole_line(
        #[trigger] lines_of(rows)[i],
    ) by {
        lemma_row_line(rows[i]);
    }
}

/// Indenting the text of plain rows gives the text of the same rows, each
/// nested one level deeper.
pub proof fn lemma_indented_rows(rows: Seq<Row>)
    requires
        plain_rows(rows),
    ensures
        indented(unlines(lines_of(rows))) == unlines(lines_of(raised(rows))),
        plain_rows(raised(rows)),
{
    reveal_strlit("    ");
    lemma_lines_whole(rows);
    lemma_indented_unlines(lines_of(rows));
    let moved = lines_of(rows).map_values(|line: Seq<char>| "    "@ + line);
    let deeper = lines_of(raised(rows));
    assert(moved =~= deeper) by {
        assert forall|i: int| 0 <= i < moved.len() implies moved[i] == deeper[i] by {
            let row = rows[i];
            assert("    "@ =~= spaces(4));
            assert(spaces(4) + spaces(4 * row.depth) =~= spaces(4 * (row.depth + 1)));
            assert(moved[i] =~= deeper[i]);
        }
    }
}

/// The text of the rows: their lines, each closed by a line feed.
pub open spec fn rows_text(rows: Seq<Row>) -> Seq<char> {
    unlines(lines_of(rows))
}

/// What stands on the line of a metadata entry: its name, ` = `, and its
/// value.
pub open spec fn meta_body(name: Seq<char>, value: MetaValueView) -> Seq<char> {
    name + " = "@ + meta_value_text(value)
}

/// One row for each metadata entry.
pub open spec fn meta_entry_rows(entries: Seq<(Seq<char>, MetaValueView)>, depth: nat) -> Seq<
    Row,
> {
    entries.map_values(|e: (Seq<char>, MetaValueView)| Row { depth, body: meta_body(e.0, e.1) })
}

/// The rows of a metadata block that opens on a line starting with `start`:
/// none for no entries; otherwise the line of the opening bracket, the
/// entries one level deeper, and the line of the closing bracket.
pub open spec fn meta_rows(start: Seq<char>, entries: Seq<(Seq<char>, MetaValueView)>, depth: nat)
    -> Seq<Row> {
    if entries.len() == 0 {
        Seq::empty()
    } else {
        seq![Row { depth, body: start + "("@ }] + meta_entry_rows(entries, depth + 1) + seq![
            Row { depth, body: ")"@ },
        ]
    }
}

/// One row for each attribute.
pub open spec fn attribute_entry_rows(entries: Seq<(Seq<char>, AttributeView)>, depth: nat) -> Seq<
    Row,
> {
    entries.map_values(
        |e: (Seq<char>, AttributeView)| Row { depth, body: attribute_line(e.0, e.1) },
    )
}

/// The rows up to and with the opening curly bracket of a primitive: the
/// header and the bracket on one line, if there is no metadata; otherwise
/// the header with the metadata block, and the bracket on a line of its own.
pub open spec fn top_rows(prim: PrimView, depth: nat) -> Seq<Row> {
    if prim.meta.len() == 0 {
        seq![Row { depth, body: prim_header(prim) + "{"@ }]
    } else {
        meta_rows(prim_header(prim), prim.meta, depth) + seq![Row { depth, body: "{"@ }]
    }
}

/// The rows of the first `count` primitives below `prim`, the first of them
/// at `depth`.
pub open spec fn sub_rows(prim: PrimView, count: nat, depth: nat) -> Seq<Row>
    decreases prim, count,
{
    if count == 0 || count > prim.sub.len() {
        Seq::empty()
    } else {
        sub_rows(prim, (count - 1) as nat, depth) + prim_rows(prim.sub[count - 1], depth)
    }
}

/// The rows of a primitive that is nested `depth` levels deep: its own
/// brackets at `depth`, its metadata and attributes one level deeper, and
/// the primitives below it one level deeper.
pub open spec fn prim_rows(prim: PrimView, depth: nat) -> Seq<Row>
    decreases prim, prim.sub.len() + 1,
{
    top_rows(prim, depth) + attribute_entry_rows(prim.attributes, depth + 1) + sub_rows(
        prim,
        prim.sub.len(),
        depth + 1,
    ) + seq![Row { depth, body: "}"@ }]
}

/// The rows of the first `count` primitives, none of them nested.
pub open spec fn top_level_rows(prims: Seq<PrimView>, count: nat) -> Seq<Row>
    decreases count,
{
    if count == 0 || count > prims.len() {
        Seq::empty()
    } else {
        top_level_rows(prims, (count - 1) as nat) + prim_rows(prims[count - 1], 0)
    }
}

/// The rows of a stage: the header line, the metadata block, and the
/// primitives, none of them nested.
pub open spec fn stage_rows(stage: StageView) -> Seq<Row> {
    seq![Row { depth: 0, body: "#usda 1.0"@ }] + meta_rows(Seq::empty(), stage.meta, 0)
        + top_level_rows(stage.sub, stage.sub.len())
}

/// The text of rows one after the other.
pub proof fn lemma_rows_text_concat(first: Seq<Row>, second: Seq<Row>)
    ensures
        rows_text(first + second) == rows_text(first) + rows_text(second),
{
    assert(lines_of(first + second) =~= lines_of(first) + lines_of(second));
    lemma_unlines_concat(lines_of(first), lines_of(second));
}

/// The text of one row.
pub proof fn lemma_rows_text_one(row: Row)
    ensures
        rows_text(seq![row]) == row_line(row) + "\n"@,
{
    assert(lines_of(seq![row]) =~= seq![row_line(row)]);
    lemma_unlines_one(row_line(row));
}

/// The lines of the metadata entries are the text of their rows, one level
/// deep.
pub proof fn lemma_meta_lines_rows(entries: Seq<(Seq<char>, MetaValueView)>)
    ensures
        meta_lines(entries) == rows_text(meta_entry_rows(entries, 1)),
{
    reveal_strlit("    ");
    let a = entries.map_values(|e: (Seq<char>, MetaValueView)| meta_line(e.0, e.1));
    let b = lines_of(meta_entry_rows(entries, 1)).map_values(|line: Seq<char>| line + "\n"@);
    assert(a =~= b) by {
        assert forall|i: int| 0 <= i < a.len() implies a[i] == b[i] by {
            assert("    "@ =~= spaces(4));
            assert(a[i] =~= b[i]);
        }
    }
}

/// The lines of the attributes are the text of their rows, one level deep.
pub proof fn lemma_attribute_rows_text(entries: Seq<(Seq<char>, AttributeView)>)
    ensures
        attribute_rows(entries) == rows_text(attribute_entry_rows(entries, 1)),
{
    reveal_strlit("    ");
    let a = entries.map_values(|e: (Seq<char>, AttributeView)| attribute_row(e.0, e.1));
    let b = lines_of(attribute_entry_rows(entries, 1)).map_values(
        |line: Seq<char>| line + "\n"@,
    );
    assert(a =~= b) by {
        assert forall|i: int| 0 <= i < a.len() implies a[i] == b[i] by {
            assert("    "@ =~= spaces(4));
            assert(a[i] =~= b[i]);
        }
    }
}

/// A metadata block after `start` is the text of its rows.
pub proof fn lemma_meta_block_rows(start: Seq<char>, entries: Seq<(Seq<char>, MetaValueView)>)
    ensures
        entries.len() > 0 ==> start + meta_block(entries) == rows_text(
            meta_rows(start, entries, 0),
        ),
{
    if entries.len() > 0 {
        reveal_strlit("(\n");
        reveal_strlit(")\n");
        reveal_strlit("(");
        reveal_strlit(")");
        reveal_strlit("\n");
        let open = Row { depth: 0, body: start + "("@ };
        let close = Row { depth: 0, body: ")"@ };
        let inner = meta_entry_rows(entries, 1);
        lemma_meta_lines_rows(entries);
        lemma_rows_text_one(open);
        lemma_rows_text_one(close);
        lemma_rows_text_concat(seq![open], inner);
        lemma_rows_text_concat(seq![open] + inner, seq![close]);
        assert(spaces(0) =~= Seq::<char>::empty());
        assert(row_line(open) + "\n"@ =~= start + "(\n"@);
        assert(row_line(close) + "\n"@ =~= ")\n"@);
        assert(start + meta_block(entries) =~= (start + "(\n"@) + meta_lines(entries) + ")\n"@);
    }
}

/// The parts and the separator hold no `c`, so what is joined from them
/// holds none.
pub proof fn lemma_joined_avoids(parts: Seq<Seq<char>>, sep: Seq<char>, c: char)
    requires
        avoids(sep, c),
        forall|i: int| 0 <= i < parts.len() ==> avoids(#[trigger] parts[i], c),
    ensures
        avoids(joined(parts, sep), c),
    decreases parts.len(),
{
    if parts.len() >= 2 {
        let before = parts.drop_last();
        assert forall|i: int| 0 <= i < before.len() implies avoids(#[trigger] before[i], c) by {
            assert(before[i] == parts[i]);
        }
        lemma_joined_avoids(before, sep, c);
        assert(avoids(parts.last(), c));
    } else if parts.len() == 1 {
        assert(avoids(parts[0], c));
    }
}

/// A number in base ten is made of digits.
pub proof fn lemma_decimal_digits(n: nat, c: char)
    requires
        !is_digit(c),
    ensures
        avoids(decimal_text(n), c),
        decimal_text(n).len() > 0,
    decreases n,
{
    if n >= 10 {
        lemma_decimal_digits(n / 10, c);
    }
}

/// A numeral holds neither line feed nor carriage return nor space.
pub proof fn lemma_numeral_plain(numeral: Seq<char>)
    requires
        is_numeral(numeral),
    ensures
        numeral.len() > 0,
        avoids(numeral, '\n'),
        avoids(numeral, '\r'),
        avoids(numeral, ' '),
{
    lemma_numeral_chars(numeral);
    assert forall|i: int| 0 <= i < numeral.len() implies numeral[i] != '\n' && numeral[i] != '\r'
        && numeral[i] != ' ' by {
        assert(is_numeral_char(numeral[i]));
    }
}

/// What stands on the line of a metadata entry is a plain body, if the name
/// starts with no space and neither the name nor a string value holds a line
/// feed.
pub proof fn lemma_meta_body_plain(name: Seq<char>, value: MetaValueView)
    requires
        name.len() > 0,
        name[0] != ' ',
        avoids(name, '\n'),
        meta_value_valid(value),
        meta_value_avoids(value, '\n'),
    ensures
        plain_body(meta_body(name, value)),
{
    reveal_strlit(" = ");
    reveal_strlit("\"");
    let written = meta_value_text(value);
    assert(written.len() > 0 && written.last() != '\r' && avoids(written, '\n')) by {
        match value {
            MetaValueView::String(s) => {
                assert(written.last() == '"');
                assert(avoids("\""@, '\n'));
            },
            MetaValueView::Float(n) => {
                lemma_numeral_plain(n);
            },
        }
    }
    let body = meta_body(name, value);
    assert(body[0] == name[0]);
    assert(body.last() == written.last());
    assert(avoids(" = "@, '\n'));
    assert(avoids(body, '\n'));
}

/// The text of a writable attribute is a plain body, if neither its name nor
/// a string value holds a line feed.
pub proof fn lemma_attribute_line_plain(name: Seq<char>, attribute: AttributeView)
    requires
        attribute.writable(),
        attribute_valid(attribute),
        avoids(name, '\n'),
        attribute_avoids(attribute, '\n'),
    ensures
        plain_body(attribute_line(name, attribute)),
{
    reveal_strlit(" ");
    reveal_strlit(" = ");
    reveal_strlit("\"");
    reveal_strlit("[");
    reveal_strlit("]");
    reveal_strlit("(");
    reveal_strlit(")");
    reveal_strlit(", ");
    reveal_strlit("string");
    reveal_strlit("int[]");
    reveal_strlit("float3[]");
    reveal_strlit("point3f[]");
    let feed = '\n';
    let written = attribute_value_text(attribute);
    assert(avoids(", "@, feed));
    assert(avoids("["@, feed) && avoids("]"@, feed));
    assert(written.len() > 0 && written.last() != '\r' && avoids(written, feed)) by {
        match attribute {
            AttributeView::String(s) => {
                assert(written.last() == '"');
                assert(avoids("\""@, feed));
            },
            AttributeView::IntArray(items) => {
                let texts = int_texts(items);
                assert forall|i: int| 0 <= i < texts.len() implies avoids(
                    #[trigger] texts[i],
                    feed,
                ) by {
                    lemma_decimal_digits(items[i] as nat, feed);
                }
                lemma_joined_avoids(texts, ", "@, feed);
                assert(written.last() == ']');
            },
            AttributeView::Float3Array(items) => {
                lemma_triples_avoid_feed(items);
                lemma_joined_avoids(triple_texts(items), ", "@, feed);
                assert(written.last() == ']');
            },
            AttributeView::PointFloat3Array(items) => {
                lemma_triples_avoid_feed(items);
                lemma_joined_avoids(triple_texts(items), ", "@, feed);
                assert(written.last() == ']');
            },
            _ => {},
        }
    }
    let tag = type_tag(attribute);
    assert(tag.len() > 0 && tag[0] != ' ' && avoids(tag, feed));
    let body = attribute_line(name, attribute);
    assert(body[0] == tag[0]);
    assert(body.last() == written.last());
    assert(avoids(" "@, feed));
    assert(avoids(" = "@, feed));
    assert(avoids(body, feed));
}

/// Triples of numerals are written without a line feed.
proof fn lemma_triples_avoid_feed(items: Seq<Triple>)
    requires
        forall|i: int| 0 <= i < items.len() ==> triple_valid(#[trigger] items[i]),
    ensures
        forall|i: int|
            0 <= i < triple_texts(items).len() ==> avoids(#[trigger] triple_texts(items)[i], '\n'),
{
    reveal_strlit("(");
    reveal_strlit(")");
    reveal_strlit(", ");
    assert forall|i: int| 0 <= i < triple_texts(items).len() implies avoids(
        #[trigger] triple_texts(items)[i],
        '\n',
    ) by {
        let t = items[i];
        assert(triple_valid(t));
        lemma_numeral_plain(t.0);
        lemma_numeral_plain(t.1);
        lemma_numeral_plain(t.2);
        assert(avoids("("@, '\n') && avoids(")"@, '\n') && avoids(", "@, '\n'));
        assert(avoids(triple_text(t), '\n'));
    }
}

/// Nesting deeper goes row by row.
pub proof fn lemma_raised_concat(first: Seq<Row>, second: Seq<Row>)
    ensures
        raised(first + second) == raised(first) + raised(second),
{
    assert(raised(first + second) =~= raised(first) + raised(second));
}

/// The rows of the primitives below `prim`, nested one level deeper, are
/// their rows at the next depth.
proof fn lemma_sub_rows_raised(prim: PrimView, count: nat, depth: nat)
    ensures
        raised(sub_rows(prim, count, depth)) == sub_rows(prim, count, depth + 1),
    decreases prim, count,
{
    if count == 0 || count > prim.sub.len() {
        assert(raised(Seq::<Row>::empty()) =~= Seq::<Row>::empty());
    } else {
        lemma_sub_rows_raised(prim, (count - 1) as nat, depth);
        lemma_prim_rows_raised(prim.sub[count - 1], depth);
        lemma_raised_concat(
            sub_rows(prim, (count - 1) as nat, depth),
            prim_rows(prim.sub[count - 1], depth),
        );
    }
}

/// The rows of a primitive, nested one level deeper, are its rows at the
/// next depth.
pub proof fn lemma_prim_rows_raised(prim: PrimView, depth: nat)
    ensures
        raised(prim_rows(prim, depth)) == prim_rows(prim, depth + 1),
    decreases prim, prim.sub.len() + 1,
{
    let top = top_rows(prim, depth);
    let own = attribute_entry_rows(prim.attributes, depth + 1);
    let below = sub_rows(prim, prim.sub.len(), depth + 1);
    let end = seq![Row { depth, body: "}"@ }];
    lemma_sub_rows_raised(prim, prim.sub.len(), depth + 1);
    lemma_raised_concat(top, own);
    lemma_raised_concat(top + own, below);
    lemma_raised_concat(top + own + below, end);
    assert(raised(top) =~= top_rows(prim, depth + 1));
    assert(raised(own) =~= attribute_entry_rows(prim.attributes, depth + 2));
    assert(raised(end) =~= seq![Row { depth: depth + 1, body: "}"@ }]);
}

/// The rows of a metadata block have plain bodies, if the line that it
/// opens on starts like a plain body.
pub proof fn lemma_meta_rows_plain(
    start: Seq<char>,
    entries: Seq<(Seq<char>, MetaValueView)>,
    depth: nat,
)
    requires
        start.len() == 0 || start[0] != ' ',
        avoids(start, '\n'),
        meta_valid(entries),
        meta_avoids(entries, '\n'),
        meta_names_start(entries),
    ensures
        plain_rows(meta_rows(start, entries, depth)),
{
    reveal_strlit("(");
    reveal_strlit(")");
    if entries.len() > 0 {
        let open = start + "("@;
        assert(open.last() == '(');
        assert(open[0] != ' ');
        assert(avoids(open, '\n'));
        let inner = meta_entry_rows(entries, depth + 1);
        assert forall|i: int| 0 <= i < inner.len() implies plain_body(
            (#[trigger] inner[i]).body,
        ) by {
            lemma_meta_body_plain(entries[i].0, entries[i].1);
        }
        lemma_plain_rows_concat(seq![Row { depth, body: open }], inner);
        lemma_plain_rows_concat(
            seq![Row { depth, body: open }] + inner,
            seq![Row { depth, body: ")"@ }],
        );
    }
}

/// The rows of the primitives below `prim` have plain bodies.
proof fn lemma_sub_rows_plain(prim: PrimView, count: nat, depth: nat)
    requires
        prim.writable(),
        prim_valid(prim),
        prim_avoids(prim, '\n'),
        prim_names_start(prim),
    ensures
        plain_rows(sub_rows(prim, count, depth)),
    decreases prim, count,
{
    if count == 0 || count > prim.sub.len() {
    } else {
        lemma_sub_rows_plain(prim, (count - 1) as nat, depth);
        lemma_prim_rows_plain(prim.sub[count - 1], depth);
        lemma_plain_rows_concat(
            sub_rows(prim, (count - 1) as nat, depth),
            prim_rows(prim.sub[count - 1], depth),
        );
    }
}

/// The rows of a writable primitive have plain bodies, if its names and
/// strings hold no line feed and the names of its metadata start with no
/// space.
pub proof fn lemma_prim_rows_plain(prim: PrimView, depth: nat)
    requires
        prim.writable(),
        prim_valid(prim),
        prim_avoids(prim, '\n'),
        prim_names_start(prim),
    ensures
        plain_rows(prim_rows(prim, depth)),
    decreases prim, prim.sub.len() + 1,
{
    reveal_strlit("def ");
    reveal_strlit("Xform");
    reveal_strlit("Mesh");
    reveal_strlit(" \"");
    reveal_strlit("\" ");
    reveal_strlit("{");
    reveal_strlit("}");
    let header = prim_header(prim);
    assert(header[0] == 'd');
    assert(avoids("def "@, '\n') && avoids(prim_type_text(prim.prim_type), '\n'));
    assert(avoids(" \""@, '\n') && avoids("\" "@, '\n'));
    assert(avoids(header, '\n'));
    let top = top_rows(prim, depth);
    assert(plain_rows(top)) by {
        if prim.meta.len() == 0 {
            let body = header + "{"@;
            assert(body[0] == 'd' && body.last() == '{');
            assert(avoids(body, '\n'));
        } else {
            lemma_meta_rows_plain(header, prim.meta, depth);
            lemma_plain_rows_concat(
                meta_rows(header, prim.meta, depth),
                seq![Row { depth, body: "{"@ }],
            );
        }
    }
    let own = attribute_entry_rows(prim.attributes, depth + 1);
    assert forall|i: int| 0 <= i < own.len() implies plain_body((#[trigger] own[i]).body) by {
        lemma_attribute_line_plain(prim.attributes[i].0, prim.attributes[i].1);
    }
    let below = sub_rows(prim, prim.sub.len(), depth + 1);
    lemma_sub_rows_plain(prim, prim.sub.len(), depth + 1);
    lemma_plain_rows_concat(top, own);
    lemma_plain_rows_concat(top + own, below);
    lemma_plain_rows_concat(top + own + below, seq![Row { depth, body: "}"@ }]);
}

/// The blocks of the primitives below `prim` are the text of their rows,
/// one level deep.
proof fn lemma_sub_blocks_rows(prim: PrimView, count: nat)
    requires
        prim.writable(),
        prim_valid(prim),
        prim_avoids(prim, '\n'),
        prim_names_start(prim),
    ensures
        sub_blocks(prim, count).flatten() == rows_text(sub_rows(prim, count, 1)),
    decreases prim, count,
{
    if count == 0 || count > prim.sub.len() {
        assert(lines_of(Seq::<Row>::empty()) =~= Seq::<Seq<char>>::empty());
        lemma_unlines_empty();
    } else {
        let child = prim.sub[count - 1];
        let before = sub_blocks(prim, (count - 1) as nat);
        lemma_sub_blocks_rows(prim, (count - 1) as nat);
        lemma_prim_text_rows(child);
        lemma_prim_rows_plain(child, 0);
        lemma_indented_rows(prim_rows(child, 0));
        lemma_prim_rows_raised(child, 0);
        before.lemma_flatten_push(indented(prim_text(child)));
        lemma_rows_text_concat(sub_rows(prim, (count - 1) as nat, 1), prim_rows(child, 1));
    }
}

/// The block of a writable primitive is the text of its rows, if its names
/// and strings hold no line feed and the names of its metadata start with
/// no space.
pub proof fn lemma_prim_text_rows(prim: PrimView)
    requires
        prim.writable(),
        prim_valid(prim),
        prim_avoids(prim, '\n'),
        prim_names_start(prim),
    ensures
        prim_text(prim) == rows_text(prim_rows(prim, 0)),
    decreases prim, prim.sub.len() + 1,
{
    reveal_strlit("{\n");
    reveal_strlit("}\n");
    reveal_strlit("{");
    reveal_strlit("}");
    reveal_strlit("\n");
    let header = prim_header(prim);
    let top = top_rows(prim, 0);
    let own = attribute_entry_rows(prim.attributes, 1);
    let below = sub_rows(prim, prim.sub.len(), 1);
    let end = Row { depth: 0, body: "}"@ };
    assert(spaces(0) =~= Seq::<char>::empty());
    assert(rows_text(top) == header + meta_block(prim.meta) + "{\n"@) by {
        if prim.meta.len() == 0 {
            let first = Row { depth: 0, body: header + "{"@ };
            lemma_rows_text_one(first);
            assert(row_line(first) + "\n"@ =~= header + "{\n"@);
            assert(header + meta_block(prim.meta) + "{\n"@ =~= header + "{\n"@);
        } else {
            let brace = Row { depth: 0, body: "{"@ };
            lemma_meta_block_rows(header, prim.meta);
            lemma_rows_text_one(brace);
            lemma_rows_text_concat(meta_rows(header, prim.meta, 0), seq![brace]);
            assert(row_line(brace) + "\n"@ =~= "{\n"@);
        }
    }
    lemma_attribute_rows_text(prim.attributes);
    lemma_sub_blocks_rows(prim, prim.sub.len());
    lemma_rows_text_one(end);
    assert(row_line(end) + "\n"@ =~= "}\n"@);
    lemma_rows_text_concat(top, own);
    lemma_rows_text_concat(top + own, below);
    lemma_rows_text_concat(top + own + below, seq![end]);
}

/// Every line of the block of a writable primitive is indented by four
/// spaces for each level of its nesting: the lines of the block are the
/// lines of its rows, in order, and each starts with four spaces for each
/// level of its row and then a character that is no space. This holds if
/// the names and strings of the primitive and of those below it hold no
/// line feed and the names of their metadata start with no space.
pub proof fn lemma_prim_lines_indented(prim: PrimView)
    requires
        prim.writable(),
        prim_valid(prim),
        prim_avoids(prim, '\n'),
        prim_names_start(prim),
    ensures
        split_lines(prim_text(prim)) == lines_of(prim_rows(prim, 0)),
        forall|i: int|
            0 <= i < prim_rows(prim, 0).len() ==> indentation(
                #[trigger] split_lines(prim_text(prim))[i],
            ) == 4 * prim_rows(prim, 0)[i].depth,
{
    let rows = prim_rows(prim, 0);
    lemma_prim_text_rows(prim);
    lemma_prim_rows_plain(prim, 0);
    lemma_lines_whole(rows);
    lemma_split_unlines(lines_of(rows));
    assert forall|i: int| 0 <= i < rows.len() implies indentation(
        #[trigger] split_lines(prim_text(prim))[i],
    ) == 4 * rows[i].depth by {
        lemma_row_line(rows[i]);
        assert(lines_of(rows)[i] == row_line(rows[i]));
    }
}

/// The blocks of the first `count` primitives are the text of their rows,
/// and these rows have plain bodies.
proof fn lemma_top_level_rows(prims: Seq<PrimView>, count: nat)
    requires
        count <= prims.len(),
        forall|i: int|
            0 <= i < prims.len() ==> {
                &&& (#[trigger] prims[i]).writable()
                &&& prim_valid(prims[i])
                &&& prim_avoids(prims[i], '\n')
                &&& prim_names_start(prims[i])
            },
    ensures
        prim_blocks(prims.take(count as int)) == rows_text(top_level_rows(prims, count)),
        plain_rows(top_level_rows(prims, count)),
    decreases count,
{
    let block_of = |p: PrimView| prim_text(p);
    if count == 0 {
        assert(prims.take(0).map_values(block_of) =~= Seq::<Seq<char>>::empty());
        assert(lines_of(Seq::<Row>::empty()) =~= Seq::<Seq<char>>::empty());
        lemma_unlines_empty();
    } else {
        let last = prims[count - 1];
        lemma_top_level_rows(prims, (count - 1) as nat);
        lemma_prim_text_rows(last);
        lemma_prim_rows_plain(last, 0);
        let done = prims.take(count - 1).map_values(block_of);
        assert(prims.take(count as int).map_values(block_of) =~= done.push(prim_text(last)));
        done.lemma_flatten_push(prim_text(last));
        lemma_rows_text_concat(top_level_rows(prims, (count - 1) as nat), prim_rows(last, 0));
        lemma_plain_rows_concat(top_level_rows(prims, (count - 1) as nat), prim_rows(last, 0));
    }
}

/// Every line of the document of a writable stage is indented by four
/// spaces for each level of its nesting: the lines of the document are the
/// lines of its rows, in order, and each starts with four spaces for each
/// level of its row and then a character that is no space. This holds if
/// the names and strings of the stage hold no line feed and the names of
/// its metadata start with no space.
pub proof fn lemma_stage_lines_indented(stage: StageView)
    requires
        stage.writable(),
        stage_valid(stage),
        stage_avoids(stage, '\n'),
        stage_names_start(stage),
    ensures
        split_lines(stage_text(stage)) == lines_of(stage_rows(stage)),
        forall|i: int|
            0 <= i < stage_rows(stage).len() ==> indentation(
                #[trigger] split_lines(stage_text(stage))[i],
            ) == 4 * stage_rows(stage)[i].depth,
{
    reveal_strlit("#usda 1.0\n");
    reveal_strlit("#usda 1.0");
    reveal_strlit("\n");
    let first = Row { depth: 0, body: "#usda 1.0"@ };
    let meta = meta_rows(Seq::empty(), stage.meta, 0);
    let prims = top_level_rows(stage.sub, stage.sub.len());
    let rows = stage_rows(stage);
    assert(spaces(0) =~= Seq::<char>::empty());
    lemma_rows_text_one(first);
    assert(row_line(first) + "\n"@ =~= document_header());
    assert(plain_body(first.body));
    lemma_meta_rows_plain(Seq::empty(), stage.meta, 0);
    assert(rows_text(meta) == meta_block(stage.meta)) by {
        if stage.meta.len() == 0 {
            assert(lines_of(meta) =~= Seq::<Seq<char>>::empty());
            lemma_unlines_empty();
        } else {
            lemma_meta_block_rows(Seq::empty(), stage.meta);
            assert(Seq::<char>::empty() + meta_block(stage.meta) =~= meta_block(stage.meta));
        }
    }
    lemma_top_level_rows(stage.sub, stage.sub.len());
    assert(stage.sub.take(stage.sub.len() as int) =~= stage.sub);
    lemma_rows_text_concat(seq![first], meta);
    lemma_rows_text_concat(seq![first] + meta, prims);
    lemma_plain_rows_concat(seq![first], meta);
    lemma_plain_rows_concat(seq![first] + meta, prims);
    assert(stage_text(stage) == rows_text(rows));
    lemma_lines_whole(rows);
    lemma_split_unlines(lines_of(rows));
    assert forall|i: int| 0 <= i < rows.len() implies indentation(
        #[trigger] split_lines(stage_text(stage))[i],
    ) == 4 * rows[i].depth by {
        lemma_row_line(rows[i]);
        assert(lines_of(rows)[i] == row_line(rows[i]));
    }
}

} // verus!
