//! The brackets of scene text are balanced, whatever the scene, as long as
//! its names and strings hold no bracket of the same kind.

use vstd::prelude::*;

use crate::balance::{
    avoids, balanced, closing, level, lemma_level_concat, lemma_level_flatten, lemma_level_free,
    lemma_level_indented, lemma_level_wrapped,
};
use crate::lines::indented;
use crate::number::{is_numeral, is_numeral_char, lemma_numeral_chars};
use crate::plain::{
    attribute_avoids, attribute_valid, attributes_avoid, attributes_valid, meta_avoids,
    meta_valid, meta_value_avoids, meta_value_valid, prim_avoids, prim_valid, stage_avoids,
    stage_valid, triple_valid,
};
use crate::prim::{
    attribute_row, attribute_rows, attribute_value_text, int_texts, prim_header, prim_text,
    prim_type_text, sub_blocks, triple_text, triple_texts, type_tag, AttributeView, PrimView,
    Triple,
};
use crate::stage::{document_header, prim_blocks, stage_text, StageView};
use crate::text::{decimal_text, joined, list_text, quoted};
use crate::{meta_block, meta_line, meta_lines, meta_value_text, MetaValueView};

verus! {

/// Curly brackets, or round brackets.
pub open spec fn bracket_pair(open: char, close: char) -> bool {
    (open == '{' && close == '}') || (open == '(' && close == ')')
}

/// Neither bracket occurs in `text`.
pub open spec fn free(text: Seq<char>, open: char, close: char) -> bool {
    avoids(text, open) && avoids(text, close)
}

/// A numeral holds no bracket.
pub proof fn lemma_numeral_free(numeral: Seq<char>, open: char, close: char)
    requires
        is_numeral(numeral),
        bracket_pair(open, close),
    ensures
        free(numeral, open, close),
{
    lemma_numeral_chars(numeral);
    assert forall|i: int| 0 <= i < numeral.len() implies numeral[i] != open && numeral[i]
        != close by {
        assert(is_numeral_char(numeral[i]));
    }
}

/// A number in base ten holds no bracket.
pub proof fn lemma_decimal_free(n: nat, open: char, close: char)
    requires
        bracket_pair(open, close),
    ensures
        free(decimal_text(n), open, close),
    decreases n,
{
    if n >= 10 {
        lemma_decimal_free(n / 10, open, close);
    }
}

/// Level parts with a level separator between them are level.
pub proof fn lemma_level_joined(parts: Seq<Seq<char>>, sep: Seq<char>, open: char, close: char)
    requires
        level(sep, open, close),
        forall|i: int| 0 <= i < parts.len() ==> level(#[trigger] parts[i], open, close),
    ensures
        level(joined(parts, sep), open, close),
    decreases parts.len(),
{
    if parts.len() == 0 {
        lemma_level_free(joined(parts, sep), open, close);
    } else if parts.len() == 1 {
    } else {
        let before = parts.drop_last();
        assert forall|i: int| 0 <= i < before.len() implies level(
            #[trigger] before[i],
            open,
            close,
        ) by {
            assert(before[i] == parts[i]);
        }
        lemma_level_joined(before, sep, open, close);
        lemma_level_concat(joined(before, sep), sep, open, close);
        lemma_level_concat(joined(before, sep) + sep, parts.last(), open, close);
    }
}

/// The line of a metadata entry is level.
pub proof fn lemma_meta_line_level(
    name: Seq<char>,
    value: MetaValueView,
    open: char,
    close: char,
)
    requires
        bracket_pair(open, close),
        free(name, open, close),
        meta_value_valid(value),
        meta_value_avoids(value, open),
        meta_value_avoids(value, close),
    ensures
        level(meta_line(name, value), open, close),
{
    reveal_strlit("    ");
    reveal_strlit(" = ");
    reveal_strlit("\n");
    reveal_strlit("\"");
    let written = meta_value_text(value);
    assert(free(written, open, close)) by {
        match value {
            MetaValueView::String(s) => {
                assert(free("\""@, open, close));
            },
            MetaValueView::Float(n) => {
                lemma_numeral_free(n, open, close);
            },
        }
    }
    assert(free("    "@, open, close));
    assert(free(" = "@, open, close));
    assert(free("\n"@, open, close));
    assert(free(meta_line(name, value), open, close));
    lemma_level_free(meta_line(name, value), open, close);
}

/// The metadata block is level.
pub proof fn lemma_meta_block_level(
    entries: Seq<(Seq<char>, MetaValueView)>,
    open: char,
    close: char,
)
    requires
        bracket_pair(open, close),
        meta_valid(entries),
        meta_avoids(entries, open),
        meta_avoids(entries, close),
    ensures
        level(meta_block(entries), open, close),
{
    reveal_strlit("(\n");
    reveal_strlit(")\n");
    reveal_strlit("\n");
    if entries.len() == 0 {
        lemma_level_free(meta_block(entries), open, close);
    } else {
        let lines = entries.map_values(|e: (Seq<char>, MetaValueView)| meta_line(e.0, e.1));
        assert forall|i: int| 0 <= i < lines.len() implies level(
            #[trigger] lines[i],
            open,
            close,
        ) by {
            lemma_meta_line_level(entries[i].0, entries[i].1, open, close);
        }
        lemma_level_flatten(lines, open, close);
        let body = meta_lines(entries);
        let feed = "\n"@;
        assert(free(feed, open, close));
        lemma_level_free(feed, open, close);
        if open == '(' {
            lemma_level_concat(feed, body, open, close);
            lemma_level_wrapped(feed + body, open, close);
            lemma_level_concat(seq![open] + (feed + body) + seq![close], feed, open, close);
            assert(meta_block(entries) =~= (seq![open] + (feed + body) + seq![close]) + feed);
        } else {
            assert(free("(\n"@, open, close));
            assert(free(")\n"@, open, close));
            lemma_level_free("(\n"@, open, close);
            lemma_level_free(")\n"@, open, close);
            lemma_level_concat("(\n"@, body, open, close);
            lemma_level_concat("(\n"@ + body, ")\n"@, open, close);
        }
    }
}

/// Three numerals between round brackets are level.
pub proof fn lemma_triple_level(t: Triple, open: char, close: char)
    requires
        bracket_pair(open, close),
        triple_valid(t),
    ensures
        level(triple_text(t), open, close),
{
    reveal_strlit("(");
    reveal_strlit(")");
    reveal_strlit(", ");
    lemma_numeral_free(t.0, open, close);
    lemma_numeral_free(t.1, open, close);
    lemma_numeral_free(t.2, open, close);
    let inner = t.0 + ", "@ + t.1 + ", "@ + t.2;
    assert(free(", "@, open, close));
    assert(free(inner, open, close));
    lemma_level_free(inner, open, close);
    if open == '(' {
        lemma_level_wrapped(inner, open, close);
        assert(triple_text(t) =~= seq![open] + inner + seq![close]);
    } else {
        assert(free(triple_text(t), open, close));
        lemma_level_free(triple_text(t), open, close);
    }
}

/// A list of level items is level.
pub proof fn lemma_list_level(items: Seq<Seq<char>>, open: char, close: char)
    requires
        bracket_pair(open, close),
        forall|i: int| 0 <= i < items.len() ==> level(#[trigger] items[i], open, close),
    ensures
        level(list_text(items), open, close),
{
    reveal_strlit("[");
    reveal_strlit("]");
    reveal_strlit(", ");
    assert(free("["@, open, close));
    assert(free("]"@, open, close));
    assert(free(", "@, open, close));
    lemma_level_free("["@, open, close);
    lemma_level_free("]"@, open, close);
    lemma_level_free(", "@, open, close);
    lemma_level_joined(items, ", "@, open, close);
    lemma_level_concat("["@, joined(items, ", "@), open, close);
    lemma_level_concat("["@ + joined(items, ", "@), "]"@, open, close);
}

/// The line of a writable attribute inside the block of its primitive is
/// level.
pub proof fn lemma_attribute_row_level(
    name: Seq<char>,
    attribute: AttributeView,
    open: char,
    close: char,
)
    requires
        bracket_pair(open, close),
        attribute.writable(),
        attribute_valid(attribute),
        free(name, open, close),
        attribute_avoids(attribute, open),
        attribute_avoids(attribute, close),
    ensures
        level(attribute_row(name, attribute), open, close),
{
    reveal_strlit("    ");
    reveal_strlit(" ");
    reveal_strlit(" = ");
    reveal_strlit("\n");
    reveal_strlit("\"");
    reveal_strlit("string");
    reveal_strlit("int[]");
    reveal_strlit("float3[]");
    reveal_strlit("point3f[]");
    let written = attribute_value_text(attribute);
    assert(level(written, open, close)) by {
        match attribute {
            AttributeView::String(s) => {
                assert(free("\""@, open, close));
                assert(free(quoted(s), open, close));
                lemma_level_free(quoted(s), open, close);
            },
            AttributeView::IntArray(items) => {
                let texts = int_texts(items);
                assert forall|i: int| 0 <= i < texts.len() implies level(
                    #[trigger] texts[i],
                    open,
                    close,
                ) by {
                    lemma_decimal_free(items[i] as nat, open, close);
                    lemma_level_free(texts[i], open, close);
                }
                lemma_list_level(texts, open, close);
            },
            AttributeView::Float3Array(items) => {
                let texts = triple_texts(items);
                assert forall|i: int| 0 <= i < texts.len() implies level(
                    #[trigger] texts[i],
                    open,
                    close,
                ) by {
                    lemma_triple_level(items[i], open, close);
                }
                lemma_list_level(texts, open, close);
            },
            AttributeView::PointFloat3Array(items) => {
                let texts = triple_texts(items);
                assert forall|i: int| 0 <= i < texts.len() implies level(
                    #[trigger] texts[i],
                    open,
                    close,
                ) by {
                    lemma_triple_level(items[i], open, close);
                }
                lemma_list_level(texts, open, close);
            },
            _ => {},
        }
    }
    let tag = type_tag(attribute);
    assert(free(tag, open, close));
    assert(free("    "@, open, close));
    assert(free(" "@, open, close));
    assert(free(" = "@, open, close));
    assert(free("\n"@, open, close));
    let start = "    "@ + (tag + " "@ + name + " = "@);
    assert(free(start, open, close));
    lemma_level_free(start, open, close);
    lemma_level_free("\n"@, open, close);
    lemma_level_concat(start, written, open, close);
    lemma_level_concat(start + written, "\n"@, open, close);
    assert(attribute_row(name, attribute) =~= (start + written) + "\n"@);
}

/// The lines of writable attributes are level.
pub proof fn lemma_attribute_rows_level(
    entries: Seq<(Seq<char>, AttributeView)>,
    open: char,
    close: char,
)
    requires
        bracket_pair(open, close),
        forall|i: int| 0 <= i < entries.len() ==> (#[trigger] entries[i]).1.writable(),
        attributes_valid(entries),
        attributes_avoid(entries, open),
        attributes_avoid(entries, close),
    ensures
        level(attribute_rows(entries), open, close),
{
    let rows = entries.map_values(|e: (Seq<char>, AttributeView)| attribute_row(e.0, e.1));
    assert forall|i: int| 0 <= i < rows.len() implies level(#[trigger] rows[i], open, close) by {
        lemma_attribute_row_level(entries[i].0, entries[i].1, open, close);
    }
    lemma_level_flatten(rows, open, close);
}

/// The blocks of the first `count` primitives below `prim` are level.
proof fn lemma_sub_blocks_level(prim: PrimView, count: nat, open: char, close: char)
    requires
        bracket_pair(open, close),
        prim.writable(),
        prim_valid(prim),
        prim_avoids(prim, open),
        prim_avoids(prim, close),
    ensures
        forall|i: int|
            0 <= i < sub_blocks(prim, count).len() ==> level(
                #[trigger] sub_blocks(prim, count)[i],
                open,
                close,
            ),
    decreases prim, count,
{
    if count == 0 || count > prim.sub.len() {
    } else {
        let before = sub_blocks(prim, (count - 1) as nat);
        let child = prim.sub[count - 1];
        lemma_sub_blocks_level(prim, (count - 1) as nat, open, close);
        lemma_prim_level(child, open, close);
        lemma_level_indented(prim_text(child), open, close);
        let blocks = sub_blocks(prim, count);
        assert(blocks == before.push(indented(prim_text(child))));
        assert forall|i: int| 0 <= i < blocks.len() implies level(
            #[trigger] blocks[i],
            open,
            close,
        ) by {
            if i < before.len() {
                assert(blocks[i] == before[i]);
            }
        }
    }
}

/// The block of a writable primitive is level for curly brackets and for
/// round brackets, if its names and strings hold none of them.
pub proof fn lemma_prim_level(prim: PrimView, open: char, close: char)
    requires
        bracket_pair(open, close),
        prim.writable(),
        prim_valid(prim),
        prim_avoids(prim, open),
        prim_avoids(prim, close),
    ensures
        level(prim_text(prim), open, close),
    decreases prim, prim.sub.len() + 1,
{
    reveal_strlit("def ");
    reveal_strlit("Xform");
    reveal_strlit("Mesh");
    reveal_strlit(" \"");
    reveal_strlit("\" ");
    reveal_strlit("{\n");
    reveal_strlit("}\n");
    reveal_strlit("\n");
    let header = prim_header(prim);
    assert(free("def "@, open, close));
    assert(free(prim_type_text(prim.prim_type), open, close));
    assert(free(" \""@, open, close));
    assert(free("\" "@, open, close));
    assert(free(header, open, close));
    lemma_level_free(header, open, close);
    lemma_meta_block_level(prim.meta, open, close);
    lemma_attribute_rows_level(prim.attributes, open, close);
    lemma_sub_blocks_level(prim, prim.sub.len(), open, close);
    lemma_level_flatten(sub_blocks(prim, prim.sub.len()), open, close);
    let top = header + meta_block(prim.meta);
    lemma_level_concat(header, meta_block(prim.meta), open, close);
    let inside = attribute_rows(prim.attributes) + sub_blocks(prim, prim.sub.len()).flatten();
    lemma_level_concat(
        attribute_rows(prim.attributes),
        sub_blocks(prim, prim.sub.len()).flatten(),
        open,
        close,
    );
    let feed = "\n"@;
    assert(free(feed, open, close));
    lemma_level_free(feed, open, close);
    if open == '{' {
        lemma_level_concat(feed, inside, open, close);
        lemma_level_wrapped(feed + inside, open, close);
        let braces = seq![open] + (feed + inside) + seq![close];
        lemma_level_concat(top, braces, open, close);
        lemma_level_concat(top + braces, feed, open, close);
        assert(prim_text(prim) =~= (top + braces) + feed);
    } else {
        assert(free("{\n"@, open, close));
        assert(free("}\n"@, open, close));
        lemma_level_free("{\n"@, open, close);
        lemma_level_free("}\n"@, open, close);
        lemma_level_concat(top, "{\n"@, open, close);
        lemma_level_concat(top + "{\n"@, inside, open, close);
        lemma_level_concat(top + "{\n"@ + inside, "}\n"@, open, close);
        assert(prim_text(prim) =~= top + "{\n"@ + inside + "}\n"@);
    }
}

/// In the block of a writable primitive every closing curly bracket closes
/// an opening one before it and none is left open, and so for round
/// brackets, if the names and strings of the primitive and of those below it
/// hold no bracket of that kind.
pub proof fn lemma_prim_text_balanced(prim: PrimView, open: char, close: char)
    requires
        bracket_pair(open, close),
        prim.writable(),
        prim_valid(prim),
        prim_avoids(prim, open),
        prim_avoids(prim, close),
    ensures
        balanced(prim_text(prim), open, close),
{
    lemma_prim_level(prim, open, close);
    assert(closing(prim_text(prim), open, close, 0) == Some(0nat));
}

/// In the document of a writable stage every closing curly bracket closes
/// an opening one before it and none is left open, and so for round
/// brackets, if the names and strings of the stage hold no bracket of that
/// kind.
pub proof fn lemma_stage_text_balanced(stage: StageView, open: char, close: char)
    requires
        bracket_pair(open, close),
        stage.writable(),
        stage_valid(stage),
        stage_avoids(stage, open),
        stage_avoids(stage, close),
    ensures
        balanced(stage_text(stage), open, close),
{
    reveal_strlit("#usda 1.0\n");
    let header = document_header();
    assert(free(header, open, close));
    lemma_level_free(header, open, close);
    lemma_meta_block_level(stage.meta, open, close);
    let blocks = stage.sub.map_values(|p: PrimView| prim_text(p));
    assert forall|i: int| 0 <= i < blocks.len() implies level(
        #[trigger] blocks[i],
        open,
        close,
    ) by {
        lemma_prim_level(stage.sub[i], open, close);
    }
    lemma_level_flatten(blocks, open, close);
    lemma_level_concat(header, meta_block(stage.meta), open, close);
    lemma_level_concat(header + meta_block(stage.meta), prim_blocks(stage.sub), open, close);
    assert(closing(stage_text(stage), open, close, 0) == Some(0nat));
}

} // verus!
