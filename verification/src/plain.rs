//! Conditions on what a scene holds: that its numerals are numerals, and
//! that its names and strings keep clear of a given character.

use vstd::prelude::*;

use crate::balance::avoids;
use crate::number::{is_numeral, lemma_number_view, Number};
use crate::prim::{
    lemma_view_sub, pair_view, triples_view, Attribute, AttributeView, Pair, Prim, PrimView,
    Triple,
};
use crate::stage::{Stage, StageView};
use crate::{MetaValue, MetaValueView};

verus! {

/// A number in a metadata slot is held by a numeral.
pub open spec fn meta_value_valid(value: MetaValueView) -> bool {
    value matches MetaValueView::Float(n) ==> is_numeral(n)
}

/// A string in a metadata slot does not hold `c`.
pub open spec fn meta_value_avoids(value: MetaValueView, c: char) -> bool {
    value matches MetaValueView::String(s) ==> avoids(s, c)
}

/// Every number in the metadata is held by a numeral.
pub open spec fn meta_valid(entries: Seq<(Seq<char>, MetaValueView)>) -> bool {
    forall|i: int| 0 <= i < entries.len() ==> meta_value_valid((#[trigger] entries[i]).1)
}

/// No name and no string in the metadata holds `c`.
pub open spec fn meta_avoids(entries: Seq<(Seq<char>, MetaValueView)>, c: char) -> bool {
    forall|i: int|
        0 <= i < entries.len() ==> avoids((#[trigger] entries[i]).0, c) && meta_value_avoids(
            entries[i].1,
            c,
        )
}

/// Three numerals.
pub open spec fn triple_valid(t: Triple) -> bool {
    is_numeral(t.0) && is_numeral(t.1) && is_numeral(t.2)
}

/// Two numerals.
pub open spec fn pair_valid(t: Pair) -> bool {
    is_numeral(t.0) && is_numeral(t.1)
}

/// Every number in the attribute is held by a numeral.
pub open spec fn attribute_valid(attribute: AttributeView) -> bool {
    match attribute {
        AttributeView::String(_) => true,
        AttributeView::IntArray(_) => true,
        AttributeView::FloatArray(items) => forall|i: int|
            0 <= i < items.len() ==> is_numeral(#[trigger] items[i]),
        AttributeView::Float3Array(items) => forall|i: int|
            0 <= i < items.len() ==> triple_valid(#[trigger] items[i]),
        AttributeView::NormalizedFloat3Array(items) => forall|i: int|
            0 <= i < items.len() ==> triple_valid(#[trigger] items[i]),
        AttributeView::PointFloat3Array(items) => forall|i: int|
            0 <= i < items.len() ==> triple_valid(#[trigger] items[i]),
        AttributeView::TextureCoordinatesFloat2Array(items) => forall|i: int|
            0 <= i < items.len() ==> pair_valid(#[trigger] items[i]),
    }
}

/// A string attribute does not hold `c`.
pub open spec fn attribute_avoids(attribute: AttributeView, c: char) -> bool {
    attribute matches AttributeView::String(s) ==> avoids(s, c)
}

/// Every number in the attributes is held by a numeral.
pub open spec fn attributes_valid(entries: Seq<(Seq<char>, AttributeView)>) -> bool {
    forall|i: int| 0 <= i < entries.len() ==> attribute_valid((#[trigger] entries[i]).1)
}

/// No name and no string among the attributes holds `c`.
pub open spec fn attributes_avoid(entries: Seq<(Seq<char>, AttributeView)>, c: char) -> bool {
    forall|i: int|
        0 <= i < entries.len() ==> avoids((#[trigger] entries[i]).0, c) && attribute_avoids(
            entries[i].1,
            c,
        )
}

/// Every number in the primitive and below it is held by a numeral. This
/// holds of what any `Prim` holds.
pub open spec fn prim_valid(prim: PrimView) -> bool
    decreases prim,
{
    &&& meta_valid(prim.meta)
    &&& attributes_valid(prim.attributes)
    &&& forall|i: int| 0 <= i < prim.sub.len() ==> prim_valid(#[trigger] prim.sub[i])
}

/// No name and no string in the primitive or below it holds `c`.
pub open spec fn prim_avoids(prim: PrimView, c: char) -> bool
    decreases prim,
{
    &&& avoids(prim.name, c)
    &&& meta_avoids(prim.meta, c)
    &&& attributes_avoid(prim.attributes, c)
    &&& forall|i: int| 0 <= i < prim.sub.len() ==> prim_avoids(#[trigger] prim.sub[i], c)
}

/// Every number in the stage is held by a numeral. This holds of what any
/// `Stage` holds.
pub open spec fn stage_valid(stage: StageView) -> bool {
    &&& meta_valid(stage.meta)
    &&& forall|i: int| 0 <= i < stage.sub.len() ==> prim_valid(#[trigger] stage.sub[i])
}

/// No name and no string in the stage holds `c`.
pub open spec fn stage_avoids(stage: StageView, c: char) -> bool {
    &&& meta_avoids(stage.meta, c)
    &&& forall|i: int| 0 <= i < stage.sub.len() ==> prim_avoids(#[trigger] stage.sub[i], c)
}

/// Every name in the metadata starts with a character that is no space.
pub open spec fn meta_names_start(entries: Seq<(Seq<char>, MetaValueView)>) -> bool {
    forall|i: int|
        0 <= i < entries.len() ==> (#[trigger] entries[i]).0.len() > 0 && entries[i].0[0] != ' '
}

/// Every name in the metadata of the primitive and of those below it starts
/// with a character that is no space.
pub open spec fn prim_names_start(prim: PrimView) -> bool
    decreases prim,
{
    &&& meta_names_start(prim.meta)
    &&& forall|i: int| 0 <= i < prim.sub.len() ==> prim_names_start(#[trigger] prim.sub[i])
}

/// Every name in the metadata of the stage and of its primitives starts
/// with a character that is no space.
pub open spec fn stage_names_start(stage: StageView) -> bool {
    &&& meta_names_start(stage.meta)
    &&& forall|i: int| 0 <= i < stage.sub.len() ==> prim_names_start(#[trigger] stage.sub[i])
}

/// What a metadata value holds is valid.
pub proof fn lemma_meta_value_view_valid(value: MetaValue)
    ensures
        meta_value_valid(value@),
{
    match value {
        MetaValue::String(_) => {},
        MetaValue::Float(n) => {
            lemma_number_view(n);
        },
    }
}

/// What an attribute holds is valid.
pub proof fn lemma_attribute_view_valid(attribute: Attribute)
    ensures
        attribute_valid(attribute@),
{
    match attribute {
        Attribute::String(_) => {},
        Attribute::IntArray(_) => {},
        Attribute::FloatArray(items) => {
            let held = items@.map_values(|n: Number| n@);
            assert forall|i: int| 0 <= i < held.len() implies is_numeral(#[trigger] held[i]) by {
                lemma_number_view(items@[i]);
            }
        },
        Attribute::Float3Array(items) => {
            lemma_triples_view_valid(items@);
        },
        Attribute::NormalizedFloat3Array(items) => {
            lemma_triples_view_valid(items@);
        },
        Attribute::PointFloat3Array(items) => {
            lemma_triples_view_valid(items@);
        },
        Attribute::TextureCoordinatesFloat2Array(items) => {
            let held = items@.map_values(|t: [Number; 2]| pair_view(t));
            assert forall|i: int| 0 <= i < held.len() implies pair_valid(#[trigger] held[i]) by {
                lemma_number_view(items@[i][0]);
                lemma_number_view(items@[i][1]);
            }
        },
    }
}

proof fn lemma_triples_view_valid(items: Seq<[Number; 3]>)
    ensures
        forall|i: int|
            0 <= i < items.len() ==> triple_valid(#[trigger] triples_view(items)[i]),
{
    assert forall|i: int| 0 <= i < items.len() implies triple_valid(
        #[trigger] triples_view(items)[i],
    ) by {
        lemma_number_view(items[i][0]);
        lemma_number_view(items[i][1]);
        lemma_number_view(items[i][2]);
    }
}

/// What a primitive holds is valid.
pub proof fn lemma_prim_view_valid(prim: &Prim)
    ensures
        prim_valid(prim@),
    decreases prim,
{
    lemma_view_sub(prim);
    assert forall|i: int| 0 <= i < prim@.meta.len() implies meta_value_valid(
        (#[trigger] prim@.meta[i]).1,
    ) by {
        lemma_meta_value_view_valid(prim.meta@[i].1);
    }
    assert forall|i: int| 0 <= i < prim@.attributes.len() implies attribute_valid(
        (#[trigger] prim@.attributes[i]).1,
    ) by {
        lemma_attribute_view_valid(prim.attributes@[i].1);
    }
    assert forall|i: int| 0 <= i < prim@.sub.len() implies prim_valid(#[trigger] prim@.sub[i]) by {
        lemma_prim_view_valid(&prim.sub[i]);
    }
}

/// What a stage holds is valid.
pub proof fn lemma_stage_view_valid(stage: Stage)
    ensures
        stage_valid(stage@),
{
    assert forall|i: int| 0 <= i < stage@.meta.len() implies meta_value_valid(
        (#[trigger] stage@.meta[i]).1,
    ) by {
        lemma_meta_value_view_valid(stage.meta@[i].1);
    }
    assert forall|i: int| 0 <= i < stage@.sub.len() implies prim_valid(
        #[trigger] stage@.sub[i],
    ) by {
        lemma_prim_view_valid(&stage.sub@[i]);
    }
}

} // verus!
