//! The stage: the root of a scene, and the text of the whole document.

use vstd::prelude::*;

use crate::number::Number;
use crate::ordered_map::{inserted, lemma_inserted_map_values, lemma_inserted_twice, OrderedMap};
use crate::prim::{prim_text, Prim, PrimView};
use crate::{
    axis_text, meta_block, meta_view, push_meta_block, Axis, MetaValue, MetaValueView,
    SerializeError,
};

verus! {

/// The root of a scene: metadata of the document, and the primitives at its
/// top, in the order in which they are written.
#[derive(Debug)]
pub struct Stage {
    pub meta: OrderedMap<MetaValue>,
    pub sub: Vec<Prim>,
}

/// What a stage holds.
pub struct StageView {
    pub meta: Seq<(Seq<char>, MetaValueView)>,
    pub sub: Seq<PrimView>,
}

impl View for Stage {
    type V = StageView;

    open spec fn view(&self) -> StageView {
        StageView { meta: meta_view(self.meta@), sub: self.sub@.map_values(|p: Prim| p@) }
    }
}

impl StageView {
    /// Whether a text is defined for the stage: every primitive in it is
    /// writable.
    pub open spec fn writable(self) -> bool {
        forall|i: int| 0 <= i < self.sub.len() ==> (#[trigger] self.sub[i]).writable()
    }
}

/// The line that every document starts with.
pub open spec fn document_header() -> Seq<char> {
    "#usda 1.0\n"@
}

/// The blocks of the primitives, one after the other.
pub open spec fn prim_blocks(prims: Seq<PrimView>) -> Seq<char> {
    prims.map_values(|p: PrimView| prim_text(p)).flatten()
}

/// The document of a stage: the header line, the metadata block, and the
/// blocks of its primitives, none of them indented.
pub open spec fn stage_text(stage: StageView) -> Seq<char> {
    document_header() + meta_block(stage.meta) + prim_blocks(stage.sub)
}

/// The stage with the metadata entry `name` set to `value`.
pub open spec fn with_meta(stage: StageView, name: Seq<char>, value: MetaValueView) -> StageView {
    StageView { meta: inserted(stage.meta, name, value), ..stage }
}

impl Default for Stage {
    /// The stage without metadata and without primitives.
    fn default() -> (stage: Stage)
        ensures
            stage@ == (StageView { meta: Seq::empty(), sub: Seq::empty() }),
    {
        let stage = Stage { meta: OrderedMap::new(), sub: Vec::new() };
        proof {
            assert(stage@.meta =~= Seq::empty());
            assert(stage@.sub =~= Seq::empty());
        }
        stage
    }
}

impl Stage {
    /// Sets the metadata entry `name` to `value`.
    fn set_meta(&mut self, name: &str, value: MetaValue)
        ensures
            final(self)@ == with_meta(old(self)@, name@, value@),
    {
        let ghost before = self.meta@;
        self.meta.insert(String::from_str(name), value);
        proof {
            let f = |v: MetaValue| v@;
            lemma_inserted_map_values(before, name@, value, f);
            assert(meta_view(before) =~= before.map_values(
                |e: (Seq<char>, MetaValue)| (e.0, f(e.1)),
            ));
            assert(meta_view(self.meta@) =~= self.meta@.map_values(
                |e: (Seq<char>, MetaValue)| (e.0, f(e.1)),
            ));
        }
    }

    /// Says which axis points up: the metadata entry `upAxis`.
    pub fn set_up_axis(&mut self, axis: Axis)
        ensures
            final(self)@ == with_meta(
                old(self)@,
                "upAxis"@,
                MetaValueView::String(axis_text(axis)),
            ),
    {
        self.set_meta("upAxis", MetaValue::String(String::from_str(axis.text())));
    }

    /// Says how many meters one unit of space is: the metadata entry
    /// `metersPerUnit`.
    pub fn set_scale(&mut self, meters_per_unit: Number)
        ensures
            final(self)@ == with_meta(
                old(self)@,
                "metersPerUnit"@,
                MetaValueView::Float(meters_per_unit@),
            ),
    {
        self.set_meta("metersPerUnit", MetaValue::Float(meters_per_unit));
    }

    /// Names the primitive that is used by default: the metadata entry
    /// `defaultPrim`.
    pub fn set_default_prim(&mut self, default: String)
        ensures
            final(self)@ == with_meta(
                old(self)@,
                "defaultPrim"@,
                MetaValueView::String(default@),
            ),
    {
        self.set_meta("defaultPrim", MetaValue::String(default));
    }

    /// Adds `sub_prim` after the primitives that are already at the top.
    pub fn push_sub(&mut self, sub_prim: Prim)
        ensures
            final(self)@ == (StageView { sub: old(self)@.sub.push(sub_prim@), ..old(self)@ }),
    {
        self.sub.push(sub_prim);
        proof {
            assert(self@.sub =~= old(self)@.sub.push(sub_prim@));
        }
    }

    /// Whether a text is defined for this stage.
    pub fn is_writable(&self) -> (yes: bool)
        ensures
            yes == self@.writable(),
    {
        let mut i: usize = 0;
        while i < self.sub.len()
            invariant
                i <= self.sub.len(),
                forall|k: int| 0 <= k < i ==> (#[trigger] self@.sub[k]).writable(),
            decreases self.sub.len() - i,
        {
            if !self.sub[i].is_writable() {
                assert(!self@.sub[i as int].writable());
                return false;
            }
            i = i + 1;
        }
        true
    }

    /// The whole document of this stage.
    pub fn serialize_to_text(&self) -> (text: String)
        requires
            self@.writable(),
        ensures
            text@ == stage_text(self@),
    {
        let mut build = String::from_str("#usda 1.0\n");
        push_meta_block(&mut build, &self.meta);
        let ghost head = document_header() + meta_block(self@.meta);
        let ghost block_of = |p: PrimView| prim_text(p);
        let ghost prims = self@.sub;
        let mut i: usize = 0;
        assert(prims.take(0).map_values(block_of) =~= Seq::<Seq<char>>::empty());
        while i < self.sub.len()
            invariant
                i <= self.sub.len(),
                self@.writable(),
                prims == self@.sub,
                block_of == |p: PrimView| prim_text(p),
                build@ == head + prims.take(i as int).map_values(block_of).flatten(),
            decreases self.sub.len() - i,
        {
            assert(self.sub[i as int]@ == prims[i as int]);
            let block = self.sub[i].serialize_to_text();
            build.append(block.as_str());
            proof {
                let done = prims.take(i as int).map_values(block_of);
                assert(prims.take(i + 1).map_values(block_of) =~= done.push(block@));
                done.lemma_flatten_push(block@);
                assert(build@ =~= head + done.push(block@).flatten());
            }
            i = i + 1;
        }
        assert(prims.take(self.sub.len() as int) =~= prims);
        build
    }

    /// The whole document of this stage, or an error and no text if some
    /// attribute in it is not writable.
    pub fn try_serialize_to_text(&self) -> (result: Result<String, SerializeError>)
        ensures
            result is Ok <==> self@.writable(),
            result matches Ok(text) ==> text@ == stage_text(self@),
            result matches Err(error) ==> error == SerializeError::UnimplementedFormat,
    {
        if self.is_writable() {
            Ok(self.serialize_to_text())
        } else {
            Err(SerializeError::UnimplementedFormat)
        }
    }
}

/// Written again without a change in between, a stage gives the same
/// document: the document depends on nothing but what the stage holds.
pub proof fn lemma_stage_text_repeatable(
    before: Stage,
    after: Stage,
    first: String,
    second: String,
)
    requires
        before@ == after@,
        first@ == stage_text(before@),
        second@ == stage_text(after@),
    ensures
        first@ == second@,
{
}

/// Setting a metadata entry twice is the same as setting it once, to the
/// value given last; so setting it again to the same value changes nothing.
pub proof fn lemma_with_meta_twice(
    stage: StageView,
    name: Seq<char>,
    first: MetaValueView,
    second: MetaValueView,
)
    ensures
        with_meta(with_meta(stage, name, first), name, second) == with_meta(stage, name, second),
{
    lemma_inserted_twice(stage.meta, name, first, second);
}

} // verus!
