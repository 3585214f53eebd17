//! Primitives: the nodes of a scene, their attributes, and their text.

use vstd::prelude::*;

use crate::lines::indented;
use crate::number::Number;
use crate::ordered_map::{inserted, lemma_inserted_map_values, lemma_inserted_twice, OrderedMap};
use crate::text::{decimal_text, lemma_joined_push, list_text, joined, push_decimal, quoted};
use crate::{indent_lines, meta_block, meta_view, push_meta_block, MetaValue, MetaValueView};
use crate::SerializeError;

verus! {

/// The kind of a primitive.
#[derive(Clone, Copy, Debug, PartialEq, Eq)]
pub enum PrimType {
    Xform,
    Mesh,
}

/// The word that names a kind of primitive.
pub open spec fn prim_type_text(prim_type: PrimType) -> Seq<char> {
    match prim_type {
        PrimType::Xform => "Xform"@,
        PrimType::Mesh => "Mesh"@,
    }
}

impl PrimType {
    /// The word that names this kind.
    pub fn text(&self) -> (name: &'static str)
        ensures
            name@ == prim_type_text(*self),
    {
        match self {
            PrimType::Xform => "Xform",
            PrimType::Mesh => "Mesh",
        }
    }
}

/// A named property of a primitive.
#[derive(Debug)]
pub enum Attribute {
    String(String),
    IntArray(Vec<u32>),
    FloatArray(Vec<Number>),
    Float3Array(Vec<[Number; 3]>),
    /// Unit vectors.
    NormalizedFloat3Array(Vec<[Number; 3]>),
    /// Positions.
    PointFloat3Array(Vec<[Number; 3]>),
    TextureCoordinatesFloat2Array(Vec<[Number; 2]>),
}

/// Two numerals.
pub type Pair = (Seq<char>, Seq<char>);

/// Three numerals.
pub type Triple = (Seq<char>, Seq<char>, Seq<char>);

/// What an attribute holds, each number by its numeral.
pub enum AttributeView {
    String(Seq<char>),
    IntArray(Seq<u32>),
    FloatArray(Seq<Seq<char>>),
    Float3Array(Seq<Triple>),
    NormalizedFloat3Array(Seq<Triple>),
    PointFloat3Array(Seq<Triple>),
    TextureCoordinatesFloat2Array(Seq<Pair>),
}

/// The numerals of three numbers.
pub open spec fn triple_view(t: [Number; 3]) -> Triple {
    (t[0]@, t[1]@, t[2]@)
}

/// The numerals of two numbers.
pub open spec fn pair_view(t: [Number; 2]) -> Pair {
    (t[0]@, t[1]@)
}

/// The numerals of a sequence of triples.
pub open spec fn triples_view(items: Seq<[Number; 3]>) -> Seq<Triple> {
    items.map_values(|t: [Number; 3]| triple_view(t))
}

impl View for Attribute {
    type V = AttributeView;

    open spec fn view(&self) -> AttributeView {
        match self {
            Attribute::String(s) => AttributeView::String(s@),
            Attribute::IntArray(items) => AttributeView::IntArray(items@),
            Attribute::FloatArray(items) => AttributeView::FloatArray(
                items@.map_values(|n: Number| n@),
            ),
            Attribute::Float3Array(items) => AttributeView::Float3Array(triples_view(items@)),
            Attribute::NormalizedFloat3Array(items) => AttributeView::NormalizedFloat3Array(
                triples_view(items@),
            ),
            Attribute::PointFloat3Array(items) => AttributeView::PointFloat3Array(
                triples_view(items@),
            ),
            Attribute::TextureCoordinatesFloat2Array(items) => {
                AttributeView::TextureCoordinatesFloat2Array(
                    items@.map_values(|t: [Number; 2]| pair_view(t)),
                )
            },
        }
    }
}

impl AttributeView {
    /// Whether a text is defined for the value. None is defined yet for
    /// plain number arrays, unit vectors and texture coordinates.
    pub open spec fn writable(self) -> bool {
        self is String || self is IntArray || self is Float3Array || self is PointFloat3Array
    }
}

/// The entries of an attribute mapping, each value by what it holds.
pub open spec fn attributes_view(entries: Seq<(Seq<char>, Attribute)>) -> Seq<
    (Seq<char>, AttributeView),
> {
    entries.map_values(|e: (Seq<char>, Attribute)| (e.0, e.1@))
}

/// The word that names the type of an attribute in scene text.
pub open spec fn type_tag(attribute: AttributeView) -> Seq<char> {
    match attribute {
        AttributeView::String(_) => "string"@,
        AttributeView::IntArray(_) => "int[]"@,
        AttributeView::FloatArray(_) => "float[]"@,
        AttributeView::Float3Array(_) => "float3[]"@,
        AttributeView::NormalizedFloat3Array(_) => "normal3f[]"@,
        AttributeView::PointFloat3Array(_) => "point3f[]"@,
        AttributeView::TextureCoordinatesFloat2Array(_) => "texCoord2f[]"@,
    }
}

/// Three numerals between round brackets, separated by a comma and a space.
pub open spec fn triple_text(t: Triple) -> Seq<char> {
    "("@ + t.0 + ", "@ + t.1 + ", "@ + t.2 + ")"@
}

/// The items of an integer list, each in base ten.
pub open spec fn int_texts(items: Seq<u32>) -> Seq<Seq<char>> {
    items.map_values(|v: u32| decimal_text(v as nat))
}

/// The items of a list of triples, each as it is written.
pub open spec fn triple_texts(items: Seq<Triple>) -> Seq<Seq<char>> {
    items.map_values(|t: Triple| triple_text(t))
}

/// How the value of a writable attribute is written: a string between
/// double quotes, an array as a list of its items.
pub open spec fn attribute_value_text(attribute: AttributeView) -> Seq<char>
    recommends
        attribute.writable(),
{
    match attribute {
        AttributeView::String(s) => quoted(s),
        AttributeView::IntArray(items) => list_text(int_texts(items)),
        AttributeView::Float3Array(items) => list_text(triple_texts(items)),
        AttributeView::PointFloat3Array(items) => list_text(triple_texts(items)),
        _ => arbitrary(),
    }
}

/// The text of one attribute: its type, its name, ` = `, and its value.
pub open spec fn attribute_line(name: Seq<char>, attribute: AttributeView) -> Seq<char>
    recommends
        attribute.writable(),
{
    type_tag(attribute) + " "@ + name + " = "@ + attribute_value_text(attribute)
}

/// The line of one attribute inside the block of its primitive.
pub open spec fn attribute_row(name: Seq<char>, attribute: AttributeView) -> Seq<char> {
    "    "@ + attribute_line(name, attribute) + "\n"@
}

/// The lines of the attributes, in their order.
pub open spec fn attribute_rows(entries: Seq<(Seq<char>, AttributeView)>) -> Seq<char> {
    entries.map_values(|e: (Seq<char>, AttributeView)| attribute_row(e.0, e.1)).flatten()
}

/// Appends the list of `items` to `build`.
fn push_int_list(build: &mut String, items: &Vec<u32>)
    ensures
        final(build)@ == old(build)@ + list_text(int_texts(items@)),
{
    let ghost parts = int_texts(items@);
    build.append("[");
    let mut i: usize = 0;
    assert(parts.take(0) =~= Seq::<Seq<char>>::empty());
    while i < items.len()
        invariant
            i <= items.len(),
            parts == int_texts(items@),
            build@ == old(build)@ + "["@ + joined(parts.take(i as int), ", "@),
        decreases items.len() - i,
    {
        if i > 0 {
            build.append(", ");
        }
        push_decimal(build, items[i]);
        proof {
            let done = parts.take(i as int);
            assert(parts.take(i + 1) =~= done.push(parts[i as int]));
            lemma_joined_push(done, ", "@, parts[i as int]);
            if i > 0 {
                assert(build@ =~= old(build)@ + "["@ + (joined(done, ", "@) + ", "@
                    + parts[i as int]));
            } else {
                assert(joined(done, ", "@) =~= Seq::<char>::empty());
                assert(build@ =~= old(build)@ + "["@ + parts[i as int]);
            }
        }
        i = i + 1;
    }
    build.append("]");
    assert(parts.take(items.len() as int) =~= parts);
    assert(build@ =~= old(build)@ + ("["@ + joined(parts, ", "@) + "]"@));
}

/// Appends one triple to `build`.
fn push_triple(build: &mut String, item: &[Number; 3])
    ensures
        final(build)@ == old(build)@ + triple_text(triple_view(*item)),
{
    build.append("(");
    build.append(item[0].as_str());
    build.append(", ");
    build.append(item[1].as_str());
    build.append(", ");
    build.append(item[2].as_str());
    build.append(")");
    assert(build@ =~= old(build)@ + triple_text(triple_view(*item)));
}

/// Appends the list of `items` to `build`.
fn push_triple_list(build: &mut String, items: &Vec<[Number; 3]>)
    ensures
        final(build)@ == old(build)@ + list_text(triple_texts(triples_view(items@))),
{
    let ghost parts = triple_texts(triples_view(items@));
    build.append("[");
    let mut i: usize = 0;
    assert(parts.take(0) =~= Seq::<Seq<char>>::empty());
    while i < items.len()
        invariant
            i <= items.len(),
            parts == triple_texts(triples_view(items@)),
            build@ == old(build)@ + "["@ + joined(parts.take(i as int), ", "@),
        decreases items.len() - i,
    {
        if i > 0 {
            build.append(", ");
        }
        push_triple(build, &items[i]);
        proof {
            let done = parts.take(i as int);
            assert(parts[i as int] == triple_text(triple_view(items@[i as int])));
            assert(parts.take(i + 1) =~= done.push(parts[i as int]));
            lemma_joined_push(done, ", "@, parts[i as int]);
            if i > 0 {
                assert(build@ =~= old(build)@ + "["@ + (joined(done, ", "@) + ", "@
                    + parts[i as int]));
            } else {
                assert(joined(done, ", "@) =~= Seq::<char>::empty());
                assert(build@ =~= old(build)@ + "["@ + parts[i as int]);
            }
        }
        i = i + 1;
    }
    build.append("]");
    assert(parts.take(items.len() as int) =~= parts);
    assert(build@ =~= old(build)@ + ("["@ + joined(parts, ", "@) + "]"@));
}

impl Attribute {
    /// The word that names the type of this attribute in scene text.
    pub fn text_type(&self) -> (tag: &'static str)
        ensures
            tag@ == type_tag(self@),
    {
        match self {
            Attribute::String(_) => "string",
            Attribute::IntArray(_) => "int[]",
            Attribute::FloatArray(_) => "float[]",
            Attribute::Float3Array(_) => "float3[]",
            Attribute::NormalizedFloat3Array(_) => "normal3f[]",
            Attribute::PointFloat3Array(_) => "point3f[]",
            Attribute::TextureCoordinatesFloat2Array(_) => "texCoord2f[]",
        }
    }

    /// Whether a text is defined for the value of this attribute.
    pub fn is_writable(&self) -> (yes: bool)
        ensures
            yes == self@.writable(),
    {
        match self {
            Attribute::String(_) => true,
            Attribute::IntArray(_) => true,
            Attribute::FloatArray(_) => false,
            Attribute::Float3Array(_) => true,
            Attribute::NormalizedFloat3Array(_) => false,
            Attribute::PointFloat3Array(_) => true,
            Attribute::TextureCoordinatesFloat2Array(_) => false,
        }
    }

    /// The value of this attribute as it is written.
    pub fn value_to_string(&self) -> (text: String)
        requires
            self@.writable(),
        ensures
            text@ == attribute_value_text(self@),
    {
        let mut build = String::new();
        match self {
            Attribute::String(s) => {
                build.append("\"");
                build.append(s.as_str());
                build.append("\"");
                assert(build@ =~= quoted(s@));
            },
            Attribute::IntArray(items) => {
                push_int_list(&mut build, items);
                assert(build@ =~= list_text(int_texts(items@)));
            },
            Attribute::Float3Array(items) => {
                push_triple_list(&mut build, items);
                assert(build@ =~= list_text(triple_texts(triples_view(items@))));
            },
            Attribute::PointFloat3Array(items) => {
                push_triple_list(&mut build, items);
                assert(build@ =~= list_text(triple_texts(triples_view(items@))));
            },
            _ => {},
        }
        build
    }

    /// The text of this attribute under the name `name`: its type, the name,
    /// ` = `, and its value.
    pub fn format_line(&self, name: &str) -> (line: String)
        requires
            self@.writable(),
        ensures
            line@ == attribute_line(name@, self@),
    {
        let mut build = String::from_str(self.text_type());
        build.append(" ");
        build.append(name);
        build.append(" = ");
        let value = self.value_to_string();
        build.append(value.as_str());
        build
    }
}

/// A node of the scene: a kind, a name, metadata, attributes, and the
/// primitives below it, in the order in which they are written.
#[derive(Debug)]
pub struct Prim {
    pub prim_type: PrimType,
    pub name: String,
    pub meta: OrderedMap<MetaValue>,
    pub attributes: OrderedMap<Attribute>,
    pub sub: Vec<Prim>,
}

/// What a primitive holds.
pub struct PrimView {
    pub prim_type: PrimType,
    pub name: Seq<char>,
    pub meta: Seq<(Seq<char>, MetaValueView)>,
    pub attributes: Seq<(Seq<char>, AttributeView)>,
    pub sub: Seq<PrimView>,
}

/// What the first `count` primitives below `prim` hold, in order.
pub open spec fn sub_views(prim: &Prim, count: nat) -> Seq<PrimView>
    decreases prim, count,
{
    if count == 0 || count > prim.sub.len() {
        Seq::empty()
    } else {
        sub_views(prim, (count - 1) as nat).push(prim.sub[count - 1].view())
    }
}

impl View for Prim {
    type V = PrimView;

    open spec fn view(&self) -> PrimView
        decreases self, self.sub.len() + 1,
    {
        PrimView {
            prim_type: self.prim_type,
            name: self.name@,
            meta: meta_view(self.meta@),
            attributes: attributes_view(self.attributes@),
            sub: sub_views(self, self.sub.len() as nat),
        }
    }
}

impl PrimView {
    /// Whether a text is defined for the primitive: every attribute of it
    /// and of the primitives below it is writable.
    pub open spec fn writable(self) -> bool
        decreases self,
    {
        &&& forall|i: int|
            0 <= i < self.attributes.len() ==> (#[trigger] self.attributes[i]).1.writable()
        &&& forall|i: int| 0 <= i < self.sub.len() ==> (#[trigger] self.sub[i]).writable()
    }
}

/// The start of the block of a primitive: `def`, its kind, and its name
/// between double quotes, each followed by a space.
pub open spec fn prim_header(prim: PrimView) -> Seq<char> {
    "def "@ + prim_type_text(prim.prim_type) + " \""@ + prim.name + "\" "@
}

/// The blocks of the first `count` primitives below `prim`, each moved four
/// columns to the right.
pub open spec fn sub_blocks(prim: PrimView, count: nat) -> Seq<Seq<char>>
    decreases prim, count,
{
    if count == 0 || count > prim.sub.len() {
        Seq::empty()
    } else {
        sub_blocks(prim, (count - 1) as nat).push(indented(prim_text(prim.sub[count - 1])))
    }
}

/// The block of a primitive: its header, its metadata block, and between a
/// line with `{` and a line with `}` the lines of its attributes and then the
/// blocks of the primitives below it.
pub open spec fn prim_text(prim: PrimView) -> Seq<char>
    decreases prim, prim.sub.len() + 1,
{
    prim_header(prim) + meta_block(prim.meta) + "{\n"@ + attribute_rows(prim.attributes)
        + sub_blocks(prim, prim.sub.len()).flatten() + "}\n"@
}

/// Of the first `count` primitives below it, a primitive holds what each of
/// them holds, in order.
pub proof fn lemma_sub_views(prim: &Prim, count: nat)
    requires
        count <= prim.sub.len(),
    ensures
        sub_views(prim, count).len() == count,
        forall|i: int| 0 <= i < count ==> #[trigger] sub_views(prim, count)[i] == prim.sub[i]@,
    decreases count,
{
    if count > 0 {
        lemma_sub_views(prim, (count - 1) as nat);
        assert(sub_views(prim, count) == sub_views(prim, (count - 1) as nat).push(
            prim.sub[count - 1]@,
        ));
    } else {
        assert(sub_views(prim, count) == Seq::<PrimView>::empty());
    }
}

/// Of the primitives below it, a primitive holds what each of them holds,
/// in order.
pub proof fn lemma_view_sub(prim: &Prim)
    ensures
        prim@.sub.len() == prim.sub.len(),
        forall|i: int| 0 <= i < prim.sub.len() ==> #[trigger] prim@.sub[i] == prim.sub[i]@,
{
    lemma_sub_views(prim, prim.sub.len() as nat);
}

impl Prim {
    /// A primitive of the given kind and name, without metadata, attributes
    /// or primitives below it.
    pub fn new(prim_type: PrimType, name: String) -> (prim: Prim)
        ensures
            prim@ == (PrimView {
                prim_type,
                name: name@,
                meta: Seq::empty(),
                attributes: Seq::empty(),
                sub: Seq::empty(),
            }),
    {
        let prim = Prim {
            prim_type,
            name,
            meta: OrderedMap::new(),
            attributes: OrderedMap::new(),
            sub: Vec::new(),
        };
        proof {
            assert(prim@.meta =~= Seq::empty());
            assert(prim@.attributes =~= Seq::empty());
            lemma_view_sub(&prim);
            assert(prim@.sub =~= Seq::empty());
        }
        prim
    }

    /// Adds `sub_prim` after the primitives that are already below this one.
    pub fn push_sub(&mut self, sub_prim: Prim)
        ensures
            final(self)@ == (PrimView { sub: old(self)@.sub.push(sub_prim@), ..old(self)@ }),
    {
        self.sub.push(sub_prim);
        proof {
            lemma_view_sub(old(self));
            lemma_view_sub(self);
            assert(self@.sub =~= old(self)@.sub.push(sub_prim@));
        }
    }

    /// Whether a text is defined for this primitive.
    pub fn is_writable(&self) -> (yes: bool)
        ensures
            yes == self@.writable(),
        decreases self,
    {
        proof {
            lemma_view_sub(self);
        }
        let mut i: usize = 0;
        while i < self.attributes.len()
            invariant
                i <= self.attributes@.len(),
                forall|k: int| 0 <= k < i ==> (#[trigger] self@.attributes[k]).1.writable(),
            decreases self.attributes@.len() - i,
        {
            if !self.attributes.value_at(i).is_writable() {
                assert(!self@.attributes[i as int].1.writable());
                return false;
            }
            i = i + 1;
        }
        let mut j: usize = 0;
        while j < self.sub.len()
            invariant
                j <= self.sub.len(),
                self@.sub.len() == self.sub.len(),
                forall|k: int| 0 <= k < self.sub.len() ==> #[trigger] self@.sub[k] == self.sub[k]@,
                forall|k: int|
                    0 <= k < self.attributes@.len() ==> (#[trigger] self@.attributes[k]).1.writable(),
                forall|k: int| 0 <= k < j ==> (#[trigger] self@.sub[k]).writable(),
            decreases self.sub.len() - j,
        {
            if !self.sub[j].is_writable() {
                assert(!self@.sub[j as int].writable());
                return false;
            }
            j = j + 1;
        }
        true
    }

    /// The block of this primitive and of everything below it.
    pub fn serialize_to_text(&self) -> (text: String)
        requires
            self@.writable(),
        ensures
            text@ == prim_text(self@),
        decreases self,
    {
        let mut build = String::from_str("def ");
        build.append(self.prim_type.text());
        build.append(" \"");
        build.append(self.name.as_str());
        build.append("\" ");
        push_meta_block(&mut build, &self.meta);
        build.append("{\n");
        let ghost head = prim_header(self@) + meta_block(self@.meta) + "{\n"@;
        assert(build@ =~= head);

        let ghost row_of = |e: (Seq<char>, AttributeView)| attribute_row(e.0, e.1);
        let ghost entries = self@.attributes;
        let n = self.attributes.len();
        let mut i: usize = 0;
        assert(entries.take(0).map_values(row_of) =~= Seq::<Seq<char>>::empty());
        while i < n
            invariant
                i <= n,
                n == self.attributes@.len(),
                self@.writable(),
                entries == self@.attributes,
                row_of == |e: (Seq<char>, AttributeView)| attribute_row(e.0, e.1),
                build@ == head + entries.take(i as int).map_values(row_of).flatten(),
            decreases n - i,
        {
            let value = self.attributes.value_at(i);
            assert(value@ == entries[i as int].1);
            build.append("    ");
            let line = value.format_line(self.attributes.key_at(i));
            build.append(line.as_str());
            build.append("\n");
            proof {
                let done = entries.take(i as int).map_values(row_of);
                let row = attribute_row(entries[i as int].0, entries[i as int].1);
                assert(entries.take(i + 1).map_values(row_of) =~= done.push(row));
                done.lemma_flatten_push(row);
                assert(build@ =~= head + done.push(row).flatten());
            }
            i = i + 1;
        }
        assert(entries.take(n as int) =~= entries);
        let ghost body = head + attribute_rows(self@.attributes);

        proof {
            lemma_view_sub(self);
        }
        let mut j: usize = 0;
        while j < self.sub.len()
            invariant
                j <= self.sub.len(),
                self@.writable(),
                self@.sub.len() == self.sub.len(),
                forall|k: int| 0 <= k < self.sub.len() ==> #[trigger] self@.sub[k] == self.sub[k]@,
                build@ == body + sub_blocks(self@, j as nat).flatten(),
            decreases self.sub.len() - j,
        {
            let child = &self.sub[j];
            assert(child@ == self@.sub[j as int]);
            let block = indent_lines(child.serialize_to_text().as_str());
            build.append(block.as_str());
            proof {
                let done = sub_blocks(self@, j as nat);
                assert(sub_blocks(self@, (j + 1) as nat) == done.push(block@));
                done.lemma_flatten_push(block@);
                assert(build@ =~= body + done.push(block@).flatten());
            }
            j = j + 1;
        }
        build.append("}\n");
        build
    }

    /// The block of this primitive and of everything below it, or an error
    /// and no text if some attribute in it is not writable.
    pub fn try_serialize_to_text(&self) -> (result: Result<String, SerializeError>)
        ensures
            result is Ok <==> self@.writable(),
            result matches Ok(text) ==> text@ == prim_text(self@),
            result matches Err(error) ==> error == SerializeError::UnimplementedFormat,
    {
        if self.is_writable() {
            Ok(self.serialize_to_text())
        } else {
            Err(SerializeError::UnimplementedFormat)
        }
    }
}

/// The primitive with the attribute `name` set to `value`.
pub open spec fn with_attribute(prim: PrimView, name: Seq<char>, value: AttributeView) -> PrimView {
    PrimView { attributes: inserted(prim.attributes, name, value), ..prim }
}

/// Sets the attribute `name` of `prim` to `value`.
fn set_attribute(prim: &mut Prim, name: &str, value: Attribute)
    ensures
        final(prim)@ == with_attribute(old(prim)@, name@, value@),
{
    let ghost before = prim.attributes@;
    prim.attributes.insert(String::from_str(name), value);
    proof {
        let f = |a: Attribute| a@;
        lemma_inserted_map_values(before, name@, value, f);
        assert(attributes_view(before) =~= before.map_values(
            |e: (Seq<char>, Attribute)| (e.0, f(e.1)),
        ));
        assert(attributes_view(prim.attributes@) =~= prim.attributes@.map_values(
            |e: (Seq<char>, Attribute)| (e.0, f(e.1)),
        ));
        lemma_view_sub(old(prim));
        lemma_view_sub(prim);
        assert(prim@.sub =~= old(prim)@.sub);
    }
}

/// Sets the positions of the vertices of a mesh: the attribute `points`.
pub fn set_points(prim: &mut Prim, vertices: Vec<[Number; 3]>)
    ensures
        final(prim)@ == with_attribute(
            old(prim)@,
            "points"@,
            AttributeView::PointFloat3Array(triples_view(vertices@)),
        ),
{
    set_attribute(prim, "points", Attribute::PointFloat3Array(vertices));
}

/// Sets which vertices form the faces of a mesh, as one flat list: the
/// attribute `faceVertexIndices`. How many of them each face takes is set
/// by `set_face_vertex_counts`.
pub fn set_face_vertex_indices(prim: &mut Prim, indices: Vec<u32>)
    ensures
        final(prim)@ == with_attribute(
            old(prim)@,
            "faceVertexIndices"@,
            AttributeView::IntArray(indices@),
        ),
{
    set_attribute(prim, "faceVertexIndices", Attribute::IntArray(indices));
}

/// Sets how many vertices each face of a mesh has: the attribute
/// `faceVertexCounts`.
pub fn set_face_vertex_counts(prim: &mut Prim, counts: Vec<u32>)
    ensures
        final(prim)@ == with_attribute(
            old(prim)@,
            "faceVertexCounts"@,
            AttributeView::IntArray(counts@),
        ),
{
    set_attribute(prim, "faceVertexCounts", Attribute::IntArray(counts));
}

/// Written again without a change in between, a primitive gives the same
/// text: the text depends on nothing but what the primitive holds.
pub proof fn lemma_prim_text_repeatable(before: Prim, after: Prim, first: String, second: String)
    requires
        before@ == after@,
        first@ == prim_text(before@),
        second@ == prim_text(after@),
    ensures
        first@ == second@,
{
}

/// Setting an attribute twice is the same as setting it once, to the value
/// given last.
pub proof fn lemma_with_attribute_twice(
    prim: PrimView,
    name: Seq<char>,
    first: AttributeView,
    second: AttributeView,
)
    ensures
        with_attribute(with_attribute(prim, name, first), name, second) == with_attribute(
            prim,
            name,
            second,
        ),
{
    lemma_inserted_twice(prim.attributes, name, first, second);
}

} // verus!
