use usd::number::Number;
use usd::prim::{
    set_face_vertex_counts, set_face_vertex_indices, set_points, Attribute, Prim, PrimType,
};
use usd::stage::Stage;
use usd::{format_meta_line, Axis, MetaValue, SerializeError};

fn num(v: f32) -> Number {
    Number::parse(&v.to_string()).unwrap()
}

fn triple(x: f32, y: f32, z: f32) -> [Number; 3] {
    [num(x), num(y), num(z)]
}

fn cube_mesh() -> Prim {
    let vertices = vec![
        triple(1.0, 1.0, -1.0),
        triple(-1.0, 1.0, -1.0),
        triple(-1.0, -1.0, -1.0),
        triple(1.0, -1.0, -1.0),
        triple(1.0, 1.0, 1.0),
        triple(-1.0, 1.0, 1.0),
        triple(-1.0, -1.0, 1.0),
        triple(1.0, -1.0, 1.0),
    ];
    let indices: Vec<u32> = vec![
        2, 1, 0, 3, 4, 5, 6, 7, 7, 6, 2, 3, 6, 5, 1, 2, 5, 4, 0, 1, 4, 7, 3, 0,
    ];
    let counts: Vec<u32> = vec![4; indices.len() / 4];
    let mut mesh = Prim::new(PrimType::Mesh, "CubeMesh".to_string());
    set_points(&mut mesh, vertices);
    set_face_vertex_indices(&mut mesh, indices);
    set_face_vertex_counts(&mut mesh, counts);
    mesh
}

fn cube_stage() -> Stage {
    let mut object = Prim::new(PrimType::Xform, "Cube".to_string());
    object.push_sub(cube_mesh());
    let mut stage = Stage::default();
    stage.push_sub(object);
    stage.set_up_axis(Axis::Z);
    stage.set_scale(num(1.0));
    stage.set_default_prim("Cube".to_string());
    stage
}

const POINTS_LINE: &str = "point3f[] points = [(1, 1, -1), (-1, 1, -1), (-1, -1, -1), (1, -1, -1), (1, 1, 1), (-1, 1, 1), (-1, -1, 1), (1, -1, 1)]";
const INDICES_LINE: &str = "int[] faceVertexIndices = [2, 1, 0, 3, 4, 5, 6, 7, 7, 6, 2, 3, 6, 5, 1, 2, 5, 4, 0, 1, 4, 7, 3, 0]";
const COUNTS_LINE: &str = "int[] faceVertexCounts = [4, 4, 4, 4, 4, 4]";

#[test]
fn empty_prim_is_header_and_braces() {
    let prim = Prim::new(PrimType::Xform, "Root".to_string());
    assert!(prim.is_writable());
    assert_eq!(prim.serialize_to_text(), "def Xform \"Root\" {\n}\n");
}

#[test]
fn empty_stage_is_header_line_only() {
    let stage = Stage::default();
    assert_eq!(stage.serialize_to_text(), "#usda 1.0\n");
}

#[test]
fn cube_mesh_has_three_attribute_lines() {
    let text = cube_mesh().serialize_to_text();
    let expected = format!(
        "def Mesh \"CubeMesh\" {{\n    {}\n    {}\n    {}\n}}\n",
        POINTS_LINE, INDICES_LINE, COUNTS_LINE
    );
    assert_eq!(text, expected);
    let lines: Vec<&str> = text.lines().collect();
    assert_eq!(lines.len(), 5);
    assert_eq!(lines[1].matches("(").count(), 8);
    assert_eq!(lines[2].matches(", ").count(), 23);
    assert_eq!(lines[3], "    int[] faceVertexCounts = [4, 4, 4, 4, 4, 4]");
}

#[test]
fn cube_stage_document() {
    let text = cube_stage().serialize_to_text();
    let expected = format!(
        "#usda 1.0\n(\n    upAxis = \"Z\"\n    metersPerUnit = 1\n    defaultPrim = \"Cube\"\n)\ndef Xform \"Cube\" {{\n    def Mesh \"CubeMesh\" {{\n        {}\n        {}\n        {}\n    }}\n}}\n",
        POINTS_LINE, INDICES_LINE, COUNTS_LINE
    );
    assert_eq!(text, expected);
}

#[test]
fn stage_metadata_comes_before_first_def() {
    let mut stage = Stage::default();
    stage.set_up_axis(Axis::Z);
    stage.set_scale(num(1.0));
    stage.set_default_prim("Cube".to_string());
    stage.push_sub(Prim::new(PrimType::Xform, "Cube".to_string()));
    let text = stage.serialize_to_text();
    assert!(text.starts_with("#usda 1.0\n("));
    let first_def = text.find("def ").unwrap();
    for line in ["    upAxis = \"Z\"\n", "    metersPerUnit = 1\n", "    defaultPrim = \"Cube\"\n"] {
        let at = text.find(line).unwrap();
        assert!(at < first_def);
    }
    assert_eq!(
        text,
        "#usda 1.0\n(\n    upAxis = \"Z\"\n    metersPerUnit = 1\n    defaultPrim = \"Cube\"\n)\ndef Xform \"Cube\" {\n}\n"
    );
}

#[test]
fn nested_mesh_is_indented_by_four() {
    let mut xform = Prim::new(PrimType::Xform, "A".to_string());
    xform.push_sub(Prim::new(PrimType::Mesh, "B".to_string()));
    let mut stage = Stage::default();
    stage.push_sub(xform);
    assert_eq!(
        stage.serialize_to_text(),
        "#usda 1.0\ndef Xform \"A\" {\n    def Mesh \"B\" {\n    }\n}\n"
    );
}

#[test]
fn grandchild_is_indented_by_eight() {
    let mut mesh = Prim::new(PrimType::Mesh, "C".to_string());
    set_face_vertex_counts(&mut mesh, vec![3]);
    let mut middle = Prim::new(PrimType::Xform, "B".to_string());
    middle.push_sub(mesh);
    let mut top = Prim::new(PrimType::Xform, "A".to_string());
    top.push_sub(middle);
    top.push_sub(Prim::new(PrimType::Xform, "D".to_string()));
    assert_eq!(
        top.serialize_to_text(),
        "def Xform \"A\" {\n    def Xform \"B\" {\n        def Mesh \"C\" {\n            int[] faceVertexCounts = [3]\n        }\n    }\n    def Xform \"D\" {\n    }\n}\n"
    );
}

#[test]
fn every_line_is_indented_by_four_per_level() {
    let text = cube_stage().serialize_to_text();
    let mut depth: usize = 0;
    for line in text.lines().skip(1) {
        let indent = line.len() - line.trim_start_matches(' ').len();
        let body = &line[indent..];
        if body == ")" || body == "}" {
            depth -= 1;
        }
        assert_eq!(indent, 4 * depth);
        if body.ends_with("(") || body.ends_with("{") {
            depth += 1;
        }
    }
    assert_eq!(depth, 0);
}

#[test]
fn braces_and_brackets_are_balanced() {
    let mut prim = cube_mesh();
    prim.meta.insert("kind".to_string(), MetaValue::String("component".to_string()));
    let text = prim.serialize_to_text();
    for (open, close) in [('{', '}'), ('(', ')')] {
        let mut depth: i32 = 0;
        for c in text.chars() {
            if c == open {
                depth += 1;
            } else if c == close {
                depth -= 1;
                assert!(depth >= 0);
            }
        }
        assert_eq!(depth, 0);
    }
}

#[test]
fn prim_metadata_block() {
    let mut prim = Prim::new(PrimType::Xform, "Car".to_string());
    prim.meta.insert("kind".to_string(), MetaValue::String("component".to_string()));
    prim.meta.insert("size".to_string(), MetaValue::Float(num(2.5)));
    assert_eq!(
        prim.serialize_to_text(),
        "def Xform \"Car\" (\n    kind = \"component\"\n    size = 2.5\n)\n{\n}\n"
    );
}

#[test]
fn nested_prim_metadata_is_indented_with_its_block() {
    let mut inner = Prim::new(PrimType::Mesh, "In".to_string());
    inner.meta.insert("kind".to_string(), MetaValue::String("x".to_string()));
    let mut outer = Prim::new(PrimType::Xform, "Out".to_string());
    outer.push_sub(inner);
    assert_eq!(
        outer.serialize_to_text(),
        "def Xform \"Out\" {\n    def Mesh \"In\" (\n        kind = \"x\"\n    )\n    {\n    }\n}\n"
    );
}

#[test]
fn serializing_twice_gives_the_same_text() {
    let stage = cube_stage();
    let first = stage.serialize_to_text();
    let second = stage.serialize_to_text();
    assert_eq!(first, second);
    let prim = cube_mesh();
    assert_eq!(prim.serialize_to_text(), prim.serialize_to_text());
}

#[test]
fn empty_int_array_renders_as_empty_brackets() {
    let attribute = Attribute::IntArray(vec![]);
    assert_eq!(attribute.value_to_string(), "[]");
    assert_eq!(attribute.format_line("faceVertexCounts"), "int[] faceVertexCounts = []");
}

#[test]
fn int_array_items_are_decimal() {
    let values: Vec<u32> = vec![0, 7, 9, 10, 11, 99, 100, 101, 1234567890, 4294967295];
    let expected = format!(
        "[{}]",
        values.iter().map(|v| v.to_string()).collect::<Vec<String>>().join(", ")
    );
    assert_eq!(Attribute::IntArray(values).value_to_string(), expected);
    assert_eq!(Attribute::IntArray(vec![42]).value_to_string(), "[42]");
}

#[test]
fn string_attribute_is_quoted_without_escaping() {
    let attribute = Attribute::String("a \"b\" \\ c".to_string());
    assert_eq!(attribute.value_to_string(), "\"a \"b\" \\ c\"");
    assert_eq!(attribute.format_line("note"), "string note = \"a \"b\" \\ c\"");
    assert_eq!(Attribute::String(String::new()).value_to_string(), "\"\"");
}

#[test]
fn float3_arrays_render_triples() {
    let items = vec![triple(0.5, -0.25, 3.0), triple(0.1, 100.0, -0.0)];
    assert_eq!(
        Attribute::Float3Array(items).format_line("v"),
        "float3[] v = [(0.5, -0.25, 3), (0.1, 100, -0)]"
    );
    assert_eq!(Attribute::Float3Array(vec![]).format_line("v"), "float3[] v = []");
    assert_eq!(
        Attribute::PointFloat3Array(vec![triple(1.0, 2.0, 3.0)]).format_line("points"),
        "point3f[] points = [(1, 2, 3)]"
    );
}

#[test]
fn type_tags() {
    assert_eq!(Attribute::String(String::new()).text_type(), "string");
    assert_eq!(Attribute::IntArray(vec![]).text_type(), "int[]");
    assert_eq!(Attribute::FloatArray(vec![]).text_type(), "float[]");
    assert_eq!(Attribute::Float3Array(vec![]).text_type(), "float3[]");
    assert_eq!(Attribute::NormalizedFloat3Array(vec![]).text_type(), "normal3f[]");
    assert_eq!(Attribute::PointFloat3Array(vec![]).text_type(), "point3f[]");
    assert_eq!(Attribute::TextureCoordinatesFloat2Array(vec![]).text_type(), "texCoord2f[]");
}

#[test]
fn axis_and_prim_type_words() {
    assert_eq!(Axis::X.text(), "X");
    assert_eq!(Axis::Y.text(), "Y");
    assert_eq!(Axis::Z.text(), "Z");
    assert_eq!(PrimType::Xform.text(), "Xform");
    assert_eq!(PrimType::Mesh.text(), "Mesh");
}

#[test]
fn meta_lines() {
    assert_eq!(
        format_meta_line("upAxis", &MetaValue::String("Y".to_string())),
        "    upAxis = \"Y\"\n"
    );
    assert_eq!(
        format_meta_line("metersPerUnit", &MetaValue::Float(num(0.01))),
        "    metersPerUnit = 0.01\n"
    );
    assert_eq!(format_meta_line("", &MetaValue::Float(num(f32::NAN))), "     = NaN\n");
}

#[test]
fn setters_overwrite_and_keep_their_place() {
    let mut stage = Stage::default();
    stage.set_up_axis(Axis::X);
    stage.set_scale(num(1.0));
    stage.set_up_axis(Axis::Y);
    stage.set_scale(num(0.5));
    stage.set_default_prim("A".to_string());
    stage.set_default_prim("B".to_string());
    assert_eq!(stage.meta.len(), 3);
    assert_eq!(
        stage.serialize_to_text(),
        "#usda 1.0\n(\n    upAxis = \"Y\"\n    metersPerUnit = 0.5\n    defaultPrim = \"B\"\n)\n"
    );
}

#[test]
fn setting_the_same_value_again_changes_nothing() {
    let mut once = Stage::default();
    once.set_up_axis(Axis::Z);
    let mut twice = Stage::default();
    twice.set_up_axis(Axis::Z);
    twice.set_up_axis(Axis::Z);
    assert_eq!(once.serialize_to_text(), twice.serialize_to_text());
}

#[test]
fn mesh_setters_overwrite() {
    let mut mesh = Prim::new(PrimType::Mesh, "M".to_string());
    set_face_vertex_counts(&mut mesh, vec![3]);
    set_points(&mut mesh, vec![]);
    set_face_vertex_counts(&mut mesh, vec![4, 4]);
    set_face_vertex_indices(&mut mesh, vec![0]);
    assert_eq!(mesh.attributes.len(), 3);
    assert_eq!(
        mesh.serialize_to_text(),
        "def Mesh \"M\" {\n    int[] faceVertexCounts = [4, 4]\n    point3f[] points = []\n    int[] faceVertexIndices = [0]\n}\n"
    );
}

#[test]
fn unimplemented_attributes_are_not_writable() {
    assert!(!Attribute::FloatArray(vec![num(1.0)]).is_writable());
    assert!(!Attribute::NormalizedFloat3Array(vec![]).is_writable());
    assert!(!Attribute::TextureCoordinatesFloat2Array(vec![[num(0.0), num(1.0)]]).is_writable());
    assert!(Attribute::String(String::new()).is_writable());
    assert!(Attribute::IntArray(vec![]).is_writable());
    assert!(Attribute::Float3Array(vec![]).is_writable());
    assert!(Attribute::PointFloat3Array(vec![]).is_writable());
}

#[test]
fn unimplemented_attribute_gives_error_and_no_text() {
    for attribute in [
        Attribute::FloatArray(vec![num(1.0)]),
        Attribute::NormalizedFloat3Array(vec![triple(0.0, 0.0, 1.0)]),
        Attribute::TextureCoordinatesFloat2Array(vec![]),
    ] {
        let mut mesh = cube_mesh();
        mesh.attributes.insert("extra".to_string(), attribute);
        assert!(!mesh.is_writable());
        assert_eq!(mesh.try_serialize_to_text(), Err(SerializeError::UnimplementedFormat));
        assert_eq!(mesh.try_serialize_to_text(), Err(SerializeError::UnimplementedFormat));
        let mut parent = Prim::new(PrimType::Xform, "P".to_string());
        parent.push_sub(Prim::new(PrimType::Xform, "Fine".to_string()));
        parent.push_sub(mesh);
        assert!(!parent.is_writable());
        assert_eq!(parent.try_serialize_to_text(), Err(SerializeError::UnimplementedFormat));
        let mut stage = Stage::default();
        stage.set_up_axis(Axis::Z);
        stage.push_sub(parent);
        assert!(!stage.is_writable());
        assert_eq!(stage.try_serialize_to_text(), Err(SerializeError::UnimplementedFormat));
    }
}

#[test]
fn checked_serialization_agrees_with_plain() {
    let stage = cube_stage();
    assert!(stage.is_writable());
    assert_eq!(stage.try_serialize_to_text(), Ok(stage.serialize_to_text()));
    let mesh = cube_mesh();
    assert_eq!(mesh.try_serialize_to_text(), Ok(mesh.serialize_to_text()));
}

#[test]
fn names_are_passed_through_as_they_are() {
    let prim = Prim::new(PrimType::Mesh, String::new());
    assert_eq!(prim.serialize_to_text(), "def Mesh \"\" {\n}\n");
    let odd = Prim::new(PrimType::Mesh, "a\"b".to_string());
    assert_eq!(odd.serialize_to_text(), "def Mesh \"a\"b\" {\n}\n");
}

#[test]
fn line_break_in_child_name_is_indented_as_two_lines() {
    let mut top = Prim::new(PrimType::Xform, "T".to_string());
    top.push_sub(Prim::new(PrimType::Mesh, "a\r\nb".to_string()));
    assert_eq!(
        top.serialize_to_text(),
        "def Xform \"T\" {\n    def Mesh \"a\n    b\" {\n    }\n}\n"
    );
}
