use objweld::loader::load_obj;
use objweld::mesh::{IndexTriple, LoadError, WeldedMesh};
use objweld::parse::{face_triple, parse_obj};
use objweld::token::{face_component, is_float_token, parse_u32_token};
use objweld::weld::weld;

fn src(text: &str) -> Vec<u8> {
    text.as_bytes().to_vec()
}

fn tok(text: &str) -> Vec<u8> {
    text.as_bytes().to_vec()
}

const SAMPLE: &str = "\
v 0 0 0
v 1 0 0
v 1 1 0
v 0 1 0
vn 0 0 1
vt 0.2 0.3
f 1/1/1 2/1/1 3/1/1
f 1/1/1 3/1/1 4/1/1
";

#[test]
fn round_trip_two_triangles_sharing_an_edge() {
    // 4 positions, 1 normal, 1 texcoord, 2 triangles sharing an edge:
    // 6 face corners, 4 distinct triples -> 4 welded vertices, 6 indices.
    let w = load_obj(Some(&src(SAMPLE))).unwrap();
    assert_eq!(w.positions.len(), 4);
    assert_eq!(w.normals.len(), 4);
    assert_eq!(w.texcoords.len(), 4);
    assert_eq!(w.indices.len(), 6);
    assert_eq!(w.indices, vec![0, 1, 2, 0, 2, 3]);
    assert_eq!(w.positions[1].x, tok("1"));
    assert_eq!(w.positions[3].y, tok("1"));
    assert_eq!(w.normals[0].z, tok("1"));
}

#[test]
fn parallel_lengths_and_indices_in_range() {
    let w = load_obj(Some(&src(SAMPLE))).unwrap();
    assert_eq!(w.positions.len(), w.normals.len());
    assert_eq!(w.positions.len(), w.texcoords.len());
    for &ix in w.indices.iter() {
        assert!(ix < w.positions.len());
    }
    assert!(w.positions.len() <= w.indices.len());
}

#[test]
fn welding_is_idempotent_on_repeated_triples() {
    // The same triple at all six corners: one welded vertex, six indices,
    // all naming row zero.
    let text = "v 1 2 3\nvn 4 5 6\nvt 7 8\nf 1/1/1 1/1/1 1/1/1\nf 1/1/1 1/1/1 1/1/1\n";
    let w = load_obj(Some(&src(text))).unwrap();
    assert_eq!(w.positions.len(), 1);
    assert_eq!(w.normals.len(), 1);
    assert_eq!(w.texcoords.len(), 1);
    assert_eq!(w.indices, vec![0, 0, 0, 0, 0, 0]);
    assert_eq!(w.positions[0].y, tok("2"));
}

#[test]
fn texcoord_v_flip_convention() {
    // The welded texcoord carries the source tokens; the consumer flips the
    // second component to 1 - v when converting to machine floats.
    let w = load_obj(Some(&src(SAMPLE))).unwrap();
    assert_eq!(w.texcoords[0].x, tok("0.2"));
    assert_eq!(w.texcoords[0].y, tok("0.3"));
    let u: f32 = String::from_utf8(w.texcoords[0].x.clone()).unwrap().parse().unwrap();
    let v: f32 = String::from_utf8(w.texcoords[0].y.clone()).unwrap().parse().unwrap();
    let flipped = 1.0f32 - v;
    assert_eq!(u, 0.2f32);
    assert!((flipped - 0.7f32).abs() < 1e-6);
}

#[test]
fn quad_face_is_unsupported() {
    let text = "v 0 0 0\nv 1 0 0\nv 1 1 0\nv 0 1 0\nf 1 2 3 4\n";
    assert!(matches!(load_obj(Some(&src(text))), Err(LoadError::UnsupportedPolygon)));
}

#[test]
fn missing_subfield_resolves_to_first_entry() {
    let t = face_triple(&tok("3//5"));
    assert_eq!(t, IndexTriple { position: 2, texcoord: 0, normal: 4 });
    // End to end: a corner without a texcoord reference welds against the
    // first texcoord entry.
    let text = "v 0 0 0\nv 1 0 0\nv 0 1 0\nvn 0 0 1\nvt 0.5 0.5\nf 1//1 2//1 3//1\n";
    let w = load_obj(Some(&src(text))).unwrap();
    assert_eq!(w.texcoords.len(), 3);
    assert_eq!(w.texcoords[0].x, tok("0.5"));
}

#[test]
fn unreadable_input_is_recoverable() {
    assert!(matches!(load_obj(None), Err(LoadError::ResourceUnavailable)));
    let empty = WeldedMesh::empty();
    assert_eq!(empty.positions.len(), 0);
    assert_eq!(empty.normals.len(), 0);
    assert_eq!(empty.texcoords.len(), 0);
    assert_eq!(empty.indices.len(), 0);
}

#[test]
fn empty_source_is_an_empty_mesh() {
    let w = load_obj(Some(&src(""))).unwrap();
    assert_eq!(w.positions.len(), 0);
    assert_eq!(w.indices.len(), 0);
}

#[test]
fn wrong_arity_is_malformed() {
    assert!(matches!(load_obj(Some(&src("v 1 2\n"))), Err(LoadError::MalformedRecord)));
    assert!(matches!(load_obj(Some(&src("vn 1 2 3 4\n"))), Err(LoadError::MalformedRecord)));
    assert!(matches!(load_obj(Some(&src("vt 1\n"))), Err(LoadError::MalformedRecord)));
}

#[test]
fn non_numeric_component_is_malformed() {
    assert!(matches!(load_obj(Some(&src("v a b c\n"))), Err(LoadError::MalformedRecord)));
    assert!(matches!(load_obj(Some(&src("vt 0.5 0..5\n"))), Err(LoadError::MalformedRecord)));
}

#[test]
fn out_of_range_reference_fails_the_load() {
    let text = "v 0 0 0\nvn 0 0 1\nvt 0 0\nf 5/1/1 1/1/1 1/1/1\n";
    assert!(matches!(load_obj(Some(&src(text))), Err(LoadError::IndexOutOfRange)));
    // A face without normals to reference fails too: the absent sub-field
    // points at entry zero of an empty normal array.
    let text2 = "v 0 0 0\nvt 0 0\nf 1 1 1\n";
    assert!(matches!(load_obj(Some(&src(text2))), Err(LoadError::IndexOutOfRange)));
}

#[test]
fn comments_blanks_and_unknown_tags_are_skipped() {
    let text = "# a comment\n\n   \ns 1\nusemtl whatever\nv 1 2 3\n";
    let raw = parse_obj(&src(text)).unwrap();
    assert_eq!(raw.positions.len(), 1);
    assert_eq!(raw.normals.len(), 0);
    assert_eq!(raw.faces.len(), 0);
}

#[test]
fn parser_keeps_source_order_and_tokens() {
    let raw = parse_obj(&src(SAMPLE)).unwrap();
    assert_eq!(raw.positions.len(), 4);
    assert_eq!(raw.normals.len(), 1);
    assert_eq!(raw.texcoords.len(), 1);
    assert_eq!(raw.faces.len(), 6);
    assert_eq!(raw.faces[0], IndexTriple { position: 0, texcoord: 0, normal: 0 });
    assert_eq!(raw.faces[4], IndexTriple { position: 2, texcoord: 0, normal: 0 });
    assert_eq!(raw.positions[2].x, tok("1"));
}

#[test]
fn welder_alone_matches_the_load() {
    let raw = parse_obj(&src(SAMPLE)).unwrap();
    let w = weld(&raw).unwrap();
    let w2 = load_obj(Some(&src(SAMPLE))).unwrap();
    assert_eq!(w.indices, w2.indices);
    assert_eq!(w.positions.len(), w2.positions.len());
}

#[test]
fn face_subfields_parse_exactly() {
    assert_eq!(face_triple(&tok("1/2/3")), IndexTriple { position: 0, texcoord: 1, normal: 2 });
    assert_eq!(face_triple(&tok("7")), IndexTriple { position: 6, texcoord: 0, normal: 0 });
    assert_eq!(face_triple(&tok("7/8")), IndexTriple { position: 6, texcoord: 7, normal: 0 });
    // Fields past the third are ignored; bad fields fall back to zero.
    assert_eq!(face_triple(&tok("1/2/3/4")), IndexTriple { position: 0, texcoord: 1, normal: 2 });
    assert_eq!(face_triple(&tok("x/y/z")), IndexTriple { position: 0, texcoord: 0, normal: 0 });
    assert_eq!(face_component(&tok("0")), 0);
    assert_eq!(face_component(&tok("1")), 0);
    assert_eq!(face_component(&tok("10")), 9);
}

#[test]
fn decimal_index_tokens_parse_exactly() {
    assert_eq!(parse_u32_token(&tok("0")), Some(0));
    assert_eq!(parse_u32_token(&tok("42")), Some(42));
    assert_eq!(parse_u32_token(&tok("4294967295")), Some(u32::MAX));
    assert_eq!(parse_u32_token(&tok("4294967296")), None);
    assert_eq!(parse_u32_token(&tok("")), None);
    assert_eq!(parse_u32_token(&tok("+1")), None);
    assert_eq!(parse_u32_token(&tok("1.5")), None);
}

#[test]
fn float_tokens_match_the_literal_grammar() {
    let accepted = [
        "0", "1.5", ".5", "5.", "-0.25", "+3", "1e5", "1.5E-3", "-.5e+2", "inf", "-inf",
        "INFINITY", "nan", "NaN",
    ];
    let rejected = ["", "+", "-", ".", "1.2.3", "1e", "e5", "1e5e5", "abc", "0x10", "1 2", "in"];
    for t in accepted.iter() {
        assert!(is_float_token(&tok(t)), "should accept {}", t);
        assert!(t.parse::<f32>().is_ok(), "reference accepts {}", t);
    }
    for t in rejected.iter() {
        assert!(!is_float_token(&tok(t)), "should reject {}", t);
        assert!(t.parse::<f32>().is_err(), "reference rejects {}", t);
    }
}

#[test]
fn crlf_and_extra_blanks_are_tolerated() {
    let text = "v 1 2 3\r\nv  4\t5  6\r\n";
    let raw = parse_obj(&src(text)).unwrap();
    assert_eq!(raw.positions.len(), 2);
    assert_eq!(raw.positions[1].x, tok("4"));
    assert_eq!(raw.positions[1].z, tok("6"));
}
