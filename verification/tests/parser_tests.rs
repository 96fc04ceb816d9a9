use stl_parser::Error;
use stl_parser::FileFormat;
use stl_parser::Model;
use stl_parser::Triangle;
use stl_parser::Vertex;
use stl_parser::coord_tokens;
use stl_parser::get_format;
use stl_parser::load_binary;
use stl_parser::load_bytes;
use stl_parser::load_text;

/// The coordinate values for a text file, one per numeric token in scan
/// order, as the decoder's callers supply them.
fn coords_for(data: &[u8]) -> Vec<Option<u32>> {
    coord_tokens(data)
        .iter()
        .map(|t| {
            std::str::from_utf8(t)
                .ok()
                .and_then(|s| s.parse::<f32>().ok())
                .map(|v| v.to_bits())
        })
        .collect()
}

/// Decode a whole in-memory file as a caller with the file's bytes
/// would: sniff, then decode the sniffed variant.
fn load(data: &[u8]) -> Result<Model, Error> {
    let coords = coords_for(data);
    load_bytes(data, &coords)
}

/// A binary file: an 80-byte header, the declared count, and one
/// 50-byte record per triangle (12 floats and two attribute bytes).
fn bin_file(tris: &[[f32; 12]]) -> Vec<u8> {
    let mut data = vec![b'#'; 80];
    data.extend_from_slice(&(tris.len() as u32).to_le_bytes());
    for t in tris {
        for v in t {
            data.extend_from_slice(&v.to_le_bytes());
        }
        data.extend_from_slice(&[0u8, 0u8]);
    }
    data
}

const TEXT_STL: &str = "solid bottle\n  facet normal 0 0 1\n    outer loop\n      vertex 0 0 0\n      vertex 1 0 0\n      vertex 0 1 0\n    endloop\n  endfacet\n  facet normal 0 0 -1\n    outer loop\n      vertex 0 0 0\n      vertex 0 1 0\n      vertex 1 0 0\n    endloop\n  endfacet\nendsolid bottle\n";

#[test]
fn binary_format_check() {
    let data = bin_file(&[[0.0, 0.0, 1.0, 0.0, 0.0, 0.0, 1.0, 0.0, 0.0, 0.0, 1.0, 0.0]]);
    let fmt = get_format(&data);
    match fmt {
        Ok(FileFormat::Binary) => println!("Pass: Binary format"),
        _ => panic!("Test failed to detect the binary format for the STL file"),
    }
}

#[test]
fn text_format_check() {
    let fmt = get_format(TEXT_STL.as_bytes());
    match fmt {
        Ok(FileFormat::Text) => println!("Pass: Text format"),
        _ => panic!("Test failed for detect the text format for the STL file"),
    }
}

#[test]
fn binary_stl_load() {
    let data = bin_file(&[
        [0.0, 0.0, 1.0, 0.0, 0.0, 0.0, 1.0, 0.0, 0.0, 0.0, 1.0, 0.0],
        [0.0, 0.0, -1.0, 0.0, 0.0, 0.0, 0.0, 1.0, 0.0, 1.0, 0.0, 0.0],
    ]);
    match load(&data) {
        Ok(model) => {
            let mut idx = 0;
            let mut it = model.iter();
            while let Some(triangle) = it.next() {
                println!("Triangle {}\n{:?}", idx, triangle);
                idx += 1;
            }
            assert_eq!(idx, 2);
        }
        _ => panic!("Failed to parse the binary STL file"),
    }
}

#[test]
fn text_stl_load() {
    match load(TEXT_STL.as_bytes()) {
        Ok(model) => {
            let mut idx = 0;
            let mut it = model.iter();
            while let Some(triangle) = it.next() {
                println!("Triangle {}\n{:?}", idx, triangle);
                idx += 1;
            }
            assert_eq!(idx, 2);
        }
        _ => panic!("Failed to parse the text STL file"),
    }
}

#[test]
fn triangle_count() {
    match load(TEXT_STL.as_bytes()) {
        Ok(model) => {
            println!("{}", model.triangle_count());
            assert_eq!(model.triangle_count(), 2);
        }
        _ => panic!("Failed to parse the text STL file"),
    }
}

#[test]
fn triangle_vertices() {
    match load(TEXT_STL.as_bytes()) {
        Ok(model) => {
            let mut idx = 0;
            let mut it = model.iter();
            while let Some(triangle) = it.next() {
                println!("Triangle {}\n{:?}", idx, triangle.vertices());
                idx += 1;
            }
        }
        _ => panic!("Failed to parse the text STL file"),
    }
}

#[test]
fn vertex_array() {
    let data = bin_file(&[[0.0, 0.0, 1.0, 0.5, 0.25, 0.0, 1.0, 2.0, 4.0, -1.0, -2.0, -4.0]]);
    match load(&data) {
        Ok(model) => {
            let mut it = model.iter();
            while let Some(triangle) = it.next() {
                let vertices = triangle.vertices();
                let v1: Vertex = vertices[0];
                let v2: Vertex = vertices[1];
                let v3: Vertex = vertices[2];
                println!("{:?} {:?} {:?}", v1, v2, v3);
                assert_eq!(v1.get_x(), 0.5f32.to_bits());
                assert_eq!(v2.get_z(), 4.0f32.to_bits());
                assert_eq!(v3.get_y(), (-2.0f32).to_bits());
            }
        }
        _ => panic!("Failed to parse the text STL file"),
    }
}

#[test]
fn binary_round_trip_is_byte_exact() {
    let floats = [
        [1.5, -2.25, 3.75, 0.1, 0.2, 0.3, -0.1, -0.2, -0.3, 7.0, 8.0, 9.0f32],
        [0.0, 0.0, 0.0, 1e10, -1e-10, 2.5, 3.25, -3.25, 0.125, -0.125, 6.0, -6.0f32],
    ];
    let data = bin_file(&floats);
    let model = load_binary(&data).unwrap_or_else(|_| panic!("binary decode failed"));
    assert_eq!(model.triangle_count(), 2);
    for (i, t) in floats.iter().enumerate() {
        let tri = model.get_triangle(i);
        assert_eq!(tri.get_normal().get_x(), t[0].to_bits());
        assert_eq!(tri.get_normal().get_y(), t[1].to_bits());
        assert_eq!(tri.get_normal().get_z(), t[2].to_bits());
        for c in 0..3 {
            let v = tri.vertices()[c];
            assert_eq!(v.get_x(), t[3 + 3 * c].to_bits());
            assert_eq!(v.get_y(), t[4 + 3 * c].to_bits());
            assert_eq!(v.get_z(), t[5 + 3 * c].to_bits());
        }
    }
}

#[test]
fn binary_zero_triangles() {
    let data = bin_file(&[]);
    let model = load_binary(&data).unwrap_or_else(|_| panic!("binary decode failed"));
    assert_eq!(model.triangle_count(), 0);
}

#[test]
fn binary_truncated_is_read_error() {
    let mut data = bin_file(&[[0.0; 12], [1.0; 12]]);
    data.truncate(data.len() - 1);
    assert!(matches!(load_binary(&data), Err(Error::ReadError)));
    assert!(matches!(load(&data), Err(Error::ReadError)));
}

#[test]
fn binary_count_is_authoritative() {
    let mut data = bin_file(&[[0.0; 12]]);
    let n: u32 = 5;
    data[80..84].copy_from_slice(&n.to_le_bytes());
    assert!(matches!(load_binary(&data), Err(Error::ReadError)));
}

#[test]
fn binary_missing_count_is_read_error() {
    let data = vec![b'#'; 82];
    assert!(matches!(load_binary(&data), Err(Error::ReadError)));
}

#[test]
fn sniffer_solid_prefix_cases() {
    let mut text = vec![b' '; 80];
    text[3..8].copy_from_slice(b"SoLiD");
    assert!(matches!(get_format(&text), Ok(FileFormat::Text)));

    let mut tabbed = vec![b'\t'; 80];
    tabbed[0..5].copy_from_slice(b"solid");
    tabbed[5] = b' ';
    assert!(matches!(get_format(&tabbed), Ok(FileFormat::Text)));

    let plain = vec![b'x'; 80];
    assert!(matches!(get_format(&plain), Ok(FileFormat::Binary)));

    let mut almost = vec![b' '; 80];
    almost[0..5].copy_from_slice(b"solip");
    assert!(matches!(get_format(&almost), Ok(FileFormat::Binary)));
}

#[test]
fn sniffer_short_file_is_read_error() {
    let short = vec![b's'; 79];
    assert!(matches!(get_format(&short), Err(Error::ReadError)));
    assert!(matches!(get_format(b""), Err(Error::ReadError)));
}

#[test]
fn sniffer_non_utf8_probe_is_format_error() {
    let mut data = vec![b'#'; 100];
    data[40] = 0xFF;
    assert!(matches!(get_format(&data), Err(Error::FormatError)));
}

#[test]
fn text_values_decode_to_float_bits() {
    let mut src = String::from("solid v\n");
    src.push_str("facet normal 0 0 1\nouter loop\n");
    src.push_str("vertex 2.5 -0.5 1e2\nvertex 0.125 3 4\nvertex -1 -2 -3\n");
    src.push_str("endloop\nendfacet\nendsolid v\n");
    while src.len() < 80 {
        src.push(' ');
    }
    let model = load(src.as_bytes()).unwrap_or_else(|_| panic!("text decode failed"));
    assert_eq!(model.triangle_count(), 1);
    let t = model.get_triangle(0);
    assert_eq!(t.get_normal().get_z(), 1.0f32.to_bits());
    let v0 = t.vertices()[0];
    assert_eq!(v0.get_x(), 2.5f32.to_bits());
    assert_eq!(v0.get_y(), (-0.5f32).to_bits());
    assert_eq!(v0.get_z(), 100.0f32.to_bits());
    let v1 = t.vertices()[1];
    assert_eq!(v1.get_x(), 0.125f32.to_bits());
}

#[test]
fn text_coord_tokens_in_scan_order() {
    let toks = coord_tokens(TEXT_STL.as_bytes());
    assert_eq!(toks.len(), 24);
    assert_eq!(toks[0], b"0".to_vec());
    assert_eq!(toks[2], b"1".to_vec());
    assert_eq!(toks[12], b"0".to_vec());
    assert_eq!(toks[14], b"-1".to_vec());
}

#[test]
fn text_bad_numeric_token_is_format_error() {
    let mut src = String::from("solid v\nfacet normal 0 0 abc\n");
    while src.len() < 80 {
        src.push(' ');
    }
    assert!(matches!(load(src.as_bytes()), Err(Error::FormatError)));
}

#[test]
fn text_wrong_token_count_is_structural_error() {
    let mut src = String::from("solid v\nfacet normal 0 0\n");
    while src.len() < 80 {
        src.push(' ');
    }
    assert!(matches!(load(src.as_bytes()), Err(Error::StructuralError)));
}

#[test]
fn text_fourth_vertex_is_structural_error() {
    let mut src = String::from(
        "solid v\nfacet normal 0 0 1\nvertex 0 0 0\nvertex 1 0 0\nvertex 0 1 0\nvertex 1 1 0\n",
    );
    while src.len() < 80 {
        src.push(' ');
    }
    assert!(matches!(load(src.as_bytes()), Err(Error::StructuralError)));
}

#[test]
fn text_premature_endfacet_is_structural_error() {
    let mut src = String::from("solid v\nfacet normal 0 0 1\nvertex 0 0 0\nendfacet\n");
    while src.len() < 80 {
        src.push(' ');
    }
    assert!(matches!(load(src.as_bytes()), Err(Error::StructuralError)));
}

#[test]
fn text_non_utf8_line_is_read_error() {
    let mut src = Vec::from(&b"solid v\nfacet normal 0 0 1\n"[..]);
    src.extend_from_slice(b"vertex 0 \xFF 0\n");
    while src.len() < 80 {
        src.push(b' ');
    }
    assert!(matches!(load_text(&src, &coords_for(&src)), Err(Error::ReadError)));
}

#[test]
fn text_without_facets_is_empty_mesh() {
    let mut src = String::from("solid empty\nendsolid empty\n");
    while src.len() < 80 {
        src.push(' ');
    }
    let model = load(src.as_bytes()).unwrap_or_else(|_| panic!("text decode failed"));
    assert_eq!(model.triangle_count(), 0);
}

#[test]
fn endfacet_occurrences_match_triangle_count() {
    let count = TEXT_STL
        .lines()
        .filter(|l| l.split_whitespace().next() == Some("endfacet"))
        .count();
    let model = load(TEXT_STL.as_bytes()).unwrap_or_else(|_| panic!("text decode failed"));
    assert_eq!(model.triangle_count(), count);
}

/// What a caller's normal-recomputation pass supplies for one triangle:
/// the normalized cross product of the edge vectors, or nothing when it
/// is degenerate.
fn recomputed_normal(t: &Triangle) -> Option<Vertex> {
    let v = t.vertices();
    let p: Vec<[f32; 3]> = v
        .iter()
        .map(|w| {
            [
                f32::from_bits(w.get_x()),
                f32::from_bits(w.get_y()),
                f32::from_bits(w.get_z()),
            ]
        })
        .collect();
    let u = [p[1][0] - p[0][0], p[1][1] - p[0][1], p[1][2] - p[0][2]];
    let w = [p[2][0] - p[0][0], p[2][1] - p[0][1], p[2][2] - p[0][2]];
    let n = [
        u[1] * w[2] - u[2] * w[1],
        u[2] * w[0] - u[0] * w[2],
        u[0] * w[1] - u[1] * w[0],
    ];
    let len = (n[0] * n[0] + n[1] * n[1] + n[2] * n[2]).sqrt();
    let out = [n[0] / len, n[1] / len, n[2] / len];
    if out.iter().any(|c| c.is_nan()) {
        None
    } else {
        Some(Vertex::new(out[0].to_bits(), out[1].to_bits(), out[2].to_bits()))
    }
}

/// A caller's recomputation pass: derive every normal from the corners
/// and slot the results in, keeping the stored normal of a degenerate
/// facet.
fn recompute_normals(model: &mut Model) {
    let mut normals = Vec::new();
    let mut it = model.iter();
    while let Some(t) = it.next() {
        normals.push(recomputed_normal(&t).unwrap_or(t.get_normal()));
    }
    if normals.len() != model.triangle_count() {
        panic!("normal count mismatch");
    }
    model.set_normals(&normals);
}

#[test]
fn recomputed_normal_of_unit_right_triangle() {
    let z = 0.0f32.to_bits();
    let o = 1.0f32.to_bits();
    let t = Triangle::new(
        Vertex::new(o, o, o),
        [
            Vertex::new(z, z, z),
            Vertex::new(o, z, z),
            Vertex::new(z, o, z),
        ],
    );
    let mut model = Model::new();
    model.push(t);
    recompute_normals(&mut model);
    let n = model.get_triangle(0).get_normal();
    assert_eq!(n.get_x(), 0.0f32.to_bits());
    assert_eq!(n.get_y(), 0.0f32.to_bits());
    assert_eq!(n.get_z(), 1.0f32.to_bits());
}

#[test]
fn recomputing_twice_matches_once() {
    let mut model = load(TEXT_STL.as_bytes()).unwrap_or_else(|_| panic!("text decode failed"));
    recompute_normals(&mut model);
    let once: Vec<Triangle> = (0..model.triangle_count())
        .map(|i| model.get_triangle(i))
        .collect();
    recompute_normals(&mut model);
    for (i, t) in once.iter().enumerate() {
        assert_eq!(*t, model.get_triangle(i));
    }
}

#[test]
fn degenerate_facet_keeps_stored_normal() {
    let z = 0.0f32.to_bits();
    let n = Vertex::new(7.0f32.to_bits(), 8.0f32.to_bits(), 9.0f32.to_bits());
    let t = Triangle::new(n, [Vertex::new(z, z, z); 3]);
    let mut model = Model::new();
    model.push(t);
    recompute_normals(&mut model);
    assert_eq!(model.get_triangle(0).get_normal(), n);
}

#[test]
fn decoders_hand_back_stored_normals() {
    let stored = [9.0, 8.0, 7.0, 0.0, 0.0, 0.0, 1.0, 0.0, 0.0, 0.0, 1.0, 0.0f32];
    let data = bin_file(&[stored]);
    let model = load(&data).unwrap_or_else(|_| panic!("binary decode failed"));
    let n = model.get_triangle(0).get_normal();
    assert_eq!(n.get_x(), 9.0f32.to_bits());
    assert_eq!(n.get_y(), 8.0f32.to_bits());
    assert_eq!(n.get_z(), 7.0f32.to_bits());
}

#[test]
fn iteration_yields_each_triangle_once_and_restarts() {
    let z = 0.0f32.to_bits();
    let mk = |v: f32| {
        Triangle::new(
            Vertex::new(v.to_bits(), z, z),
            [Vertex::new(z, z, z); 3],
        )
    };
    let mut model = Model::new();
    let a = mk(1.0);
    let b = mk(2.0);
    let c = mk(3.0);
    model.push(a);
    model.push(b);
    model.push(c);
    for _round in 0..2 {
        let mut it = model.iter();
        assert_eq!(it.next(), Some(a));
        assert_eq!(it.next(), Some(b));
        assert_eq!(it.next(), Some(c));
        assert_eq!(it.next(), None);
        assert_eq!(it.next(), None);
    }
}
