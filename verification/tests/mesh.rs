use openscad_mcp::analysis::mesh::{classify_stl_line, stl_summary, StlLine, StlScan};
use openscad_mcp::error::Error;

#[test]
fn stl_lines_are_classified_by_their_first_word() {
    assert_eq!(classify_stl_line("  facet normal 0 0 1"), StlLine::Facet);
    assert_eq!(classify_stl_line("endfacet"), StlLine::EndFacet);
    assert_eq!(classify_stl_line("\touter loop"), StlLine::OuterLoop);
    assert_eq!(classify_stl_line("endloop  "), StlLine::EndLoop);
    assert_eq!(classify_stl_line("vertex 1 2 3"), StlLine::Vertex);
    assert_eq!(classify_stl_line("solid cube"), StlLine::Other);
    assert_eq!(classify_stl_line("outerloop"), StlLine::Other);
    assert_eq!(classify_stl_line(""), StlLine::Other);
}

#[test]
fn scan_counts_triangles_and_vertices_inside_loops() {
    let text = "solid t\nfacet normal 0 0 1\nouter loop\nvertex 0 0 0\nvertex 1 0 0\nvertex 0 1 0\nendloop\nendfacet\nvertex 9 9 9\nendsolid t\n";
    let mut scan = StlScan::new();
    for line in text.lines() {
        if scan.observe(classify_stl_line(line)) {
            scan.count_vertex();
        }
    }
    assert_eq!(scan.finish().unwrap(), (1, 3));
}

#[test]
fn scan_without_triangles_fails() {
    let scan = StlScan::new();
    match scan.finish() {
        Err(Error::Validation(m)) => assert_eq!(m, "No triangles found in STL file"),
        _ => panic!("expected a validation error"),
    }
}

fn flagged(text: &str, unparsed: &[usize]) -> Vec<(String, bool)> {
    text.lines().enumerate().map(|(i, l)| (l.to_string(), !unparsed.contains(&i))).collect()
}

#[test]
fn whole_file_counts() {
    let text = "solid t\nfacet normal 0 0 1\nouter loop\nvertex 0 0 0\nvertex 1 0 0\nvertex x 1 0\nendloop\nendfacet\nvertex 9 9 9\nfacet normal 0 0 1\nendsolid t\n";
    let lines = flagged(text, &[5]);
    let (triangles, vertex_lines) = stl_summary(&lines).unwrap().unwrap();
    assert_eq!(triangles, 2);
    assert_eq!(vertex_lines, vec![3, 4]);
}

#[test]
fn whole_file_without_facets_fails() {
    let lines = flagged("solid t\nouter loop\nvertex 0 0 0\nendloop\n", &[]);
    match stl_summary(&lines).unwrap() {
        Err(Error::Validation(m)) => assert_eq!(m, "No triangles found in STL file"),
        other => panic!("unexpected {:?}", other),
    }
}
