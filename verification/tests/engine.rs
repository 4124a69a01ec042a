use openscad_mcp::error::Error;
use openscad_mcp::render::engine::{openscad_candidates, pick_openscad, version_from_output};
use openscad_mcp::render::OpenSCADEngine;

#[test]
fn engine_getters() {
    let engine = OpenSCADEngine::from_parts("/usr/bin/openscad".to_string(), "2021.01".to_string());
    assert_eq!(engine.version(), "2021.01");
    assert_eq!(engine.path(), "/usr/bin/openscad");
}

#[test]
fn candidates_start_with_the_environment() {
    let c = openscad_candidates(Some("/custom/openscad".to_string()));
    assert_eq!(c.len(), 5);
    assert_eq!(c[0], "/custom/openscad");
    assert_eq!(c[1], "/usr/bin/openscad");
    assert_eq!(openscad_candidates(None).len(), 4);
}

#[test]
fn first_existing_candidate_wins() {
    let c = vec![
        ("/a".to_string(), false),
        ("/b".to_string(), true),
        ("/c".to_string(), true),
    ];
    assert_eq!(pick_openscad(&c, Some("/p".to_string())).unwrap(), "/b");
    let none = vec![("/a".to_string(), false)];
    assert_eq!(pick_openscad(&none, Some("/p".to_string())).unwrap(), "/p");
    match pick_openscad(&none, None) {
        Err(e @ Error::OpenSCADNotFound(_)) => assert!(e.to_string().contains("not found")),
        _ => panic!("expected not found"),
    }
}

#[test]
fn version_is_last_word() {
    assert_eq!(version_from_output("OpenSCAD version 2021.01\n"), "2021.01");
    assert_eq!(version_from_output("   \n"), "unknown");
    assert_eq!(version_from_output(""), "unknown");
    assert_eq!(version_from_output("solo"), "solo");
}
