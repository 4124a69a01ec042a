use openscad_mcp::listing::{
    ends_with_scad, has_scad_extension, scad_models, sorted_names, sorted_unique_names, text_le_exec,
};
use openscad_mcp::models::ModelStore;
use openscad_mcp::error::Error;

fn strings(v: &[&str]) -> Vec<String> {
    v.iter().map(|s| s.to_string()).collect()
}

#[test]
fn text_order_is_by_code_point_with_prefixes_first() {
    assert!(text_le_exec("a", "b"));
    assert!(!text_le_exec("b", "a"));
    assert!(text_le_exec("ab", "abc"));
    assert!(!text_le_exec("abc", "ab"));
    assert!(text_le_exec("Z", "a"));
    assert!(text_le_exec("same", "same"));
    assert!(text_le_exec("", ""));
    assert!(text_le_exec("z", "é"));
}

#[test]
fn sorting_matches_std() {
    let v = strings(&["pear", "apple", "Banana", "apple", "é", "", "app"]);
    let mut expected = v.clone();
    expected.sort();
    assert_eq!(sorted_names(&v), expected);
}

#[test]
fn sort_and_dedup_matches_std() {
    let v = strings(&["lib2", "lib1", "lib2", "MCAD", "lib1"]);
    let mut expected = v.clone();
    expected.sort();
    expected.dedup();
    assert_eq!(sorted_unique_names(&v), expected);
    assert!(sorted_unique_names(&Vec::new()).is_empty());
}

#[test]
fn scad_extension_as_path_reads_it() {
    assert!(has_scad_extension("a.scad"));
    assert!(has_scad_extension("a.b.scad"));
    assert!(!has_scad_extension(".scad"));
    assert!(!has_scad_extension("a.SCAD"));
    assert!(!has_scad_extension("a.scad.bak"));
    assert!(!has_scad_extension("scad"));
    assert!(ends_with_scad(".scad"));
    assert!(ends_with_scad("x.scad"));
    assert!(!ends_with_scad("x.scadx"));
}

#[test]
fn scad_models_keep_listing_order() {
    let v = strings(&["z.scad", "readme.md", "a.scad", ".scad"]);
    assert_eq!(scad_models(&v), strings(&["z.scad", "a.scad"]));
}

#[test]
fn model_store_lists_sorted_models() {
    let v = strings(&["z.scad", "readme.md", "a.scad", ".scad", "m.scad"]);
    assert_eq!(ModelStore::model_files(&v), strings(&["a.scad", "m.scad", "z.scad"]));
}

#[test]
fn model_store_errors() {
    match ModelStore::missing_model("gone.scad") {
        Error::Validation(m) => assert_eq!(m, "Model file not found: gone.scad"),
        _ => panic!("expected a validation error"),
    }
    match ModelStore::not_a_directory() {
        Error::Validation(m) => assert_eq!(m, "Path is not a directory"),
        _ => panic!("expected a validation error"),
    }
}
