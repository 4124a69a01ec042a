use openscad_mcp::models::circular::{CycleSearch, SearchStep};
use openscad_mcp::models::path_key::path_key_of;
use openscad_mcp::models::{parse_includes, DependencyGraph};

#[test]
fn test_parse_single_include_angle_brackets() {
    let content = "include <part.scad>";
    let result = parse_includes(content).unwrap();
    assert_eq!(result.len(), 1);
    assert_eq!(result[0], "part.scad");
}

#[test]
fn test_parse_single_include_quotes() {
    let content = r#"include "part.scad""#;
    let result = parse_includes(content).unwrap();
    assert_eq!(result.len(), 1);
    assert_eq!(result[0], "part.scad");
}

#[test]
fn test_parse_single_use() {
    let content = "use <library.scad>";
    let result = parse_includes(content).unwrap();
    assert_eq!(result.len(), 1);
    assert_eq!(result[0], "library.scad");
}

#[test]
fn test_parse_multiple_includes() {
    let content = r#"
            include <part1.scad>
            include <part2.scad>
            use "library.scad"
        "#;
    let result = parse_includes(content).unwrap();
    assert_eq!(result.len(), 3);
    assert!(result.contains(&"part1.scad".to_string()));
    assert!(result.contains(&"part2.scad".to_string()));
    assert!(result.contains(&"library.scad".to_string()));
}

#[test]
fn test_parse_with_path() {
    let content = "include <../libraries/utils.scad>";
    let result = parse_includes(content).unwrap();
    assert_eq!(result.len(), 1);
    assert_eq!(result[0], "../libraries/utils.scad");
}

#[test]
fn test_parse_no_includes() {
    let content = "cube(10); sphere(5);";
    let result = parse_includes(content).unwrap();
    assert_eq!(result.len(), 0);
}

#[test]
fn test_parse_with_whitespace() {
    let content = "include  <part.scad>  ";
    let result = parse_includes(content).unwrap();
    assert_eq!(result.len(), 1);
    assert_eq!(result[0], "part.scad");
}

#[test]
fn test_parse_complex_file() {
    let content = r#"
            // Include some utilities
            include <math_utils.scad>

            // Use standard library
            use <MCAD/fasteners.scad>

            // Local includes
            include "parameters.scad"
            include "parts/base.scad"

            // Main geometry
            cube([10, 10, 10]);
        "#;

    let result = parse_includes(content).unwrap();
    assert_eq!(result.len(), 4);
    assert!(result.contains(&"math_utils.scad".to_string()));
    assert!(result.contains(&"MCAD/fasteners.scad".to_string()));
    assert!(result.contains(&"parameters.scad".to_string()));
    assert!(result.contains(&"parts/base.scad".to_string()));
}

#[test]
fn includes_come_in_order_and_empty_paths_are_skipped() {
    let content = "include <> use <b.scad> #include \"c.scad\" include <unclosed";
    assert_eq!(parse_includes(content).unwrap(), vec!["b.scad", "c.scad"]);
}

#[test]
fn test_dependency_graph_new() {
    let graph = DependencyGraph::new();
    assert!(!graph.has_cycle());
}

#[test]
fn test_dependency_graph_add_edge() {
    let mut graph = DependencyGraph::new();
    let path1 = "model1.scad".to_string();
    let path2 = "model2.scad".to_string();

    graph.add_edge(path1.clone(), path2.clone());
    let deps = graph.get_deps(&path1);
    assert!(deps.is_some());
    assert_eq!(deps.unwrap().len(), 1);
}

#[test]
fn test_dependency_graph_no_cycle_simple() {
    let mut graph = DependencyGraph::new();
    graph.add_edge("a.scad".to_string(), "b.scad".to_string());
    assert!(!graph.has_cycle());
}

#[test]
fn test_dependency_graph_no_cycle_linear() {
    let mut graph = DependencyGraph::new();
    let path2 = "b.scad".to_string();
    graph.add_edge("a.scad".to_string(), path2.clone());
    graph.add_edge(path2, "c.scad".to_string());
    assert!(!graph.has_cycle());
}

#[test]
fn test_dependency_graph_self_cycle() {
    let mut graph = DependencyGraph::new();
    let path = "a.scad".to_string();
    graph.add_edge(path.clone(), path);
    assert!(graph.has_cycle());
}

#[test]
fn test_dependency_graph_two_cycle() {
    let mut graph = DependencyGraph::new();
    let path1 = "a.scad".to_string();
    let path2 = "b.scad".to_string();
    graph.add_edge(path1.clone(), path2.clone());
    graph.add_edge(path2, path1);
    assert!(graph.has_cycle());
}

#[test]
fn test_dependency_graph_three_cycle() {
    let mut graph = DependencyGraph::new();
    let path1 = "a.scad".to_string();
    let path2 = "b.scad".to_string();
    let path3 = "c.scad".to_string();
    graph.add_edge(path1.clone(), path2.clone());
    graph.add_edge(path2, path3.clone());
    graph.add_edge(path3, path1);
    assert!(graph.has_cycle());
}

#[test]
fn test_dependency_graph_complex_no_cycle() {
    let mut graph = DependencyGraph::new();
    let a = "a.scad".to_string();
    let b = "b.scad".to_string();
    let c = "c.scad".to_string();
    let d = "d.scad".to_string();
    graph.add_edge(a.clone(), b.clone());
    graph.add_edge(a.clone(), c.clone());
    graph.add_edge(b, d.clone());
    graph.add_edge(c, d);
    assert!(!graph.has_cycle());
}

#[test]
fn deps_keep_their_order_and_unknown_paths_have_none() {
    let mut graph = DependencyGraph::default();
    graph.add_edge("a".to_string(), "c".to_string());
    graph.add_edge("a".to_string(), "b".to_string());
    graph.add_edge("a".to_string(), "c".to_string());
    assert_eq!(graph.get_deps("a").unwrap(), &vec!["c".to_string(), "b".to_string(), "c".to_string()]);
    assert!(graph.get_deps("b").is_none());
    assert!(graph.get_deps("z").is_none());
}

#[test]
fn adding_an_edge_keeps_a_cycle() {
    let mut graph = DependencyGraph::new();
    graph.add_edge("x".to_string(), "y".to_string());
    graph.add_edge("y".to_string(), "x".to_string());
    assert!(graph.has_cycle());
    graph.add_edge("z".to_string(), "x".to_string());
    assert!(graph.has_cycle());
}

#[test]
fn cycle_reached_from_an_acyclic_part() {
    let mut graph = DependencyGraph::new();
    graph.add_edge("root".to_string(), "a".to_string());
    graph.add_edge("a".to_string(), "b".to_string());
    graph.add_edge("b".to_string(), "c".to_string());
    assert!(!graph.has_cycle());
    graph.add_edge("c".to_string(), "a".to_string());
    assert!(graph.has_cycle());
}

fn read_name(step: &SearchStep) -> String {
    match step {
        SearchStep::Read(f) => f.clone(),
        SearchStep::Done => panic!("search ended early"),
    }
}

#[test]
fn search_without_cycles_reads_each_file_once() {
    let (mut search, step) = CycleSearch::start("main.scad");
    assert_eq!(read_name(&step), "main.scad");
    let step = search.resume(Some("include <a.scad>\ninclude <b.scad>\n"));
    assert_eq!(read_name(&step), "a.scad");
    let step = search.resume(Some("include <b.scad>\n"));
    assert_eq!(read_name(&step), "b.scad");
    let step = search.resume(Some("cube(1);\n"));
    assert!(matches!(step, SearchStep::Done));
    assert!(!search.has_circular());
    assert!(search.cycles().is_empty());
}

#[test]
fn search_reports_a_cycle_once_from_its_first_file() {
    let (mut search, _) = CycleSearch::start("a.scad");
    let step = search.resume(Some("include <b.scad>\n"));
    assert_eq!(read_name(&step), "b.scad");
    let step = search.resume(Some("include <a.scad>\ninclude <a.scad>\n"));
    assert!(matches!(step, SearchStep::Done));
    assert!(search.has_circular());
    let expected: Vec<Vec<String>> =
        vec![vec!["a.scad".to_string(), "a.scad".to_string(), "b.scad".to_string()]];
    assert_eq!(search.cycles(), expected);
}

#[test]
fn search_skips_unreadable_files() {
    let (mut search, _) = CycleSearch::start("top.scad");
    let step = search.resume(Some("include <missing.scad>\ninclude <x.scad>"));
    assert_eq!(read_name(&step), "missing.scad");
    let step = search.resume(None);
    assert_eq!(read_name(&step), "x.scad");
    let step = search.resume(Some("include <x.scad>"));
    assert!(matches!(step, SearchStep::Done));
    assert_eq!(search.cycles(), vec![vec!["x.scad".to_string()]]);
}

#[test]
fn paths_are_compared_by_components() {
    assert_eq!(path_key_of("a/./b"), "a/b");
    assert_eq!(path_key_of("a//b/"), "a/b");
    assert_eq!(path_key_of("./a"), "./a");
    assert_eq!(path_key_of("."), ".");
    assert_eq!(path_key_of("/x/./y"), "/x/y");
    assert_eq!(path_key_of("../z"), "../z");
    assert_eq!(path_key_of(""), "");
    let mut graph = DependencyGraph::new();
    graph.add_edge("a/./b.scad".to_string(), "c//d.scad".to_string());
    graph.add_edge("a/b.scad".to_string(), "e.scad".to_string());
    assert_eq!(
        graph.get_deps("a/b.scad").unwrap(),
        &vec!["c//d.scad".to_string(), "e.scad".to_string()]
    );
    graph.add_edge("c/d.scad".to_string(), "./a/b.scad/".to_string());
    assert!(graph.get_deps("c/./d.scad").is_some());
}
