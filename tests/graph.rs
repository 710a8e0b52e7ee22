use move_tree::graph::{render_dependency_graph, render_dependency_label, DepEdge, PackageGraph, PackageNode};

fn node(id: &str, deps: &[(&str, usize)]) -> PackageNode {
    PackageNode {
        id: id.to_string(),
        display_name: id.to_string(),
        deps: deps.iter().map(|(n, t)| DepEdge { name: n.to_string(), target: *t }).collect(),
    }
}

#[test]
fn shared_dependency_is_expanded_once() {
    let g = PackageGraph {
        packages: vec![
            node("R", &[("B", 2), ("A", 1)]),
            node("A", &[("C", 3)]),
            node("B", &[("C", 3)]),
            node("C", &[("D", 4)]),
            node("D", &[]),
        ],
        root: 0,
    };
    assert_eq!(
        render_dependency_graph(&g, "", false),
        vec![
            "deps R",
            "|-- dep A",
            "|   `-- dep C",
            "|       `-- dep D",
            "`-- dep B",
            "    `-- dep C (shared)",
        ]
    );
}

#[test]
fn cycle_terminates() {
    let g = PackageGraph {
        packages: vec![node("R", &[("A", 1)]), node("A", &[("B", 2)]), node("B", &[("A", 1)])],
        root: 0,
    };
    assert_eq!(
        render_dependency_graph(&g, "", false),
        vec!["deps R", "`-- dep A", "    `-- dep B", "        `-- dep A (shared)"]
    );
}

#[test]
fn edge_back_to_root_is_shared() {
    let g = PackageGraph { packages: vec![node("R", &[("A", 1)]), node("A", &[("R", 0)])], root: 0 };
    assert_eq!(
        render_dependency_graph(&g, "pkg", false),
        vec!["deps R (pkg)", "`-- dep A", "    `-- dep R (shared)"]
    );
}

#[test]
fn no_dependencies() {
    let g = PackageGraph { packages: vec![node("R", &[])], root: 0 };
    assert_eq!(render_dependency_graph(&g, "", false), vec!["deps R", "`-- (no dependencies)"]);
}

#[test]
fn dependencies_sorted_by_name_then_identity() {
    let g = PackageGraph {
        packages: vec![
            node("R", &[("zeta", 1), ("alpha", 2), ("alpha", 3)]),
            node("zeta", &[]),
            node("y", &[]),
            node("x", &[]),
        ],
        root: 0,
    };
    assert_eq!(
        render_dependency_graph(&g, "", false),
        vec!["deps R", "|-- dep x (alpha)", "|-- dep y (alpha)", "`-- dep zeta"]
    );
}

#[test]
fn label_annotations() {
    let p = PackageNode { id: "0x2".to_string(), display_name: "Sui".to_string(), deps: vec![] };
    assert_eq!(render_dependency_label(&"sui".to_string(), &p), "Sui (sui) [0x2]");
    assert_eq!(render_dependency_label(&"Sui".to_string(), &p), "Sui [0x2]");
    let q = PackageNode { id: "Sui".to_string(), display_name: "Sui".to_string(), deps: vec![] };
    assert_eq!(render_dependency_label(&"Sui".to_string(), &q), "Sui");
}
