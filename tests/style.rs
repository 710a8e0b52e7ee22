use move_tree::graph::{render_dependency_graph, DepEdge, PackageGraph, PackageNode};
use move_tree::modules::{FunctionInfo, ModuleInfo};
use move_tree::render::{render_function, render_package_tree};
use move_tree::style::{paint, Tone};

fn strip(s: &str) -> String {
    let mut out = String::new();
    let mut in_escape = false;
    for c in s.chars() {
        if in_escape {
            in_escape = c != 'm';
        } else if c == '\u{1b}' {
            in_escape = true;
        } else {
            out.push(c);
        }
    }
    out
}

#[test]
fn paint_without_color_is_identity() {
    assert_eq!(paint("dep", Tone::Kind, false), "dep");
}

#[test]
fn paint_with_color_wraps_text() {
    colored::control::set_override(true);
    let p = paint("(shared)", Tone::Faint, true);
    assert_ne!(p, "(shared)");
    assert!(p.starts_with("\u{1b}["));
    assert!(p.ends_with("\u{1b}[0m"));
    assert_eq!(strip(&p), "(shared)");
}

#[test]
fn stripping_colors_gives_plain_output() {
    colored::control::set_override(true);
    let f = FunctionInfo {
        name: "swap".to_string(),
        type_params: vec!["T0".to_string()],
        params: vec!["&mut T0".to_string(), "u64".to_string()],
        returns: vec!["T0".to_string(), "bool".to_string()],
    };
    let colored_line = render_function(&f, true);
    assert_ne!(colored_line, render_function(&f, false));
    assert_eq!(strip(&colored_line), render_function(&f, false));

    let m = ModuleInfo { name: "pool".to_string(), functions: vec![f] };
    let modules = vec![m];
    let with = render_package_tree("demo", "x", &modules, true);
    let without = render_package_tree("demo", "x", &modules, false);
    let stripped: Vec<String> = with.iter().map(|l| strip(l)).collect();
    assert_eq!(stripped, without);

    let g = PackageGraph {
        packages: vec![
            PackageNode {
                id: "R".to_string(),
                display_name: "R".to_string(),
                deps: vec![DepEdge { name: "A".to_string(), target: 1 }],
            },
            PackageNode {
                id: "0x1".to_string(),
                display_name: "A".to_string(),
                deps: vec![DepEdge { name: "R".to_string(), target: 0 }],
            },
        ],
        root: 0,
    };
    let with = render_dependency_graph(&g, "", true);
    let without = render_dependency_graph(&g, "", false);
    let stripped: Vec<String> = with.iter().map(|l| strip(l)).collect();
    assert_eq!(stripped, without);
    assert_eq!(without, vec!["deps R", "`-- dep A [0x1]", "    `-- dep R (shared)"]);
}
