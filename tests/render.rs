use move_tree::modules::{FunctionInfo, ModuleInfo};
use move_tree::render::{render_function, render_header, render_package_tree};

fn strings(xs: &[&str]) -> Vec<String> {
    xs.iter().map(|x| x.to_string()).collect()
}

fn function(name: &str, type_params: &[&str], params: &[&str], returns: &[&str]) -> FunctionInfo {
    FunctionInfo {
        name: name.to_string(),
        type_params: strings(type_params),
        params: strings(params),
        returns: strings(returns),
    }
}

#[test]
fn function_with_everything() {
    let f = function(
        "split",
        &["T0", "T1"],
        &["&mut Coin<T1>", "u64", "&mut sui::TxContext"],
        &["Coin<T1>"],
    );
    assert_eq!(
        render_function(&f, false),
        "fun split<T0, T1>(&mut Coin<T1>, u64, &mut sui::TxContext): Coin<T1>"
    );
}

#[test]
fn function_without_returns() {
    let f = function("init", &[], &[], &[]);
    assert_eq!(render_function(&f, false), "fun init(): ()");
}

#[test]
fn function_with_several_returns() {
    let f = function("pair", &[], &["u8"], &["u8", "bool"]);
    assert_eq!(render_function(&f, false), "fun pair(u8): (u8, bool)");
}

#[test]
fn header_with_and_without_path() {
    assert_eq!(render_header("package", "demo", "", false), "package demo");
    assert_eq!(render_header("deps", "demo", "pkgs/demo", false), "deps demo (pkgs/demo)");
}

#[test]
fn tree_markers_for_three_functions() {
    let m = ModuleInfo {
        name: "coin".to_string(),
        functions: vec![
            function("a", &[], &[], &[]),
            function("b", &[], &[], &[]),
            function("c", &[], &[], &[]),
        ],
    };
    let lines = render_package_tree("demo", "", &vec![m], false);
    assert_eq!(
        lines,
        vec![
            "package demo",
            "`-- module coin",
            "    |-- fun a(): ()",
            "    |-- fun b(): ()",
            "    `-- fun c(): ()",
        ]
    );
}

#[test]
fn tree_with_two_modules() {
    let first = ModuleInfo {
        name: "alpha".to_string(),
        functions: vec![function("f", &["T0"], &["T0"], &["T0"]), function("g", &[], &[], &[])],
    };
    let second = ModuleInfo { name: "beta".to_string(), functions: vec![function("h", &[], &[], &[])] };
    let lines = render_package_tree("demo", "sub/demo", &vec![first, second], false);
    assert_eq!(
        lines,
        vec![
            "package demo (sub/demo)",
            "|-- module alpha",
            "|   |-- fun f<T0>(T0): T0",
            "|   `-- fun g(): ()",
            "`-- module beta",
            "    `-- fun h(): ()",
        ]
    );
}

#[test]
fn tree_without_modules() {
    assert_eq!(render_package_tree("empty", "", &vec![], false), vec!["package empty"]);
}
