use move_tree::graph::{DepEdge, PackageGraph, PackageNode};
use move_tree::modules::{CompiledModule, FunctionDef};
use move_tree::retry::{after_attempt, first_attempt, Attempt};
use move_tree::signature::{token_resolves, DatatypeHandle, ModuleContext, TypeToken};

fn ctx() -> ModuleContext {
    ModuleContext {
        self_module: 0,
        module_names: vec!["m".to_string()],
        datatypes: vec![DatatypeHandle { module: 0, name: "S".to_string() }],
    }
}

#[test]
fn context_check() {
    assert!(ctx().check());
    let mut bad = ctx();
    bad.datatypes.push(DatatypeHandle { module: 3, name: "X".to_string() });
    assert!(!bad.check());
    let mut bad_self = ctx();
    bad_self.self_module = 1;
    assert!(!bad_self.check());
}

#[test]
fn token_resolution() {
    let c = ctx();
    assert!(token_resolves(&c, &TypeToken::DatatypeInstantiation(0, vec![TypeToken::Datatype(0)])));
    assert!(!token_resolves(&c, &TypeToken::DatatypeInstantiation(0, vec![TypeToken::Datatype(1)])));
    assert!(!token_resolves(&c, &TypeToken::Vector(Box::new(TypeToken::Datatype(5)))));
}

#[test]
fn module_check() {
    let f = |t: TypeToken| FunctionDef {
        name: "f".to_string(),
        is_public: true,
        type_parameter_count: 0,
        parameters: vec![TypeToken::U8],
        returns: vec![t],
    };
    assert!(CompiledModule { context: ctx(), functions: vec![f(TypeToken::Datatype(0))] }.check());
    assert!(!CompiledModule { context: ctx(), functions: vec![f(TypeToken::Datatype(2))] }.check());
}

#[test]
fn graph_check() {
    let node = |id: &str, t: usize| PackageNode {
        id: id.to_string(),
        display_name: id.to_string(),
        deps: vec![DepEdge { name: "d".to_string(), target: t }],
    };
    assert!(PackageGraph { packages: vec![node("a", 1), node("b", 0)], root: 0 }.check());
    assert!(!PackageGraph { packages: vec![node("a", 2), node("b", 0)], root: 0 }.check());
    assert!(!PackageGraph { packages: vec![node("a", 1), node("a", 0)], root: 0 }.check());
    assert!(!PackageGraph { packages: vec![node("a", 0)], root: 1 }.check());
}

#[test]
fn retry_order() {
    assert_eq!(first_attempt(0), Attempt::Failed(None));
    assert_eq!(first_attempt(2), Attempt::Try(0));
    assert_eq!(after_attempt(2, 0, false), Attempt::Try(1));
    assert_eq!(after_attempt(2, 1, false), Attempt::Failed(Some(1)));
    assert_eq!(after_attempt(2, 0, true), Attempt::Succeeded(0));
}
