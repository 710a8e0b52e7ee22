use move_tree::modules::{collect_modules, function_info, module_info, CompiledModule, FunctionDef};
use move_tree::order::{name_lt, sort_by_name};
use move_tree::signature::{DatatypeHandle, ModuleContext, TypeToken};

fn context(name: &str) -> ModuleContext {
    ModuleContext {
        self_module: 0,
        module_names: vec![name.to_string(), "sui".to_string()],
        datatypes: vec![
            DatatypeHandle { module: 0, name: "Coin".to_string() },
            DatatypeHandle { module: 1, name: "TxContext".to_string() },
        ],
    }
}

fn def(name: &str, public: bool) -> FunctionDef {
    FunctionDef {
        name: name.to_string(),
        is_public: public,
        type_parameter_count: 0,
        parameters: vec![],
        returns: vec![],
    }
}

#[test]
fn function_info_formats_signature() {
    let ctx = context("coin");
    let d = FunctionDef {
        name: "split".to_string(),
        is_public: true,
        type_parameter_count: 2,
        parameters: vec![
            TypeToken::MutableReference(Box::new(TypeToken::DatatypeInstantiation(
                0,
                vec![TypeToken::TypeParameter(1)],
            ))),
            TypeToken::U64,
            TypeToken::MutableReference(Box::new(TypeToken::Datatype(1))),
        ],
        returns: vec![TypeToken::DatatypeInstantiation(0, vec![TypeToken::TypeParameter(1)])],
    };
    let info = function_info(&ctx, &d);
    assert_eq!(info.name, "split");
    assert_eq!(info.type_params, vec!["T0", "T1"]);
    assert_eq!(info.params, vec!["&mut Coin<T1>", "u64", "&mut sui::TxContext"]);
    assert_eq!(info.returns, vec!["Coin<T1>"]);
}

#[test]
fn functions_sorted_regardless_of_input_order() {
    for order in [["mint", "burn"], ["burn", "mint"]] {
        let m = CompiledModule {
            context: context("coin"),
            functions: vec![def(order[0], true), def(order[1], true)],
        };
        let info = module_info(&m);
        let names: Vec<&str> = info.functions.iter().map(|f| f.name.as_str()).collect();
        assert_eq!(names, vec!["burn", "mint"]);
    }
}

#[test]
fn only_public_functions_are_kept() {
    let m = CompiledModule {
        context: context("coin"),
        functions: vec![def("zap", true), def("hidden", false), def("apply", true)],
    };
    let info = module_info(&m);
    assert_eq!(info.name, "coin");
    let names: Vec<&str> = info.functions.iter().map(|f| f.name.as_str()).collect();
    assert_eq!(names, vec!["apply", "zap"]);
}

#[test]
fn modules_sorted_by_name() {
    let units = vec![
        CompiledModule { context: context("vault"), functions: vec![def("open", true)] },
        CompiledModule { context: context("bank"), functions: vec![] },
        CompiledModule { context: context("ledger"), functions: vec![def("x", false)] },
    ];
    let modules = collect_modules(&units);
    let names: Vec<&str> = modules.iter().map(|m| m.name.as_str()).collect();
    assert_eq!(names, vec!["bank", "ledger", "vault"]);
    assert_eq!(modules[2].functions.len(), 1);
    assert!(modules[1].functions.is_empty());
}

#[test]
fn collect_modules_of_nothing() {
    assert!(collect_modules(&vec![]).is_empty());
}

#[test]
fn ordinal_name_order() {
    let s = |x: &str| x.to_string();
    assert!(name_lt(&s("Zeta"), &s("alpha")));
    assert!(name_lt(&s("ab"), &s("abc")));
    assert!(!name_lt(&s("abc"), &s("ab")));
    assert!(!name_lt(&s("same"), &s("same")));
    assert!(name_lt(&s(""), &s("a")));
    assert!(name_lt(&s("z"), &s("\u{e9}")));
}

#[test]
fn sort_keeps_equal_names_in_order() {
    let ctx = context("m");
    let mut a = function_info(&ctx, &def("dup", true));
    a.type_params.push("first".to_string());
    let b = function_info(&ctx, &def("dup", true));
    let c = function_info(&ctx, &def("alpha", true));
    let sorted = sort_by_name(vec![a.clone(), b.clone(), c.clone()]);
    assert_eq!(sorted, vec![c, a, b]);
}
