use move_tree::signature::{
    format_datatype, format_signature_token, push_decimal, type_param_label, DatatypeHandle,
    ModuleContext, TypeToken,
};

fn coin_context(self_module: usize) -> ModuleContext {
    ModuleContext {
        self_module,
        module_names: vec!["coin".to_string(), "wallet".to_string()],
        datatypes: vec![
            DatatypeHandle { module: 0, name: "Coin".to_string() },
            DatatypeHandle { module: 1, name: "Purse".to_string() },
        ],
    }
}

#[test]
fn primitives_have_keywords() {
    let ctx = coin_context(0);
    let cases = vec![
        (TypeToken::Bool, "bool"),
        (TypeToken::U8, "u8"),
        (TypeToken::U16, "u16"),
        (TypeToken::U32, "u32"),
        (TypeToken::U64, "u64"),
        (TypeToken::U128, "u128"),
        (TypeToken::U256, "u256"),
        (TypeToken::Address, "address"),
        (TypeToken::Signer, "signer"),
    ];
    for (token, text) in cases {
        assert_eq!(format_signature_token(&ctx, &token), text);
    }
}

#[test]
fn nested_vectors() {
    let ctx = coin_context(0);
    let token = TypeToken::Vector(Box::new(TypeToken::Vector(Box::new(TypeToken::U8))));
    assert_eq!(format_signature_token(&ctx, &token), "vector<vector<u8>>");
}

#[test]
fn references() {
    let ctx = coin_context(0);
    let r = TypeToken::Reference(Box::new(TypeToken::Address));
    let m = TypeToken::MutableReference(Box::new(TypeToken::Datatype(0)));
    assert_eq!(format_signature_token(&ctx, &r), "&address");
    assert_eq!(format_signature_token(&ctx, &m), "&mut Coin");
}

#[test]
fn type_parameters_are_numbered() {
    let ctx = coin_context(0);
    assert_eq!(format_signature_token(&ctx, &TypeToken::TypeParameter(0)), "T0");
    assert_eq!(format_signature_token(&ctx, &TypeToken::TypeParameter(12)), "T12");
    assert_eq!(format_signature_token(&ctx, &TypeToken::TypeParameter(65535)), "T65535");
    assert_eq!(type_param_label(105), "T105");
}

#[test]
fn decimal_numerals() {
    let mut s = String::from("n=");
    push_decimal(&mut s, 0);
    assert_eq!(s, "n=0");
    let mut s = String::new();
    push_decimal(&mut s, 18446744073709551615);
    assert_eq!(s, "18446744073709551615");
}

#[test]
fn self_type_is_unqualified() {
    let ctx = coin_context(0);
    assert_eq!(format_signature_token(&ctx, &TypeToken::Datatype(0)), "Coin");
}

#[test]
fn foreign_type_is_qualified() {
    let ctx = coin_context(1);
    assert_eq!(format_signature_token(&ctx, &TypeToken::Datatype(0)), "coin::Coin");
    assert_eq!(format_signature_token(&ctx, &TypeToken::Datatype(1)), "Purse");
}

#[test]
fn generic_instantiation() {
    let ctx = coin_context(0);
    let token = TypeToken::DatatypeInstantiation(0, vec![TypeToken::U64]);
    assert_eq!(format_signature_token(&ctx, &token), "Coin<u64>");
}

#[test]
fn several_type_arguments() {
    let ctx = coin_context(0);
    let token = TypeToken::DatatypeInstantiation(
        1,
        vec![
            TypeToken::TypeParameter(0),
            TypeToken::DatatypeInstantiation(0, vec![TypeToken::Bool]),
            TypeToken::Vector(Box::new(TypeToken::U8)),
        ],
    );
    assert_eq!(format_signature_token(&ctx, &token), "wallet::Purse<T0, Coin<bool>, vector<u8>>");
}

#[test]
fn empty_instantiation_has_no_brackets() {
    let ctx = coin_context(1);
    let token = TypeToken::DatatypeInstantiation(0, vec![]);
    assert_eq!(format_signature_token(&ctx, &token), "coin::Coin");
    assert_eq!(format_datatype(&ctx, 0, &vec![]), "coin::Coin");
}

#[test]
fn formatting_is_deterministic() {
    let ctx = coin_context(1);
    let token = TypeToken::Reference(Box::new(TypeToken::DatatypeInstantiation(
        0,
        vec![TypeToken::U64, TypeToken::Signer],
    )));
    let first = format_signature_token(&ctx, &token);
    let second = format_signature_token(&ctx, &token);
    assert_eq!(first, second);
    assert_eq!(first, "&coin::Coin<u64, signer>");
}
