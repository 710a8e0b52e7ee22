//! Canonical text of binary type signatures.

use vstd::prelude::*;

verus! {

/// A datatype handle of a module: the module that defines the type, as an
/// index into the module handle table, and the type's name.
#[derive(Debug)]
pub struct DatatypeHandle {
    pub module: usize,
    pub name: String,
}

/// What a compiled module offers to resolve the handles in its signatures.
#[derive(Debug)]
pub struct ModuleContext {
    /// The module's own entry in `module_names`.
    pub self_module: usize,
    /// The names of the module handles, the module's own included.
    pub module_names: Vec<String>,
    /// The datatype handles.
    pub datatypes: Vec<DatatypeHandle>,
}

/// A type in a function signature.
#[derive(Debug)]
pub enum TypeToken {
    Bool,
    U8,
    U16,
    U32,
    U64,
    U128,
    U256,
    Address,
    Signer,
    Vector(Box<TypeToken>),
    Datatype(usize),
    DatatypeInstantiation(usize, Vec<TypeToken>),
    Reference(Box<TypeToken>),
    MutableReference(Box<TypeToken>),
    TypeParameter(u16),
}

impl ModuleContext {
    /// Every datatype handle names a module handle, and so does `self_module`.
    pub open spec fn well_formed(&self) -> bool {
        &&& self.self_module < self.module_names.len()
        &&& forall|i: int|
            0 <= i < self.datatypes.len() ==> #[trigger] self.datatypes@[i].module
                < self.module_names.len()
    }

    /// The name under which datatype `h` appears in this module: bare when the
    /// module defines it, else qualified by its module.
    pub open spec fn datatype_text(&self, h: int) -> Seq<char> {
        let d = self.datatypes@[h];
        if d.module == self.self_module {
            d.name@
        } else {
            self.module_names@[d.module as int]@ + "::"@ + d.name@
        }
    }
}

impl ModuleContext {
    /// Whether the context is well formed.
    pub fn check(&self) -> (r: bool)
        ensures
            r == self.well_formed(),
    {
        if self.self_module >= self.module_names.len() {
            return false;
        }
        let mut i: usize = 0;
        while i < self.datatypes.len()
            invariant
                i <= self.datatypes.len(),
                forall|k: int| 0 <= k < i ==> #[trigger] self.datatypes@[k].module < self.module_names.len(),
            decreases self.datatypes.len() - i,
        {
            if self.datatypes[i].module >= self.module_names.len() {
                return false;
            }
            i = i + 1;
        }
        true
    }
}

/// Whether every datatype handle in `token` is in the table of `module`.
pub fn token_resolves(module: &ModuleContext, token: &TypeToken) -> (r: bool)
    ensures
        r == resolves(module, *token),
    decreases token,
{
    match token {
        TypeToken::Vector(inner) => token_resolves(module, inner),
        TypeToken::Reference(inner) => token_resolves(module, inner),
        TypeToken::MutableReference(inner) => token_resolves(module, inner),
        TypeToken::Datatype(h) => *h < module.datatypes.len(),
        TypeToken::DatatypeInstantiation(h, args) => *h < module.datatypes.len()
            && tokens_all_resolve(module, args),
        _ => true,
    }
}

/// Whether every token of `tokens` resolves in `module`.
pub fn tokens_all_resolve(module: &ModuleContext, tokens: &Vec<TypeToken>) -> (r: bool)
    ensures
        r == all_resolve(module, tokens@),
    decreases tokens,
{
    let mut i: usize = 0;
    assert(tokens@.take(0) =~= Seq::<TypeToken>::empty());
    while i < tokens.len()
        invariant
            i <= tokens.len(),
            all_resolve(module, tokens@.take(i as int)),
        decreases tokens.len() - i,
    {
        assert(tokens@.take(i + 1).drop_last() =~= tokens@.take(i as int));
        if !token_resolves(module, &tokens[i]) {
            proof {
                if all_resolve(module, tokens@) {
                    lemma_all_resolve_index(module, tokens@, i as int);
                }
            }
            return false;
        }
        i = i + 1;
    }
    assert(tokens@.take(tokens.len() as int) =~= tokens@);
    true
}

/// Every datatype handle in `t` is in the module's table.
pub open spec fn resolves(ctx: &ModuleContext, t: TypeToken) -> bool
    decreases t,
{
    match t {
        TypeToken::Vector(inner) => resolves(ctx, *inner),
        TypeToken::Reference(inner) => resolves(ctx, *inner),
        TypeToken::MutableReference(inner) => resolves(ctx, *inner),
        TypeToken::Datatype(h) => h < ctx.datatypes.len(),
        TypeToken::DatatypeInstantiation(h, args) => h < ctx.datatypes.len() && all_resolve(
            ctx,
            args@,
        ),
        _ => true,
    }
}

/// Every token of `ts` resolves.
pub open spec fn all_resolve(ctx: &ModuleContext, ts: Seq<TypeToken>) -> bool
    decreases ts,
{
    if ts.len() == 0 {
        true
    } else {
        all_resolve(ctx, ts.drop_last()) && resolves(ctx, ts.last())
    }
}

/// The decimal digit of `d`.
pub open spec fn digit(d: nat) -> char {
    if d == 0 { '0' }
    else if d == 1 { '1' }
    else if d == 2 { '2' }
    else if d == 3 { '3' }
    else if d == 4 { '4' }
    else if d == 5 { '5' }
    else if d == 6 { '6' }
    else if d == 7 { '7' }
    else if d == 8 { '8' }
    else { '9' }
}

/// The decimal numeral of `n`, without leading zeros.
pub open spec fn decimal(n: nat) -> Seq<char>
    decreases n,
{
    if n < 10 {
        seq![digit(n)]
    } else {
        decimal(n / 10) + seq![digit(n % 10)]
    }
}

/// The placeholder name of the type parameter with index `i`: `T` and `i` in decimal.
pub open spec fn type_param_name(i: nat) -> Seq<char> {
    seq!['T'] + decimal(i)
}

/// The canonical text of `t` in module `ctx`.
pub open spec fn token_text(ctx: &ModuleContext, t: TypeToken) -> Seq<char>
    decreases t,
{
    match t {
        TypeToken::Bool => "bool"@,
        TypeToken::U8 => "u8"@,
        TypeToken::U16 => "u16"@,
        TypeToken::U32 => "u32"@,
        TypeToken::U64 => "u64"@,
        TypeToken::U128 => "u128"@,
        TypeToken::U256 => "u256"@,
        TypeToken::Address => "address"@,
        TypeToken::Signer => "signer"@,
        TypeToken::Vector(inner) => "vector<"@ + token_text(ctx, *inner) + ">"@,
        TypeToken::Reference(inner) => "&"@ + token_text(ctx, *inner),
        TypeToken::MutableReference(inner) => "&mut "@ + token_text(ctx, *inner),
        TypeToken::TypeParameter(i) => type_param_name(i as nat),
        TypeToken::Datatype(h) => ctx.datatype_text(h as int),
        TypeToken::DatatypeInstantiation(h, args) => {
            if args.len() == 0 {
                ctx.datatype_text(h as int)
            } else {
                ctx.datatype_text(h as int) + "<"@ + tokens_text(ctx, args@) + ">"@
            }
        },
    }
}

/// The texts of `ts`, separated by `", "`.
pub open spec fn tokens_text(ctx: &ModuleContext, ts: Seq<TypeToken>) -> Seq<char>
    decreases ts,
{
    if ts.len() == 0 {
        seq![]
    } else if ts.len() == 1 {
        token_text(ctx, ts[0])
    } else {
        tokens_text(ctx, ts.drop_last()) + ", "@ + token_text(ctx, ts.last())
    }
}

fn digit_str(d: u64) -> (r: &'static str)
    requires
        d < 10,
    ensures
        r@ == seq![digit(d as nat)],
{
    proof {
        reveal_strlit("0");
        reveal_strlit("1");
        reveal_strlit("2");
        reveal_strlit("3");
        reveal_strlit("4");
        reveal_strlit("5");
        reveal_strlit("6");
        reveal_strlit("7");
        reveal_strlit("8");
        reveal_strlit("9");
    }
    if d == 0 { "0" }
    else if d == 1 { "1" }
    else if d == 2 { "2" }
    else if d == 3 { "3" }
    else if d == 4 { "4" }
    else if d == 5 { "5" }
    else if d == 6 { "6" }
    else if d == 7 { "7" }
    else if d == 8 { "8" }
    else { "9" }
}

/// Appends the decimal numeral of `n` to `out`.
pub fn push_decimal(out: &mut String, n: u64)
    ensures
        final(out)@ == old(out)@ + decimal(n as nat),
    decreases n,
{
    if n >= 10 {
        push_decimal(out, n / 10);
    }
    out.append(digit_str(n % 10));
    proof {
        assert(old(out)@ + decimal(n as nat) =~= final(out)@);
    }
}

/// The placeholder name of the type parameter with index `i`, such as `T0`.
pub fn type_param_label(i: u64) -> (r: String)
    ensures
        r@ == type_param_name(i as nat),
{
    let mut s = "T".to_owned();
    push_decimal(&mut s, i);
    proof {
        reveal_strlit("T");
    }
    s
}

/// The canonical text of `token` in `module`: keywords for primitives,
/// `vector<..>`, `&..`, `&mut ..`, `T<i>` for type parameters, and datatypes
/// bare when `module` defines them, else as `module::Name`, followed by their
/// type arguments in angle brackets when there are any.
pub fn format_signature_token(module: &ModuleContext, token: &TypeToken) -> (r: String)
    requires
        module.well_formed(),
        resolves(module, *token),
    ensures
        r@ == token_text(module, *token),
    decreases token,
{
    match token {
        TypeToken::Bool => "bool".to_owned(),
        TypeToken::U8 => "u8".to_owned(),
        TypeToken::U16 => "u16".to_owned(),
        TypeToken::U32 => "u32".to_owned(),
        TypeToken::U64 => "u64".to_owned(),
        TypeToken::U128 => "u128".to_owned(),
        TypeToken::U256 => "u256".to_owned(),
        TypeToken::Address => "address".to_owned(),
        TypeToken::Signer => "signer".to_owned(),
        TypeToken::Vector(inner) => {
            let mut s = "vector<".to_owned();
            let t = format_signature_token(module, inner);
            s.append(t.as_str());
            s.append(">");
            s
        },
        TypeToken::Datatype(h) => datatype_name(module, *h),
        TypeToken::DatatypeInstantiation(h, args) => format_datatype(module, *h, args),
        TypeToken::Reference(inner) => {
            let mut s = "&".to_owned();
            let t = format_signature_token(module, inner);
            s.append(t.as_str());
            s
        },
        TypeToken::MutableReference(inner) => {
            let mut s = "&mut ".to_owned();
            let t = format_signature_token(module, inner);
            s.append(t.as_str());
            s
        },
        TypeToken::TypeParameter(i) => type_param_label(*i as u64),
    }
}

/// The name of datatype `handle` as it appears in `module`.
fn datatype_name(module: &ModuleContext, handle: usize) -> (r: String)
    requires
        module.well_formed(),
        handle < module.datatypes.len(),
    ensures
        r@ == module.datatype_text(handle as int),
{
    let d = &module.datatypes[handle];
    if d.module == module.self_module {
        d.name.clone()
    } else {
        let mut q = module.module_names[d.module].clone();
        q.append("::");
        q.append(d.name.as_str());
        q
    }
}

/// The text of datatype `handle` in `module`, with `type_args` formatted in
/// angle brackets after it when there are any.
pub fn format_datatype(module: &ModuleContext, handle: usize, type_args: &Vec<TypeToken>) -> (r:
    String)
    requires
        module.well_formed(),
        handle < module.datatypes.len(),
        all_resolve(module, type_args@),
    ensures
        type_args.len() == 0 ==> r@ == module.datatype_text(handle as int),
        type_args.len() > 0 ==> r@ == module.datatype_text(handle as int) + "<"@ + tokens_text(
            module,
            type_args@,
        ) + ">"@,
    decreases type_args,
{
    let mut name = datatype_name(module, handle);
    if type_args.len() > 0 {
        name.append("<");
        let mut i: usize = 0;
        while i < type_args.len()
            invariant
                module.well_formed(),
                all_resolve(module, type_args@),
                0 <= i <= type_args.len(),
                i == 0 ==> name@ == module.datatype_text(handle as int) + "<"@,
                i > 0 ==> name@ == module.datatype_text(handle as int) + "<"@ + tokens_text(
                    module,
                    type_args@.subrange(0, i as int),
                ),
            decreases type_args.len() - i,
        {
            proof {
                lemma_all_resolve_index(module, type_args@, i as int);
            }
            let t = format_signature_token(module, &type_args[i]);
            if i > 0 {
                name.append(", ");
            }
            name.append(t.as_str());
            proof {
                let next = type_args@.subrange(0, i + 1);
                assert(next.drop_last() =~= type_args@.subrange(0, i as int));
                if i == 0 {
                    assert(tokens_text(module, next) == token_text(module, type_args@[0]));
                }
            }
            i = i + 1;
        }
        name.append(">");
        proof {
            assert(type_args@.subrange(0, type_args.len() as int) =~= type_args@);
        }
    }
    name
}

proof fn lemma_all_resolve_index(ctx: &ModuleContext, ts: Seq<TypeToken>, i: int)
    requires
        all_resolve(ctx, ts),
        0 <= i < ts.len(),
    ensures
        resolves(ctx, ts[i]),
    decreases ts.len(),
{
    if i < ts.len() - 1 {
        lemma_all_resolve_index(ctx, ts.drop_last(), i);
    }
}

/// Formatting is a function of the module and the token: two results for the
/// same inputs are the same text.
pub proof fn lemma_format_deterministic(
    module: &ModuleContext,
    token: TypeToken,
    first: Seq<char>,
    second: Seq<char>,
)
    requires
        module.well_formed(),
        resolves(module, token),
        first == token_text(module, token),
        second == token_text(module, token),
    ensures
        first == second,
{
}

/// A datatype defined by the formatting module reads as its bare name; one
/// defined elsewhere reads as `module::Name`.
pub proof fn lemma_self_and_foreign(module: &ModuleContext, handle: usize)
    requires
        module.well_formed(),
        handle < module.datatypes.len(),
    ensures
        module.datatypes@[handle as int].module == module.self_module ==> token_text(
            module,
            TypeToken::Datatype(handle),
        ) == module.datatypes@[handle as int].name@,
        module.datatypes@[handle as int].module != module.self_module ==> token_text(
            module,
            TypeToken::Datatype(handle),
        ) == module.module_names@[module.datatypes@[handle as int].module as int]@ + "::"@
            + module.datatypes@[handle as int].name@,
{
}

/// An instantiation without type arguments reads as the bare datatype, with
/// no angle brackets.
pub proof fn lemma_empty_instantiation(module: &ModuleContext, handle: usize, args: Vec<TypeToken>)
    requires
        module.well_formed(),
        handle < module.datatypes.len(),
        args.len() == 0,
    ensures
        token_text(module, TypeToken::DatatypeInstantiation(handle, args)) == token_text(
            module,
            TypeToken::Datatype(handle),
        ),
{
}

} // verus!
