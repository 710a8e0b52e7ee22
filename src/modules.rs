//! The public functions of each module of a compiled package.

use crate::order::{Named, sort_by_name, sorted_by_name};
use crate::signature::{
    format_signature_token, resolves, token_resolves, token_text, type_param_label, type_param_name,
    ModuleContext, TypeToken,
};
use vstd::prelude::*;

verus! {

/// A function definition of a compiled module.
#[derive(Debug)]
pub struct FunctionDef {
    pub name: String,
    pub is_public: bool,
    /// How many type parameters the function declares.
    pub type_parameter_count: usize,
    pub parameters: Vec<TypeToken>,
    pub returns: Vec<TypeToken>,
}

/// A compiled module: its handle tables and its function definitions.
#[derive(Debug)]
pub struct CompiledModule {
    pub context: ModuleContext,
    pub functions: Vec<FunctionDef>,
}

/// A public function with its signature in text.
#[derive(Clone, Debug, PartialEq, Eq)]
pub struct FunctionInfo {
    pub name: String,
    /// Placeholder names `T0`, `T1`, ... one per type parameter.
    pub type_params: Vec<String>,
    pub params: Vec<String>,
    pub returns: Vec<String>,
}

/// A module with its public functions, sorted by name.
#[derive(Clone, Debug, PartialEq, Eq)]
pub struct ModuleInfo {
    pub name: String,
    pub functions: Vec<FunctionInfo>,
}

impl Named for FunctionInfo {
    open spec fn name_view(&self) -> Seq<char> {
        self.name@
    }

    fn name_ref(&self) -> (r: &String) {
        &self.name
    }
}

impl Named for ModuleInfo {
    open spec fn name_view(&self) -> Seq<char> {
        self.name@
    }

    fn name_ref(&self) -> (r: &String) {
        &self.name
    }
}

/// Every token of `ts` resolves in `ctx`.
pub open spec fn tokens_resolve(ctx: &ModuleContext, ts: Seq<TypeToken>) -> bool {
    forall|i: int| 0 <= i < ts.len() ==> resolves(ctx, #[trigger] ts[i])
}

/// Every type in the signature of `def` resolves in `ctx`.
pub open spec fn signature_resolves(ctx: &ModuleContext, def: FunctionDef) -> bool {
    tokens_resolve(ctx, def.parameters@) && tokens_resolve(ctx, def.returns@)
}

impl CompiledModule {
    /// The handle tables are consistent and every signature resolves.
    pub open spec fn well_formed(&self) -> bool {
        &&& self.context.well_formed()
        &&& forall|i: int|
            0 <= i < self.functions.len() ==> signature_resolves(
                &self.context,
                #[trigger] self.functions@[i],
            )
    }

    /// Whether the module is well formed.
    pub fn check(&self) -> (r: bool)
        ensures
            r == self.well_formed(),
    {
        if !self.context.check() {
            return false;
        }
        let mut i: usize = 0;
        while i < self.functions.len()
            invariant
                self.context.well_formed(),
                i <= self.functions.len(),
                forall|k: int|
                    0 <= k < i ==> signature_resolves(&self.context, #[trigger] self.functions@[k]),
            decreases self.functions.len() - i,
        {
            let f = &self.functions[i];
            if !all_tokens_resolve(&self.context, &f.parameters) {
                return false;
            }
            if !all_tokens_resolve(&self.context, &f.returns) {
                return false;
            }
            i = i + 1;
        }
        true
    }

    /// The module's own name.
    pub open spec fn name_view(&self) -> Seq<char> {
        self.context.module_names@[self.context.self_module as int]@
    }
}

/// The public definitions of `defs`, in their order.
pub open spec fn public_defs(defs: Seq<FunctionDef>) -> Seq<FunctionDef>
    decreases defs.len(),
{
    if defs.len() == 0 {
        seq![]
    } else if defs.last().is_public {
        public_defs(defs.drop_last()).push(defs.last())
    } else {
        public_defs(defs.drop_last())
    }
}

/// `out` holds the text of each token of `ts` in `ctx`, in order.
pub open spec fn texts_of(ctx: &ModuleContext, ts: Seq<TypeToken>, out: Seq<String>) -> bool {
    &&& out.len() == ts.len()
    &&& forall|i: int| 0 <= i < ts.len() ==> (#[trigger] out[i])@ == token_text(ctx, ts[i])
}

/// `info` describes `def`, with types as they read in module `ctx`.
pub open spec fn describes(info: FunctionInfo, ctx: &ModuleContext, def: FunctionDef) -> bool {
    &&& info.name@ == def.name@
    &&& info.type_params@.len() == def.type_parameter_count
    &&& forall|i: int|
        0 <= i < info.type_params@.len() ==> (#[trigger] info.type_params@[i])@ == type_param_name(
            i as nat,
        )
    &&& texts_of(ctx, def.parameters@, info.params@)
    &&& texts_of(ctx, def.returns@, info.returns@)
}

/// `fs` describes the definitions `defs` one by one.
pub open spec fn describes_all(fs: Seq<FunctionInfo>, ctx: &ModuleContext, defs: Seq<FunctionDef>) -> bool {
    &&& fs.len() == defs.len()
    &&& forall|i: int| 0 <= i < defs.len() ==> describes(#[trigger] fs[i], ctx, defs[i])
}

/// `info` lists the public functions of `m`, sorted by name.
pub open spec fn lists_module(info: ModuleInfo, m: CompiledModule) -> bool {
    &&& info.name@ == m.name_view()
    &&& sorted_by_name(info.functions@)
    &&& exists|fs: Seq<FunctionInfo>|
        describes_all(fs, &m.context, public_defs(m.functions@))
            && info.functions@.to_multiset() == fs.to_multiset()
}

/// `r` holds one entry per module of `units`, sorted by module name.
pub open spec fn lists_modules(r: Seq<ModuleInfo>, units: Seq<CompiledModule>) -> bool {
    &&& sorted_by_name(r)
    &&& exists|ms: Seq<ModuleInfo>|
        ms.len() == units.len() && (forall|i: int|
            0 <= i < units.len() ==> lists_module(#[trigger] ms[i], units[i]))
            && r.to_multiset() == ms.to_multiset()
}

fn all_tokens_resolve(ctx: &ModuleContext, ts: &Vec<TypeToken>) -> (r: bool)
    ensures
        r == tokens_resolve(ctx, ts@),
{
    let mut i: usize = 0;
    while i < ts.len()
        invariant
            i <= ts.len(),
            forall|k: int| 0 <= k < i ==> resolves(ctx, #[trigger] ts@[k]),
        decreases ts.len() - i,
    {
        if !token_resolves(ctx, &ts[i]) {
            return false;
        }
        i = i + 1;
    }
    true
}

fn format_tokens(ctx: &ModuleContext, ts: &Vec<TypeToken>) -> (r: Vec<String>)
    requires
        ctx.well_formed(),
        tokens_resolve(ctx, ts@),
    ensures
        texts_of(ctx, ts@, r@),
{
    let mut out: Vec<String> = Vec::new();
    let mut i: usize = 0;
    while i < ts.len()
        invariant
            ctx.well_formed(),
            tokens_resolve(ctx, ts@),
            i <= ts.len(),
            texts_of(ctx, ts@.take(i as int), out@),
        decreases ts.len() - i,
    {
        out.push(format_signature_token(ctx, &ts[i]));
        i = i + 1;
    }
    proof {
        assert(ts@.take(ts.len() as int) =~= ts@);
    }
    out
}

/// Describes function `def` of the module with tables `ctx`.
pub fn function_info(ctx: &ModuleContext, def: &FunctionDef) -> (r: FunctionInfo)
    requires
        ctx.well_formed(),
        tokens_resolve(ctx, def.parameters@),
        tokens_resolve(ctx, def.returns@),
    ensures
        describes(r, ctx, *def),
{
    let mut type_params: Vec<String> = Vec::new();
    let mut i: usize = 0;
    while i < def.type_parameter_count
        invariant
            i <= def.type_parameter_count,
            type_params@.len() == i,
            forall|k: int| 0 <= k < i ==> (#[trigger] type_params@[k])@ == type_param_name(k as nat),
        decreases def.type_parameter_count - i,
    {
        type_params.push(type_param_label(i as u64));
        i = i + 1;
    }
    FunctionInfo {
        name: def.name.clone(),
        type_params,
        params: format_tokens(ctx, &def.parameters),
        returns: format_tokens(ctx, &def.returns),
    }
}

/// Lists the public functions of `module`, sorted by name.
pub fn module_info(module: &CompiledModule) -> (r: ModuleInfo)
    requires
        module.well_formed(),
    ensures
        lists_module(r, *module),
{
    let ctx = &module.context;
    let mut functions: Vec<FunctionInfo> = Vec::new();
    let mut i: usize = 0;
    while i < module.functions.len()
        invariant
            module.well_formed(),
            ctx == &module.context,
            i <= module.functions.len(),
            describes_all(functions@, ctx, public_defs(module.functions@.take(i as int))),
        decreases module.functions.len() - i,
    {
        let def = &module.functions[i];
        proof {
            assert(module.functions@.take(i + 1).drop_last() =~= module.functions@.take(i as int));
        }
        if def.is_public {
            assert(signature_resolves(ctx, module.functions@[i as int]));
            let info = function_info(ctx, def);
            functions.push(info);
        }
        i = i + 1;
    }
    proof {
        assert(module.functions@.take(module.functions.len() as int) =~= module.functions@);
    }
    let sorted = sort_by_name(functions);
    ModuleInfo { name: ctx.module_names[ctx.self_module].clone(), functions: sorted }
}

/// One entry per module of `units`, each listing the module's public
/// functions sorted by name, the entries sorted by module name.
pub fn collect_modules(units: &Vec<CompiledModule>) -> (r: Vec<ModuleInfo>)
    requires
        forall|i: int| 0 <= i < units.len() ==> (#[trigger] units@[i]).well_formed(),
    ensures
        lists_modules(r@, units@),
{
    let mut modules: Vec<ModuleInfo> = Vec::new();
    let mut i: usize = 0;
    while i < units.len()
        invariant
            forall|i: int| 0 <= i < units.len() ==> (#[trigger] units@[i]).well_formed(),
            i <= units.len(),
            modules@.len() == i,
            forall|k: int| 0 <= k < i ==> lists_module(#[trigger] modules@[k], units@[k]),
        decreases units.len() - i,
    {
        modules.push(module_info(&units[i]));
        i = i + 1;
    }
    let ghost unsorted = modules@;
    let sorted = sort_by_name(modules);
    proof {
        assert(unsorted.len() == units@.len());
    }
    sorted
}

} // verus!
