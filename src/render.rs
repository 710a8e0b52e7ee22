//! Text lines of the module tree, with tree-drawing prefixes.

use crate::modules::{FunctionInfo, ModuleInfo};
use crate::style::{
    displays, is_plain, lemma_plain_shows, lemma_shows_concat, lemma_shows_strip, paint,
    strip_sgr, Tone,
};
use vstd::prelude::*;

verus! {

/// The marker before an entry: terminal for the last sibling, through otherwise.
pub open spec fn branch(last: bool) -> Seq<char> {
    if last {
        "`-- "@
    } else {
        "|-- "@
    }
}

/// What the children of an entry are indented by.
pub open spec fn continuation(last: bool) -> Seq<char> {
    if last {
        "    "@
    } else {
        "|   "@
    }
}

/// The texts of `ss`, separated by `", "`.
pub open spec fn join(ss: Seq<String>) -> Seq<char>
    decreases ss.len(),
{
    if ss.len() == 0 {
        seq![]
    } else if ss.len() == 1 {
        ss[0]@
    } else {
        join(ss.drop_last()) + ", "@ + ss.last()@
    }
}

/// The type parameter list of a function: empty, or in angle brackets.
pub open spec fn type_params_text(f: FunctionInfo) -> Seq<char> {
    if f.type_params.len() == 0 {
        seq![]
    } else {
        "<"@ + join(f.type_params@) + ">"@
    }
}

/// The return part of a function: `()` for none, the type for one, a
/// parenthesised list for more.
pub open spec fn returns_text(f: FunctionInfo) -> Seq<char> {
    if f.returns.len() == 0 {
        "()"@
    } else if f.returns.len() == 1 {
        f.returns@[0]@
    } else {
        "("@ + join(f.returns@) + ")"@
    }
}

/// The line of a function: `fun name<T0>(u64, bool): u8`.
pub open spec fn function_text(f: FunctionInfo) -> Seq<char> {
    "fun"@ + " "@ + f.name@ + type_params_text(f) + "("@ + join(f.params@) + "): "@ + returns_text(f)
}

/// The header of a tree: a label, a name, and a path note unless the path is empty.
pub open spec fn header_text(label: Seq<char>, name: Seq<char>, relative: Seq<char>) -> Seq<
    char,
> {
    label + " "@ + name + if relative.len() == 0 {
        seq![]
    } else {
        " "@ + ("("@ + relative + ")"@)
    }
}

/// The lines of the first `count` functions of `fs` under a module indented by `indent`.
pub open spec fn function_lines(fs: Seq<FunctionInfo>, indent: Seq<char>, count: int) -> Seq<
    Seq<char>,
>
    decreases count,
{
    if count <= 0 {
        seq![]
    } else {
        function_lines(fs, indent, count - 1).push(
            indent + branch(count == fs.len()) + function_text(fs[count - 1]),
        )
    }
}

/// The lines of module `m`: its own line and one per function.
pub open spec fn module_lines(m: ModuleInfo, last: bool) -> Seq<Seq<char>> {
    seq![branch(last) + "module"@ + " "@ + m.name@] + function_lines(
        m.functions@,
        continuation(last),
        m.functions.len() as int,
    )
}

/// The lines of the first `count` modules of `ms`.
pub open spec fn modules_lines(ms: Seq<ModuleInfo>, count: int) -> Seq<Seq<char>>
    decreases count,
{
    if count <= 0 {
        seq![]
    } else {
        modules_lines(ms, count - 1) + module_lines(ms[count - 1], count == ms.len())
    }
}

/// The lines of the module tree of a package.
pub open spec fn package_tree_lines(name: Seq<char>, relative: Seq<char>, ms: Seq<ModuleInfo>) -> Seq<
    Seq<char>,
> {
    seq![header_text("package"@, name, relative)] + modules_lines(ms, ms.len() as int)
}

/// Each line of `out` displays the matching line of `plain`.
pub open spec fn displays_lines(out: Seq<String>, plain: Seq<Seq<char>>, color: bool) -> bool {
    &&& out.len() == plain.len()
    &&& forall|i: int| 0 <= i < out.len() ==> displays(#[trigger] out[i]@, plain[i], color)
}

/// Display is compatible with concatenation.
pub proof fn lemma_displays_concat(a: Seq<char>, pa: Seq<char>, b: Seq<char>, pb: Seq<char>, color: bool)
    requires
        displays(a, pa, color),
        displays(b, pb, color),
    ensures
        displays(a + b, pa + pb, color),
{
    if color && is_plain(pa + pb) {
        assert forall|i: int| 0 <= i < pa.len() implies pa[i] != '\u{1b}' by {
            assert(pa[i] == (pa + pb)[i]);
        }
        assert forall|i: int| 0 <= i < pb.len() implies pb[i] != '\u{1b}' by {
            assert(pb[i] == (pa + pb)[pa.len() + i]);
        }
        lemma_shows_concat(a, pa, b, pb);
    }
}

/// Any text displays as itself.
pub proof fn lemma_displays_self(s: Seq<char>, color: bool)
    ensures
        displays(s, s, color),
{
    if color && is_plain(s) {
        lemma_plain_shows(s);
    }
}

/// Appends `s` unstyled.
pub(crate) fn append_text(out: &mut String, Ghost(plain): Ghost<Seq<char>>, s: &str, color: bool)
    requires
        displays(old(out)@, plain, color),
    ensures
        displays(final(out)@, plain + s@, color),
{
    proof {
        lemma_displays_self(s@, color);
        lemma_displays_concat(old(out)@, plain, s@, s@, color);
    }
    out.append(s);
}

/// Appends `s` in `tone`.
pub(crate) fn append_painted(
    out: &mut String,
    Ghost(plain): Ghost<Seq<char>>,
    s: &str,
    tone: Tone,
    color: bool,
)
    requires
        displays(old(out)@, plain, color),
    ensures
        displays(final(out)@, plain + s@, color),
{
    let p = paint(s, tone, color);
    proof {
        lemma_displays_concat(old(out)@, plain, p@, s@, color);
    }
    out.append(p.as_str());
}

/// Appends the texts of `ss` in `tone`, separated by `", "`.
fn append_list(
    out: &mut String,
    Ghost(plain): Ghost<Seq<char>>,
    ss: &Vec<String>,
    tone: Tone,
    color: bool,
)
    requires
        displays(old(out)@, plain, color),
    ensures
        displays(final(out)@, plain + join(ss@), color),
{
    let mut i: usize = 0;
    proof {
        assert(plain + join(ss@.take(0)) =~= plain);
    }
    while i < ss.len()
        invariant
            i <= ss.len(),
            displays(out@, plain + join(ss@.take(i as int)), color),
        decreases ss.len() - i,
    {
        let ghost before = plain + join(ss@.take(i as int));
        let ghost next = ss@.take(i + 1);
        assert(next.drop_last() =~= ss@.take(i as int));
        if i > 0 {
            append_text(out, Ghost(before), ", ", color);
            append_painted(out, Ghost(before + ", "@), ss[i].as_str(), tone, color);
            assert(before + ", "@ + ss@[i as int]@ =~= plain + join(next));
        } else {
            append_painted(out, Ghost(before), ss[i].as_str(), tone, color);
            assert(before + ss@[0]@ =~= plain + join(next));
        }
        i = i + 1;
    }
    proof {
        assert(ss@.take(ss.len() as int) =~= ss@);
    }
}

/// The line of `function`: `fun`, its name, its type parameters in angle
/// brackets if any, its parameter types in parentheses, and after `: ` its
/// return types (`()` for none, bare for one, in parentheses for more).
pub fn render_function(function: &FunctionInfo, color: bool) -> (r: String)
    ensures
        displays(r@, function_text(*function), color),
{
    let mut out = String::new();
    let ghost e = Seq::<char>::empty();
    proof {
        lemma_displays_self(e, color);
    }
    append_painted(&mut out, Ghost(e), "fun", Tone::Keyword, color);
    let ghost so_far0 = e + "fun"@;
    append_text(&mut out, Ghost(so_far0), " ", color);
    let ghost so_far1 = so_far0 + " "@;
    append_painted(&mut out, Ghost(so_far1), function.name.as_str(), Tone::Function, color);
    let ghost so_far2 = so_far1 + function.name@;
    let ghost so_far3;
    if function.type_params.len() > 0 {
        append_text(&mut out, Ghost(so_far2), "<", color);
        append_list(&mut out, Ghost(so_far2 + "<"@), &function.type_params, Tone::Parameter, color);
        append_text(&mut out, Ghost(so_far2 + "<"@ + join(function.type_params@)), ">", color);
        proof {
            so_far3 = so_far2 + "<"@ + join(function.type_params@) + ">"@;
            assert(so_far3 =~= so_far2 + type_params_text(*function));
        }
    } else {
        proof {
            so_far3 = so_far2;
            assert(so_far3 =~= so_far2 + type_params_text(*function));
        }
    }
    append_text(&mut out, Ghost(so_far3), "(", color);
    append_list(&mut out, Ghost(so_far3 + "("@), &function.params, Tone::Parameter, color);
    let ghost so_far4 = so_far3 + "("@ + join(function.params@);
    append_text(&mut out, Ghost(so_far4), "): ", color);
    let ghost so_far5 = so_far4 + "): "@;
    if function.returns.len() == 0 {
        append_painted(&mut out, Ghost(so_far5), "()", Tone::Returned, color);
    } else if function.returns.len() == 1 {
        append_painted(&mut out, Ghost(so_far5), function.returns[0].as_str(), Tone::Returned, color);
    } else {
        append_text(&mut out, Ghost(so_far5), "(", color);
        append_list(&mut out, Ghost(so_far5 + "("@), &function.returns, Tone::Returned, color);
        append_text(&mut out, Ghost(so_far5 + "("@ + join(function.returns@)), ")", color);
        assert(so_far5 + "("@ + join(function.returns@) + ")"@ =~= so_far5 + returns_text(*function));
    }
    proof {
        assert(e + "fun"@ =~= "fun"@);
        assert(so_far5 + returns_text(*function) =~= function_text(*function));
    }
    out
}

fn branch_str(last: bool) -> (r: &'static str)
    ensures
        r@ == branch(last),
{
    if last {
        "`-- "
    } else {
        "|-- "
    }
}

fn continuation_str(last: bool) -> (r: &'static str)
    ensures
        r@ == continuation(last),
{
    if last {
        "    "
    } else {
        "|   "
    }
}

/// Adds `line`, which displays `plain`, to `out`.
pub(crate) fn push_line(
    out: &mut Vec<String>,
    Ghost(lines): Ghost<Seq<Seq<char>>>,
    line: String,
    Ghost(plain): Ghost<Seq<char>>,
    color: bool,
)
    requires
        displays_lines(old(out)@, lines, color),
        displays(line@, plain, color),
    ensures
        displays_lines(final(out)@, lines.push(plain), color),
{
    out.push(line);
    proof {
        assert forall|i: int| 0 <= i < final(out)@.len() implies displays(
            #[trigger] final(out)@[i]@,
            lines.push(plain)[i],
            color,
        ) by {
            if i < lines.len() {
                assert(final(out)@[i] == old(out)@[i]);
            }
        }
    }
}

/// The header line of a tree: `label`, `name`, and `(relative)` unless
/// `relative` is empty.
pub fn render_header(label: &str, name: &str, relative: &str, color: bool) -> (r: String)
    ensures
        displays(r@, header_text(label@, name@, relative@), color),
{
    let mut out = String::new();
    let ghost e = Seq::<char>::empty();
    proof {
        lemma_displays_self(e, color);
        assert(e + label@ =~= label@);
    }
    append_painted(&mut out, Ghost(e), label, Tone::Header, color);
    append_text(&mut out, Ghost(label@), " ", color);
    append_painted(&mut out, Ghost(label@ + " "@), name, Tone::Strong, color);
    let ghost p = label@ + " "@ + name@;
    if !relative.is_empty() {
        append_text(&mut out, Ghost(p), " ", color);
        let mut note = "(".to_owned();
        note.append(relative);
        note.append(")");
        append_painted(&mut out, Ghost(p + " "@), note.as_str(), Tone::Faint, color);
        assert(p + " "@ + note@ =~= header_text(label@, name@, relative@));
    } else {
        assert(p =~= header_text(label@, name@, relative@));
    }
    out
}

/// The lines of the module tree of a package: the header, then for each
/// module its line and one line per function below it, each with its branch
/// marker.
pub fn render_package_tree(
    package_name: &str,
    relative: &str,
    modules: &Vec<ModuleInfo>,
    color: bool,
) -> (r: Vec<String>)
    ensures
        displays_lines(r@, package_tree_lines(package_name@, relative@, modules@), color),
{
    let mut out: Vec<String> = Vec::new();
    let header = render_header("package", package_name, relative, color);
    let ghost h = header_text("package"@, package_name@, relative@);
    let ghost none = Seq::<Seq<char>>::empty();
    push_line(&mut out, Ghost(none), header, Ghost(h), color);
    assert(none.push(h) =~= seq![h] + modules_lines(modules@, 0));
    let mut k: usize = 0;
    while k < modules.len()
        invariant
            k <= modules.len(),
            h == header_text("package"@, package_name@, relative@),
            displays_lines(out@, seq![h] + modules_lines(modules@, k as int), color),
        decreases modules.len() - k,
    {
        let module = &modules[k];
        let last = k + 1 == modules.len();
        let ghost done = seq![h] + modules_lines(modules@, k as int);
        let mut line = branch_str(last).to_owned();
        proof {
            lemma_displays_self(line@, color);
        }
        append_painted(&mut line, Ghost(branch(last)), "module", Tone::Kind, color);
        append_text(&mut line, Ghost(branch(last) + "module"@), " ", color);
        append_painted(
            &mut line,
            Ghost(branch(last) + "module"@ + " "@),
            module.name.as_str(),
            Tone::Entry,
            color,
        );
        let ghost mline = branch(last) + "module"@ + " "@ + module.name@;
        push_line(&mut out, Ghost(done), line, Ghost(mline), color);
        let ghost fs = module.functions@;
        let ghost indent = continuation(last);
        assert(done.push(mline) =~= done + seq![mline] + function_lines(fs, indent, 0));
        let mut j: usize = 0;
        while j < module.functions.len()
            invariant
                j <= module.functions.len(),
                fs == module.functions@,
                indent == continuation(last),
                displays_lines(out@, done + seq![mline] + function_lines(fs, indent, j as int), color),
            decreases module.functions.len() - j,
        {
            let function = &module.functions[j];
            let flast = j + 1 == module.functions.len();
            let mut fline = continuation_str(last).to_owned();
            proof {
                lemma_displays_self(fline@, color);
            }
            append_text(&mut fline, Ghost(indent), branch_str(flast), color);
            let rendered = render_function(function, color);
            proof {
                lemma_displays_concat(
                    fline@,
                    indent + branch(flast),
                    rendered@,
                    function_text(*function),
                    color,
                );
            }
            fline.append(rendered.as_str());
            let ghost before = done + seq![mline] + function_lines(fs, indent, j as int);
            let ghost plain = indent + branch(flast) + function_text(*function);
            push_line(&mut out, Ghost(before), fline, Ghost(plain), color);
            assert(before.push(plain) =~= done + seq![mline] + function_lines(fs, indent, j + 1));
            j = j + 1;
        }
        assert(done + seq![mline] + function_lines(fs, indent, fs.len() as int) =~= seq![h]
            + modules_lines(modules@, k + 1));
        k = k + 1;
    }
    out
}

/// Under a module, the line of function `i` is the indent, the terminal
/// marker exactly when `i` is the last function, and the function's text.
pub proof fn lemma_function_line_marker(fs: Seq<FunctionInfo>, indent: Seq<char>, count: int, i: int)
    requires
        0 <= i < count <= fs.len(),
    ensures
        function_lines(fs, indent, count).len() == count,
        function_lines(fs, indent, count)[i] == indent + branch(i == fs.len() - 1) + function_text(
            fs[i],
        ),
    decreases count,
{
    lemma_function_lines_len(fs, indent, count);
    if i < count - 1 {
        lemma_function_line_marker(fs, indent, count - 1, i);
    }
}

proof fn lemma_function_lines_len(fs: Seq<FunctionInfo>, indent: Seq<char>, count: int)
    requires
        0 <= count,
    ensures
        function_lines(fs, indent, count).len() == count,
    decreases count,
{
    if count > 0 {
        lemma_function_lines_len(fs, indent, count - 1);
    }
}

/// The line of a module starts with the terminal marker exactly when it is
/// the last module, and its functions are indented to match.
pub proof fn lemma_module_line_marker(m: ModuleInfo, last: bool)
    ensures
        module_lines(m, last)[0] == branch(last) + "module"@ + " "@ + m.name@,
        module_lines(m, last).len() == 1 + m.functions.len(),
        forall|i: int|
            0 <= i < m.functions.len() ==> #[trigger] module_lines(m, last)[1 + i] == continuation(
                last,
            ) + branch(i == m.functions.len() - 1) + function_text(m.functions@[i]),
{
    lemma_function_lines_len(m.functions@, continuation(last), m.functions.len() as int);
    assert forall|i: int| 0 <= i < m.functions.len() implies #[trigger] module_lines(m, last)[1 + i]
        == continuation(last) + branch(i == m.functions.len() - 1) + function_text(
        m.functions@[i],
    ) by {
        lemma_function_line_marker(m.functions@, continuation(last), m.functions.len() as int, i);
    }
}

/// Output rendered with colors, once its escape sequences are removed, is the
/// output rendered without colors, for text without escape characters.
pub proof fn lemma_color_stripping(colored: Seq<char>, uncolored: Seq<char>, plain: Seq<char>)
    requires
        displays(colored, plain, true),
        displays(uncolored, plain, false),
        is_plain(plain),
    ensures
        strip_sgr(colored) == uncolored,
{
    lemma_shows_strip(colored, plain);
}

/// Line by line, the colored rendering stripped of escape sequences is the
/// uncolored rendering.
pub proof fn lemma_color_stripping_lines(
    colored: Seq<String>,
    uncolored: Seq<String>,
    plain: Seq<Seq<char>>,
)
    requires
        displays_lines(colored, plain, true),
        displays_lines(uncolored, plain, false),
        forall|i: int| 0 <= i < plain.len() ==> is_plain(#[trigger] plain[i]),
    ensures
        colored.len() == uncolored.len(),
        forall|i: int|
            0 <= i < colored.len() ==> strip_sgr(#[trigger] colored[i]@) == uncolored[i]@,
{
    assert forall|i: int| 0 <= i < colored.len() implies strip_sgr(#[trigger] colored[i]@)
        == uncolored[i]@ by {
        assert(displays(colored[i]@, plain[i], true));
        assert(displays(uncolored[i]@, plain[i], false));
        lemma_shows_strip(colored[i]@, plain[i]);
    }
}

} // verus!
