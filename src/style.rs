//! Terminal styling of rendered text.
//!
//! Colors are applied through the `colored` crate, which wraps text in ANSI
//! "select graphic rendition" (SGR) sequences. The spec functions here say what
//! a colored string shows once those sequences are removed.

use colored::Colorize;
use vstd::prelude::*;

verus! {

/// Text that holds no escape character.
pub open spec fn is_plain(s: Seq<char>) -> bool {
    forall|i: int| 0 <= i < s.len() ==> s[i] != '\u{1b}'
}

/// The parameters of an SGR sequence: digits separated by semicolons.
pub open spec fn is_sgr_params(p: Seq<char>) -> bool {
    forall|i: int| 0 <= i < p.len() ==> (p[i] == ';' || ('0' <= p[i] && p[i] <= '9'))
}

/// The SGR sequence `ESC [ p m`.
pub open spec fn sgr(p: Seq<char>) -> Seq<char> {
    seq!['\u{1b}', '['] + p + seq!['m']
}

/// The SGR sequence that resets every attribute.
pub open spec fn sgr_reset() -> Seq<char> {
    sgr(seq!['0'])
}

/// Removes escape sequences, each running from an escape character through the
/// next `m`; `in_escape` says whether the text starts inside one.
pub open spec fn strip_from(s: Seq<char>, in_escape: bool) -> Seq<char>
    decreases s.len(),
{
    if s.len() == 0 {
        seq![]
    } else if in_escape {
        strip_from(s.drop_first(), s[0] != 'm')
    } else if s[0] == '\u{1b}' {
        strip_from(s.drop_first(), true)
    } else {
        seq![s[0]] + strip_from(s.drop_first(), false)
    }
}

/// What a terminal string shows once its escape sequences are removed.
pub open spec fn strip_sgr(s: Seq<char>) -> Seq<char> {
    strip_from(s, false)
}

/// `text` shows as `shown`, whatever text follows it.
pub open spec fn shows_as(text: Seq<char>, shown: Seq<char>) -> bool {
    forall|rest: Seq<char>| #[trigger] strip_sgr(text + rest) == shown + strip_sgr(rest)
}

/// How `colored` may return `s`: unchanged, or between an SGR sequence and a reset.
pub open spec fn colored_form(r: Seq<char>, s: Seq<char>) -> bool {
    r == s || exists|p: Seq<char>| is_sgr_params(p) && r == sgr(p) + s + sgr_reset()
}

proof fn lemma_plain_prefix(s: Seq<char>, rest: Seq<char>)
    requires
        is_plain(s),
    ensures
        strip_sgr(s + rest) == s + strip_sgr(rest),
    decreases s.len(),
{
    if s.len() == 0 {
        assert(s + rest =~= rest);
        assert(s + strip_sgr(rest) =~= strip_sgr(rest));
    } else {
        let t = s.drop_first();
        assert((s + rest).drop_first() =~= t + rest);
        lemma_plain_prefix(t, rest);
        assert(s =~= seq![s[0]] + t);
    }
}

/// Plain text shows as itself.
pub proof fn lemma_plain_shows(s: Seq<char>)
    requires
        is_plain(s),
    ensures
        shows_as(s, s),
{
    assert forall|rest: Seq<char>| #[trigger] strip_sgr(s + rest) == s + strip_sgr(rest) by {
        lemma_plain_prefix(s, rest);
    }
}

proof fn lemma_escape_body(body: Seq<char>, rest: Seq<char>)
    requires
        forall|i: int| 0 <= i < body.len() ==> body[i] != 'm',
    ensures
        strip_from(body + seq!['m'] + rest, true) == strip_sgr(rest),
    decreases body.len(),
{
    let s = body + seq!['m'] + rest;
    if body.len() == 0 {
        assert(s.drop_first() =~= rest);
    } else {
        let t = body.drop_first();
        assert(s.drop_first() =~= t + seq!['m'] + rest);
        lemma_escape_body(t, rest);
    }
}

/// An SGR sequence shows as nothing.
pub proof fn lemma_sgr_shows(p: Seq<char>)
    requires
        is_sgr_params(p),
    ensures
        shows_as(sgr(p), seq![]),
{
    assert forall|rest: Seq<char>| #[trigger] strip_sgr(sgr(p) + rest) == seq![] + strip_sgr(rest) by {
        let body = seq!['['] + p;
        let s = sgr(p) + rest;
        assert(s.drop_first() =~= body + seq!['m'] + rest);
        lemma_escape_body(body, rest);
        assert(seq![] + strip_sgr(rest) =~= strip_sgr(rest));
    }
}

/// Showing is compatible with concatenation.
pub proof fn lemma_shows_concat(a: Seq<char>, sa: Seq<char>, b: Seq<char>, sb: Seq<char>)
    requires
        shows_as(a, sa),
        shows_as(b, sb),
    ensures
        shows_as(a + b, sa + sb),
{
    assert forall|rest: Seq<char>| #[trigger] strip_sgr((a + b) + rest) == (sa + sb) + strip_sgr(
        rest,
    ) by {
        assert((a + b) + rest =~= a + (b + rest));
        assert(strip_sgr(a + (b + rest)) == sa + strip_sgr(b + rest));
        assert(strip_sgr(b + rest) == sb + strip_sgr(rest));
        assert(sa + (sb + strip_sgr(rest)) =~= (sa + sb) + strip_sgr(rest));
    }
}

/// A text that shows as `shown` strips to exactly `shown`.
pub proof fn lemma_shows_strip(a: Seq<char>, shown: Seq<char>)
    requires
        shows_as(a, shown),
    ensures
        strip_sgr(a) == shown,
{
    let e = Seq::<char>::empty();
    assert(a + e =~= a);
    assert(strip_sgr(a + e) == shown + strip_sgr(e));
    assert(shown + e =~= shown);
}

/// What `colored` returns for plain text shows as that text.
pub proof fn lemma_colored_shows(r: Seq<char>, s: Seq<char>)
    requires
        is_plain(s),
        colored_form(r, s),
    ensures
        shows_as(r, s),
{
    lemma_plain_shows(s);
    if r != s {
        let p = choose|p: Seq<char>| is_sgr_params(p) && r == sgr(p) + s + sgr_reset();
        lemma_sgr_shows(p);
        lemma_sgr_shows(seq!['0']);
        lemma_shows_concat(sgr(p), seq![], s, s);
        assert(seq![] + s =~= s);
        lemma_shows_concat(sgr(p) + s, s, sgr_reset(), seq![]);
        assert(s + seq![] =~= s);
    }
}

/// The role of a piece of text, which decides its color and weight.
#[derive(Clone, Copy, Debug, PartialEq, Eq)]
pub enum Tone {
    /// The `package` and `deps` header words: bold blue.
    Header,
    /// The package name in a header: bold.
    Strong,
    /// The `module` and `dep` words: bold cyan.
    Kind,
    /// A module name or a dependency label: cyan.
    Entry,
    /// A function name: bold green.
    Function,
    /// A type parameter or a parameter type: yellow.
    Parameter,
    /// A return type: magenta.
    Returned,
    /// The `fun` keyword: bright black.
    Keyword,
    /// Secondary notes such as a path or `(shared)`: dimmed.
    Faint,
}

/// Relies on the `Colorize` methods of `colored` on `&str` and on the
/// `Display` of `ColoredString`: when colors are off the text comes back as it
/// is; when on, it comes between one SGR sequence and the reset `ESC[0m`, and
/// a text without escape characters is not rewritten.
#[verifier::external_body]
fn colorize(s: &str, tone: Tone) -> (r: String)
    ensures
        is_plain(s@) ==> colored_form(r@, s@),
{
    let styled = match tone {
        Tone::Header => s.bold().blue(),
        Tone::Strong => s.bold(),
        Tone::Kind => s.cyan().bold(),
        Tone::Entry => s.cyan(),
        Tone::Function => s.green().bold(),
        Tone::Parameter => s.yellow(),
        Tone::Returned => s.magenta(),
        Tone::Keyword => s.bright_black(),
        Tone::Faint => s.dimmed(),
    };
    styled.to_string()
}

/// `text` as `plain` appears on a terminal: equal to it without colors, and
/// showing as it with colors (for text without escape characters).
pub open spec fn displays(text: Seq<char>, plain: Seq<char>, color: bool) -> bool {
    if color {
        is_plain(plain) ==> shows_as(text, plain)
    } else {
        text == plain
    }
}

/// Styles `s` in `tone` when `color` is on; otherwise returns it unchanged.
pub fn paint(s: &str, tone: Tone, color: bool) -> (r: String)
    ensures
        displays(r@, s@, color),
        !color ==> r@ == s@,
{
    if color {
        let r = colorize(s, tone);
        proof {
            if is_plain(s@) {
                lemma_colored_shows(r@, s@);
            }
        }
        r
    } else {
        s.to_owned()
    }
}

} // verus!
