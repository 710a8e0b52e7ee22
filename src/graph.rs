//! The dependency graph of a package, walked depth first from its root, each
//! package expanded once and marked shared where it is met again.

use crate::order::{lemma_text_lt_irreflexive, lemma_text_lt_transitive, name_lt, text_lt};
use crate::render::{
    append_painted, append_text, branch, continuation, displays_lines, header_text,
    lemma_displays_self, push_line, render_header,
};
use crate::style::{displays, Tone};
use vstd::prelude::*;

verus! {

/// A direct dependency: the name under which a package depends on another,
/// and the index of that other package in the graph.
#[derive(Debug)]
pub struct DepEdge {
    pub name: String,
    pub target: usize,
}

/// A package of the graph.
#[derive(Debug)]
pub struct PackageNode {
    /// The package's identity.
    pub id: String,
    pub display_name: String,
    pub deps: Vec<DepEdge>,
}

/// A resolved package graph: its packages, and which of them is the root.
#[derive(Debug)]
pub struct PackageGraph {
    pub packages: Vec<PackageNode>,
    pub root: usize,
}

impl PackageGraph {
    /// The root and every dependency target are packages of the graph, and no
    /// two packages share an identity.
    pub open spec fn well_formed(&self) -> bool {
        &&& self.root < self.packages.len()
        &&& forall|p: int, i: int|
            0 <= p < self.packages.len() && 0 <= i < self.packages@[p].deps.len()
                ==> #[trigger] self.packages@[p].deps@[i].target < self.packages.len()
        &&& forall|p: int, q: int|
            0 <= p < q < self.packages.len() ==> #[trigger] self.packages@[p].id@
                != #[trigger] self.packages@[q].id@
    }
}

impl PackageGraph {
    /// Whether the graph is well formed.
    pub fn check(&self) -> (r: bool)
        ensures
            r == self.well_formed(),
    {
        let n = self.packages.len();
        if self.root >= n {
            return false;
        }
        let mut p: usize = 0;
        while p < n
            invariant
                n == self.packages.len(),
                self.root < n,
                p <= n,
                forall|a: int, i: int|
                    0 <= a < p && 0 <= i < self.packages@[a].deps.len()
                        ==> #[trigger] self.packages@[a].deps@[i].target < n,
                forall|a: int, b: int|
                    0 <= a < b < n && a < p ==> #[trigger] self.packages@[a].id@
                        != #[trigger] self.packages@[b].id@,
            decreases n - p,
        {
            let deps = &self.packages[p].deps;
            let mut i: usize = 0;
            while i < deps.len()
                invariant
                    n == self.packages.len(),
                    p < n,
                    deps == &self.packages@[p as int].deps,
                    i <= deps.len(),
                    forall|j: int| 0 <= j < i ==> #[trigger] deps@[j].target < n,
                decreases deps.len() - i,
            {
                if deps[i].target >= n {
                    assert(self.packages@[p as int].deps@[i as int].target >= n);
                    return false;
                }
                i = i + 1;
            }
            let mut q: usize = p + 1;
            while q < n
                invariant
                    n == self.packages.len(),
                    p < q <= n,
                    forall|b: int| p < b < q ==> self.packages@[p as int].id@ != #[trigger] self.packages@[b].id@,
                decreases n - q,
            {
                if self.packages[p].id == self.packages[q].id {
                    return false;
                }
                q = q + 1;
            }
            p = p + 1;
        }
        true
    }
}

/// A dependency edge as it is sorted: its name, the target's identity, the target.
pub type EdgeView = (Seq<char>, Seq<char>, int);

/// The edges out of package `node`, in their stored order.
pub open spec fn edge_views(g: &PackageGraph, node: int) -> Seq<EdgeView> {
    let deps = g.packages@[node].deps@;
    Seq::new(
        deps.len(),
        |i: int| (deps[i].name@, g.packages@[deps[i].target as int].id@, deps[i].target as int),
    )
}

/// Edge `a` sorts before edge `b`: by name, then by identity.
pub open spec fn edge_before(a: EdgeView, b: EdgeView) -> bool {
    text_lt(a.0, b.0) || (a.0 == b.0 && text_lt(a.1, b.1))
}

/// Where `x` goes in the sorted `s`: after every edge that it does not sort before.
pub open spec fn insert_pos(s: Seq<EdgeView>, x: EdgeView) -> int
    decreases s.len(),
{
    if s.len() == 0 || edge_before(x, s[0]) {
        0
    } else {
        1 + insert_pos(s.drop_first(), x)
    }
}

/// `s` sorted by name and identity; edges that compare equal keep their order.
pub open spec fn sort_edges(s: Seq<EdgeView>) -> Seq<EdgeView>
    decreases s.len(),
{
    if s.len() == 0 {
        seq![]
    } else {
        let r = sort_edges(s.drop_last());
        r.insert(insert_pos(r, s.last()), s.last())
    }
}

proof fn lemma_edge_before_transitive(a: EdgeView, b: EdgeView, c: EdgeView)
    requires
        edge_before(a, b),
        edge_before(b, c),
    ensures
        edge_before(a, c),
{
    if text_lt(a.0, b.0) && text_lt(b.0, c.0) {
        lemma_text_lt_transitive(a.0, b.0, c.0);
    } else if a.0 == b.0 && b.0 == c.0 {
        lemma_text_lt_transitive(a.1, b.1, c.1);
    }
}

proof fn lemma_edge_before_irreflexive(a: EdgeView)
    ensures
        !edge_before(a, a),
{
    lemma_text_lt_irreflexive(a.0);
    lemma_text_lt_irreflexive(a.1);
}

proof fn lemma_insert_pos(s: Seq<EdgeView>, x: EdgeView)
    ensures
        0 <= insert_pos(s, x) <= s.len(),
        forall|k: int| 0 <= k < insert_pos(s, x) ==> !edge_before(x, #[trigger] s[k]),
        insert_pos(s, x) < s.len() ==> edge_before(x, s[insert_pos(s, x)]),
    decreases s.len(),
{
    if s.len() > 0 && !edge_before(x, s[0]) {
        let t = s.drop_first();
        lemma_insert_pos(t, x);
        assert forall|k: int| 0 <= k < insert_pos(s, x) implies !edge_before(x, #[trigger] s[k]) by {
            if k > 0 {
                assert(s[k] == t[k - 1]);
            }
        }
    }
}

/// `s` is in order of name, then identity.
pub open spec fn edges_sorted(s: Seq<EdgeView>) -> bool {
    forall|i: int, j: int| 0 <= i < j < s.len() ==> !edge_before(#[trigger] s[j], #[trigger] s[i])
}

/// Sorting the edges keeps every edge and puts them in order of name, then identity.
pub proof fn lemma_sort_edges(s: Seq<EdgeView>)
    ensures
        sort_edges(s).to_multiset() == s.to_multiset(),
        edges_sorted(sort_edges(s)),
    decreases s.len(),
{
    broadcast use vstd::seq_lib::group_to_multiset_ensures;

    if s.len() > 0 {
        let r = sort_edges(s.drop_last());
        let x = s.last();
        lemma_sort_edges(s.drop_last());
        lemma_insert_pos(r, x);
        let p = insert_pos(r, x);
        let out = r.insert(p, x);
        vstd::seq_lib::to_multiset_insert(r, p, x);
        assert(s =~= s.drop_last().push(x));
        assert forall|i: int, j: int| 0 <= i < j < out.len() implies !edge_before(
            #[trigger] out[j],
            #[trigger] out[i],
        ) by {
            if i == p && p < r.len() {
                if edge_before(out[j], x) {
                    if j - 1 > p {
                        assert(!edge_before(r[j - 1], r[p]));
                    } else {
                        lemma_edge_before_irreflexive(r[p]);
                    }
                    lemma_edge_before_transitive(out[j], x, r[p]);
                }
            } else if j == p {
                assert(!edge_before(x, r[i]));
            }
        }
    }
}

/// The number of packages not visited yet.
pub open spec fn unvisited(v: Seq<bool>) -> nat
    decreases v.len(),
{
    if v.len() == 0 {
        0
    } else {
        unvisited(v.drop_last()) + if v.last() {
            0nat
        } else {
            1nat
        }
    }
}

/// The packages visited in `a` or in `b`, over the length of `b`.
pub open spec fn merge_visited(a: Seq<bool>, b: Seq<bool>) -> Seq<bool> {
    Seq::new(b.len(), |i: int| b[i] || (i < a.len() && a[i]))
}

/// The label of a dependency: the display name, then the dependency name in
/// parentheses where it differs from it, then the identity in brackets where
/// that differs from it.
pub open spec fn label_text(dep_name: Seq<char>, display: Seq<char>, id: Seq<char>) -> Seq<char> {
    display + (if dep_name != display {
        " ("@ + dep_name + ")"@
    } else {
        seq![]
    }) + (if id != display {
        " ["@ + id + "]"@
    } else {
        seq![]
    })
}

/// The line of a dependency.
pub open spec fn dep_line(prefix: Seq<char>, last: bool, label: Seq<char>, shared: bool) -> Seq<
    char,
> {
    prefix + branch(last) + "dep"@ + " "@ + label + if shared {
        " "@ + "(shared)"@
    } else {
        seq![]
    }
}

proof fn lemma_unvisited_update(v: Seq<bool>, t: int)
    requires
        0 <= t < v.len(),
        !v[t],
    ensures
        unvisited(v.update(t, true)) + 1 == unvisited(v),
    decreases v.len(),
{
    let u = v.update(t, true);
    if t == v.len() - 1 {
        assert(u.drop_last() =~= v.drop_last());
    } else {
        assert(u.drop_last() =~= v.drop_last().update(t, true));
        lemma_unvisited_update(v.drop_last(), t);
    }
}

proof fn lemma_unvisited_mono(a: Seq<bool>, b: Seq<bool>)
    requires
        a.len() == b.len(),
        forall|i: int| 0 <= i < a.len() && a[i] ==> b[i],
    ensures
        unvisited(b) <= unvisited(a),
    decreases a.len(),
{
    if a.len() > 0 {
        lemma_unvisited_mono(a.drop_last(), b.drop_last());
    }
}

proof fn lemma_unvisited_merge(v: Seq<bool>)
    ensures
        forall|a: Seq<bool>| #[trigger] unvisited(merge_visited(a, v)) <= unvisited(v),
{
    assert forall|a: Seq<bool>| #[trigger] unvisited(merge_visited(a, v)) <= unvisited(v) by {
        lemma_unvisited_mono(v, merge_visited(a, v));
    }
}

/// The lines below package `node` from its `k`-th sorted edge on, each line
/// starting with `prefix`, and the visited packages afterwards.
pub open spec fn walk(g: &PackageGraph, node: int, k: int, prefix: Seq<char>, visited: Seq<bool>) -> (
    Seq<Seq<char>>,
    Seq<bool>,
)
    decreases unvisited(visited), sort_edges(edge_views(g, node)).len() - k,
    via walk_decreases
{
    let es = sort_edges(edge_views(g, node));
    if k < 0 || k >= es.len() || !(0 <= es[k].2 < visited.len()) {
        (seq![], visited)
    } else {
        let e = es[k];
        let t = e.2;
        let last = k == es.len() - 1;
        let seen = visited[t];
        let line = dep_line(
            prefix,
            last,
            label_text(e.0, g.packages@[t].display_name@, g.packages@[t].id@),
            seen,
        );
        if seen {
            let rest = walk(g, node, k + 1, prefix, visited);
            (seq![line] + rest.0, rest.1)
        } else {
            let v1 = visited.update(t, true);
            let sub = walk(g, t, 0, prefix + continuation(last), v1);
            let rest = walk(g, node, k + 1, prefix, merge_visited(sub.1, v1));
            (seq![line] + sub.0 + rest.0, rest.1)
        }
    }
}

#[via_fn]
proof fn walk_decreases(g: &PackageGraph, node: int, k: int, prefix: Seq<char>, visited: Seq<bool>) {
    let es = sort_edges(edge_views(g, node));
    if 0 <= k < es.len() && 0 <= es[k].2 < visited.len() && !visited[es[k].2] {
        let v1 = visited.update(es[k].2, true);
        lemma_unvisited_update(visited, es[k].2);
        lemma_unvisited_merge(v1);
    }
}

/// A dependency edge ready for sorting.
struct EdgeRef {
    name: String,
    id: String,
    target: usize,
}

spec fn edge_ref_view(e: EdgeRef) -> EdgeView {
    (e.name@, e.id@, e.target as int)
}

spec fn edge_ref_views(s: Seq<EdgeRef>) -> Seq<EdgeView> {
    s.map_values(|e: EdgeRef| edge_ref_view(e))
}

fn edge_ref_before(a: &EdgeRef, b: &EdgeRef) -> (r: bool)
    ensures
        r == edge_before(edge_ref_view(*a), edge_ref_view(*b)),
{
    name_lt(&a.name, &b.name) || (a.name == b.name && name_lt(&a.id, &b.id))
}

/// The edges out of `node`, sorted by name and then identity.
fn sorted_edges(g: &PackageGraph, node: usize) -> (r: Vec<EdgeRef>)
    requires
        g.well_formed(),
        node < g.packages.len(),
    ensures
        edge_ref_views(r@) == sort_edges(edge_views(g, node as int)),
        forall|i: int| 0 <= i < r.len() ==> (#[trigger] r@[i]).target < g.packages.len(),
{
    let deps = &g.packages[node].deps;
    let ghost ev = edge_views(g, node as int);
    let mut out: Vec<EdgeRef> = Vec::new();
    let mut i: usize = 0;
    proof {
        assert(edge_ref_views(out@) =~= sort_edges(ev.take(0)));
    }
    while i < deps.len()
        invariant
            g.well_formed(),
            node < g.packages.len(),
            deps == &g.packages@[node as int].deps,
            ev == edge_views(g, node as int),
            i <= deps.len(),
            edge_ref_views(out@) == sort_edges(ev.take(i as int)),
            forall|j: int| 0 <= j < out.len() ==> (#[trigger] out@[j]).target < g.packages.len(),
        decreases deps.len() - i,
    {
        let t = deps[i].target;
        assert(g.packages@[node as int].deps@[i as int].target < g.packages.len());
        let x = EdgeRef { name: deps[i].name.clone(), id: g.packages[t].id.clone(), target: t };
        let ghost xv = edge_ref_view(x);
        assert(xv == ev[i as int]);
        let ghost sv = edge_ref_views(out@);
        let mut p: usize = 0;
        assert(sv.skip(0) =~= sv);
        while p < out.len() && !edge_ref_before(&x, &out[p])
            invariant
                0 <= p <= out.len(),
                sv == edge_ref_views(out@),
                xv == edge_ref_view(x),
                insert_pos(sv, xv) == p + insert_pos(sv.skip(p as int), xv),
            decreases out.len() - p,
        {
            assert(sv.skip(p as int).drop_first() =~= sv.skip(p + 1));
            p = p + 1;
        }
        proof {
            if p < out.len() {
                assert(sv.skip(p as int)[0] == sv[p as int]);
            }
        }
        out.insert(p, x);
        proof {
            let next = ev.take(i + 1);
            assert(next.drop_last() =~= ev.take(i as int));
            assert(edge_ref_views(out@) =~= sv.insert(p as int, xv));
        }
        i = i + 1;
    }
    proof {
        assert(ev.take(deps.len() as int) =~= ev);
    }
    out
}

/// The label of the dependency named `dep_name` on `package`: its display
/// name, then ` (dep_name)` where that differs from it, then ` [id]` where
/// the identity differs from it.
pub fn render_dependency_label(dep_name: &String, package: &PackageNode) -> (r: String)
    ensures
        r@ == label_text(dep_name@, package.display_name@, package.id@),
{
    let display = &package.display_name;
    let mut label = display.clone();
    let ghost a;
    if *dep_name != *display {
        label.append(" (");
        label.append(dep_name.as_str());
        label.append(")");
        proof {
            a = display@ + (" ("@ + dep_name@ + ")"@);
        }
    } else {
        proof {
            a = display@ + Seq::<char>::empty();
        }
    }
    assert(label@ =~= a);
    if package.id != *display {
        label.append(" [");
        label.append(package.id.as_str());
        label.append("]");
        assert(label@ =~= a + (" ["@ + package.id@ + "]"@));
    } else {
        assert(label@ =~= a + Seq::<char>::empty());
    }
    label
}

/// The line of a dependency edge: `prefix`, the branch marker, `dep`, the
/// label, and `(shared)` where the package was met before.
fn dependency_line(
    prefix: &String,
    last: bool,
    label: &String,
    shared: bool,
    color: bool,
) -> (r: String)
    ensures
        displays(r@, dep_line(prefix@, last, label@, shared), color),
{
    let mut line = prefix.clone();
    proof {
        lemma_displays_self(line@, color);
    }
    let b = if last {
        "`-- "
    } else {
        "|-- "
    };
    let ghost so_far0 = prefix@;
    append_text(&mut line, Ghost(so_far0), b, color);
    let ghost so_far1 = so_far0 + branch(last);
    append_painted(&mut line, Ghost(so_far1), "dep", Tone::Kind, color);
    append_text(&mut line, Ghost(so_far1 + "dep"@), " ", color);
    append_painted(&mut line, Ghost(so_far1 + "dep"@ + " "@), label.as_str(), Tone::Entry, color);
    let ghost so_far2 = so_far1 + "dep"@ + " "@ + label@;
    if shared {
        append_text(&mut line, Ghost(so_far2), " ", color);
        append_painted(&mut line, Ghost(so_far2 + " "@), "(shared)", Tone::Faint, color);
        assert(so_far2 + " "@ + "(shared)"@ =~= dep_line(prefix@, last, label@, shared));
    } else {
        assert(so_far2 =~= dep_line(prefix@, last, label@, shared));
    }
    line
}

/// Renders the dependencies of `node` below `prefix`, depth first in sorted
/// order. A package met for the first time is marked visited and expanded;
/// one met again is marked `(shared)` and not expanded.
fn render_dependency_tree(
    g: &PackageGraph,
    node: usize,
    prefix: &String,
    visited: &mut Vec<bool>,
    out: &mut Vec<String>,
    Ghost(lines): Ghost<Seq<Seq<char>>>,
    color: bool,
)
    requires
        g.well_formed(),
        node < g.packages.len(),
        old(visited).len() == g.packages.len(),
        displays_lines(old(out)@, lines, color),
    ensures
        final(visited)@ == walk(g, node as int, 0, prefix@, old(visited)@).1,
        displays_lines(final(out)@, lines + walk(g, node as int, 0, prefix@, old(visited)@).0, color),
        final(visited).len() == g.packages.len(),
        forall|i: int| 0 <= i < old(visited).len() && old(visited)@[i] ==> final(visited)@[i],
    decreases unvisited(visited@),
{
    let edges = sorted_edges(g, node);
    let ghost es = sort_edges(edge_views(g, node as int));
    let ghost v0 = visited@;
    let ghost whole = walk(g, node as int, 0, prefix@, v0);
    let ghost emitted = Seq::<Seq<char>>::empty();
    assert(lines + emitted =~= lines);
    let mut k: usize = 0;
    while k < edges.len()
        invariant
            g.well_formed(),
            edge_ref_views(edges@) == es,
            es == sort_edges(edge_views(g, node as int)),
            forall|i: int| 0 <= i < edges.len() ==> (#[trigger] edges@[i]).target < g.packages.len(),
            whole == walk(g, node as int, 0, prefix@, v0),
            v0 == old(visited)@,
            v0.len() == g.packages.len(),
            k <= edges.len(),
            visited.len() == g.packages.len(),
            forall|i: int| 0 <= i < v0.len() && v0[i] ==> visited@[i],
            whole.0 == emitted + walk(g, node as int, k as int, prefix@, visited@).0,
            whole.1 == walk(g, node as int, k as int, prefix@, visited@).1,
            displays_lines(out@, lines + emitted, color),
        decreases edges.len() - k,
    {
        let edge = &edges[k];
        let t = edge.target;
        let last = k + 1 == edges.len();
        let already_seen = visited[t];
        let ghost vk = visited@;
        let ghost step = walk(g, node as int, k as int, prefix@, vk);
        assert(es[k as int] == edge_ref_view(*edge));
        let label = render_dependency_label(&edge.name, &g.packages[t]);
        let line = dependency_line(prefix, last, &label, already_seen, color);
        let ghost plain = dep_line(prefix@, last, label@, already_seen);
        push_line(out, Ghost(lines + emitted), line, Ghost(plain), color);
        proof {
            emitted = emitted.push(plain);
        }
        if !already_seen {
            visited.set(t, true);
            let ghost v1 = visited@;
            proof {
                lemma_unvisited_update(vk, t as int);
                lemma_unvisited_mono(v0, vk);
                assert(unvisited(v1) < unvisited(v0));
                assert(es.len() == edges.len());
            }
            let mut next_prefix = prefix.clone();
            next_prefix.append(if last {
                "    "
            } else {
                "|   "
            });
            assert(next_prefix@ == prefix@ + continuation(last));
            let ghost sub = walk(g, t as int, 0, next_prefix@, v1);
            render_dependency_tree(g, t, &next_prefix, visited, out, Ghost(lines + emitted), color);
            proof {
                assert(merge_visited(sub.1, v1) =~= sub.1);
                assert(lines + emitted + sub.0 =~= lines + (emitted + sub.0));
                emitted = emitted + sub.0;
                assert(step.0 =~= seq![plain] + sub.0 + walk(g, node as int, k + 1, prefix@, visited@).0);
            }
        } else {
            proof {
                assert(step.0 =~= seq![plain] + walk(g, node as int, k + 1, prefix@, visited@).0);
            }
        }
        assert(whole.0 =~= emitted + walk(g, node as int, k + 1, prefix@, visited@).0);
        k = k + 1;
    }
    assert(emitted + Seq::<Seq<char>>::empty() =~= emitted);
}

/// Before the walk only the root is visited.
pub open spec fn initial_visited(g: &PackageGraph) -> Seq<bool> {
    Seq::new(g.packages.len() as nat, |i: int| i == g.root)
}

/// The line that stands for an empty dependency list.
pub open spec fn no_dependencies_line() -> Seq<char> {
    branch(true) + "(no dependencies)"@
}

/// The lines of the dependency graph: the header, then either the line for
/// no dependencies or the walk from the root.
pub open spec fn dependency_graph_lines(g: &PackageGraph, relative: Seq<char>) -> Seq<Seq<char>> {
    let root = g.packages@[g.root as int];
    seq![header_text("deps"@, root.display_name@, relative)] + if root.deps.len() == 0 {
        seq![no_dependencies_line()]
    } else {
        walk(g, g.root as int, 0, seq![], initial_visited(g)).0
    }
}

/// The lines of the dependency graph of `graph`: a header naming the root
/// package (with `relative` unless empty), then each dependency, depth first
/// in order of name and identity, expanded at its first occurrence and marked
/// `(shared)` at later ones; or a single `(no dependencies)` line.
pub fn render_dependency_graph(graph: &PackageGraph, relative: &str, color: bool) -> (r: Vec<
    String,
>)
    requires
        graph.well_formed(),
    ensures
        displays_lines(r@, dependency_graph_lines(graph, relative@), color),
        graph.packages@[graph.root as int].deps.len() == 0 ==> r.len() == 2 && displays(
            r@[1]@,
            no_dependencies_line(),
            color,
        ),
{
    let root = &graph.packages[graph.root];
    let mut out: Vec<String> = Vec::new();
    let header = render_header("deps", root.display_name.as_str(), relative, color);
    let ghost h = header_text("deps"@, root.display_name@, relative@);
    let ghost none = Seq::<Seq<char>>::empty();
    push_line(&mut out, Ghost(none), header, Ghost(h), color);
    let ghost head = seq![h];
    assert(none.push(h) =~= head);
    let mut visited: Vec<bool> = Vec::new();
    let mut i: usize = 0;
    while i < graph.packages.len()
        invariant
            i <= graph.packages.len(),
            visited@ =~= initial_visited(graph).take(i as int),
        decreases graph.packages.len() - i,
    {
        visited.push(i == graph.root);
        i = i + 1;
    }
    assert(visited@ =~= initial_visited(graph));
    if root.deps.len() == 0 {
        let mut line = "`-- ".to_owned();
        proof {
            lemma_displays_self(line@, color);
        }
        append_painted(&mut line, Ghost(branch(true)), "(no dependencies)", Tone::Faint, color);
        push_line(&mut out, Ghost(head), line, Ghost(no_dependencies_line()), color);
        assert(head.push(no_dependencies_line()) =~= dependency_graph_lines(graph, relative@));
    } else {
        let prefix = String::new();
        assert(prefix@ =~= Seq::<char>::empty());
        render_dependency_tree(graph, graph.root, &prefix, &mut visited, &mut out, Ghost(head), color);
    }
    out
}

} // verus!
