//! Ordinal order on names, and a stable sort by name.

use vstd::prelude::*;

verus! {

/// Ordinal (code point by code point) order on strings: `a` comes strictly
/// before `b`.
pub open spec fn text_lt(a: Seq<char>, b: Seq<char>) -> bool
    decreases a.len(),
{
    if a.len() == 0 {
        b.len() > 0
    } else if b.len() == 0 {
        false
    } else if a[0] != b[0] {
        (a[0] as u32) < (b[0] as u32)
    } else {
        text_lt(a.drop_first(), b.drop_first())
    }
}

/// The ordinal order is transitive.
pub proof fn lemma_text_lt_transitive(a: Seq<char>, b: Seq<char>, c: Seq<char>)
    requires
        text_lt(a, b),
        text_lt(b, c),
    ensures
        text_lt(a, c),
    decreases a.len(),
{
    if a.len() > 0 && b.len() > 0 && c.len() > 0 && a[0] == b[0] && b[0] == c[0] {
        lemma_text_lt_transitive(a.drop_first(), b.drop_first(), c.drop_first());
    }
}

/// The ordinal order is irreflexive.
pub proof fn lemma_text_lt_irreflexive(a: Seq<char>)
    ensures
        !text_lt(a, a),
    decreases a.len(),
{
    if a.len() > 0 {
        lemma_text_lt_irreflexive(a.drop_first());
    }
}

/// Whether `a` comes strictly before `b` in ordinal order.
pub fn name_lt(a: &String, b: &String) -> (r: bool)
    ensures
        r == text_lt(a@, b@),
{
    let sa = a.as_str();
    let sb = b.as_str();
    let la = sa.unicode_len();
    let lb = sb.unicode_len();
    let mut i: usize = 0;
    assert(a@.skip(0) =~= a@ && b@.skip(0) =~= b@);
    while i < la && i < lb
        invariant
            la == a@.len(),
            lb == b@.len(),
            sa@ == a@,
            sb@ == b@,
            0 <= i <= la,
            i <= lb,
            text_lt(a@, b@) == text_lt(a@.skip(i as int), b@.skip(i as int)),
        decreases la - i,
    {
        let ca = sa.get_char(i);
        let cb = sb.get_char(i);
        let ghost x = a@.skip(i as int);
        let ghost y = b@.skip(i as int);
        assert(x[0] == ca && y[0] == cb);
        if ca != cb {
            return (ca as u32) < (cb as u32);
        }
        assert(x.drop_first() =~= a@.skip(i + 1));
        assert(y.drop_first() =~= b@.skip(i + 1));
        i = i + 1;
    }
    proof {
        let x = a@.skip(i as int);
        let y = b@.skip(i as int);
        assert(x.len() == 0 || y.len() == 0);
    }
    la < lb
}

/// A value that carries a name to sort by.
pub trait Named {
    /// The name, as text.
    spec fn name_view(&self) -> Seq<char>;

    /// The name.
    fn name_ref(&self) -> (r: &String)
        ensures
            r@ == self.name_view(),
    ;
}

/// `s` is in ordinal order of names.
pub open spec fn sorted_by_name<T: Named>(s: Seq<T>) -> bool {
    forall|i: int, j: int|
        0 <= i < j < s.len() ==> !text_lt(#[trigger] s[j].name_view(), #[trigger] s[i].name_view())
}

/// Sorts `items` by name; items with equal names keep their order.
pub fn sort_by_name<T: Named>(items: Vec<T>) -> (r: Vec<T>)
    ensures
        r@.to_multiset() == items@.to_multiset(),
        sorted_by_name(r@),
{
    let mut rest = items;
    let mut out: Vec<T> = Vec::new();
    let ghost all = rest@;
    let mut taken: usize = 0;
    let total = rest.len();
    proof {
        broadcast use vstd::seq_lib::group_to_multiset_ensures;
        assert(all.take(0) =~= out@);
        assert(all.skip(0) =~= all);
    }
    while rest.len() > 0
        invariant
            taken + rest.len() == all.len(),
            all.len() == total,
            rest@ == all.skip(taken as int),
            taken <= all.len(),
            out@.to_multiset() == all.take(taken as int).to_multiset(),
            sorted_by_name(out@),
        decreases rest.len(),
    {
        let x = rest.remove(0);
        assert(x == all[taken as int]);
        assert(rest@ =~= all.skip(taken + 1));
        let mut p: usize = 0;
        while p < out.len() && !name_lt(x.name_ref(), out[p].name_ref())
            invariant
                0 <= p <= out.len(),
                forall|k: int| 0 <= k < p ==> !text_lt(x.name_view(), #[trigger] out@[k].name_view()),
            decreases out.len() - p,
        {
            p = p + 1;
        }
        let ghost before = out@;
        out.insert(p, x);
        proof {
            vstd::seq_lib::to_multiset_insert(before, p as int, x);
            assert(all.take(taken + 1) =~= all.take(taken as int).push(x));
            all.take(taken as int).to_multiset_ensures();
            assert forall|i: int, j: int| 0 <= i < j < out@.len() implies !text_lt(
                #[trigger] out@[j].name_view(),
                #[trigger] out@[i].name_view(),
            ) by {
                if p < out@.len() - 1 && i == p as int && j > i {
                    let q = before[p as int];
                    if text_lt(out@[j].name_view(), x.name_view()) {
                        if j - 1 > p {
                            assert(!text_lt(before[j - 1].name_view(), q.name_view()));
                        } else {
                            lemma_text_lt_irreflexive(q.name_view());
                        }
                        lemma_text_lt_transitive(
                            out@[j].name_view(),
                            x.name_view(),
                            q.name_view(),
                        );
                    }
                }
            }
        }
        taken = taken + 1;
    }
    proof {
        assert(all.take(all.len() as int) =~= all);
    }
    out
}

} // verus!
