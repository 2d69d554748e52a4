//! Laws of the staging sort: it permutes its input, keeps its length, and is
//! stable — elements that the comparator deems equal keep their arrival order.

use vstd::prelude::*;

use crate::keys::KeyValSpec;
use crate::keys::Rel;
use crate::keys::SortKey;
use crate::keys::Step;
use crate::keys::bytes_cmp;
use crate::keys::chain_cmp;
use crate::keys::chain_cmp_from;
use crate::keys::key_cmp;
use crate::keys::step_cmp;
use crate::sorting::insert_pos;
use crate::sorting::insert_sorted;
use crate::sorting::lemma_insert_pos_props;
use crate::sorting::lemma_insert_sorted_at;
use crate::sorting::sort_seq;

verus! {

/// `p` explains `r` as a rearrangement of `s`: it maps each output position
/// to the input position it came from, and on every pair of output elements
/// that `cmp` deems equal the input positions appear in increasing order.
pub open spec fn stable_arrangement<A>(
    cmp: spec_fn(A, A) -> Rel,
    s: Seq<A>,
    r: Seq<A>,
    p: Seq<int>,
) -> bool {
    &&& p.len() == r.len()
    &&& (forall|k: int| 0 <= k < p.len() ==> 0 <= (#[trigger] p[k]) < s.len() && r[k] == s[p[k]])
    &&& (forall|u: int, v: int|
        0 <= u < v < p.len() && cmp(r[u], r[v]) == Rel::Equal ==> (#[trigger] p[u]) < (
        #[trigger] p[v]))
}

/// Each element of `s` tagged with its position.
spec fn tag_seq<A>(s: Seq<A>) -> Seq<(int, A)> {
    Seq::new(s.len(), |i: int| (i, s[i]))
}

/// The elements of a tagged sequence, tags dropped.
spec fn untag<A>(t: Seq<(int, A)>) -> Seq<A> {
    Seq::new(t.len(), |i: int| t[i].1)
}

/// The comparator lifted to tagged elements, ignoring the tags.
spec fn lift_cmp<A>(cmp: spec_fn(A, A) -> Rel) -> spec_fn((int, A), (int, A)) -> Rel {
    |x: (int, A), y: (int, A)| cmp(x.1, y.1)
}

/// Every tag points back into `s` at its own element.
spec fn tagged_from<A>(s: Seq<A>, t: Seq<(int, A)>) -> bool {
    forall|k: int| 0 <= k < t.len() ==> 0 <= (#[trigger] t[k]).0 < s.len() && t[k].1 == s[t[k].0]
}

/// Every tag is below `n`.
spec fn tags_below<A>(t: Seq<(int, A)>, n: int) -> bool {
    forall|k: int| 0 <= k < t.len() ==> (#[trigger] t[k]).0 < n
}

/// Tags of equal-comparing elements appear in increasing order.
spec fn stable_tagged<A>(cmp: spec_fn(A, A) -> Rel, t: Seq<(int, A)>) -> bool {
    forall|u: int, v: int|
        0 <= u < v < t.len() && cmp((#[trigger] t[u]).1, (#[trigger] t[v]).1) == Rel::Equal ==> t[u].0
            < t[v].0
}

/// Inserting a freshly tagged element keeps the tagged invariants.
proof fn lemma_insert_tagged<A>(
    cmp: spec_fn(A, A) -> Rel,
    s: Seq<A>,
    t: Seq<(int, A)>,
    n: int,
    x: A,
)
    requires
        stable_tagged(cmp, t),
        tags_below(t, n),
        tagged_from(s, t),
        0 <= n < s.len(),
        x == s[n],
    ensures
        insert_sorted(lift_cmp(cmp), t, (n, x)).len() == t.len() + 1,
        stable_tagged(cmp, insert_sorted(lift_cmp(cmp), t, (n, x))),
        tags_below(insert_sorted(lift_cmp(cmp), t, (n, x)), n + 1),
        tagged_from(s, insert_sorted(lift_cmp(cmp), t, (n, x))),
{
    let lc = lift_cmp(cmp);
    let pr = (n, x);
    let m: int = insert_pos(lc, t, pr);
    lemma_insert_pos_props(lc, t, pr);
    lemma_insert_sorted_at(lc, t, pr, m);
    let r = t.insert(m, pr);
    assert(insert_sorted(lc, t, pr) == r);
    assert(r.len() == t.len() + 1);
    assert forall|k: int| 0 <= k < r.len() implies 0 <= (#[trigger] r[k]).0 < s.len() && r[k].1
        == s[r[k].0] && r[k].0 < n + 1 by {
        if k < m {
            assert(r[k] == t[k]);
        } else if k == m {
            assert(r[k] == pr);
        } else {
            assert(r[k] == t[k - 1]);
        }
    }
    assert forall|u: int, v: int|
        0 <= u < v < r.len() && cmp((#[trigger] r[u]).1, (#[trigger] r[v]).1)
            == Rel::Equal implies r[u].0 < r[v].0 by {
        if u == m {
            assert(r[u] == pr);
            assert(r[v] == t[v - 1]);
            assert(lc(pr, t[v - 1]) == Rel::Less);
            assert(cmp(x, t[v - 1].1) == Rel::Less);
        } else if v == m {
            assert(r[v] == pr);
            let u0: int = if u < m {
                u
            } else {
                u - 1
            };
            assert(r[u] == t[u0]);
            assert(t[u0].0 < n);
        } else {
            let u0: int = if u < m {
                u
            } else {
                u - 1
            };
            let v0: int = if v < m {
                v
            } else {
                v - 1
            };
            assert(r[u] == t[u0]);
            assert(r[v] == t[v0]);
            assert(0 <= u0 < v0 < t.len());
        }
    }
}

/// The sorted tagged sequence keeps every tagged invariant.
proof fn lemma_sort_tagged<A>(cmp: spec_fn(A, A) -> Rel, s: Seq<A>)
    ensures
        sort_seq(lift_cmp(cmp), tag_seq(s)).len() == s.len(),
        stable_tagged(cmp, sort_seq(lift_cmp(cmp), tag_seq(s))),
        tags_below(sort_seq(lift_cmp(cmp), tag_seq(s)), s.len() as int),
        tagged_from(s, sort_seq(lift_cmp(cmp), tag_seq(s))),
    decreases s.len(),
{
    let lc = lift_cmp(cmp);
    if s.len() == 0 {
    } else {
        let prev = s.drop_last();
        lemma_sort_tagged(cmp, prev);
        assert(tag_seq(s).drop_last() =~= tag_seq(prev));
        let t0 = sort_seq(lc, tag_seq(prev));
        assert forall|k: int| 0 <= k < t0.len() implies 0 <= (#[trigger] t0[k]).0 < s.len()
            && t0[k].1 == s[t0[k].0] by {
            assert(prev[t0[k].0] == s[t0[k].0]);
        }
        lemma_insert_tagged(cmp, s, t0, s.len() as int - 1, s.last());
        assert(tag_seq(s).last() == (s.len() as int - 1, s.last()));
    }
}

/// Dropping the tags commutes with one insertion.
proof fn lemma_insert_untag<A>(cmp: spec_fn(A, A) -> Rel, t: Seq<(int, A)>, pr: (int, A))
    ensures
        untag(insert_sorted(lift_cmp(cmp), t, pr)) == insert_sorted(cmp, untag(t), pr.1),
    decreases t.len(),
{
    let lc = lift_cmp(cmp);
    if t.len() == 0 {
        assert(untag(insert_sorted(lc, t, pr)) =~= insert_sorted(cmp, untag(t), pr.1));
    } else {
        assert(untag(t).last() == t.last().1);
        if cmp(pr.1, t.last().1) == Rel::Less {
            lemma_insert_untag(cmp, t.drop_last(), pr);
            assert(untag(t.drop_last()) =~= untag(t).drop_last());
            assert(untag(insert_sorted(lc, t.drop_last(), pr).push(t.last())) =~= untag(
                insert_sorted(lc, t.drop_last(), pr),
            ).push(t.last().1));
        } else {
            assert(untag(t.push(pr)) =~= untag(t).push(pr.1));
        }
    }
}

/// Dropping the tags commutes with the whole sort.
proof fn lemma_sort_untag<A>(cmp: spec_fn(A, A) -> Rel, s: Seq<A>)
    ensures
        untag(sort_seq(lift_cmp(cmp), tag_seq(s))) == sort_seq(cmp, s),
    decreases s.len(),
{
    let lc = lift_cmp(cmp);
    if s.len() == 0 {
        assert(untag(sort_seq(lc, tag_seq(s))) =~= sort_seq(cmp, s));
    } else {
        lemma_sort_untag(cmp, s.drop_last());
        assert(tag_seq(s).drop_last() =~= tag_seq(s.drop_last()));
        lemma_insert_untag(cmp, sort_seq(lc, tag_seq(s.drop_last())), (s.len() as int - 1, s.last()));
        assert(tag_seq(s).last() == (s.len() as int - 1, s.last()));
    }
}

/// Stability: for every input and comparator, the stable sort rearranges the
/// input by a position map that is strictly increasing on each pair of output
/// elements the comparator deems equal — equal elements keep arrival order.
pub proof fn lemma_sort_seq_stable<A>(cmp: spec_fn(A, A) -> Rel, s: Seq<A>)
    ensures
        exists|p: Seq<int>| stable_arrangement(cmp, s, sort_seq(cmp, s), p),
{
    lemma_sort_tagged(cmp, s);
    lemma_sort_untag(cmp, s);
    let t = sort_seq(lift_cmp(cmp), tag_seq(s));
    let p = Seq::new(t.len(), |i: int| t[i].0);
    let r = sort_seq(cmp, s);
    assert(r == untag(t));
    assert forall|k: int| 0 <= k < p.len() implies 0 <= (#[trigger] p[k]) < s.len() && r[k]
        == s[p[k]] by {
        assert(r[k] == t[k].1);
    }
    assert forall|u: int, v: int|
        0 <= u < v < p.len() && cmp(r[u], r[v]) == Rel::Equal implies (#[trigger] p[u]) < (
    #[trigger] p[v]) by {
        assert(r[u] == t[u].1);
        assert(r[v] == t[v].1);
    }
    assert(stable_arrangement(cmp, s, r, p));
}

/// One insertion adds exactly the inserted element.
pub proof fn lemma_insert_sorted_multiset<A>(cmp: spec_fn(A, A) -> Rel, s: Seq<A>, x: A)
    ensures
        insert_sorted(cmp, s, x).to_multiset() == s.to_multiset().insert(x),
{
    let m: int = insert_pos(cmp, s, x);
    lemma_insert_pos_props(cmp, s, x);
    lemma_insert_sorted_at(cmp, s, x, m);
    vstd::seq_lib::to_multiset_insert(s, m, x);
}

/// The sort permutes its input: the output holds exactly the input elements.
pub proof fn lemma_sort_seq_multiset<A>(cmp: spec_fn(A, A) -> Rel, s: Seq<A>)
    ensures
        sort_seq(cmp, s).to_multiset() == s.to_multiset(),
    decreases s.len(),
{
    broadcast use vstd::seq_lib::to_multiset_build;

    if s.len() == 0 {
        assert(sort_seq(cmp, s) =~= s);
    } else {
        lemma_sort_seq_multiset(cmp, s.drop_last());
        lemma_insert_sorted_multiset(cmp, sort_seq(cmp, s.drop_last()), s.last());
        assert(s =~= s.drop_last().push(s.last()));
    }
}

/// One insertion grows the sequence by exactly one element.
pub proof fn lemma_insert_sorted_len<A>(cmp: spec_fn(A, A) -> Rel, s: Seq<A>, x: A)
    ensures
        insert_sorted(cmp, s, x).len() == s.len() + 1,
{
    let m: int = insert_pos(cmp, s, x);
    lemma_insert_pos_props(cmp, s, x);
    lemma_insert_sorted_at(cmp, s, x, m);
}

/// The sort keeps the length of its input.
pub proof fn lemma_sort_seq_len<A>(cmp: spec_fn(A, A) -> Rel, s: Seq<A>)
    ensures
        sort_seq(cmp, s).len() == s.len(),
    decreases s.len(),
{
    if s.len() == 0 {
    } else {
        lemma_sort_seq_len(cmp, s.drop_last());
        lemma_insert_sorted_len(cmp, sort_seq(cmp, s.drop_last()), s.last());
    }
}

proof fn lemma_chain_cmp_from_push<T, K: SortKey<T>>(
    c: Seq<Step<K>>,
    s: Step<K>,
    i: int,
    a: T,
    b: T,
)
    requires
        0 <= i <= c.len(),
    ensures
        chain_cmp_from(c.push(s), i, a, b) == (if chain_cmp_from(c, i, a, b) == Rel::Equal {
            step_cmp(s, a, b)
        } else {
            chain_cmp_from(c, i, a, b)
        }),
    decreases c.len() - i,
{
    if i == c.len() {
        assert(c.push(s)[i] == s);
    } else {
        assert(c.push(s)[i] == c[i]);
        lemma_chain_cmp_from_push(c, s, i + 1, a, b);
    }
}

/// Tie-break composition: a key appended to the chain decides only between
/// elements that every earlier key leaves equal, and a decision by an earlier
/// key stands untouched — in particular, appending a descending key inverts
/// nothing but its own contribution.
pub proof fn lemma_chain_cmp_push<T, K: SortKey<T>>(c: Seq<Step<K>>, s: Step<K>, a: T, b: T)
    ensures
        chain_cmp(c, a, b) != Rel::Equal ==> chain_cmp(c.push(s), a, b) == chain_cmp(c, a, b),
        chain_cmp(c, a, b) == Rel::Equal ==> chain_cmp(c.push(s), a, b) == step_cmp(s, a, b),
{
    lemma_chain_cmp_from_push(c, s, 0, a, b);
}

/// The opposite comparison outcome.
pub open spec fn flip_rel(r: Rel) -> Rel {
    match r {
        Rel::Less => Rel::Greater,
        Rel::Equal => Rel::Equal,
        Rel::Greater => Rel::Less,
    }
}

proof fn lemma_bytes_cmp_swap(a: Seq<u8>, b: Seq<u8>)
    ensures
        bytes_cmp(b, a) == flip_rel(bytes_cmp(a, b)),
    decreases a.len(),
{
    if a.len() != 0 && b.len() != 0 && !(a[0] < b[0]) && !(b[0] < a[0]) {
        lemma_bytes_cmp_swap(a.skip(1), b.skip(1));
    }
}

/// Swapping the operands of a key comparison flips its outcome; in particular
/// incomparable kinds stay `Equal` either way round.
pub proof fn lemma_key_cmp_swap(x: KeyValSpec, y: KeyValSpec)
    ensures
        key_cmp(y, x) == flip_rel(key_cmp(x, y)),
{
    match (x, y) {
        (KeyValSpec::Bytes(a), KeyValSpec::Bytes(b)) => {
            lemma_bytes_cmp_swap(a, b);
        },
        _ => {},
    }
}

/// Descending inversion scope, at one link: a descending key contributes
/// exactly the inverse of what the same key contributes ascending. Together
/// with [`lemma_chain_cmp_push`], a descending key inverts only its own
/// contribution and leaves every other link of the chain untouched.
pub proof fn lemma_step_desc_inverts<T, K: SortKey<T>>(key: K, a: T, b: T)
    ensures
        step_cmp((Step { key, ascending: false }), a, b) == flip_rel(
            step_cmp((Step { key, ascending: true }), a, b),
        ),
{
    lemma_key_cmp_swap(key.key_spec(a), key.key_spec(b));
}

/// `cmp` behaves as a total preorder: swapping the operands swaps `Less` and
/// `Greater`, and `not Greater` (the "at most" relation) is transitive.
pub open spec fn total_preorder<A>(cmp: spec_fn(A, A) -> Rel) -> bool {
    &&& (forall|a: A, b: A| #[trigger] cmp(a, b) == Rel::Less <==> cmp(b, a) == Rel::Greater)
    &&& (forall|a: A, b: A, c: A|
        #[trigger] cmp(a, b) != Rel::Greater && #[trigger] cmp(b, c) != Rel::Greater ==> cmp(a, c)
            != Rel::Greater)
}

/// No element of `r` is greater than one that comes after it.
pub open spec fn sorted_under<A>(cmp: spec_fn(A, A) -> Rel, r: Seq<A>) -> bool {
    forall|u: int, v: int| 0 <= u <= v < r.len() ==> #[trigger] cmp(r[u], r[v]) != Rel::Greater
}

/// Under a coherent comparator, inserting into a sorted sequence keeps it
/// sorted.
proof fn lemma_insert_sorted_under<A>(cmp: spec_fn(A, A) -> Rel, s: Seq<A>, x: A)
    requires
        total_preorder(cmp),
        sorted_under(cmp, s),
    ensures
        sorted_under(cmp, insert_sorted(cmp, s, x)),
{
    let m: int = insert_pos(cmp, s, x);
    lemma_insert_pos_props(cmp, s, x);
    lemma_insert_sorted_at(cmp, s, x, m);
    let r = s.insert(m, x);
    assert forall|u: int, v: int| 0 <= u <= v < r.len() implies #[trigger] cmp(r[u], r[v])
        != Rel::Greater by {
        if u == v {
            assert(cmp(r[u], r[u]) != Rel::Greater);
        } else if u == m {
            assert(r[u] == x);
            assert(r[v] == s[v - 1]);
            assert(cmp(x, s[v - 1]) == Rel::Less);
        } else if v == m {
            assert(r[v] == x);
            assert(r[u] == s[u]);
            assert(m > 0);
            assert(cmp(x, s[m - 1]) != Rel::Less);
            assert(cmp(s[m - 1], x) != Rel::Greater);
            assert(cmp(s[u], s[m - 1]) != Rel::Greater);
        } else {
            let u0: int = if u < m {
                u
            } else {
                u - 1
            };
            let v0: int = if v < m {
                v
            } else {
                v - 1
            };
            assert(r[u] == s[u0]);
            assert(r[v] == s[v0]);
            assert(0 <= u0 <= v0 < s.len());
        }
    }
}

/// Under a coherent comparator the sort really sorts: no element of the
/// output is greater than one that comes after it.
pub proof fn lemma_sort_seq_sorted<A>(cmp: spec_fn(A, A) -> Rel, s: Seq<A>)
    requires
        total_preorder(cmp),
    ensures
        sorted_under(cmp, sort_seq(cmp, s)),
    decreases s.len(),
{
    if s.len() == 0 {
    } else {
        lemma_sort_seq_sorted(cmp, s.drop_last());
        lemma_insert_sorted_under(cmp, sort_seq(cmp, s.drop_last()), s.last());
    }
}

} // verus!
