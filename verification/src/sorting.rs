//! The stable sort performed at staging time, with its laws.

use vstd::prelude::*;

use crate::keys::Rel;
use crate::keys::SortKey;
use crate::keys::Step;
use crate::keys::chain_cmp_fn;
use crate::keys::compare_elems;

verus! {

/// Insert `x` into `s` behind every element that `x` is not strictly less
/// than: the insertion step of a stable sort.
pub open spec fn insert_sorted<A>(cmp: spec_fn(A, A) -> Rel, s: Seq<A>, x: A) -> Seq<A>
    decreases s.len(),
{
    if s.len() == 0 {
        seq![x]
    } else if cmp(x, s.last()) == Rel::Less {
        insert_sorted(cmp, s.drop_last(), x).push(s.last())
    } else {
        s.push(x)
    }
}

/// The stable sort of `s` under `cmp`, defined by inserting the elements of
/// `s` in arrival order. Equal elements keep their relative order.
pub open spec fn sort_seq<A>(cmp: spec_fn(A, A) -> Rel, s: Seq<A>) -> Seq<A>
    decreases s.len(),
{
    if s.len() == 0 {
        Seq::empty()
    } else {
        insert_sorted(cmp, sort_seq(cmp, s.drop_last()), s.last())
    }
}

/// The index at which [`insert_sorted`] places the new element.
pub open spec fn insert_pos<A>(cmp: spec_fn(A, A) -> Rel, s: Seq<A>, x: A) -> int
    decreases s.len(),
{
    if s.len() == 0 {
        0
    } else if cmp(x, s.last()) == Rel::Less {
        insert_pos(cmp, s.drop_last(), x)
    } else {
        s.len() as int
    }
}

/// The insertion point splits `s`: `x` is strictly less than everything at or
/// after it, and not strictly less than its left neighbour.
pub proof fn lemma_insert_pos_props<A>(cmp: spec_fn(A, A) -> Rel, s: Seq<A>, x: A)
    ensures
        0 <= insert_pos(cmp, s, x) <= s.len(),
        forall|k: int| insert_pos(cmp, s, x) <= k < s.len() ==> cmp(x, #[trigger] s[k]) == Rel::Less,
        insert_pos(cmp, s, x) > 0 ==> cmp(x, s[insert_pos(cmp, s, x) - 1]) != Rel::Less,
    decreases s.len(),
{
    if s.len() == 0 {
    } else if cmp(x, s.last()) == Rel::Less {
        lemma_insert_pos_props(cmp, s.drop_last(), x);
        assert forall|k: int| insert_pos(cmp, s, x) <= k < s.len() implies cmp(
            x,
            #[trigger] s[k],
        ) == Rel::Less by {
            if k < s.len() - 1 {
                assert(s.drop_last()[k] == s[k]);
            }
        }
        if insert_pos(cmp, s, x) > 0 {
            assert(s.drop_last()[insert_pos(cmp, s, x) - 1] == s[insert_pos(cmp, s, x) - 1]);
        }
    } else {
    }
}

/// Inserting at the insertion point is what [`insert_sorted`] does.
pub proof fn lemma_insert_sorted_at<A>(cmp: spec_fn(A, A) -> Rel, s: Seq<A>, x: A, j: int)
    requires
        0 <= j <= s.len(),
        forall|k: int| j <= k < s.len() ==> cmp(x, #[trigger] s[k]) == Rel::Less,
        j > 0 ==> cmp(x, s[j - 1]) != Rel::Less,
    ensures
        insert_sorted(cmp, s, x) == s.insert(j, x),
    decreases s.len(),
{
    if s.len() == 0 {
        assert(insert_sorted(cmp, s, x) =~= s.insert(0, x));
    } else if j == s.len() {
        assert(cmp(x, s.last()) != Rel::Less);
        assert(insert_sorted(cmp, s, x) =~= s.insert(j, x));
    } else {
        assert(cmp(x, s.last()) == Rel::Less);
        assert forall|k: int| j <= k < s.drop_last().len() implies cmp(
            x,
            #[trigger] s.drop_last()[k],
        ) == Rel::Less by {
            assert(s.drop_last()[k] == s[k]);
        }
        if j > 0 {
            assert(s.drop_last()[j - 1] == s[j - 1]);
        }
        lemma_insert_sorted_at(cmp, s.drop_last(), x, j);
        assert(s.drop_last().insert(j, x).push(s.last()) =~= s.insert(j, x));
    }
}

/// Insert `x` into the sorted buffer `buf` at its stable position.
pub fn insert_in_order<T, K: SortKey<T>>(chain: &Vec<Step<K>>, buf: &mut Vec<T>, x: T)
    ensures
        final(buf)@ == insert_sorted(chain_cmp_fn(chain@), old(buf)@, x),
{
    let ghost cmp = chain_cmp_fn(chain@);
    let mut j: usize = buf.len();
    loop
        invariant
            j <= buf.len(),
            buf@ == old(buf)@,
            forall|k: int| j <= k < buf@.len() ==> cmp(x, #[trigger] buf@[k]) == Rel::Less,
            cmp == chain_cmp_fn(chain@),
        ensures
            j <= buf.len(),
            buf@ == old(buf)@,
            forall|k: int| j <= k < buf@.len() ==> cmp(x, #[trigger] buf@[k]) == Rel::Less,
            j > 0 ==> cmp(x, buf@[j - 1]) != Rel::Less,
        decreases j,
    {
        if j == 0 {
            break;
        }
        let r = compare_elems(chain, &x, &buf[j - 1]);
        if r == Rel::Less {
            j = j - 1;
        } else {
            break;
        }
    }
    proof {
        lemma_insert_sorted_at(cmp, buf@, x, j as int);
    }
    buf.insert(j, x);
}

/// Drain `src` in arrival order into a freshly sorted buffer.
pub fn sort_elements<T, K: SortKey<T>>(chain: &Vec<Step<K>>, src: Vec<T>) -> (r: Vec<T>)
    ensures
        r@ == sort_seq(chain_cmp_fn(chain@), src@),
{
    let ghost cmp = chain_cmp_fn(chain@);
    let ghost orig = src@;
    let mut rest = src;
    let mut out: Vec<T> = Vec::new();
    loop
        invariant
            rest@.len() <= orig.len(),
            rest@ == orig.skip(orig.len() - rest@.len()),
            out@ == sort_seq(cmp, orig.take(orig.len() - rest@.len())),
            cmp == chain_cmp_fn(chain@),
        ensures
            rest@.len() == 0,
            out@ == sort_seq(cmp, orig.take(orig.len() - rest@.len())),
        decreases rest@.len(),
    {
        if rest.len() == 0 {
            break;
        }
        let ghost k: int = orig.len() - rest@.len();
        let x = rest.remove(0);
        proof {
            assert(orig.skip(k as int).remove(0) =~= orig.skip(k + 1));
            assert(x == orig[k as int]);
        }
        insert_in_order(chain, &mut out, x);
        proof {
            assert(orig.take(k + 1).drop_last() =~= orig.take(k as int));
            assert(orig.take(k + 1).last() == orig[k as int]);
        }
    }
    proof {
        assert(orig.take(orig.len() as int) =~= orig);
    }
    out
}

} // verus!
