//! The deferred sort adapter: staging state, pulls, and conversion.

use vstd::prelude::*;

use crate::keys::SortKey;
use crate::keys::Step;
use crate::keys::chain_cmp_fn;
use crate::laws::lemma_sort_seq_len;
use crate::laws::lemma_sort_seq_multiset;
use crate::laws::lemma_sort_seq_stable;
use crate::laws::stable_arrangement;
use crate::sorting::sort_elements;
use crate::sorting::sort_seq;

verus! {

/// Staging state: either the unconsumed upstream elements in arrival order,
/// or the sorted buffer of elements not yet pulled. The transition from
/// `Unstaged` to `Staged` happens once and is never reversed.
enum IterState<T> {
    Unstaged(Vec<T>),
    Staged(Vec<T>),
}

/// A deferred sort adapter over elements of type `T`, ordered by a chain of
/// keys of type `K` applied in priority order.
///
/// Building and extending an adapter does no work and evaluates no key; the
/// one-time drain-and-sort (staging) happens at the first pull or at
/// conversion, and later pulls read the sorted buffer.
pub struct SortBy<T, K> {
    stage: IterState<T>,
    chain: Vec<Step<K>>,
}

impl<T, K: SortKey<T>> SortBy<T, K> {
    /// Whether the adapter has already drained and sorted its source.
    pub closed spec fn staged(self) -> bool {
        self.stage is Staged
    }

    /// The elements the adapter still holds: the unconsumed source in arrival
    /// order while unstaged, or the sorted remainder once staged.
    pub closed spec fn pending(self) -> Seq<T> {
        match self.stage {
            IterState::Unstaged(v) => v@,
            IterState::Staged(v) => v@,
        }
    }

    /// The composed comparator chain, highest-priority key first.
    pub closed spec fn chain_view(self) -> Seq<Step<K>> {
        self.chain@
    }

    /// The elements this adapter has yet to yield, in yield order: the stable
    /// sort of the source while unstaged, the sorted remainder once staged.
    pub open spec fn output(self) -> Seq<T> {
        if self.staged() {
            self.pending()
        } else {
            sort_seq(chain_cmp_fn(self.chain_view()), self.pending())
        }
    }

    /// Append an ascending tie-break key, consulted only between elements that
    /// every earlier key leaves equal. Keys must be composed before the first
    /// pull or conversion, so this operates on unstaged adapters only.
    pub fn then_sort_by(self, key: K) -> (r: SortBy<T, K>)
        requires
            !self.staged(),
        ensures
            !r.staged(),
            r.pending() == self.pending(),
            r.chain_view() == self.chain_view().push((Step { key, ascending: true })),
    {
        let SortBy { stage, mut chain } = self;
        chain.push(Step { key, ascending: true });
        SortBy { stage, chain }
    }

    /// Append a descending tie-break key: as [`Self::then_sort_by`], with the
    /// new key's contribution inverted and nothing else affected.
    pub fn then_sort_by_desc(self, key: K) -> (r: SortBy<T, K>)
        requires
            !self.staged(),
        ensures
            !r.staged(),
            r.pending() == self.pending(),
            r.chain_view() == self.chain_view().push((Step { key, ascending: false })),
    {
        let SortBy { stage, mut chain } = self;
        chain.push(Step { key, ascending: false });
        SortBy { stage, chain }
    }

    /// Pull the next element in sorted order, staging first if this is the
    /// first pull. Once the buffer is exhausted, every further pull signals
    /// end of sequence again.
    pub fn next(&mut self) -> (r: Option<T>)
        ensures
            final(self).staged(),
            final(self).chain_view() == old(self).chain_view(),
            old(self).output().len() == 0 ==> r is None && final(self).output()
                == Seq::<T>::empty(),
            old(self).output().len() > 0 ==> r == Some(old(self).output()[0])
                && final(self).output() == old(self).output().skip(1),
    {
        let mut tmp = IterState::Staged(Vec::new());
        core::mem::swap(&mut self.stage, &mut tmp);
        let mut buf = match tmp {
            IterState::Unstaged(src) => sort_elements(&self.chain, src),
            IterState::Staged(b) => b,
        };
        proof {
            assert(buf@ == old(self).output());
        }
        let r = if buf.len() == 0 {
            None
        } else {
            let x = buf.remove(0);
            proof {
                assert(old(self).output().remove(0) =~= old(self).output().skip(1));
            }
            Some(x)
        };
        self.stage = IterState::Staged(buf);
        proof {
            if old(self).output().len() == 0 {
                assert(self.output() =~= Seq::<T>::empty());
            }
        }
        r
    }

    /// Convert directly into the finite ordered collection, staging first if
    /// needed: the whole sorted output for an unstaged adapter, and only the
    /// not-yet-pulled remainder after partial consumption.
    pub fn into_vec(self) -> (r: Vec<T>)
        ensures
            r@ == self.output(),
    {
        let SortBy { stage, chain } = self;
        match stage {
            IterState::Unstaged(src) => sort_elements(&chain, src),
            IterState::Staged(buf) => buf,
        }
    }

    /// Pull every remaining element one at a time into a vector. Its contract
    /// is the same as that of [`Self::into_vec`]: element-wise pulling and
    /// direct conversion yield the same ordered content.
    pub fn drain_all(self) -> (r: Vec<T>)
        ensures
            r@ == self.output(),
    {
        let ghost orig = self.output();
        let mut a = self;
        let mut out: Vec<T> = Vec::new();
        loop
            invariant
                out@ + a.output() == orig,
            ensures
                out@ == orig,
            decreases a.output().len(),
        {
            match a.next() {
                Some(x) => {
                    out.push(x);
                    proof {
                        assert(out@ + a.output() =~= orig);
                    }
                },
                None => {
                    proof {
                        assert(out@ =~= orig);
                    }
                    break;
                },
            }
        }
        out
    }
}

/// Stability of the adapter: the output of an unstaged adapter rearranges its
/// source by a position map that is strictly increasing on every pair of
/// elements the composed comparator leaves equal, so such elements keep their
/// relative order in the source.
pub proof fn lemma_output_stable<T, K: SortKey<T>>(a: SortBy<T, K>)
    requires
        !a.staged(),
    ensures
        exists|p: Seq<int>|
            stable_arrangement(chain_cmp_fn(a.chain_view()), a.pending(), a.output(), p),
{
    let cmp = chain_cmp_fn(a.chain_view());
    lemma_sort_seq_stable(cmp, a.pending());
    let p = choose|p: Seq<int>|
        stable_arrangement(cmp, a.pending(), sort_seq(cmp, a.pending()), p);
    assert(stable_arrangement(cmp, a.pending(), a.output(), p));
}

/// The output of an unstaged adapter holds exactly the source elements.
pub proof fn lemma_output_permutes<T, K: SortKey<T>>(a: SortBy<T, K>)
    requires
        !a.staged(),
    ensures
        a.output().to_multiset() == a.pending().to_multiset(),
        a.output().len() == a.pending().len(),
{
    lemma_sort_seq_multiset(chain_cmp_fn(a.chain_view()), a.pending());
    lemma_sort_seq_len(chain_cmp_fn(a.chain_view()), a.pending());
}

/// Empty-input identity: an adapter holding no elements yields nothing,
/// whether consumed by pulls or converted directly.
pub proof fn lemma_empty_input_identity<T, K: SortKey<T>>(a: SortBy<T, K>)
    requires
        a.pending().len() == 0,
    ensures
        a.output() == Seq::<T>::empty(),
{
    assert(a.output() =~= Seq::<T>::empty());
}

/// Entry points that wrap a finite source in a [`SortBy`] adapter with its
/// first key. Construction is lazy: the source is kept as it is and no key is
/// evaluated until the first pull or conversion.
pub trait SortByIteratorExt<T, K: SortKey<T>>: View<V = Seq<T>> + Sized {
    /// Wrap the source with a single ascending key.
    fn sort_by(self, key: K) -> (r: SortBy<T, K>)
        ensures
            !r.staged(),
            r.pending() == self@,
            r.chain_view() == seq![(Step { key, ascending: true })],
    ;

    /// Wrap the source with a single descending key.
    fn sort_by_desc(self, key: K) -> (r: SortBy<T, K>)
        ensures
            !r.staged(),
            r.pending() == self@,
            r.chain_view() == seq![(Step { key, ascending: false })],
    ;
}

impl<T, K: SortKey<T>> SortByIteratorExt<T, K> for Vec<T> {
    fn sort_by(self, key: K) -> (r: SortBy<T, K>) {
        let mut chain: Vec<Step<K>> = Vec::new();
        chain.push(Step { key, ascending: true });
        proof {
            assert(chain@ =~= seq![(Step { key, ascending: true })]);
        }
        SortBy { stage: IterState::Unstaged(self), chain }
    }

    fn sort_by_desc(self, key: K) -> (r: SortBy<T, K>) {
        let mut chain: Vec<Step<K>> = Vec::new();
        chain.push(Step { key, ascending: false });
        proof {
            assert(chain@ =~= seq![(Step { key, ascending: false })]);
        }
        SortBy { stage: IterState::Unstaged(self), chain }
    }
}

} // verus!
