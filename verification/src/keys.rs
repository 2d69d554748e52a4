//! Key values, key-extraction functions, and the composed comparator chain.

use vstd::prelude::*;

verus! {

/// The outcome of comparing two key values or two elements.
#[derive(Clone, Copy, Debug, PartialEq, Eq, Structural)]
pub enum Rel {
    Less,
    Equal,
    Greater,
}

/// The mathematical value of a key: an integer or a byte string.
pub enum KeyValSpec {
    Int(int),
    Bytes(Seq<u8>),
}

/// An orderable key value produced by a key-extraction function.
///
/// Two values of the same kind are totally ordered; values of different
/// kinds are incomparable, and comparing them degrades to `Equal` rather
/// than failing, deferring to lower-priority keys or to arrival order.
pub enum KeyVal {
    Int(i64),
    Bytes(Vec<u8>),
}

impl View for KeyVal {
    type V = KeyValSpec;

    open spec fn view(&self) -> KeyValSpec {
        match self {
            KeyVal::Int(i) => KeyValSpec::Int(*i as int),
            KeyVal::Bytes(b) => KeyValSpec::Bytes(b@),
        }
    }
}

/// Lexicographic order on byte strings; a proper prefix sorts first.
pub open spec fn bytes_cmp(a: Seq<u8>, b: Seq<u8>) -> Rel
    decreases a.len(),
{
    if a.len() == 0 && b.len() == 0 {
        Rel::Equal
    } else if a.len() == 0 {
        Rel::Less
    } else if b.len() == 0 {
        Rel::Greater
    } else if a[0] < b[0] {
        Rel::Less
    } else if b[0] < a[0] {
        Rel::Greater
    } else {
        bytes_cmp(a.skip(1), b.skip(1))
    }
}

/// Order on key values: integers by magnitude, byte strings lexicographically,
/// and any pair of different kinds is `Equal` (the degrade-to-equal policy).
pub open spec fn key_cmp(a: KeyValSpec, b: KeyValSpec) -> Rel {
    match (a, b) {
        (KeyValSpec::Int(x), KeyValSpec::Int(y)) => if x < y {
            Rel::Less
        } else if y < x {
            Rel::Greater
        } else {
            Rel::Equal
        },
        (KeyValSpec::Bytes(x), KeyValSpec::Bytes(y)) => bytes_cmp(x, y),
        _ => Rel::Equal,
    }
}

/// Compare two byte strings lexicographically.
pub fn bytes_cmp_exec(a: &Vec<u8>, b: &Vec<u8>) -> (r: Rel)
    ensures
        r == bytes_cmp(a@, b@),
{
    let mut i: usize = 0;
    proof {
        assert(a@.skip(0) =~= a@);
        assert(b@.skip(0) =~= b@);
    }
    loop
        invariant
            i <= a.len(),
            i <= b.len(),
            bytes_cmp(a@, b@) == bytes_cmp(a@.skip(i as int), b@.skip(i as int)),
        decreases a.len() - i,
    {
        if i == a.len() && i == b.len() {
            return Rel::Equal;
        }
        if i == a.len() {
            return Rel::Less;
        }
        if i == b.len() {
            return Rel::Greater;
        }
        if a[i] < b[i] {
            return Rel::Less;
        }
        if b[i] < a[i] {
            return Rel::Greater;
        }
        proof {
            assert(a@.skip(i as int).skip(1) =~= a@.skip(i + 1));
            assert(b@.skip(i as int).skip(1) =~= b@.skip(i + 1));
        }
        i = i + 1;
    }
}

/// Compare two key values per [`key_cmp`].
pub fn key_val_cmp(a: &KeyVal, b: &KeyVal) -> (r: Rel)
    ensures
        r == key_cmp(a@, b@),
{
    match (a, b) {
        (KeyVal::Int(x), KeyVal::Int(y)) => {
            if *x < *y {
                Rel::Less
            } else if *y < *x {
                Rel::Greater
            } else {
                Rel::Equal
            }
        },
        (KeyVal::Bytes(x), KeyVal::Bytes(y)) => bytes_cmp_exec(x, y),
        _ => Rel::Equal,
    }
}

/// A key-extraction function: a pure mapping from an element to an orderable
/// key value. Implementors give the meaning of the key as `key_spec` and
/// compute it with `key`; the adapter consults keys only at staging time.
pub trait SortKey<T> {
    /// The key value of `t`, as a mathematical value. Left at its default the
    /// key is a constant, so every element compares equal at its link of the
    /// chain; an implementation verified with Verus overrides it with the
    /// meaning of its key.
    open spec fn key_spec(&self, t: T) -> KeyValSpec {
        KeyValSpec::Int(0)
    }

    /// Compute the key value of `t`. A key-extraction function must be a pure
    /// mapping: the result agrees with `key_spec` on every element. An
    /// implementation that Verus has not checked is trusted to keep this, just
    /// as a caller-supplied comparison closure is ordinarily trusted.
    fn key(&self, t: &T) -> (k: KeyVal)
        ensures
            k@ == self.key_spec(*t),
    ;
}

/// The identity key on machine integers: orders elements by their own value.
pub struct IdentityKey;

impl SortKey<i64> for IdentityKey {
    open spec fn key_spec(&self, t: i64) -> KeyValSpec {
        KeyValSpec::Int(t as int)
    }

    fn key(&self, t: &i64) -> (k: KeyVal) {
        KeyVal::Int(*t)
    }
}

/// One link of a composed comparator: a key and its direction.
pub struct Step<K> {
    pub key: K,
    pub ascending: bool,
}

/// The contribution of a single key: a descending key compares with its
/// operands swapped, inverting only its own contribution.
pub open spec fn step_cmp<T, K: SortKey<T>>(s: Step<K>, a: T, b: T) -> Rel {
    if s.ascending {
        key_cmp(s.key.key_spec(a), s.key.key_spec(b))
    } else {
        key_cmp(s.key.key_spec(b), s.key.key_spec(a))
    }
}

/// The composed comparator from link `i` on: the first unequal key decides,
/// and elements equal under every key compare `Equal`.
pub open spec fn chain_cmp_from<T, K: SortKey<T>>(c: Seq<Step<K>>, i: int, a: T, b: T) -> Rel
    decreases c.len() - i,
{
    if i < 0 || i >= c.len() {
        Rel::Equal
    } else {
        let r = step_cmp(c[i], a, b);
        if r == Rel::Equal {
            chain_cmp_from(c, i + 1, a, b)
        } else {
            r
        }
    }
}

/// The composed comparator of a whole chain, highest-priority key first.
pub open spec fn chain_cmp<T, K: SortKey<T>>(c: Seq<Step<K>>, a: T, b: T) -> Rel {
    chain_cmp_from(c, 0, a, b)
}

/// The composed comparator as a function value over elements.
pub open spec fn chain_cmp_fn<T, K: SortKey<T>>(c: Seq<Step<K>>) -> spec_fn(T, T) -> Rel {
    |a: T, b: T| chain_cmp(c, a, b)
}

/// Evaluate the composed comparator on two elements, consulting the keys in
/// priority order with early exit on the first key that decides.
pub fn compare_elems<T, K: SortKey<T>>(chain: &Vec<Step<K>>, a: &T, b: &T) -> (r: Rel)
    ensures
        r == chain_cmp(chain@, *a, *b),
{
    let mut i: usize = 0;
    loop
        invariant
            i <= chain.len(),
            chain_cmp(chain@, *a, *b) == chain_cmp_from(chain@, i as int, *a, *b),
        decreases chain.len() - i,
    {
        if i == chain.len() {
            return Rel::Equal;
        }
        let step = &chain[i];
        let ka = step.key.key(a);
        let kb = step.key.key(b);
        let r = if step.ascending {
            key_val_cmp(&ka, &kb)
        } else {
            key_val_cmp(&kb, &ka)
        };
        if r == Rel::Equal {
            i = i + 1;
        } else {
            return r;
        }
    }
}

} // verus!
