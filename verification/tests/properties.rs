use std::cell::Cell;

use sortby::KeyVal;
use sortby::Rel;
use sortby::SortBy;
use sortby::SortByIteratorExt;
use sortby::SortKey;
use sortby::keys::key_val_cmp;

struct IntKey;

impl SortKey<i32> for IntKey {
    fn key(&self, t: &i32) -> KeyVal {
        KeyVal::Int(*t as i64)
    }
}

enum PairKey {
    First,
    Second,
}

impl SortKey<(i32, &'static str)> for PairKey {
    fn key(&self, t: &(i32, &'static str)) -> KeyVal {
        match self {
            PairKey::First => KeyVal::Int(t.0 as i64),
            PairKey::Second => KeyVal::Bytes(t.1.as_bytes().to_vec()),
        }
    }
}

struct CountingKey<'a> {
    calls: &'a Cell<u32>,
}

impl<'a> SortKey<i32> for CountingKey<'a> {
    fn key(&self, t: &i32) -> KeyVal {
        self.calls.set(self.calls.get() + 1);
        KeyVal::Int(*t as i64)
    }
}

fn pull_all<T, K: SortKey<T>>(mut s: SortBy<T, K>) -> Vec<T> {
    let mut out = Vec::new();
    while let Some(x) = s.next() {
        out.push(x);
    }
    out
}

#[test]
fn stability_keeps_arrival_order_of_equal_elements() {
    let input = vec![(1, "x"), (1, "y"), (0, "z"), (1, "w")];
    let actual = pull_all(input.sort_by(PairKey::First));

    assert_eq!(actual, vec![(0, "z"), (1, "x"), (1, "y"), (1, "w")]);
}

#[test]
fn no_key_is_evaluated_before_the_first_pull() {
    let calls = Cell::new(0u32);
    let input = vec![3, 1, 2];

    let adapter = input
        .sort_by(CountingKey { calls: &calls })
        .then_sort_by(CountingKey { calls: &calls });
    assert_eq!(calls.get(), 0);

    let mut adapter = adapter;
    let first = adapter.next();
    assert_eq!(first, Some(1));
    assert!(calls.get() > 0);
}

#[test]
fn no_key_is_evaluated_before_conversion() {
    let calls = Cell::new(0u32);
    let input = vec![3, 1, 2];

    let adapter = input.sort_by(CountingKey { calls: &calls });
    assert_eq!(calls.get(), 0);

    let sorted = adapter.into_vec();
    assert_eq!(sorted, vec![1, 2, 3]);
}

#[test]
fn exhausted_adapter_keeps_signalling_end_of_sequence() {
    let input = vec![2, 1];
    let mut adapter = input.sort_by(IntKey);

    assert_eq!(adapter.next(), Some(1));
    assert_eq!(adapter.next(), Some(2));
    assert_eq!(adapter.next(), None);
    assert_eq!(adapter.next(), None);
    assert_eq!(adapter.next(), None);
}

#[test]
fn empty_input_yields_empty_output_on_both_paths() {
    let pulled = pull_all(Vec::<i32>::new().sort_by(IntKey));
    assert_eq!(pulled, vec![]);

    let converted = Vec::<i32>::new().sort_by(IntKey).into_vec();
    assert_eq!(converted, vec![]);
}

#[test]
fn tie_break_keys_compose_in_priority_order() {
    let input = vec![(1, "b"), (1, "a"), (2, "a")];
    let actual = pull_all(input.sort_by(PairKey::First).then_sort_by(PairKey::Second));

    assert_eq!(actual, vec![(1, "a"), (1, "b"), (2, "a")]);
}

#[test]
fn descending_key_inverts_only_its_own_contribution() {
    let input = vec![(18, "Rich"), (9, "Bob"), (21, "Marc"), (18, "Alice")];
    let actual = pull_all(input.sort_by_desc(PairKey::First).then_sort_by(PairKey::Second));

    assert_eq!(
        actual,
        vec![(21, "Marc"), (18, "Alice"), (18, "Rich"), (9, "Bob")]
    );
}

#[test]
fn descending_single_key_reverses_distinct_elements() {
    let input = vec![1, 3, 2];
    let actual = pull_all(input.sort_by_desc(IntKey));

    assert_eq!(actual, vec![3, 2, 1]);
}

#[test]
fn conversion_after_partial_pull_yields_the_remainder() {
    let input = vec![5, 2, 3];
    let mut adapter = input.sort_by(IntKey);

    assert_eq!(adapter.next(), Some(2));
    assert_eq!(adapter.into_vec(), vec![3, 5]);
}

#[test]
fn conversion_and_pulling_agree_on_all_elements() {
    let input = vec![3, 1, 2, 1, 3];

    let converted = input.clone().sort_by(IntKey).into_vec();
    let pulled = pull_all(input.clone().sort_by(IntKey));
    let drained = input.sort_by(IntKey).drain_all();

    assert_eq!(converted, vec![1, 1, 2, 3, 3]);
    assert_eq!(pulled, converted);
    assert_eq!(drained, converted);
}

#[test]
fn identity_key_sorts_integers_by_value() {
    let input: Vec<i64> = vec![10, -5, 7];
    let actual = input.sort_by(sortby::IdentityKey).into_vec();

    assert_eq!(actual, vec![-5, 7, 10]);
}

#[test]
fn key_values_compare_exactly() {
    assert_eq!(
        key_val_cmp(&KeyVal::Int(-3), &KeyVal::Int(7)),
        Rel::Less
    );
    assert_eq!(
        key_val_cmp(&KeyVal::Int(7), &KeyVal::Int(7)),
        Rel::Equal
    );
    assert_eq!(
        key_val_cmp(&KeyVal::Int(9), &KeyVal::Int(7)),
        Rel::Greater
    );
    assert_eq!(
        key_val_cmp(&KeyVal::Bytes(b"ab".to_vec()), &KeyVal::Bytes(b"abc".to_vec())),
        Rel::Less
    );
    assert_eq!(
        key_val_cmp(&KeyVal::Bytes(b"abc".to_vec()), &KeyVal::Bytes(b"abd".to_vec())),
        Rel::Less
    );
    assert_eq!(
        key_val_cmp(&KeyVal::Bytes(b"abc".to_vec()), &KeyVal::Bytes(b"abc".to_vec())),
        Rel::Equal
    );
    assert_eq!(
        key_val_cmp(&KeyVal::Bytes(b"b".to_vec()), &KeyVal::Bytes(b"abc".to_vec())),
        Rel::Greater
    );
}

#[test]
fn incomparable_key_kinds_degrade_to_equal() {
    assert_eq!(
        key_val_cmp(&KeyVal::Int(1), &KeyVal::Bytes(b"a".to_vec())),
        Rel::Equal
    );
    assert_eq!(
        key_val_cmp(&KeyVal::Bytes(b"a".to_vec()), &KeyVal::Int(1)),
        Rel::Equal
    );
}
