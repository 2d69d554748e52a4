use sortby::KeyVal;
use sortby::SortBy;
use sortby::SortByIteratorExt;
use sortby::SortKey;

struct IntKey;

impl SortKey<i32> for IntKey {
    fn key(&self, t: &i32) -> KeyVal {
        KeyVal::Int(*t as i64)
    }
}

struct FloatKey;

impl SortKey<f64> for FloatKey {
    fn key(&self, t: &f64) -> KeyVal {
        let bits = t.to_bits() as i64;
        let ord = bits ^ ((((bits >> 63) as u64) >> 1) as i64);
        KeyVal::Int(ord)
    }
}

#[derive(Clone, Debug, Eq, PartialEq)]
struct Person {
    pub age: i32,
    pub name: &'static str,
}

enum PersonKey {
    Age,
    Name,
}

impl SortKey<Person> for PersonKey {
    fn key(&self, t: &Person) -> KeyVal {
        match self {
            PersonKey::Age => KeyVal::Int(t.age as i64),
            PersonKey::Name => KeyVal::Bytes(t.name.as_bytes().to_vec()),
        }
    }
}

fn pull_all<T, K: SortKey<T>>(mut s: SortBy<T, K>) -> Vec<T> {
    let mut out = Vec::new();
    while let Some(x) = s.next() {
        out.push(x);
    }
    out
}

#[test]
fn works_with_empty_iterators() {
    let input = Vec::<i32>::new();
    let actual: Vec<i32> = pull_all(input.sort_by(IntKey));

    assert_eq!(actual, vec![]);
}

#[test]
fn converts_into_vec_to_avoid_double_allocation() {
    let input = vec![5, 2, 3];
    let actual: Vec<i32> = input.sort_by(IntKey).into_vec();

    assert_eq!(actual, vec![2, 3, 5]);
}

#[test]
fn sorts_floats() {
    let input = vec![5.0, 1.0, 2.0];
    let actual: Vec<f64> = pull_all(input.sort_by(FloatKey));

    assert_eq!(actual, vec![1.0, 2.0, 5.0]);
}

#[test]
fn sorts_multiple_levels() {
    let data = vec![
        Person { name: "Rich", age: 18 },
        Person { name: "Bob", age: 9 },
        Person { name: "Marc", age: 21 },
        Person { name: "Alice", age: 18 },
    ];

    let expected = vec![
        data[1].clone(), // 9, Bob
        data[3].clone(), // 18, Alice
        data[0].clone(), // 18, Rich
        data[2].clone(), // 21, Marc
    ];

    let actual = pull_all(data.sort_by(PersonKey::Age).then_sort_by(PersonKey::Name));

    assert_eq!(actual, expected);
}
