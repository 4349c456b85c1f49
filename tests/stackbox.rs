use stackbox::space::{U1, U2, U4, U8};
use std::cmp::Ordering;
use std::collections::hash_map::DefaultHasher;
use std::hash::{Hash, Hasher};
use stackbox::{Descriptor, StackBox, Value, into_values};

fn bytes(n: usize, fill: u8) -> Value {
    Value::Bytes(vec![fill; n])
}

#[test]
fn word_round_trip() {
    let b = StackBox::<U4>::new(Value::Word(5)).unwrap();
    assert_eq!(b.read(), Value::Word(5));
    assert_eq!(b.descriptor(), Descriptor::Word);
    assert_eq!(b.capacity(), 32);
}

#[test]
fn word_round_trip_all_bytes_distinct() {
    let x: u64 = 0x0102_0304_0506_0708;
    let b = StackBox::<U1>::new(Value::Word(x)).unwrap();
    assert_eq!(b.read(), Value::Word(x));
    let m = StackBox::<U1>::new(Value::Word(u64::MAX)).unwrap();
    assert_eq!(m.read(), Value::Word(u64::MAX));
}

#[test]
fn bytes_round_trip() {
    let v = Value::Bytes(vec![1, 2, 3, 250]);
    let b = StackBox::<U2>::new(v).unwrap();
    assert_eq!(b.read(), Value::Bytes(vec![1, 2, 3, 250]));
    assert_eq!(b.descriptor(), Descriptor::Slice(4));
}

#[test]
fn zero_size_value_is_stored() {
    let b = StackBox::<0>::new(Value::Bytes(Vec::new())).unwrap();
    assert_eq!(b.read(), Value::Bytes(Vec::new()));
    assert_eq!(b.capacity(), 0);
}

#[test]
fn too_large_value_is_returned_unchanged() {
    let r = StackBox::<U4>::new(bytes(64, 9));
    match r {
        Err(v) => assert_eq!(v, bytes(64, 9)),
        Ok(_) => panic!("a 64-byte value does not fit four words"),
    }
}

#[test]
fn word_does_not_fit_in_seven_bytes() {
    match StackBox::<7>::new(Value::Word(77)) {
        Err(v) => assert_eq!(v, Value::Word(77)),
        Ok(_) => panic!("a word needs eight bytes"),
    }
}

#[test]
fn boundary_is_inclusive() {
    let fits = StackBox::<U4>::new(bytes(32, 1));
    assert!(fits.is_ok());
    assert_eq!(fits.unwrap().read(), bytes(32, 1));
    let over = StackBox::<U4>::new(bytes(33, 1));
    assert_eq!(over.unwrap_err(), bytes(33, 1));
}

#[test]
fn resize_to_larger_keeps_value() {
    let b = StackBox::<U1>::new(Value::Bytes(vec![4, 5, 6])).unwrap();
    let g = b.resize::<U8>().unwrap();
    assert_eq!(g.capacity(), 64);
    assert_eq!(g.read(), Value::Bytes(vec![4, 5, 6]));
    assert_eq!(g.descriptor(), Descriptor::Slice(3));
}

#[test]
fn resize_to_same_capacity_succeeds() {
    let b = StackBox::<U2>::new(Value::Word(3)).unwrap();
    let g = b.resize::<U2>().unwrap();
    assert_eq!(g.read(), Value::Word(3));
}

#[test]
fn resize_to_smaller_fails_and_keeps_cell() {
    let b = StackBox::<U4>::new(Value::Word(11)).unwrap();
    let back = b.resize::<U1>().unwrap_err();
    assert_eq!(back.capacity(), 32);
    assert_eq!(back.read(), Value::Word(11));
    assert_eq!(back.into_value(), Value::Word(11));
}

#[test]
fn example_scenario() {
    let a = StackBox::<U4>::new(Value::Word(42)).unwrap();
    assert_eq!(a.read(), Value::Word(42));
    let b = StackBox::<U4>::new(bytes(64, 2));
    assert_eq!(b.unwrap_err(), bytes(64, 2));
    let g = a.resize::<U8>().unwrap();
    assert_eq!(g.read(), Value::Word(42));
}

#[test]
fn set_word_replaces_word() {
    let mut b = StackBox::<U1>::new(Value::Word(1)).unwrap();
    b.set_word(0xdead_beef);
    assert_eq!(b.read(), Value::Word(0xdead_beef));
    assert_eq!(b.capacity(), 8);
}

#[test]
fn set_byte_replaces_one_byte() {
    let mut b = StackBox::<U1>::new(Value::Bytes(vec![0, 1, 2])).unwrap();
    b.set_byte(1, 9);
    assert_eq!(b.read(), Value::Bytes(vec![0, 9, 2]));
}

#[test]
fn equality_ignores_bytes_past_value() {
    let a = StackBox::<U1>::new(Value::Bytes(vec![5, 6, 7])).unwrap();
    let mut b = StackBox::<U1>::new(Value::Bytes(vec![5, 6])).unwrap();
    let c = StackBox::<U1>::new(Value::Bytes(vec![5, 6])).unwrap();
    b.set_byte(0, 5);
    assert!(b == c);
    assert!(a != c);
}

#[test]
fn words_come_before_bytes() {
    let w = StackBox::<U1>::new(Value::Word(u64::MAX)).unwrap();
    let s = StackBox::<U1>::new(Value::Bytes(Vec::new())).unwrap();
    assert_eq!(w.partial_cmp(&s), Some(Ordering::Less));
    assert_eq!(s.partial_cmp(&w), Some(Ordering::Greater));
}

fn hash_of(v: &Value) -> u64 {
    let mut h = DefaultHasher::new();
    v.hash(&mut h);
    h.finish()
}

#[test]
fn finalize_runs_once_per_cell() {
    let mut cells = Vec::new();
    for i in 0..10u64 {
        cells.push(StackBox::<U1>::new(Value::Word(i)).unwrap());
    }
    let out = into_values(cells);
    assert_eq!(out.len(), 10);
    for i in 0..10u64 {
        let seen = out.iter().filter(|v| **v == Value::Word(i)).count();
        assert_eq!(seen, 1);
    }
}

#[test]
fn only_resized_cell_owns_value() {
    let b = StackBox::<U1>::new(Value::Bytes(vec![7; 5])).unwrap();
    let g = b.resize::<U2>().unwrap();
    let out = into_values(vec![g]);
    assert_eq!(out, vec![Value::Bytes(vec![7; 5])]);
}

#[test]
fn equality_ignores_capacity() {
    let a = StackBox::<U1>::new(Value::Word(8)).unwrap().resize::<U8>().unwrap();
    let b = StackBox::<U8>::new(Value::Word(8)).unwrap();
    let c = StackBox::<U8>::new(Value::Word(9)).unwrap();
    assert!(a == b);
    assert!(a != c);
    let s = StackBox::<U1>::new(Value::Bytes(vec![1, 2])).unwrap().resize::<U4>().unwrap();
    let t = StackBox::<U4>::new(Value::Bytes(vec![1, 2])).unwrap();
    let u = StackBox::<U4>::new(Value::Bytes(vec![1, 3])).unwrap();
    let w = StackBox::<U4>::new(Value::Bytes(vec![1, 2, 0])).unwrap();
    assert!(s == t);
    assert!(s != u);
    assert!(s != w);
    let x = StackBox::<U4>::new(Value::Word(1)).unwrap();
    assert!(x != t);
}

#[test]
fn equal_cells_read_values_hash_alike() {
    let a = StackBox::<U1>::new(Value::Bytes(vec![3, 4])).unwrap();
    let b = StackBox::<U8>::new(Value::Bytes(vec![3, 4])).unwrap();
    assert_eq!(hash_of(&a.read()), hash_of(&b.read()));
    assert_eq!(hash_of(&a.read()), hash_of(&Value::Bytes(vec![3, 4])));
}

#[test]
fn into_values_finalizes_each_cell_once() {
    let cells = vec![
        StackBox::<U2>::new(Value::Word(1)).unwrap(),
        StackBox::<U2>::new(Value::Bytes(vec![2, 3])).unwrap(),
        StackBox::<U2>::new(Value::Word(4)).unwrap(),
    ];
    let out = into_values(cells);
    assert_eq!(out.len(), 3);
    assert_eq!(out[0], Value::Word(1));
    assert_eq!(out[1], Value::Bytes(vec![2, 3]));
    assert_eq!(out[2], Value::Word(4));
    assert!(into_values::<U2>(Vec::new()).is_empty());
}

#[test]
fn words_order_by_number() {
    let a = StackBox::<U4>::new(Value::Word(3)).unwrap();
    let b = StackBox::<U4>::new(Value::Word(300)).unwrap();
    let c = StackBox::<U1>::new(Value::Word(3)).unwrap().resize::<U4>().unwrap();
    assert_eq!(a.partial_cmp(&b), Some(Ordering::Less));
    assert_eq!(b.partial_cmp(&a), Some(Ordering::Greater));
    assert_eq!(a.partial_cmp(&c), Some(Ordering::Equal));
    assert!(a < b);
    assert!(a <= c);
}

#[test]
fn bytes_order_lexicographically() {
    let ab = StackBox::<U4>::new(Value::Bytes(vec![1, 2])).unwrap();
    let abc = StackBox::<U4>::new(Value::Bytes(vec![1, 2, 3])).unwrap();
    let b = StackBox::<U4>::new(Value::Bytes(vec![2])).unwrap();
    let empty = StackBox::<U4>::new(Value::Bytes(Vec::new())).unwrap();
    assert_eq!(ab.partial_cmp(&abc), Some(Ordering::Less));
    assert_eq!(abc.partial_cmp(&b), Some(Ordering::Less));
    assert_eq!(b.partial_cmp(&ab), Some(Ordering::Greater));
    assert_eq!(empty.partial_cmp(&ab), Some(Ordering::Less));
    assert_eq!(ab.partial_cmp(&ab), Some(Ordering::Equal));
}
