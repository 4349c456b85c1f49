//! The values a cell can hold, their byte encoding and the descriptor that is
//! kept beside the bytes so that the value can be rebuilt from them.

use vstd::prelude::*;
use std::cmp::Ordering;

verus! {

/// The non-address part of a handle: what is needed to interpret the bytes.
#[derive(PartialEq, Eq, Structural, Clone, Copy, Debug)]
pub enum Descriptor {
    /// An unsigned 64-bit integer, stored little-endian in eight bytes.
    Word,
    /// A sequence of bytes with the given element count.
    Slice(usize),
}

/// A value that a cell can hold: a closed set of kinds.
#[derive(PartialEq, Eq, Hash, Debug)]
pub enum Value {
    Word(u64),
    Bytes(Vec<u8>),
}

/// The mathematical content of a `Value`.
pub enum ValueModel {
    Word(u64),
    Bytes(Seq<u8>),
}

impl View for Value {
    type V = ValueModel;

    open spec fn view(&self) -> ValueModel {
        match self {
            Value::Word(x) => ValueModel::Word(*x),
            Value::Bytes(b) => ValueModel::Bytes(b@),
        }
    }
}

/// Number of bytes a value of the given descriptor occupies.
pub open spec fn descriptor_size(d: Descriptor) -> nat {
    match d {
        Descriptor::Word => 8,
        Descriptor::Slice(n) => n as nat,
    }
}

/// Number of bytes the value occupies in a buffer.
pub open spec fn byte_size(v: ValueModel) -> nat {
    match v {
        ValueModel::Word(_) => 8,
        ValueModel::Bytes(s) => s.len(),
    }
}

/// The descriptor captured for a value when it is stored.
pub open spec fn descriptor_of(v: ValueModel) -> Descriptor {
    match v {
        ValueModel::Word(_) => Descriptor::Word,
        ValueModel::Bytes(s) => Descriptor::Slice(s.len() as usize),
    }
}

/// The little-endian bytes of a word.
pub open spec fn word_bytes(x: u64) -> Seq<u8> {
    seq![
        x as u8,
        (x >> 8u64) as u8,
        (x >> 16u64) as u8,
        (x >> 24u64) as u8,
        (x >> 32u64) as u8,
        (x >> 40u64) as u8,
        (x >> 48u64) as u8,
        (x >> 56u64) as u8,
    ]
}

/// The word whose little-endian bytes start `b`.
pub open spec fn word_of(b: Seq<u8>) -> u64 {
    (b[0] as u64) | ((b[1] as u64) << 8u64) | ((b[2] as u64) << 16u64) | ((b[3] as u64)
        << 24u64) | ((b[4] as u64) << 32u64) | ((b[5] as u64) << 40u64) | ((b[6] as u64)
        << 48u64) | ((b[7] as u64) << 56u64)
}

/// The raw representation of a value.
pub open spec fn encode(v: ValueModel) -> Seq<u8> {
    match v {
        ValueModel::Word(x) => word_bytes(x),
        ValueModel::Bytes(s) => s,
    }
}

/// The value that a buffer holds under a descriptor; bytes past the
/// descriptor's size are ignored.
pub open spec fn decode(d: Descriptor, buf: Seq<u8>) -> ValueModel {
    match d {
        Descriptor::Word => ValueModel::Word(word_of(buf)),
        Descriptor::Slice(n) => ValueModel::Bytes(buf.subrange(0, n as int)),
    }
}

/// A buffer holds `v` when it begins with the encoding of `v`.
pub open spec fn holds(buf: Seq<u8>, v: ValueModel) -> bool {
    &&& byte_size(v) <= buf.len()
    &&& buf.subrange(0, byte_size(v) as int) == encode(v)
}

/// Lexicographic order of byte sequences: the first differing byte decides,
/// and a proper prefix comes first.
pub open spec fn bytes_cmp(a: Seq<u8>, b: Seq<u8>) -> Ordering
    decreases a.len(),
{
    if a.len() == 0 {
        if b.len() == 0 {
            Ordering::Equal
        } else {
            Ordering::Less
        }
    } else if b.len() == 0 {
        Ordering::Greater
    } else if a[0] < b[0] {
        Ordering::Less
    } else if a[0] > b[0] {
        Ordering::Greater
    } else {
        bytes_cmp(a.drop_first(), b.drop_first())
    }
}

/// The order of values: words by number, byte sequences lexicographically,
/// and every word before every byte sequence.
pub open spec fn value_cmp(a: ValueModel, b: ValueModel) -> Ordering {
    match (a, b) {
        (ValueModel::Word(x), ValueModel::Word(y)) => if x < y {
            Ordering::Less
        } else if x > y {
            Ordering::Greater
        } else {
            Ordering::Equal
        },
        (ValueModel::Word(_), ValueModel::Bytes(_)) => Ordering::Less,
        (ValueModel::Bytes(_), ValueModel::Word(_)) => Ordering::Greater,
        (ValueModel::Bytes(s), ValueModel::Bytes(t)) => bytes_cmp(s, t),
    }
}

/// Two byte sequences compare as equal exactly when they are the same.
pub proof fn lemma_bytes_cmp_equal(a: Seq<u8>, b: Seq<u8>)
    ensures
        (bytes_cmp(a, b) == Ordering::Equal) <==> a == b,
    decreases a.len(),
{
    if a.len() > 0 && b.len() > 0 && a[0] == b[0] {
        lemma_bytes_cmp_equal(a.drop_first(), b.drop_first());
        if a.drop_first() == b.drop_first() {
            assert forall|i: int| 0 <= i < a.len() implies a[i] == b[i] by {
                if i > 0 {
                    assert(a[i] == a.drop_first()[i - 1]);
                    assert(b[i] == b.drop_first()[i - 1]);
                }
            }
            assert(a =~= b);
        }
    } else if a.len() == 0 && b.len() == 0 {
        assert(a =~= b);
    } else if a == b {
        assert(a.len() == 0 || a[0] == b[0]);
    }
}

/// The order of values agrees with their equality: two values compare as
/// equal exactly when they are the same value.
pub proof fn lemma_value_cmp_equal(a: ValueModel, b: ValueModel)
    ensures
        (value_cmp(a, b) == Ordering::Equal) <==> a == b,
{
    match (a, b) {
        (ValueModel::Bytes(s), ValueModel::Bytes(t)) => lemma_bytes_cmp_equal(s, t),
        _ => {},
    }
}

impl Value {
    /// Number of bytes the value occupies in a buffer.
    pub fn size(&self) -> (r: usize)
        ensures
            r == byte_size(self@),
    {
        match self {
            Value::Word(_) => 8,
            Value::Bytes(b) => b.len(),
        }
    }
}

/// Decoding reads only the first `descriptor_size(d)` bytes of a buffer.
pub proof fn lemma_decode_prefix(d: Descriptor, a: Seq<u8>, b: Seq<u8>)
    requires
        descriptor_size(d) <= a.len(),
        descriptor_size(d) <= b.len(),
        forall|i: int| 0 <= i < descriptor_size(d) ==> a[i] == b[i],
    ensures
        decode(d, a) == decode(d, b),
{
    match d {
        Descriptor::Word => {
            assert(a[0] == b[0] && a[1] == b[1] && a[2] == b[2] && a[3] == b[3]);
            assert(a[4] == b[4] && a[5] == b[5] && a[6] == b[6] && a[7] == b[7]);
        },
        Descriptor::Slice(n) => {
            assert(a.subrange(0, n as int) =~= b.subrange(0, n as int));
        },
    }
}

/// Decoding the little-endian bytes of a word gives the word back.
pub proof fn lemma_word_round_trip(x: u64)
    ensures
        word_of(word_bytes(x)) == x,
{
    assert(x == ((x as u8) as u64) | ((((x >> 8u64) as u8) as u64) << 8u64) | ((((x
        >> 16u64) as u8) as u64) << 16u64) | ((((x >> 24u64) as u8) as u64) << 24u64) | ((((x
        >> 32u64) as u8) as u64) << 32u64) | ((((x >> 40u64) as u8) as u64) << 40u64) | ((((x
        >> 48u64) as u8) as u64) << 48u64) | ((((x >> 56u64) as u8) as u64) << 56u64))
        by (bit_vector);
}

/// A buffer that holds a value gives that value back when it is decoded
/// with the descriptor captured for it.
pub proof fn lemma_round_trip(v: ValueModel, buf: Seq<u8>)
    requires
        holds(buf, v),
        byte_size(v) <= usize::MAX,
    ensures
        decode(descriptor_of(v), buf) == v,
{
    let n = byte_size(v) as int;
    assert forall|i: int| 0 <= i < n implies buf[i] == encode(v)[i] by {
        assert(buf.subrange(0, n)[i] == buf[i]);
    }
    match v {
        ValueModel::Word(x) => {
            lemma_decode_prefix(Descriptor::Word, buf, word_bytes(x));
            lemma_word_round_trip(x);

        },
        ValueModel::Bytes(s) => {
            assert(buf.subrange(0, s.len() as int) =~= s);
        },
    }
}

} // verus!
