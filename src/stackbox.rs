//! The inline storage cell.

use vstd::prelude::*;
use std::cmp::Ordering;
use crate::value::{
    Descriptor,
    Value,
    ValueModel,
    byte_size,
    bytes_cmp,
    decode,
    descriptor_of,
    descriptor_size,
    encode,
    holds,
    lemma_decode_prefix,
    lemma_round_trip,
    value_cmp,
    word_bytes,
    word_of,
};

verus! {

/// An inline buffer of `N` bytes holding one value, with the descriptor
/// captured when the value was stored. The buffer is part of the cell itself:
/// storing, reading and resizing allocate nothing.
///
/// The cell is move-only: it is neither `Clone` nor `Copy`, so the value it
/// holds has exactly one owner, and is handed out exactly once by
/// `into_value`.
///
/// Values are kept as their byte encoding and rebuilt from it on access, so
/// no stored value is ever read in place at an address whose alignment it
/// might not meet.
///
/// The derived `Debug` prints the descriptor and the whole raw buffer, so two
/// cells that compare equal may print differently; to print the value, print
/// what `read` returns.
#[derive(Debug)]
pub struct StackBox<const N: usize> {
    desc: Descriptor,
    space: [u8; N],
}

/// Writes the little-endian bytes of `x` at the start of `buf`.
fn write_word<const N: usize>(buf: &mut [u8; N], x: u64)
    requires
        8 <= old(buf)@.len(),
    ensures
        final(buf)@.len() == old(buf)@.len(),
        final(buf)@.subrange(0, 8) == word_bytes(x),
        forall|i: int| 8 <= i < old(buf)@.len() ==> final(buf)@[i] == old(buf)@[i],
{
    buf.set(0, x as u8);
    buf.set(1, (x >> 8u64) as u8);
    buf.set(2, (x >> 16u64) as u8);
    buf.set(3, (x >> 24u64) as u8);
    buf.set(4, (x >> 32u64) as u8);
    buf.set(5, (x >> 40u64) as u8);
    buf.set(6, (x >> 48u64) as u8);
    buf.set(7, (x >> 56u64) as u8);
    assert(buf@.subrange(0, 8) =~= word_bytes(x));
}

/// Reads the word whose little-endian bytes start `buf`.
fn read_word<const N: usize>(buf: &[u8; N]) -> (r: u64)
    requires
        8 <= buf@.len(),
    ensures
        r == word_of(buf@),
{
    (buf[0] as u64) | ((buf[1] as u64) << 8u64) | ((buf[2] as u64) << 16u64) | ((buf[3] as u64)
        << 24u64) | ((buf[4] as u64) << 32u64) | ((buf[5] as u64) << 40u64) | ((buf[6] as u64)
        << 48u64) | ((buf[7] as u64) << 56u64)
}

/// Compares the first `n` bytes of `a` with the first `m` bytes of `b`.
fn compare_bytes<const N: usize>(a: &[u8; N], n: usize, b: &[u8; N], m: usize) -> (r: Ordering)
    requires
        n <= a@.len(),
        m <= b@.len(),
    ensures
        r == bytes_cmp(a@.subrange(0, n as int), b@.subrange(0, m as int)),
{
    let mut i: usize = 0;
    while i < n && i < m
        invariant
            n <= a@.len(),
            m <= b@.len(),
            i <= n,
            i <= m,
            bytes_cmp(a@.subrange(0, n as int), b@.subrange(0, m as int)) == bytes_cmp(
                a@.subrange(i as int, n as int),
                b@.subrange(i as int, m as int),
            ),
        decreases n - i,
    {
        let ghost sa = a@.subrange(i as int, n as int);
        let ghost sb = b@.subrange(i as int, m as int);
        assert(sa[0] == a@[i as int] && sb[0] == b@[i as int]);
        if a[i] < b[i] {
            return Ordering::Less;
        } else if a[i] > b[i] {
            return Ordering::Greater;
        }
        assert(sa.drop_first() =~= a@.subrange(i + 1, n as int));
        assert(sb.drop_first() =~= b@.subrange(i + 1, m as int));
        i = i + 1;
    }
    if i < m {
        Ordering::Less
    } else if i < n {
        Ordering::Greater
    } else {
        Ordering::Equal
    }
}

impl<const N: usize> View for StackBox<N> {
    type V = ValueModel;

    /// The value the cell holds: its buffer read through its descriptor.
    closed spec fn view(&self) -> ValueModel {
        decode(self.desc, self.space@)
    }
}

impl<const N: usize> StackBox<N> {
    #[verifier::type_invariant]
    spec fn well_formed(&self) -> bool {
        descriptor_size(self.desc) <= N
    }

    /// The cell's capacity in bytes.
    pub open spec fn spec_capacity(&self) -> usize {
        N
    }

    /// The descriptor captured when the value was stored.
    pub closed spec fn spec_descriptor(&self) -> Descriptor {
        self.desc
    }

    /// The cell's raw buffer.
    pub closed spec fn buffer(&self) -> Seq<u8> {
        self.space@
    }

    /// The cell's capacity in bytes.
    #[verifier::when_used_as_spec(spec_capacity)]
    pub fn capacity(&self) -> (r: usize)
        ensures
            r == self.spec_capacity(),
    {
        N
    }

    /// The descriptor captured when the value was stored.
    #[verifier::when_used_as_spec(spec_descriptor)]
    pub fn descriptor(&self) -> (r: Descriptor)
        ensures
            r == self.spec_descriptor(),
    {
        self.desc
    }

    /// Stores `val` in a new cell of `N` bytes, or hands `val` back
    /// untouched when it does not fit.
    pub fn new(val: Value) -> (r: Result<StackBox<N>, Value>)
        ensures
            r is Ok <==> byte_size(val@) <= N,
            r matches Ok(b) ==> {
                &&& b@ == val@
                &&& b.descriptor() == descriptor_of(val@)
                &&& holds(b.buffer(), val@)
            },
            r matches Err(v) ==> v == val,
    {
        if val.size() > N {
            Err(val)
        } else {
            Ok(Self::box_up(val))
        }
    }

    /// Copies the bytes of `val` into the cell's buffer and captures its
    /// descriptor.
    fn box_up(val: Value) -> (b: StackBox<N>)
        requires
            byte_size(val@) <= N,
        ensures
            b@ == val@,
            b.descriptor() == descriptor_of(val@),
            holds(b.buffer(), val@),
    {
        let mut space: [u8; N] = [0u8; N];
        let desc = match &val {
            Value::Word(x) => {
                write_word(&mut space, *x);
                Descriptor::Word
            },
            Value::Bytes(bytes) => {
                let n = bytes.len();
                let mut i: usize = 0;
                while i < n
                    invariant
                        n == bytes@.len(),
                        n <= N,
                        i <= n,
                        space@.len() == N,
                        forall|j: int| 0 <= j < i ==> space@[j] == bytes@[j],
                    decreases n - i,
                {
                    space.set(i, bytes[i]);
                    i = i + 1;
                }
                assert(space@.subrange(0, n as int) =~= bytes@);
                Descriptor::Slice(n)
            },
        };
        proof {
            lemma_round_trip(val@, space@);
        }
        StackBox { desc, space }
    }

    /// Rebuilds the stored value from the buffer and the descriptor. The cell
    /// itself is untouched; a byte sequence is handed out as a `Value` of its
    /// own, which owns its bytes.
    pub fn read(&self) -> (r: Value)
        ensures
            r@ == self@,
    {
        proof {
            use_type_invariant(self);
        }
        match self.desc {
            Descriptor::Word => Value::Word(read_word(&self.space)),
            Descriptor::Slice(n) => {
                let mut out: Vec<u8> = Vec::with_capacity(n);
                let mut i: usize = 0;
                while i < n
                    invariant
                        n <= self.space@.len(),
                        i <= n,
                        out@ == self.space@.subrange(0, i as int),
                    decreases n - i,
                {
                    out.push(self.space[i]);
                    i = i + 1;
                    assert(out@ =~= self.space@.subrange(0, i as int));
                }
                Value::Bytes(out)
            },
        }
    }

    /// Read-write access to a stored word: replaces it with `x`.
    pub fn set_word(&mut self, x: u64)
        requires
            old(self).descriptor() == Descriptor::Word,
        ensures
            final(self)@ == ValueModel::Word(x),
            final(self).descriptor() == old(self).descriptor(),
    {
        proof {
            use_type_invariant(&*self);
        }
        let mut space: [u8; N] = self.space;
        write_word(&mut space, x);
        proof {
            lemma_decode_prefix(Descriptor::Word, space@, word_bytes(x));
            crate::value::lemma_word_round_trip(x);
        }
        *self = StackBox { desc: Descriptor::Word, space };
    }

    /// Read-write access to a stored byte sequence: replaces its byte at
    /// `i` with `b`.
    pub fn set_byte(&mut self, i: usize, b: u8)
        requires
            old(self).descriptor() matches Descriptor::Slice(n) && i < n,
        ensures
            old(self)@ matches ValueModel::Bytes(s) && final(self)@ == ValueModel::Bytes(
                s.update(i as int, b),
            ),
            final(self).descriptor() == old(self).descriptor(),
    {
        proof {
            use_type_invariant(&*self);
        }
        let mut space: [u8; N] = self.space;
        space.set(i, b);
        let ghost n = descriptor_size(self.desc) as int;
        assert(space@.subrange(0, n) =~= self.space@.subrange(0, n).update(i as int, b));
        *self = StackBox { desc: self.desc, space };
    }

    /// Consumes the cell and hands out the value it held.
    pub fn into_value(self) -> (r: Value)
        ensures
            r@ == self@,
    {
        self.read()
    }

    /// Moves the stored bytes into a new cell of `M` bytes, keeping the
    /// descriptor; hands the cell back unchanged when `M` is smaller than
    /// `N`.
    pub fn resize<const M: usize>(self) -> (r: Result<StackBox<M>, StackBox<N>>)
        ensures
            r is Ok <==> N <= M,
            r matches Ok(b) ==> {
                &&& b@ == self@
                &&& b.descriptor() == self.descriptor()
                &&& b.buffer().subrange(0, N as int) == self.buffer()
            },
            r matches Err(b) ==> b == self,
    {
        proof {
            use_type_invariant(&self);
        }
        if N > M {
            Err(self)
        } else {
            let mut space: [u8; M] = [0u8; M];
            let mut i: usize = 0;
            while i < N
                invariant
                    N <= M,
                    i <= N,
                    space@.len() == M,
                    self.space@.len() == N,
                    forall|j: int| 0 <= j < i ==> space@[j] == self.space@[j],
                decreases N - i,
            {
                space.set(i, self.space[i]);
                i = i + 1;
            }
            assert(space@.subrange(0, N as int) =~= self.space@);
            proof {
                lemma_decode_prefix(self.desc, self.space@, space@);
            }
            Ok(StackBox { desc: self.desc, space })
        }
    }
}

/// Destroys every cell of `cells`, handing out the value each one held:
/// exactly one value per cell, in order.
pub fn into_values<const N: usize>(cells: Vec<StackBox<N>>) -> (r: Vec<Value>)
    ensures
        r@.len() == cells@.len(),
        forall|i: int| 0 <= i < r@.len() ==> r@[i]@ == cells@[i]@,
{
    let mut rest = cells;
    let mut out: Vec<Value> = Vec::new();
    while rest.len() > 0
        invariant
            out@.len() + rest@.len() == cells@.len(),
            forall|i: int| 0 <= i < out@.len() ==> out@[i]@ == cells@[i]@,
            forall|i: int|
                0 <= i < rest@.len() ==> rest@[i] == cells@[out@.len() + i],
        decreases rest@.len(),
    {
        let c = rest.remove(0);
        out.push(c.into_value());
    }
    out
}

impl<const N: usize> PartialEq for StackBox<N> {
    /// Two cells are equal when the values they hold are, whatever their
    /// capacities or the bytes past their values.
    fn eq(&self, other: &StackBox<N>) -> (r: bool) {
        proof {
            use_type_invariant(self);
            use_type_invariant(other);
        }
        match (self.desc, other.desc) {
            (Descriptor::Word, Descriptor::Word) => read_word(&self.space) == read_word(
                &other.space,
            ),
            (Descriptor::Slice(n), Descriptor::Slice(m)) => {
                if n != m {
                    assert(self@ != other@) by {
                        assert(self.space@.subrange(0, n as int).len() != other.space@.subrange(
                            0,
                            m as int,
                        ).len());
                    }
                    false
                } else {
                    let ghost a = self.space@.subrange(0, n as int);
                    let ghost c = other.space@.subrange(0, n as int);
                    assert(self@ == ValueModel::Bytes(a));
                    assert(other@ == ValueModel::Bytes(c));
                    let mut i: usize = 0;
                    while i < n
                        invariant
                            n <= self.space@.len(),
                            n <= other.space@.len(),
                            i <= n,
                            a == self.space@.subrange(0, n as int),
                            c == other.space@.subrange(0, n as int),
                            self@ == ValueModel::Bytes(a),
                            other@ == ValueModel::Bytes(c),
                            forall|j: int| 0 <= j < i ==> self.space@[j] == other.space@[j],
                        decreases n - i,
                    {
                        if self.space[i] != other.space[i] {
                            assert(a[i as int] != c[i as int]);
                            return false;
                        }
                        i = i + 1;
                    }
                    assert(self.space@.subrange(0, n as int) =~= other.space@.subrange(
                        0,
                        n as int,
                    ));
                    true
                }
            },
            _ => false,
        }
    }
}

impl<const N: usize> PartialOrd for StackBox<N> {
    /// Orders two cells as the values they hold are ordered.
    fn partial_cmp(&self, other: &StackBox<N>) -> (r: Option<Ordering>) {
        proof {
            use_type_invariant(self);
            use_type_invariant(other);
        }
        match (self.desc, other.desc) {
            (Descriptor::Word, Descriptor::Word) => {
                let x = read_word(&self.space);
                let y = read_word(&other.space);
                if x < y {
                    Some(Ordering::Less)
                } else if x > y {
                    Some(Ordering::Greater)
                } else {
                    Some(Ordering::Equal)
                }
            },
            (Descriptor::Word, Descriptor::Slice(_)) => Some(Ordering::Less),
            (Descriptor::Slice(_), Descriptor::Word) => Some(Ordering::Greater),
            (Descriptor::Slice(n), Descriptor::Slice(m)) => Some(
                compare_bytes(&self.space, n, &other.space, m),
            ),
        }
    }
}

impl<const N: usize> vstd::std_specs::cmp::PartialOrdSpecImpl for StackBox<N> {
    open spec fn obeys_partial_cmp_spec() -> bool {
        true
    }

    open spec fn partial_cmp_spec(&self, other: &StackBox<N>) -> Option<Ordering> {
        Some(value_cmp(self@, other@))
    }
}

impl<const N: usize> vstd::std_specs::cmp::PartialEqSpecImpl for StackBox<N> {
    open spec fn obeys_eq_spec() -> bool {
        true
    }

    open spec fn eq_spec(&self, other: &StackBox<N>) -> bool {
        self@ == other@
    }
}

} // verus!
