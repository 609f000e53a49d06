//! The byte format of every message that is hashed, signed or sent.
//!
//! A structure is the concatenation of its fields in order. Integers are
//! little-endian, a byte array is its bytes, and a sequence is a 32-bit length
//! followed by its elements.

use vstd::prelude::*;

use crate::error::Error;

pub mod laws;

verus! {

/// The little-endian bytes of a 32-bit integer.
pub open spec fn u32_bytes(x: u32) -> Seq<u8> {
    seq![
        (x % 256) as u8,
        ((x / 256) % 256) as u8,
        ((x / 65536) % 256) as u8,
        (x / 16777216) as u8,
    ]
}

/// The integer whose little-endian bytes are the first four of `s`.
pub open spec fn u32_value(s: Seq<u8>) -> u32 {
    (s[0] + 256 * s[1] + 65536 * s[2] + 16777216 * s[3]) as u32
}

/// Reading an integer gives back the one that was written.
pub proof fn lemma_u32_bytes(x: u32)
    ensures
        u32_bytes(x).len() == 4,
        u32_value(u32_bytes(x)) == x,
{
}

/// Every four bytes are those of an integer.
pub proof fn lemma_u32_value(s: Seq<u8>)
    requires
        s.len() >= 4,
    ensures
        s == u32_bytes(u32_value(s)) + s.skip(4),
{
    let (a, b, c, d) = (s[0], s[1], s[2], s[3]);
    let x = u32_value(s);
    assert(x == a + 256 * b + 65536 * c + 16777216 * d);
    assert(x % 256 == a);
    assert(x / 256 == b + 256 * c + 65536 * d);
    assert(x / 65536 == c + 256 * d);
    assert(x / 16777216 == d);
    assert(u32_bytes(x) =~= s.take(4));
    assert(s =~= s.take(4) + s.skip(4));
}

/// The integer with the big-endian bytes `s`.
pub open spec fn big_endian(s: Seq<u8>) -> nat
    decreases s.len(),
{
    if s.len() == 0 {
        0
    } else {
        256 * big_endian(s.drop_last()) + s.last() as nat
    }
}

/// A power of 256.
pub open spec fn pow256(n: nat) -> nat
    decreases n,
{
    if n == 0 {
        1
    } else {
        256 * pow256((n - 1) as nat)
    }
}

/// The last `width` big-endian bytes of an integer.
pub open spec fn be_bytes(x: nat, width: nat) -> Seq<u8>
    decreases width,
{
    if width == 0 {
        Seq::empty()
    } else {
        be_bytes(x / 256, (width - 1) as nat).push((x % 256) as u8)
    }
}

/// An integer that fits in some bytes is the one with these bytes.
pub proof fn lemma_be_bytes(x: nat, width: nat)
    ensures
        be_bytes(x, width).len() == width,
        x < pow256(width) ==> big_endian(be_bytes(x, width)) == x,
    decreases width,
{
    if width > 0 {
        lemma_be_bytes(x / 256, (width - 1) as nat);
        assert(be_bytes(x, width).drop_last() =~= be_bytes(x / 256, (width - 1) as nat));
    }
}

/// Bytes are those of the integer that they stand for.
pub proof fn lemma_big_endian(s: Seq<u8>)
    ensures
        be_bytes(big_endian(s), s.len()) == s,
        big_endian(s) < pow256(s.len()),
    decreases s.len(),
{
    if s.len() == 0 {
        assert(be_bytes(big_endian(s), 0) =~= s);
    } else {
        lemma_big_endian(s.drop_last());
        assert(big_endian(s) / 256 == big_endian(s.drop_last()));
        assert(be_bytes(big_endian(s), s.len()) =~= s.drop_last().push(s.last()));
        assert(s =~= s.drop_last().push(s.last()));
    }
}

/// Appends the last big-endian bytes of an integer to a buffer.
pub fn put_be(out: &mut Vec<u8>, x: u128, width: usize)
    ensures
        final(out)@ == old(out)@ + be_bytes(x as nat, width as nat),
    decreases width,
{
    if width > 0 {
        put_be(out, x / 256, width - 1);
        out.push((x % 256) as u8);
    }
    assert(out@ =~= old(out)@ + be_bytes(x as nat, width as nat));
}

/// The integer with some big-endian bytes, of which there are at most sixteen.
pub fn read_be(bytes: &[u8]) -> (r: u128)
    requires
        bytes@.len() <= 16,
    ensures
        r == big_endian(bytes@),
{
    let mut x: u128 = 0;
    let mut i: usize = 0;
    reveal_with_fuel(pow256, 17);
    while i < bytes.len()
        invariant
            i <= bytes@.len() <= 16,
            x == big_endian(bytes@.take(i as int)),
            x < pow256(i as nat),
        decreases bytes@.len() - i,
    {
        reveal_with_fuel(pow256, 17);
        assert(bytes@.take(i + 1).drop_last() =~= bytes@.take(i as int));
        x = x * 256 + bytes[i] as u128;
        i += 1;
    }
    assert(bytes@.take(i as int) =~= bytes@);
    x
}

/// The bytes of a sequence of bytes: its length, then itself.
pub open spec fn blob_bytes(s: Seq<u8>) -> Seq<u8> {
    u32_bytes(s.len() as u32) + s
}

/// Whether `s` is long enough for a length and the bytes that it announces.
pub open spec fn holds_blob(s: Seq<u8>) -> bool {
    s.len() >= 4 && s.len() >= 4 + u32_value(s)
}

/// Two concatenations that agree, and whose first parts are equally long,
/// agree part by part.
pub proof fn lemma_append_cancel(a: Seq<u8>, ra: Seq<u8>, b: Seq<u8>, rb: Seq<u8>)
    requires
        a + ra == b + rb,
        a.len() == b.len(),
    ensures
        a == b,
        ra == rb,
{
    assert(a =~= (a + ra).take(a.len() as int));
    assert(b =~= (b + rb).take(b.len() as int));
    assert(ra =~= (a + ra).skip(a.len() as int));
    assert(rb =~= (b + rb).skip(b.len() as int));
}

/// The bytes of an integer say where they end.
pub proof fn lemma_u32_prefix(a: u32, ra: Seq<u8>, b: u32, rb: Seq<u8>)
    requires
        u32_bytes(a) + ra == u32_bytes(b) + rb,
    ensures
        a == b,
        ra == rb,
{
    lemma_append_cancel(u32_bytes(a), ra, u32_bytes(b), rb);
    lemma_u32_bytes(a);
    lemma_u32_bytes(b);
}

/// The bytes of a sequence of bytes say where they end.
pub proof fn lemma_blob_prefix(a: Seq<u8>, ra: Seq<u8>, b: Seq<u8>, rb: Seq<u8>)
    requires
        a.len() <= u32::MAX,
        b.len() <= u32::MAX,
        blob_bytes(a) + ra == blob_bytes(b) + rb,
    ensures
        a == b,
        ra == rb,
{
    assert(blob_bytes(a) + ra =~= u32_bytes(a.len() as u32) + (a + ra));
    assert(blob_bytes(b) + rb =~= u32_bytes(b.len() as u32) + (b + rb));
    lemma_u32_prefix(a.len() as u32, a + ra, b.len() as u32, b + rb);
    lemma_append_cancel(a, ra, b, rb);
}

#[verifier::external_type_specification]
#[verifier::external_body]
pub struct ExIoError(std::io::Error);

/// Calls `borsh::to_vec` on a `u32`, which writes its four little-endian bytes
/// to a vector and so never fails.
#[verifier::external_body]
fn borsh_u32(x: u32) -> (r: Vec<u8>)
    ensures
        r@ == u32_bytes(x),
{
    borsh::to_vec(&x).unwrap()
}

/// Calls `borsh::to_vec` on a vector of bytes. It writes the length as a `u32`
/// and then the bytes, and fails just when the length does not fit.
#[verifier::external_body]
fn borsh_blob(bytes: &Vec<u8>) -> (r: Result<Vec<u8>, std::io::Error>)
    ensures
        r is Ok <==> bytes@.len() <= u32::MAX,
        r matches Ok(v) ==> v@ == blob_bytes(bytes@),
{
    borsh::to_vec(bytes)
}

/// Calls `borsh::BorshDeserialize::deserialize` for a `u32`. It reads the first
/// four bytes as a little-endian integer, and fails just when there are fewer.
#[verifier::external_body]
fn borsh_read_u32(bytes: &[u8]) -> (r: Result<u32, std::io::Error>)
    ensures
        r is Ok <==> bytes@.len() >= 4,
        r matches Ok(x) ==> x == u32_value(bytes@),
{
    borsh::BorshDeserialize::deserialize(&mut &*bytes)
}

/// Calls `borsh::BorshDeserialize::deserialize` for a vector of bytes. It reads
/// a `u32` length and then as many bytes, and fails just when there are fewer.
#[verifier::external_body]
fn borsh_read_blob(bytes: &[u8]) -> (r: Result<Vec<u8>, std::io::Error>)
    ensures
        r is Ok <==> holds_blob(bytes@),
        r matches Ok(v) ==> v@ == bytes@.subrange(4, 4 + u32_value(bytes@)),
{
    borsh::BorshDeserialize::deserialize(&mut &*bytes)
}

/// Whether two byte strings are the same.
pub fn same_bytes(a: &[u8], b: &[u8]) -> (r: bool)
    ensures
        r <==> a@ == b@,
{
    if a.len() != b.len() {
        return false;
    }
    let mut i: usize = 0;
    while i < a.len()
        invariant
            a@.len() == b@.len(),
            i <= a@.len(),
            a@.take(i as int) == b@.take(i as int),
        decreases a@.len() - i,
    {
        if a[i] != b[i] {
            assert(a@[i as int] != b@[i as int]);
            return false;
        }
        assert(a@.take(i + 1) =~= a@.take(i as int).push(a@[i as int]));
        assert(b@.take(i + 1) =~= b@.take(i as int).push(b@[i as int]));
        i += 1;
    }
    assert(a@ =~= a@.take(i as int));
    assert(b@ =~= b@.take(i as int));
    true
}

/// Appends bytes to a buffer.
pub fn put_bytes(out: &mut Vec<u8>, bytes: &[u8])
    ensures
        final(out)@ == old(out)@ + bytes@,
{
    out.extend_from_slice(bytes);
    assert(out@ =~= old(out)@ + bytes@);
}

/// Appends the bytes of an integer to a buffer.
pub fn put_u32(out: &mut Vec<u8>, x: u32)
    ensures
        final(out)@ == old(out)@ + u32_bytes(x),
{
    let bytes = borsh_u32(x);
    put_bytes(out, bytes.as_slice());
}

/// Appends the bytes of a sequence of bytes to a buffer.
pub fn put_blob(out: &mut Vec<u8>, bytes: &Vec<u8>) -> (r: Result<(), Error>)
    ensures
        match r {
            Ok(_) => bytes@.len() <= u32::MAX && final(out)@ == old(out)@ + blob_bytes(bytes@),
            Err(e) => e == Error::Encoding && bytes@.len() > u32::MAX && final(out)@ == old(out)@,
        },
{
    match borsh_blob(bytes) {
        Ok(encoded) => {
            put_bytes(out, encoded.as_slice());
            Ok(())
        },
        Err(_) => Err(Error::Encoding),
    }
}

/// What follows the first `n` bytes.
pub fn rest_of<'a>(bytes: &'a [u8], n: usize) -> (rest: &'a [u8])
    requires
        n <= bytes@.len(),
    ensures
        rest@ == bytes@.skip(n as int),
{
    let rest = vstd::slice::slice_subrange(bytes, n, bytes.len());
    assert(rest@ =~= bytes@.skip(n as int));
    rest
}

/// Takes one byte off the front.
pub fn take_u8<'a>(bytes: &'a [u8]) -> (r: Option<(u8, &'a [u8])>)
    ensures
        match r {
            Some((x, rest)) => bytes@ == seq![x] + rest@,
            None => bytes@.len() == 0,
        },
{
    if bytes.len() == 0 {
        None
    } else {
        let rest = rest_of(bytes, 1);
        assert(bytes@ =~= seq![bytes@[0]] + rest@);
        Some((bytes[0], rest))
    }
}

/// Takes an integer off the front.
pub fn take_u32<'a>(bytes: &'a [u8]) -> (r: Option<(u32, &'a [u8])>)
    ensures
        match r {
            Some((x, rest)) => bytes@ == u32_bytes(x) + rest@,
            None => bytes@.len() < 4,
        },
{
    match borsh_read_u32(bytes) {
        Ok(x) => {
            proof {
                lemma_u32_value(bytes@);
            }
            Some((x, rest_of(bytes, 4)))
        },
        Err(_) => None,
    }
}

/// Takes a sequence of bytes off the front.
pub fn take_blob<'a>(bytes: &'a [u8]) -> (r: Option<(Vec<u8>, &'a [u8])>)
    ensures
        match r {
            Some((x, rest)) => x@.len() <= u32::MAX && bytes@ == blob_bytes(x@) + rest@,
            None => forall|x: Seq<u8>, rest: Seq<u8>|
                x.len() <= u32::MAX ==> bytes@ != #[trigger] (blob_bytes(x) + rest),
        },
{
    match borsh_read_blob(bytes) {
        Ok(x) => {
            let total: usize = bytes.len();
            assert(4 + x@.len() <= total);
            let rest = rest_of(bytes, 4 + x.len());
            proof {
                lemma_u32_value(bytes@);
                assert(bytes@ =~= blob_bytes(x@) + rest@);
            }
            Some((x, rest))
        },
        Err(_) => {
            assert forall|x: Seq<u8>, rest: Seq<u8>| x.len() <= u32::MAX implies bytes@
                != #[trigger] (blob_bytes(x) + rest) by {
                if bytes@ == blob_bytes(x) + rest {
                    lemma_u32_bytes(x.len() as u32);
                    assert(u32_value(bytes@) == u32_value(u32_bytes(x.len() as u32)));
                }
            }
            None
        },
    }
}

/// Takes a fixed number of bytes off the front.
pub fn take_array<'a, const N: usize>(bytes: &'a [u8]) -> (r: Option<([u8; N], &'a [u8])>)
    ensures
        match r {
            Some((x, rest)) => bytes@ == x@ + rest@,
            None => bytes@.len() < N,
        },
{
    if bytes.len() < N {
        return None;
    }
    let mut x: [u8; N] = [0u8; N];
    let mut i: usize = 0;
    while i < N
        invariant
            i <= N <= bytes@.len(),
            x@.take(i as int) == bytes@.take(i as int),
        decreases N - i,
    {
        let ghost before = x@;
        x[i] = bytes[i];
        assert(x@.take(i + 1) =~= before.take(i as int).push(bytes@[i as int]));
        assert(bytes@.take(i + 1) =~= bytes@.take(i as int).push(bytes@[i as int]));
        i += 1;
    }
    let rest = rest_of(bytes, N);
    assert(x@ =~= x@.take(N as int));
    assert(bytes@ =~= x@ + rest@);
    Some((x, rest))
}

/// Whether `bytes` starts with the encoding of `v` and ends with `rest`.
pub open spec fn is_encoded<M: Format>(bytes: Seq<u8>, v: M::V, rest: Seq<u8>) -> bool {
    M::encodable(v) && bytes == M::encoding(v) + rest
}

/// A byte format for the values of a type.
pub trait Format: DeepView + Sized {
    /// Whether the value has an encoding.
    spec fn encodable(v: Self::V) -> bool;

    /// The bytes that stand for the value.
    spec fn encoding(v: Self::V) -> Seq<u8>;
}

/// Whether bytes are the encoding of some value.
pub open spec fn decodes<M: Format>(bytes: Seq<u8>) -> bool {
    exists|v: M::V| #[trigger] M::encodable(v) && bytes == M::encoding(v)
}

/// A type whose values can be written in their format and read back.
pub trait Encode: Format {
    /// An encoding says where it ends and which value it stands for.
    proof fn encoding_prefix(a: Self::V, ra: Seq<u8>, b: Self::V, rb: Seq<u8>)
        requires
            Self::encodable(a),
            Self::encodable(b),
            Self::encoding(a) + ra == Self::encoding(b) + rb,
        ensures
            a == b,
            ra == rb,
    ;

    /// Appends the encoding to a buffer. The buffer is meaningless after a failure.
    fn put(&self, out: &mut Vec<u8>) -> (r: Result<(), Error>)
        ensures
            match r {
                Ok(_) => Self::encodable(self.deep_view()) && final(out)@ == old(out)@
                    + Self::encoding(self.deep_view()),
                Err(e) => e == Error::Encoding && !Self::encodable(self.deep_view()),
            },
    ;

    /// Whether a value is one that reading gives: it holds nothing but what its
    /// encoding says.
    open spec fn is_plain(&self) -> bool {
        true
    }

    /// Takes an encoded value off the front.
    fn take<'a>(bytes: &'a [u8]) -> (r: Option<(Self, &'a [u8])>)
        ensures
            match r {
                Some((v, rest)) => is_encoded::<Self>(bytes@, v.deep_view(), rest@)
                    && v.is_plain(),
                None => forall|v: Self::V, rest: Seq<u8>|
                    !#[trigger] is_encoded::<Self>(bytes@, v, rest),
            },
    ;
}

/// The encoding of a value, as a new buffer.
pub fn encode<M: Encode>(value: &M) -> (r: Result<Vec<u8>, Error>)
    ensures
        match r {
            Ok(bytes) => M::encodable(value.deep_view()) && bytes@ == M::encoding(
                value.deep_view(),
            ),
            Err(e) => e == Error::Encoding && !M::encodable(value.deep_view()),
        },
{
    let mut out: Vec<u8> = Vec::new();
    match value.put(&mut out) {
        Ok(_) => {
            assert(out@ =~= M::encoding(value.deep_view()));
            Ok(out)
        },
        Err(e) => Err(e),
    }
}

/// The value that `bytes` is the encoding of.
pub fn decode<M: Encode>(bytes: &[u8]) -> (r: Result<M, Error>)
    ensures
        match r {
            Ok(v) => M::encodable(v.deep_view()) && bytes@ == M::encoding(v.deep_view())
                && v.is_plain(),
            Err(e) => e == Error::Decoding && forall|v: M::V| #[trigger]
                M::encodable(v) ==> bytes@ != M::encoding(v),
        },
{
    match M::take(bytes) {
        Some((v, rest)) => {
            if rest.len() == 0 {
                assert(bytes@ =~= M::encoding(v.deep_view()));
                Ok(v)
            } else {
                assert forall|w: M::V| #[trigger] M::encodable(w) implies bytes@ != M::encoding(
                    w,
                ) by {
                    if bytes@ == M::encoding(w) {
                        assert(bytes@ =~= M::encoding(w) + Seq::<u8>::empty());
                        M::encoding_prefix(v.deep_view(), rest@, w, Seq::empty());
                    }
                }
                Err(Error::Decoding)
            }
        },
        None => {
            assert forall|w: M::V| #[trigger] M::encodable(w) implies bytes@ != M::encoding(w) by {
                if bytes@ == M::encoding(w) {
                    assert(bytes@ =~= M::encoding(w) + Seq::<u8>::empty());
                    assert(is_encoded::<M>(bytes@, w, Seq::empty()));
                }
            }
            Err(Error::Decoding)
        },
    }
}

/// Reading gives back what was written: whatever value decodes from the
/// encoding of `v` is `v`.
pub proof fn law_decode_encode<M: Encode>(v: M::V, w: M::V)
    requires
        M::encodable(v),
        M::encodable(w),
        M::encoding(w) == M::encoding(v),
    ensures
        w == v,
{
    M::encoding_prefix(v, Seq::empty(), w, Seq::empty());
}

/// The encodings of the elements, one after the other.
pub open spec fn concat_encodings<M: Format>(s: Seq<M::V>) -> Seq<u8>
    decreases s.len(),
{
    if s.len() == 0 {
        Seq::empty()
    } else {
        M::encoding(s.first()) + concat_encodings::<M>(s.drop_first())
    }
}

/// Whether every element has an encoding.
pub open spec fn all_encodable<M: Format>(s: Seq<M::V>) -> bool {
    forall|i: int| 0 <= i < s.len() ==> M::encodable(#[trigger] s[i])
}

proof fn lemma_concat_split<M: Format>(a: Seq<M::V>, b: Seq<M::V>)
    ensures
        concat_encodings::<M>(a + b) == concat_encodings::<M>(a) + concat_encodings::<M>(b),
    decreases a.len(),
{
    if a.len() == 0 {
        assert(a + b =~= b);
        assert(concat_encodings::<M>(a) + concat_encodings::<M>(b) =~= concat_encodings::<M>(b));
    } else {
        lemma_concat_split::<M>(a.drop_first(), b);
        assert((a + b).drop_first() =~= a.drop_first() + b);
        assert(concat_encodings::<M>(a + b) =~= concat_encodings::<M>(a) + concat_encodings::<M>(
            b,
        ));
    }
}

proof fn lemma_concat_push<M: Format>(a: Seq<M::V>, x: M::V)
    ensures
        concat_encodings::<M>(a.push(x)) == concat_encodings::<M>(a) + M::encoding(x),
{
    assert(a.push(x) =~= a + seq![x]);
    lemma_concat_split::<M>(a, seq![x]);
    assert(seq![x].drop_first() =~= Seq::<M::V>::empty());
    assert(concat_encodings::<M>(seq![x].drop_first()) =~= Seq::<u8>::empty());
    assert(concat_encodings::<M>(seq![x]) =~= M::encoding(x));
}

proof fn lemma_concat_prefix<M: Encode>(
    a: Seq<M::V>,
    ra: Seq<u8>,
    b: Seq<M::V>,
    rb: Seq<u8>,
)
    requires
        a.len() == b.len(),
        all_encodable::<M>(a),
        all_encodable::<M>(b),
        concat_encodings::<M>(a) + ra == concat_encodings::<M>(b) + rb,
    ensures
        a == b,
        ra == rb,
    decreases a.len(),
{
    if a.len() == 0 {
        assert(a =~= b);
        assert(concat_encodings::<M>(a) + ra =~= ra);
        assert(concat_encodings::<M>(b) + rb =~= rb);
    } else {
        let ta = concat_encodings::<M>(a.drop_first());
        let tb = concat_encodings::<M>(b.drop_first());
        assert(concat_encodings::<M>(a) + ra =~= M::encoding(a[0]) + (ta + ra));
        assert(concat_encodings::<M>(b) + rb =~= M::encoding(b[0]) + (tb + rb));
        M::encoding_prefix(a[0], ta + ra, b[0], tb + rb);
        lemma_concat_prefix::<M>(a.drop_first(), ra, b.drop_first(), rb);
        assert(a =~= seq![a[0]] + a.drop_first());
        assert(b =~= seq![b[0]] + b.drop_first());
    }
}

impl<T: Encode> Format for Vec<T> {
    open spec fn encodable(v: Seq<T::V>) -> bool {
        v.len() <= u32::MAX && all_encodable::<T>(v)
    }

    open spec fn encoding(v: Seq<T::V>) -> Seq<u8> {
        u32_bytes(v.len() as u32) + concat_encodings::<T>(v)
    }
}

impl<T: Encode> Encode for Vec<T> {
    proof fn encoding_prefix(a: Seq<T::V>, ra: Seq<u8>, b: Seq<T::V>, rb: Seq<u8>) {
        let ea = concat_encodings::<T>(a);
        let eb = concat_encodings::<T>(b);
        assert(Self::encoding(a) + ra =~= u32_bytes(a.len() as u32) + (ea + ra));
        assert(Self::encoding(b) + rb =~= u32_bytes(b.len() as u32) + (eb + rb));
        lemma_u32_prefix(a.len() as u32, ea + ra, b.len() as u32, eb + rb);
        lemma_concat_prefix::<T>(a, ra, b, rb);
    }

    fn put(&self, out: &mut Vec<u8>) -> (r: Result<(), Error>) {
        let ghost before = out@;
        let ghost view = self.deep_view();
        if self.len() > 4294967295 {
            return Err(Error::Encoding);
        }
        put_u32(out, self.len() as u32);
        let mut i: usize = 0;
        assert(concat_encodings::<T>(view.take(0)) =~= Seq::<u8>::empty());
        assert(out@ =~= before + u32_bytes(view.len() as u32) + concat_encodings::<T>(
            view.take(0),
        ));
        while i < self.len()
            invariant
                view == self.deep_view(),
                i <= self@.len(),
                all_encodable::<T>(view.take(i as int)),
                out@ == before + u32_bytes(view.len() as u32) + concat_encodings::<T>(
                    view.take(i as int),
                ),
            decreases self@.len() - i,
        {
            let ghost sofar = out@;
            match self[i].put(out) {
                Ok(_) => {},
                Err(_) => {
                    assert(!T::encodable(view[i as int]));
                    return Err(Error::Encoding);
                },
            }
            proof {
                assert(view.take(i + 1) =~= view.take(i as int).push(view[i as int]));
                lemma_concat_push::<T>(view.take(i as int), view[i as int]);
                assert(out@ =~= before + u32_bytes(view.len() as u32) + concat_encodings::<T>(
                    view.take(i + 1),
                ));
            }
            i += 1;
        }
        proof {
            assert(view.take(i as int) =~= view);
            assert(out@ =~= before + Self::encoding(view));
        }
        Ok(())
    }

    open spec fn is_plain(&self) -> bool {
        forall|i: int| 0 <= i < self@.len() ==> (#[trigger] self@[i]).is_plain()
    }

    fn take<'a>(bytes: &'a [u8]) -> (r: Option<(Self, &'a [u8])>) {
        let (n, body) = match take_u32(bytes) {
            Some(r) => r,
            None => {
                assert forall|v: Seq<T::V>, rest: Seq<u8>| !#[trigger] is_encoded::<Self>(
                    bytes@,
                    v,
                    rest,
                ) by {
                    lemma_u32_bytes(v.len() as u32);
                }
                return None;
            },
        };
        let mut items: Vec<T> = Vec::new();
        let mut rest: &'a [u8] = body;
        let mut i: u32 = 0;
        assert(concat_encodings::<T>(items.deep_view()) + rest@ =~= body@);
        while i < n
            invariant
                i <= n,
                items@.len() == i,
                forall|j: int| 0 <= j < i ==> (#[trigger] items@[j]).is_plain(),
                all_encodable::<T>(items.deep_view()),
                body@ == concat_encodings::<T>(items.deep_view()) + rest@,
                bytes@ == u32_bytes(n) + body@,
            decreases n - i,
        {
            let ghost before = items.deep_view();
            match T::take(rest) {
                Some((item, tail)) => {
                    proof {
                        lemma_concat_push::<T>(before, item.deep_view());
                    }
                    items.push(item);
                    assert(items.deep_view() =~= before.push(item.deep_view()));
                    assert(body@ =~= concat_encodings::<T>(items.deep_view()) + tail@);
                    rest = tail;
                },
                None => {
                    assert forall|v: Seq<T::V>, r: Seq<u8>| !#[trigger] is_encoded::<Self>(
                        bytes@,
                        v,
                        r,
                    ) by {
                        if is_encoded::<Self>(bytes@, v, r) {
                            let all = concat_encodings::<T>(v);
                            assert(Self::encoding(v) + r =~= u32_bytes(v.len() as u32) + (all
                                + r));
                            lemma_u32_prefix(v.len() as u32, all + r, n, body@);
                            let head = v.take(i as int);
                            let tail = v.skip(i as int);
                            assert(v =~= head + tail);
                            lemma_concat_split::<T>(head, tail);
                            let et = concat_encodings::<T>(tail);
                            assert(all + r =~= concat_encodings::<T>(head) + (et + r));
                            lemma_concat_prefix::<T>(before, rest@, head, et + r);
                            let more = concat_encodings::<T>(tail.drop_first());
                            assert(rest@ =~= T::encoding(tail[0]) + (more + r));
                            assert(T::encodable(v[i as int]));
                            assert(is_encoded::<T>(rest@, tail[0], more + r));
                        }
                    }
                    return None;
                },
            }
            i += 1;
        }
        assert(bytes@ =~= Self::encoding(items.deep_view()) + rest@);
        Some((items, rest))
    }
}

impl Format for u8 {
    open spec fn encodable(v: u8) -> bool {
        true
    }

    open spec fn encoding(v: u8) -> Seq<u8> {
        seq![v]
    }
}

impl Encode for u8 {
    proof fn encoding_prefix(a: u8, ra: Seq<u8>, b: u8, rb: Seq<u8>) {
        lemma_append_cancel(seq![a], ra, seq![b], rb);
        assert(seq![a][0] == seq![b][0]);
    }

    fn put(&self, out: &mut Vec<u8>) -> (r: Result<(), Error>) {
        out.push(*self);
        assert(out@ =~= old(out)@ + seq![*self]);
        Ok(())
    }

    fn take<'a>(bytes: &'a [u8]) -> (r: Option<(Self, &'a [u8])>) {
        take_u8(bytes)
    }
}

impl Format for u32 {
    open spec fn encodable(v: u32) -> bool {
        true
    }

    open spec fn encoding(v: u32) -> Seq<u8> {
        u32_bytes(v)
    }
}

impl Encode for u32 {
    proof fn encoding_prefix(a: u32, ra: Seq<u8>, b: u32, rb: Seq<u8>) {
        lemma_u32_prefix(a, ra, b, rb);
    }

    fn put(&self, out: &mut Vec<u8>) -> (r: Result<(), Error>) {
        put_u32(out, *self);
        Ok(())
    }

    fn take<'a>(bytes: &'a [u8]) -> (r: Option<(Self, &'a [u8])>) {
        take_u32(bytes)
    }
}

impl<const N: usize> Format for [u8; N] {
    open spec fn encodable(v: Seq<u8>) -> bool {
        v.len() == N
    }

    open spec fn encoding(v: Seq<u8>) -> Seq<u8> {
        v
    }
}

impl<const N: usize> Encode for [u8; N] {
    proof fn encoding_prefix(a: Seq<u8>, ra: Seq<u8>, b: Seq<u8>, rb: Seq<u8>) {
        lemma_append_cancel(a, ra, b, rb);
    }

    fn put(&self, out: &mut Vec<u8>) -> (r: Result<(), Error>) {
        assert(self.deep_view() =~= self@);
        put_bytes(out, self.as_slice());
        Ok(())
    }

    fn take<'a>(bytes: &'a [u8]) -> (r: Option<(Self, &'a [u8])>) {
        let r = take_array::<N>(bytes);
        assert(r matches Some((x, rest)) ==> x.deep_view() =~= x@);
        r
    }
}

/// A sequence of bytes, written as a whole.
#[derive(Debug, PartialEq, Eq)]
pub struct Blob(pub Vec<u8>);

impl DeepView for Blob {
    type V = Seq<u8>;

    open spec fn deep_view(&self) -> Seq<u8> {
        self.0@
    }
}

impl Format for Blob {
    open spec fn encodable(v: Seq<u8>) -> bool {
        v.len() <= u32::MAX
    }

    open spec fn encoding(v: Seq<u8>) -> Seq<u8> {
        blob_bytes(v)
    }
}

impl Encode for Blob {
    proof fn encoding_prefix(a: Seq<u8>, ra: Seq<u8>, b: Seq<u8>, rb: Seq<u8>) {
        lemma_blob_prefix(a, ra, b, rb);
    }

    fn put(&self, out: &mut Vec<u8>) -> (r: Result<(), Error>) {
        put_blob(out, &self.0)
    }

    fn take<'a>(bytes: &'a [u8]) -> (r: Option<(Self, &'a [u8])>) {
        match take_blob(bytes) {
            Some((x, rest)) => Some((Blob(x), rest)),
            None => None,
        }
    }
}

impl<A: Encode, B: Encode> Format for (A, B) {
    open spec fn encodable(v: (A::V, B::V)) -> bool {
        A::encodable(v.0) && B::encodable(v.1)
    }

    open spec fn encoding(v: (A::V, B::V)) -> Seq<u8> {
        A::encoding(v.0) + B::encoding(v.1)
    }
}

impl<A: Encode, B: Encode> Encode for (A, B) {
    proof fn encoding_prefix(a: (A::V, B::V), ra: Seq<u8>, b: (A::V, B::V), rb: Seq<u8>) {
        assert(Self::encoding(a) + ra =~= A::encoding(a.0) + (B::encoding(a.1) + ra));
        assert(Self::encoding(b) + rb =~= A::encoding(b.0) + (B::encoding(b.1) + rb));
        A::encoding_prefix(a.0, B::encoding(a.1) + ra, b.0, B::encoding(b.1) + rb);
        B::encoding_prefix(a.1, ra, b.1, rb);
    }

    fn put(&self, out: &mut Vec<u8>) -> (r: Result<(), Error>) {
        let ghost before = out@;
        match self.0.put(out) {
            Ok(_) => {},
            Err(e) => return Err(e),
        }
        let r = self.1.put(out);
        assert(before + A::encoding(self.0.deep_view()) + B::encoding(self.1.deep_view())
            =~= before + Self::encoding(self.deep_view()));
        r
    }

    open spec fn is_plain(&self) -> bool {
        self.0.is_plain() && self.1.is_plain()
    }

    fn take<'a>(bytes: &'a [u8]) -> (r: Option<(Self, &'a [u8])>) {
        let (first, middle) = match A::take(bytes) {
            Some(r) => r,
            None => {
                assert forall|v: (A::V, B::V), rest: Seq<u8>| !#[trigger] is_encoded::<Self>(
                    bytes@,
                    v,
                    rest,
                ) by {
                    assert(Self::encoding(v) + rest =~= A::encoding(v.0) + (B::encoding(v.1)
                        + rest));
                    assert(!is_encoded::<A>(bytes@, v.0, B::encoding(v.1) + rest));
                }
                return None;
            },
        };
        match B::take(middle) {
            Some((second, rest)) => {
                assert(bytes@ =~= A::encoding(first.deep_view()) + B::encoding(second.deep_view())
                    + rest@);
                Some(((first, second), rest))
            },
            None => {
                assert forall|v: (A::V, B::V), rest: Seq<u8>| !#[trigger] is_encoded::<Self>(
                    bytes@,
                    v,
                    rest,
                ) by {
                    if is_encoded::<Self>(bytes@, v, rest) {
                        let tail = B::encoding(v.1) + rest;
                        assert(Self::encoding(v) + rest =~= A::encoding(v.0) + tail);
                        A::encoding_prefix(v.0, tail, first.deep_view(), middle@);
                        assert(is_encoded::<B>(middle@, v.1, rest));
                    }
                }
                None
            },
        }
    }
}

} // verus!
