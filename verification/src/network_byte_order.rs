//! Canonical network-endian (big-endian) codec.
//!
//! Values encode deterministically: unsigned integers as fixed-width
//! big-endian bytes, tuples as the concatenation of their fields, and byte
//! sequences verbatim as a final field. [`ToNe`] serializes, [`Ne`] parses
//! back; decoding a compound value consumes fields in declared order.

use vstd::prelude::*;
use vstd::arithmetic::div_mod::lemma_fundamental_div_mod;
use vstd::arithmetic::div_mod::lemma_fundamental_div_mod_converse;
use crate::PowError;

verus! {

/// 256 raised to `n`: the number of byte strings of length `n`.
pub open spec fn pow256(n: nat) -> nat
    decreases n,
{
    if n == 0 {
        1
    } else {
        256 * pow256((n - 1) as nat)
    }
}

/// The `n`-byte big-endian encoding of `v % pow256(n)`: most significant
/// byte first.
pub open spec fn be_bytes(v: nat, n: nat) -> Seq<u8>
    decreases n,
{
    if n == 0 {
        Seq::empty()
    } else {
        be_bytes(v / 256, (n - 1) as nat).push((v % 256) as u8)
    }
}

/// The value of a byte string read as a big-endian unsigned integer.
pub open spec fn be_val(s: Seq<u8>) -> nat
    decreases s.len(),
{
    if s.len() == 0 {
        0
    } else {
        (be_val(s.drop_last()) * 256 + s.last()) as nat
    }
}

pub proof fn lemma_pow256_increases(a: nat, b: nat)
    requires
        a <= b,
    ensures
        pow256(a) <= pow256(b),
    decreases b,
{
    if a < b {
        lemma_pow256_increases(a, (b - 1) as nat);
        assert(pow256(b) == 256 * pow256((b - 1) as nat));
    }
}

pub proof fn lemma_pow256_unfold_16()
    ensures
        pow256(1) == 0x100,
        pow256(8) == 0x1_0000_0000_0000_0000,
        pow256(16) == 0x1_0000_0000_0000_0000_0000_0000_0000_0000,
{
    reveal_with_fuel(pow256, 17);
}

pub proof fn lemma_be_bytes_len(v: nat, n: nat)
    ensures
        be_bytes(v, n).len() == n,
    decreases n,
{
    if n > 0 {
        lemma_be_bytes_len(v / 256, (n - 1) as nat);
    }
}

/// A byte string's big-endian value is bounded by `pow256` of its length.
pub proof fn lemma_be_val_bound(s: Seq<u8>)
    ensures
        be_val(s) < pow256(s.len()),
    decreases s.len(),
{
    if s.len() > 0 {
        lemma_be_val_bound(s.drop_last());
        assert(be_val(s.drop_last()) * 256 + s.last() < 256 * pow256((s.len() - 1) as nat))
            by (nonlinear_arith)
            requires
                be_val(s.drop_last()) < pow256((s.len() - 1) as nat),
                s.last() < 256,
        ;
    }
}

/// Reading back the big-endian encoding of `v` yields `v` again.
pub proof fn lemma_be_val_be_bytes(v: nat, n: nat)
    requires
        v < pow256(n),
    ensures
        be_val(be_bytes(v, n)) == v,
    decreases n,
{
    if n == 0 {
        assert(v == 0);
    } else {
        let q = v / 256;
        let r = v % 256;
        lemma_fundamental_div_mod(v as int, 256);
        assert(q < pow256((n - 1) as nat)) by (nonlinear_arith)
            requires
                v < 256 * pow256((n - 1) as nat),
                v == 256 * q + r,
                0 <= r,
        ;
        lemma_be_val_be_bytes(q, (n - 1) as nat);
        let inner = be_bytes(q, (n - 1) as nat);
        assert(inner.push(r as u8).drop_last() =~= inner);
        assert(be_val(be_bytes(v, n)) == q * 256 + r);
    }
}

/// Encoding the big-endian value of a byte string at its own length yields
/// the same byte string.
pub proof fn lemma_be_bytes_be_val(s: Seq<u8>)
    ensures
        be_bytes(be_val(s), s.len()) == s,
    decreases s.len(),
{
    if s.len() == 0 {
        assert(be_bytes(be_val(s), s.len()) =~= s);
    } else {
        let front = s.drop_last();
        let v = be_val(s);
        lemma_fundamental_div_mod_converse(v as int, 256, be_val(front) as int, s.last() as int);
        assert(v / 256 == be_val(front));
        assert(v % 256 == s.last());
        lemma_be_bytes_be_val(front);
        assert(be_bytes(v, s.len()) =~= s);
    }
}

/// Appends the `n`-byte big-endian encoding of `v` to `dest`.
pub(crate) fn put_be(v: u128, n: usize, dest: &mut Vec<u8>)
    ensures
        final(dest)@ == old(dest)@ + be_bytes(v as nat, n as nat),
    decreases n,
{
    if n == 0 {
        assert(final(dest)@ =~= old(dest)@ + be_bytes(v as nat, 0));
    } else {
        put_be(v / 256, n - 1, dest);
        dest.push((v % 256) as u8);
        assert(final(dest)@ =~= old(dest)@ + be_bytes(v as nat, n as nat));
    }
}

/// Reads the first `n` bytes of `src` as a big-endian unsigned integer.
pub(crate) fn read_be(src: &[u8], n: usize) -> (r: u128)
    requires
        n <= src@.len(),
        n <= 16,
    ensures
        r as nat == be_val(src@.take(n as int)),
{
    proof {
        lemma_pow256_unfold_16();
    }
    let mut acc: u128 = 0;
    let mut i: usize = 0;
    while i < n
        invariant
            i <= n,
            n <= src@.len(),
            n <= 16,
            acc as nat == be_val(src@.take(i as int)),
            pow256(16) == 0x1_0000_0000_0000_0000_0000_0000_0000_0000,
        decreases n - i,
    {
        proof {
            lemma_be_val_bound(src@.take(i as int));
            lemma_pow256_increases((i + 1) as nat, 16);
            assert((acc as nat) * 256 + src@[i as int] < 256 * pow256(i as nat))
                by (nonlinear_arith)
                requires
                    (acc as nat) < pow256(i as nat),
                    src@[i as int] < 256,
            ;
            assert(src@.take(i + 1).drop_last() =~= src@.take(i as int));
            assert(src@.take(i + 1).last() == src@[i as int]);
        }
        acc = acc * 256 + (src[i] as u128);
        i = i + 1;
    }
    assert(src@.take(n as int) == src@.take(i as int));
    acc
}

/// Appends all of `src` to `dest`.
pub fn put(src: &[u8], dest: &mut Vec<u8>)
    ensures
        final(dest)@ == old(dest)@ + src@,
{
    let ghost orig: Seq<u8> = dest@;
    let mut i: usize = 0;
    while i < src.len()
        invariant
            i <= src@.len(),
            dest@ == orig + src@.take(i as int),
        decreases src@.len() - i,
    {
        dest.push(src[i]);
        proof {
            assert(orig + src@.take(i as int) + seq![src@[i as int]] =~= orig + src@.take(
                i + 1,
            ));
        }
        i = i + 1;
    }
    assert(final(dest)@ =~= orig + src@);
}

/// Splits `src` at index `n`, or returns `None` if `src` is shorter than `n`.
pub fn safe_split(src: &[u8], n: usize) -> (r: Option<(&[u8], &[u8])>)
    ensures
        r is Some <==> n <= src@.len(),
        r matches Some((head, tail)) ==> head@ == src@.take(n as int) && tail@ == src@.skip(
            n as int,
        ),
{
    if n <= src.len() {
        let head = vstd::slice::slice_subrange(src, 0, n);
        let tail = vstd::slice::slice_subrange(src, n, src.len());
        assert(head@ =~= src@.take(n as int));
        assert(tail@ =~= src@.skip(n as int));
        Some((head, tail))
    } else {
        None
    }
}

/// Copies the first `n` bytes of `src` out as an owned value and returns the
/// remainder, or `None` if `src` is shorter than `n`.
pub fn take_sized(src: &[u8], n: usize) -> (r: Option<(Vec<u8>, &[u8])>)
    ensures
        r is Some <==> n <= src@.len(),
        r matches Some((head, tail)) ==> head@ == src@.take(n as int) && tail@ == src@.skip(
            n as int,
        ),
{
    match safe_split(src, n) {
        Some((head, tail)) => Some((vstd::slice::slice_to_vec(head), tail)),
        None => None,
    }
}

/// Serialize to network-endian (big-endian) encoded bytes.
pub trait ToNe: Sized {
    /// The canonical byte encoding of `self`.
    spec fn enc(&self) -> Seq<u8>;

    /// Appends the encoding of `self` to `dest`.
    fn put(&self, dest: &mut Vec<u8>)
        ensures
            final(dest)@ == old(dest)@ + self.enc(),
    ;

    /// The size of `self` when serialized.
    fn size(&self) -> (n: usize)
        requires
            self.enc().len() <= usize::MAX,
        ensures
            n == self.enc().len(),
    ;

    /// Serializes `self` to a fresh `Vec`.
    fn serialize_to_vec(&self) -> (v: Vec<u8>)
        ensures
            v@ == self.enc(),
    {
        let mut v: Vec<u8> = Vec::new();
        self.put(&mut v);
        proof {
            assert(v@ =~= self.enc());
        }
        v
    }
}

/// Deserialize from network-endian encoded bytes.
pub trait Ne: ToNe {
    /// Whether parsing a value from the front of `src` succeeds.
    spec fn can_pick(src: Seq<u8>) -> bool;

    /// The bytes that parsing a value from the front of `src` leaves over.
    spec fn rest_of(src: Seq<u8>) -> Seq<u8>;

    /// Parses a value from the front of `src` and returns it together with
    /// the unparsed bytes, or `None` if `src` is too short.
    fn pick(src: &[u8]) -> (r: Option<(Self, &[u8])>)
        ensures
            r is Some <==> Self::can_pick(src@),
            r matches Some((v, rest)) ==> rest@ == Self::rest_of(src@) && src@ == v.enc()
                + rest@,
    ;
}

impl ToNe for u8 {
    open spec fn enc(&self) -> Seq<u8> {
        be_bytes(*self as nat, 1)
    }

    fn put(&self, dest: &mut Vec<u8>) {
        put_be(*self as u128, 1, dest);
    }

    fn size(&self) -> (n: usize) {
        proof {
            lemma_be_bytes_len(*self as nat, 1);
        }
        1
    }
}

impl Ne for u8 {
    open spec fn can_pick(src: Seq<u8>) -> bool {
        src.len() >= 1
    }

    open spec fn rest_of(src: Seq<u8>) -> Seq<u8> {
        src.skip(1)
    }

    fn pick(src: &[u8]) -> (r: Option<(Self, &[u8])>) {
        if src.len() >= 1 {
            let wide = read_be(src, 1);
            proof {
                lemma_be_val_bound(src@.take(1));
                lemma_pow256_unfold_16();
            }
            let v: u8 = wide as u8;
            let rest = vstd::slice::slice_subrange(src, 1, src.len());
            proof {
                lemma_be_bytes_be_val(src@.take(1));
                assert(rest@ =~= src@.skip(1));
                assert(src@ =~= src@.take(1) + src@.skip(1));
            }
            Some((v, rest))
        } else {
            None
        }
    }
}

impl ToNe for u64 {
    open spec fn enc(&self) -> Seq<u8> {
        be_bytes(*self as nat, 8)
    }

    fn put(&self, dest: &mut Vec<u8>) {
        put_be(*self as u128, 8, dest);
    }

    fn size(&self) -> (n: usize) {
        proof {
            lemma_be_bytes_len(*self as nat, 8);
        }
        8
    }
}

impl Ne for u64 {
    open spec fn can_pick(src: Seq<u8>) -> bool {
        src.len() >= 8
    }

    open spec fn rest_of(src: Seq<u8>) -> Seq<u8> {
        src.skip(8)
    }

    fn pick(src: &[u8]) -> (r: Option<(Self, &[u8])>) {
        if src.len() >= 8 {
            let wide = read_be(src, 8);
            proof {
                lemma_be_val_bound(src@.take(8));
                lemma_pow256_unfold_16();
            }
            let v: u64 = wide as u64;
            let rest = vstd::slice::slice_subrange(src, 8, src.len());
            proof {
                lemma_be_bytes_be_val(src@.take(8));
                assert(rest@ =~= src@.skip(8));
                assert(src@ =~= src@.take(8) + src@.skip(8));
            }
            Some((v, rest))
        } else {
            None
        }
    }
}

impl ToNe for u128 {
    open spec fn enc(&self) -> Seq<u8> {
        be_bytes(*self as nat, 16)
    }

    fn put(&self, dest: &mut Vec<u8>) {
        put_be(*self, 16, dest);
    }

    fn size(&self) -> (n: usize) {
        proof {
            lemma_be_bytes_len(*self as nat, 16);
        }
        16
    }
}

impl Ne for u128 {
    open spec fn can_pick(src: Seq<u8>) -> bool {
        src.len() >= 16
    }

    open spec fn rest_of(src: Seq<u8>) -> Seq<u8> {
        src.skip(16)
    }

    fn pick(src: &[u8]) -> (r: Option<(Self, &[u8])>) {
        if src.len() >= 16 {
            let v = read_be(src, 16);
            let rest = vstd::slice::slice_subrange(src, 16, src.len());
            proof {
                lemma_be_bytes_be_val(src@.take(16));
                assert(rest@ =~= src@.skip(16));
                assert(src@ =~= src@.take(16) + src@.skip(16));
            }
            Some((v, rest))
        } else {
            None
        }
    }
}

impl<T: ToNe, S: ToNe> ToNe for (T, S) {
    open spec fn enc(&self) -> Seq<u8> {
        self.0.enc() + self.1.enc()
    }

    fn put(&self, dest: &mut Vec<u8>) {
        self.0.put(dest);
        self.1.put(dest);
        proof {
            assert(dest@ =~= old(dest)@ + self.enc());
        }
    }

    fn size(&self) -> (n: usize) {
        let n0 = self.0.size();
        let n1 = self.1.size();
        n0 + n1
    }
}

impl<T: Ne, S: Ne> Ne for (T, S) {
    open spec fn can_pick(src: Seq<u8>) -> bool {
        T::can_pick(src) && S::can_pick(T::rest_of(src))
    }

    open spec fn rest_of(src: Seq<u8>) -> Seq<u8> {
        S::rest_of(T::rest_of(src))
    }

    fn pick(src: &[u8]) -> (r: Option<(Self, &[u8])>) {
        match T::pick(src) {
            None => None,
            Some((t, mid)) => match S::pick(mid) {
                None => None,
                Some((s, rest)) => {
                    proof {
                        assert(src@ =~= t.enc() + s.enc() + rest@);
                    }
                    Some(((t, s), rest))
                },
            },
        }
    }
}

impl<A: ToNe, B: ToNe, C: ToNe, D: ToNe> ToNe for (A, B, C, D) {
    open spec fn enc(&self) -> Seq<u8> {
        self.0.enc() + self.1.enc() + self.2.enc() + self.3.enc()
    }

    fn put(&self, dest: &mut Vec<u8>) {
        self.0.put(dest);
        self.1.put(dest);
        self.2.put(dest);
        self.3.put(dest);
        proof {
            assert(dest@ =~= old(dest)@ + self.enc());
        }
    }

    fn size(&self) -> (n: usize) {
        let n0 = self.0.size();
        let n1 = self.1.size();
        let n2 = self.2.size();
        let n3 = self.3.size();
        n0 + n1 + n2 + n3
    }
}

impl<A: Ne, B: Ne, C: Ne, D: Ne> Ne for (A, B, C, D) {
    open spec fn can_pick(src: Seq<u8>) -> bool {
        &&& A::can_pick(src)
        &&& B::can_pick(A::rest_of(src))
        &&& C::can_pick(B::rest_of(A::rest_of(src)))
        &&& D::can_pick(C::rest_of(B::rest_of(A::rest_of(src))))
    }

    open spec fn rest_of(src: Seq<u8>) -> Seq<u8> {
        D::rest_of(C::rest_of(B::rest_of(A::rest_of(src))))
    }

    fn pick(src: &[u8]) -> (r: Option<(Self, &[u8])>) {
        match A::pick(src) {
            None => None,
            Some((a, m1)) => match B::pick(m1) {
                None => None,
                Some((b, m2)) => match C::pick(m2) {
                    None => None,
                    Some((c, m3)) => match D::pick(m3) {
                        None => None,
                        Some((d, rest)) => {
                            proof {
                                assert(src@ =~= a.enc() + b.enc() + c.enc() + d.enc()
                                    + rest@);
                            }
                            Some(((a, b, c, d), rest))
                        },
                    },
                },
            },
        }
    }
}

impl ToNe for Vec<u8> {
    open spec fn enc(&self) -> Seq<u8> {
        self@
    }

    fn put(&self, dest: &mut Vec<u8>) {
        put(self.as_slice(), dest);
    }

    fn size(&self) -> (n: usize) {
        self.len()
    }
}

impl Ne for Vec<u8> {
    open spec fn can_pick(src: Seq<u8>) -> bool {
        true
    }

    open spec fn rest_of(src: Seq<u8>) -> Seq<u8> {
        Seq::empty()
    }

    fn pick(src: &[u8]) -> (r: Option<(Self, &[u8])>) {
        let v = vstd::slice::slice_to_vec(src);
        let rest = vstd::slice::slice_subrange(src, src.len(), src.len());
        proof {
            assert(rest@ =~= Seq::<u8>::empty());
            assert(src@ =~= v@ + rest@);
        }
        Some((v, rest))
    }
}

/// Encodes `value` into its canonical byte representation. Encoding never
/// fails for the supported types.
pub fn encode<T: ToNe>(value: &T) -> (r: Vec<u8>)
    ensures
        r@ == value.enc(),
{
    value.serialize_to_vec()
}

/// Decodes a value from the front of `src` and returns it with the
/// remaining bytes, or fails with `TruncatedInput` if fewer bytes remain
/// than the value requires.
pub fn decode<T: Ne>(src: &[u8]) -> (r: Result<(T, &[u8]), PowError>)
    ensures
        r is Ok <==> T::can_pick(src@),
        r matches Ok((v, rest)) ==> rest@ == T::rest_of(src@) && src@ == v.enc() + rest@,
        r is Err ==> r == Err::<(T, &[u8]), PowError>(PowError::TruncatedInput),
{
    match T::pick(src) {
        Some((v, rest)) => Ok((v, rest)),
        None => Err(PowError::TruncatedInput),
    }
}

/// Decoding the encoding of a `u8` yields the value back with nothing left
/// over: the encoding parses, leaves no remainder, and no other value and
/// remainder produce the same bytes.
pub proof fn lemma_u8_round_trip(v: u8)
    ensures
        <u8 as Ne>::can_pick(v.enc()),
        <u8 as Ne>::rest_of(v.enc()) == Seq::<u8>::empty(),
        forall|w: u8, rest: Seq<u8>|
            v.enc() == #[trigger] (w.enc() + rest) ==> w == v && rest == Seq::<u8>::empty(),
{
    lemma_be_bytes_len(v as nat, 1);
    assert(v.enc().skip(1) =~= Seq::<u8>::empty());
    assert forall|w: u8, rest: Seq<u8>| v.enc() == #[trigger] (w.enc() + rest) implies w == v
        && rest == Seq::<u8>::empty() by {
        lemma_be_bytes_len(w as nat, 1);
        assert(rest =~= Seq::<u8>::empty());
        assert(w.enc() =~= v.enc());
        lemma_pow256_unfold_16();
        lemma_be_val_be_bytes(v as nat, 1);
        lemma_be_val_be_bytes(w as nat, 1);
    }
}

/// Decoding the encoding of a `u64` yields the value back with nothing left
/// over: the encoding parses, leaves no remainder, and no other value and
/// remainder produce the same bytes.
pub proof fn lemma_u64_round_trip(v: u64)
    ensures
        <u64 as Ne>::can_pick(v.enc()),
        <u64 as Ne>::rest_of(v.enc()) == Seq::<u8>::empty(),
        forall|w: u64, rest: Seq<u8>|
            v.enc() == #[trigger] (w.enc() + rest) ==> w == v && rest == Seq::<u8>::empty(),
{
    lemma_be_bytes_len(v as nat, 8);
    assert(v.enc().skip(8) =~= Seq::<u8>::empty());
    assert forall|w: u64, rest: Seq<u8>| v.enc() == #[trigger] (w.enc() + rest) implies w == v
        && rest == Seq::<u8>::empty() by {
        lemma_be_bytes_len(w as nat, 8);
        assert(rest =~= Seq::<u8>::empty());
        assert(w.enc() =~= v.enc());
        lemma_pow256_unfold_16();
        lemma_be_val_be_bytes(v as nat, 8);
        lemma_be_val_be_bytes(w as nat, 8);
    }
}

/// Decoding the encoding of a `u128` yields the value back with nothing left
/// over: the encoding parses, leaves no remainder, and no other value and
/// remainder produce the same bytes.
pub proof fn lemma_u128_round_trip(v: u128)
    ensures
        <u128 as Ne>::can_pick(v.enc()),
        <u128 as Ne>::rest_of(v.enc()) == Seq::<u8>::empty(),
        forall|w: u128, rest: Seq<u8>|
            v.enc() == #[trigger] (w.enc() + rest) ==> w == v && rest == Seq::<u8>::empty(),
{
    lemma_be_bytes_len(v as nat, 16);
    assert(v.enc().skip(16) =~= Seq::<u8>::empty());
    assert forall|w: u128, rest: Seq<u8>| v.enc() == #[trigger] (w.enc() + rest) implies w == v
        && rest == Seq::<u8>::empty() by {
        lemma_be_bytes_len(w as nat, 16);
        assert(rest =~= Seq::<u8>::empty());
        assert(w.enc() =~= v.enc());
        lemma_pow256_unfold_16();
        lemma_be_val_be_bytes(v as nat, 16);
        lemma_be_val_be_bytes(w as nat, 16);
    }
}

/// Decoding the encoding of a byte vector yields its bytes back with nothing
/// left over: a byte vector parses as the whole of its input.
pub proof fn lemma_bytes_round_trip(v: Vec<u8>)
    ensures
        <Vec<u8> as Ne>::can_pick(v.enc()),
        <Vec<u8> as Ne>::rest_of(v.enc()) == Seq::<u8>::empty(),
        forall|w: Vec<u8>, rest: Seq<u8>|
            v.enc() == #[trigger] (w.enc() + rest) && rest == Seq::<u8>::empty() ==> w@ == v@,
{
    assert forall|w: Vec<u8>, rest: Seq<u8>|
        v.enc() == #[trigger] (w.enc() + rest) && rest == Seq::<u8>::empty() implies w@
        == v@ by {
        assert(w@ =~= v@);
    }
}

impl ToNe for String {
    open spec fn enc(&self) -> Seq<u8> {
        vstd::utf8::encode_utf8(self@)
    }

    fn put(&self, dest: &mut Vec<u8>) {
        put(self.as_str().as_bytes(), dest);
    }

    fn size(&self) -> (n: usize) {
        self.as_str().len()
    }
}

} // verus!
