use vstd::prelude::*;
use vstd::arithmetic::div_mod::lemma_fundamental_div_mod_converse;
use vstd::arithmetic::power::pow;
use vstd::layout::{size_of, unsigned_int_max_values};
use vstd::slice::slice_to_vec;
use crate::key_order::key_lt;

verus! {

pub open spec fn pow256(w: nat) -> nat
    decreases w,
{
    if w == 0 {
        1
    } else {
        256 * pow256((w - 1) as nat)
    }
}

/// The `w` low-order base-256 digits of `n`, most significant first.
pub open spec fn be_bytes(n: nat, w: nat) -> Seq<u8>
    decreases w,
{
    if w == 0 {
        Seq::empty()
    } else {
        be_bytes(n / 256, (w - 1) as nat).push((n % 256) as u8)
    }
}

/// The number whose big-endian base-256 digits are `b`.
pub open spec fn be_value(b: Seq<u8>) -> nat
    decreases b.len(),
{
    if b.len() == 0 {
        0
    } else {
        be_value(b.drop_last()) * 256 + b.last() as nat
    }
}

pub proof fn lemma_be_bytes_len(n: nat, w: nat)
    ensures
        be_bytes(n, w).len() == w,
    decreases w,
{
    if w > 0 {
        lemma_be_bytes_len(n / 256, (w - 1) as nat);
    }
}

/// Appending one byte to each of two equally long strings keeps their order,
/// and two equal strings are ordered by the byte appended.
pub proof fn lemma_key_lt_push(a: Seq<u8>, b: Seq<u8>, x: u8, y: u8)
    requires
        a.len() == b.len(),
        key_lt(a, b) || (a == b && x < y),
    ensures
        key_lt(a.push(x), b.push(y)),
    decreases a.len(),
{
    if a.len() > 0 {
        assert(a.push(x).drop_first() =~= a.drop_first().push(x));
        assert(b.push(y).drop_first() =~= b.drop_first().push(y));
        if a[0] == b[0] {
            lemma_key_lt_push(a.drop_first(), b.drop_first(), x, y);
        }
    }
}

/// Big-endian encoding of fixed width preserves the order of numbers.
pub proof fn lemma_be_bytes_order(n: nat, m: nat, w: nat)
    requires
        n < m < pow256(w),
    ensures
        key_lt(be_bytes(n, w), be_bytes(m, w)),
    decreases w,
{
    let p = pow256((w - 1) as nat);
    lemma_be_bytes_len(n / 256, (w - 1) as nat);
    lemma_be_bytes_len(m / 256, (w - 1) as nat);
    assert(n / 256 <= m / 256) by (nonlinear_arith)
        requires
            n < m,
    ;
    assert(m / 256 < p) by (nonlinear_arith)
        requires
            m < 256 * p,
    ;
    if n / 256 < m / 256 {
        lemma_be_bytes_order(n / 256, m / 256, (w - 1) as nat);
    } else {
        assert(n % 256 < m % 256) by (nonlinear_arith)
            requires
                n < m,
                n / 256 == m / 256,
        ;
    }
    lemma_key_lt_push(
        be_bytes(n / 256, (w - 1) as nat),
        be_bytes(m / 256, (w - 1) as nat),
        (n % 256) as u8,
        (m % 256) as u8,
    );
}

/// Encoding the value of a byte string gives the string back.
pub proof fn lemma_be_round_trip(b: Seq<u8>)
    ensures
        be_bytes(be_value(b), b.len()) == b,
    decreases b.len(),
{
    if b.len() > 0 {
        let v = be_value(b);
        let q = be_value(b.drop_last());
        lemma_fundamental_div_mod_converse(v as int, 256, q as int, b.last() as int);
        lemma_be_round_trip(b.drop_last());
        assert(b =~= b.drop_last().push(b.last()));
    }
}

pub proof fn lemma_pow256_is_pow(w: nat)
    ensures
        pow256(w) == pow(256, w),
    decreases w,
{
    reveal(pow);
    if w > 0 {
        lemma_pow256_is_pow((w - 1) as nat);
    }
}

/// The width of a machine word in bytes, the width of a word key.
pub open spec fn word_width() -> nat {
    size_of::<usize>()
}

/// A machine word is four or eight bytes wide, and every word is below
/// `256` to the power of that width.
pub proof fn lemma_word_width()
    ensures
        word_width() == 4 || word_width() == 8,
        usize::MAX as nat + 1 == pow256(word_width()),
{
    broadcast use vstd::layout::layout_of_primitives;
    unsigned_int_max_values();
    lemma_pow256_is_pow(word_width());
}

pub proof fn lemma_pow256_16()
    ensures
        pow256(16) == 0x1_0000_0000_0000_0000_0000_0000_0000_0000,
{
    reveal_with_fuel(pow256, 17);
}

/// The `w` low-order bytes of `n`, big-endian.
fn word_to_be_bytes(n: u64, w: usize) -> (r: Vec<u8>)
    ensures
        r@ == be_bytes(n as nat, w as nat),
{
    let mut out: Vec<u8> = vec![0u8; w];
    let mut rest: u64 = n;
    let mut i: usize = 0;
    while i < w
        invariant
            i <= w,
            out@.len() == w,
            be_bytes(n as nat, w as nat) == be_bytes(rest as nat, (w - i) as nat) + out@.subrange(
                w - i,
                w as int,
            ),
        decreases w - i,
    {
        let ghost before = out@;
        out.set(w - 1 - i, (rest % 256) as u8);
        assert(out@.subrange(w - 1 - i as int, w as int) =~= seq![(rest % 256) as u8]
            + before.subrange(w - i as int, w as int));
        assert(be_bytes(rest as nat, (w - i) as nat) == be_bytes(
            (rest / 256) as nat,
            (w - 1 - i) as nat,
        ).push((rest % 256) as u8));
        assert(be_bytes(rest as nat, (w - i) as nat) + before.subrange(w - i as int, w as int)
            =~= be_bytes((rest / 256) as nat, (w - 1 - i) as nat) + out@.subrange(
            w - 1 - i as int,
            w as int,
        ));
        rest = rest / 256;
        i = i + 1;
    }
    assert(out@.subrange(0, w as int) =~= out@);
    out
}

/// The number whose big-endian bytes `b` are, for at most eight bytes.
fn word_from_be_bytes(b: &[u8]) -> (r: u64)
    requires
        b@.len() <= 8,
    ensures
        r as nat == be_value(b@),
{
    let mut acc: u64 = 0;
    let mut i: usize = 0;
    while i < b.len()
        invariant
            i <= b@.len() <= 8,
            acc as nat == be_value(b@.subrange(0, i as int)),
            acc < pow256(i as nat),
        decreases b@.len() - i,
    {
        proof {
            lemma_pow256_monotone((i + 1) as nat, 8);
            reveal_with_fuel(pow256, 9);
        }
        assert(acc * 256 + b[i as int] < pow256((i + 1) as nat)) by (nonlinear_arith)
            requires
                acc < pow256(i as nat),
                b[i as int] < 256,
                pow256((i + 1) as nat) == 256 * pow256(i as nat),
        ;
        acc = acc * 256 + b[i] as u64;
        assert(b@.subrange(0, i + 1).drop_last() =~= b@.subrange(0, i as int));
        i = i + 1;
    }
    assert(b@.subrange(0, b@.len() as int) =~= b@);
    acc
}

pub proof fn lemma_pow256_monotone(i: nat, j: nat)
    requires
        i <= j,
    ensures
        pow256(i) <= pow256(j),
    decreases j,
{
    if i < j {
        lemma_pow256_monotone(i, (j - 1) as nat);
    }
}

/// A value with an order-preserving byte encoding: the form in which it is
/// stored as a key.
pub trait Key {
    /// The bytes under which this key is stored.
    spec fn encoding(&self) -> Seq<u8>;

    fn as_bytes(&self) -> (r: Vec<u8>)
        ensures
            r@ == self.encoding(),
    ;
}

/// A key that can be read back from the bytes a cursor names.
pub trait DecodableKey: Key + Sized {
    /// Whether `b` is the encoding of some key of this type.
    spec fn is_encoding(b: Seq<u8>) -> bool;

    /// The key stored under `b`, if `b` has the shape of an encoding.
    fn from_key_bytes(b: &[u8]) -> (r: Option<Self>)
        ensures
            r.is_some() == Self::is_encoding(b@),
            r matches Some(k) ==> k.encoding() == b@,
    ;
}

impl Key for Vec<u8> {
    open spec fn encoding(&self) -> Seq<u8> {
        self@
    }

    fn as_bytes(&self) -> (r: Vec<u8>) {
        self.clone()
    }
}

impl DecodableKey for Vec<u8> {
    open spec fn is_encoding(b: Seq<u8>) -> bool {
        true
    }

    fn from_key_bytes(b: &[u8]) -> (r: Option<Self>) {
        Some(slice_to_vec(b))
    }
}

impl<'a> Key for &'a [u8] {
    open spec fn encoding(&self) -> Seq<u8> {
        self@
    }

    fn as_bytes(&self) -> (r: Vec<u8>) {
        slice_to_vec(self)
    }
}

/// A word is stored as its big-endian bytes, as many as a machine word has.
impl Key for usize {
    open spec fn encoding(&self) -> Seq<u8> {
        be_bytes(*self as nat, word_width())
    }

    fn as_bytes(&self) -> (r: Vec<u8>) {
        proof {
            lemma_word_width();
        }
        word_to_be_bytes(*self as u64, core::mem::size_of::<usize>())
    }
}

impl DecodableKey for usize {
    open spec fn is_encoding(b: Seq<u8>) -> bool {
        b.len() == word_width()
    }

    fn from_key_bytes(b: &[u8]) -> (r: Option<Self>) {
        proof {
            lemma_word_width();
        }
        if b.len() != core::mem::size_of::<usize>() {
            return None;
        }
        let v = word_from_be_bytes(b);
        proof {
            lemma_be_value_bound(b@);
            lemma_be_round_trip(b@);
        }
        Some(v as usize)
    }
}

/// The value of `w` bytes is below `256` to the power `w`.
pub proof fn lemma_be_value_bound(b: Seq<u8>)
    ensures
        be_value(b) < pow256(b.len()),
    decreases b.len(),
{
    if b.len() > 0 {
        lemma_be_value_bound(b.drop_last());
        let q = be_value(b.drop_last());
        let p = pow256((b.len() - 1) as nat);
        assert(q * 256 + b.last() < 256 * p) by (nonlinear_arith)
            requires
                q < p,
                b.last() < 256,
        ;
    }
}

#[verifier::external_type_specification]
pub struct ExUlid(ulid::Ulid);

/// Relies on ulid's `Ulid::to_bytes`: the 128-bit value in big-endian order.
pub assume_specification[ ulid::Ulid::to_bytes ](self_: &ulid::Ulid) -> (r: [u8; 16])
    ensures
        r@ == be_bytes(self_.0 as nat, 16),
;

/// Relies on ulid's `Ulid::from_bytes`: the value read as big-endian.
pub assume_specification[ ulid::Ulid::from_bytes ](bytes: [u8; 16]) -> (r: ulid::Ulid)
    ensures
        r.0 as nat == be_value(bytes@),
;

impl Key for ulid::Ulid {
    open spec fn encoding(&self) -> Seq<u8> {
        be_bytes(self.0 as nat, 16)
    }

    fn as_bytes(&self) -> (r: Vec<u8>) {
        let a = self.to_bytes();
        slice_to_vec(a.as_slice())
    }
}

impl DecodableKey for ulid::Ulid {
    open spec fn is_encoding(b: Seq<u8>) -> bool {
        b.len() == 16
    }

    fn from_key_bytes(b: &[u8]) -> (r: Option<Self>) {
        if b.len() != 16 {
            return None;
        }
        let mut a = [0u8; 16];
        let mut i: usize = 0;
        while i < 16
            invariant
                b@.len() == 16,
                i <= 16,
                forall|j: int| 0 <= j < i ==> a@[j] == b@[j],
            decreases 16 - i,
        {
            a[i] = b[i];
            i = i + 1;
        }
        assert(a@ =~= b@);
        let u = ulid::Ulid::from_bytes(a);
        proof {
            lemma_be_round_trip(b@);
        }
        Some(u)
    }
}

/// Distinct identifiers have distinct encodings, ordered as their values are.
pub proof fn lemma_ulid_encoding_order(a: ulid::Ulid, b: ulid::Ulid)
    requires
        a.0 < b.0,
    ensures
        key_lt(a.encoding(), b.encoding()),
{
    lemma_pow256_16();
    lemma_be_bytes_order(a.0 as nat, b.0 as nat, 16);
}

/// A word key's encoding is read back as that key: it has the shape of an
/// encoding, and no other word key is stored under the same bytes.
pub proof fn lemma_usize_encoding_round_trip(a: usize, b: usize)
    ensures
        usize::is_encoding(a.encoding()),
        b.encoding() == a.encoding() ==> b == a,
{
    lemma_be_bytes_len(a as nat, word_width());
    if b < a {
        lemma_usize_encoding_order(b, a);
        crate::key_order::lemma_key_lt_irreflexive(a.encoding());
    } else if a < b {
        lemma_usize_encoding_order(a, b);
        crate::key_order::lemma_key_lt_irreflexive(a.encoding());
    }
}

/// Distinct word keys have distinct encodings, ordered as the numbers are.
pub proof fn lemma_usize_encoding_order(a: usize, b: usize)
    requires
        a < b,
    ensures
        key_lt(a.encoding(), b.encoding()),
{
    lemma_word_width();
    lemma_be_bytes_order(a as nat, b as nat, word_width());
}

} // verus!
