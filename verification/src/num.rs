//! Decimal and big-endian byte encodings of unsigned integers, used for
//! `Content-Length` handling, status lines and the WebSocket extended
//! payload length fields.

use vstd::prelude::*;

verus! {

/// ASCII decimal digit.
pub open spec fn is_dec_digit(b: u8) -> bool {
    48 <= b <= 57
}

pub open spec fn all_dec_digits(s: Seq<u8>) -> bool {
    forall|i: int| 0 <= i < s.len() ==> is_dec_digit(s[i])
}

/// Value of an ASCII decimal numeral.
pub open spec fn dec_val(s: Seq<u8>) -> nat
    decreases s.len(),
{
    if s.len() == 0 {
        0
    } else {
        dec_val(s.drop_last()) * 10 + (if s.last() >= 48 {
            (s.last() - 48) as nat
        } else {
            0
        })
    }
}

/// Canonical decimal numeral of a number (no leading zeros).
pub open spec fn dec_digits(n: nat) -> Seq<u8>
    decreases n,
{
    if n < 10 {
        seq![(n + 48) as u8]
    } else {
        dec_digits(n / 10).push((n % 10 + 48) as u8)
    }
}

proof fn lemma_dec_val_step(s: Seq<u8>, i: int)
    requires
        0 <= i < s.len(),
    ensures
        dec_val(s.take(i + 1)) == dec_val(s.take(i)) * 10 + (if s[i] >= 48 {
            (s[i] - 48) as nat
        } else {
            0
        }),
{
    assert(s.take(i + 1).drop_last() =~= s.take(i));
    assert(s.take(i + 1).last() == s[i]);
}

proof fn lemma_dec_val_grows(s: Seq<u8>, i: int)
    requires
        0 <= i <= s.len(),
    ensures
        dec_val(s) >= dec_val(s.take(i)),
    decreases s.len() - i,
{
    if i < s.len() {
        lemma_dec_val_step(s, i);
        assert(dec_val(s.take(i + 1)) >= dec_val(s.take(i)));
        lemma_dec_val_grows(s, i + 1);
    } else {
        assert(s.take(i) =~= s);
    }
}

/// Parses an unsigned decimal numeral; `None` on an empty slice, on a
/// non-digit byte, and on overflow.
pub fn parse_dec_usize(s: &[u8]) -> (r: Option<usize>)
    ensures
        match r {
            Some(v) => s@.len() > 0 && all_dec_digits(s@) && v == dec_val(s@) && dec_val(s@)
                <= usize::MAX,
            None => s@.len() == 0 || !all_dec_digits(s@) || dec_val(s@) > usize::MAX,
        },
{
    let n: usize = s.len();
    if n == 0 {
        return None;
    }
    let mut acc: usize = 0;
    let mut i: usize = 0;
    while i < n
        invariant
            0 <= i <= n,
            n == s@.len() <= usize::MAX,
            acc == dec_val(s@.take(i as int)),
            forall|j: int| 0 <= j < i ==> is_dec_digit(s@[j]),
        decreases n - i,
    {
        let b = s[i];
        if b < 48 || b > 57 {
            assert(!all_dec_digits(s@));
            return None;
        }
        let d: usize = (b - 48) as usize;
        if acc > (usize::MAX - d) / 10 {
            proof {
                let m = (usize::MAX - d) as nat;
                assert(m == (m / 10) * 10 + m % 10 && m % 10 < 10) by (nonlinear_arith);
                assert(acc * 10 >= (m / 10 + 1) * 10) by (nonlinear_arith)
                    requires
                        acc >= m / 10 + 1,
                ;
                assert(acc * 10 + d > usize::MAX);
                lemma_dec_val_step(s@, i as int);
                lemma_dec_val_grows(s@, i as int + 1);
            }
            return None;
        }
        proof {
            let m = (usize::MAX - d) as nat;
            assert(m == (m / 10) * 10 + m % 10 && m % 10 < 10) by (nonlinear_arith);
            assert(acc * 10 <= (m / 10) * 10) by (nonlinear_arith)
                requires
                    acc <= m / 10,
            ;
            lemma_dec_val_step(s@, i as int);
        }
        acc = acc * 10 + d;
        i += 1;
    }
    proof {
        assert(s@.take(n as int) =~= s@);
    }
    Some(acc)
}

/// Canonical decimal numeral of `n`, as ASCII bytes.
pub fn usize_to_dec(n: usize) -> (r: Vec<u8>)
    ensures
        r@ == dec_digits(n as nat),
        r@.len() > 0,
        all_dec_digits(r@),
    decreases n,
{
    if n < 10 {
        let mut v: Vec<u8> = Vec::new();
        v.push((n as u8) + 48);
        assert(v@ =~= dec_digits(n as nat));
        v
    } else {
        proof {
            assert(n / 10 < n && n % 10 < 10) by (nonlinear_arith)
                requires
                    n >= 10,
            ;
        }
        let mut v = usize_to_dec(n / 10);
        v.push((n % 10) as u8 + 48);
        assert(v@ =~= dec_digits(n as nat));
        v
    }
}

/// Big-endian value of a byte sequence.
pub open spec fn be_val(s: Seq<u8>) -> nat
    decreases s.len(),
{
    if s.len() == 0 {
        0
    } else {
        be_val(s.drop_last()) * 256 + s.last() as nat
    }
}

/// Little-endian value of a byte sequence.
pub open spec fn le_val(s: Seq<u8>) -> nat
    decreases s.len(),
{
    if s.len() == 0 {
        0
    } else {
        s[0] as nat + 256 * le_val(s.skip(1))
    }
}

/// 256 to the power `i`.
pub open spec fn p256(i: nat) -> nat
    decreases i,
{
    if i == 0 {
        1nat
    } else {
        256 * p256((i - 1) as nat)
    }
}

pub proof fn lemma_be_val_bound(s: Seq<u8>)
    ensures
        be_val(s) < p256(s.len()),
    decreases s.len(),
{
    if s.len() > 0 {
        lemma_be_val_bound(s.drop_last());
        assert(be_val(s.drop_last()) * 256 <= (p256((s.len() - 1) as nat) - 1) * 256)
            by (nonlinear_arith)
            requires
                be_val(s.drop_last()) <= p256((s.len() - 1) as nat) - 1,
        ;
    }
}

proof fn lemma_le_val_push(s: Seq<u8>, b: u8)
    ensures
        le_val(s.push(b)) == le_val(s) + (b as nat) * p256(s.len()),
    decreases s.len(),
{
    if s.len() == 0 {
        assert(s.push(b)[0] == b);
        assert(s.push(b).skip(1) =~= Seq::<u8>::empty());
        assert(le_val(s.push(b)) == b as nat + 256 * le_val(Seq::<u8>::empty()));
        assert(p256(0) == 1);
        assert((b as nat) * 1 == b as nat) by (nonlinear_arith);
    } else {
        assert(s.push(b)[0] == s[0]);
        assert(s.push(b).skip(1) =~= s.skip(1).push(b));
        lemma_le_val_push(s.skip(1), b);
        assert(le_val(s.push(b)) == s[0] as nat + 256 * (le_val(s.skip(1)) + (b as nat) * p256(
            s.skip(1).len(),
        )));
        assert(256 * (le_val(s.skip(1)) + (b as nat) * p256(s.skip(1).len())) == 256 * le_val(
            s.skip(1),
        ) + (b as nat) * (256 * p256(s.skip(1).len()))) by (nonlinear_arith);
        assert(p256(s.len()) == 256 * p256(s.skip(1).len()));
    }
}

proof fn lemma_be_rev_le(s: Seq<u8>)
    ensures
        be_val(s.reverse()) == le_val(s),
    decreases s.len(),
{
    if s.len() > 0 {
        assert(s.reverse().drop_last() =~= s.skip(1).reverse());
        assert(s.reverse().last() == s[0]);
        lemma_be_rev_le(s.skip(1));
    }
}

/// Big-endian 16-bit value of two bytes.
pub fn be16_value(b0: u8, b1: u8) -> (r: u16)
    ensures
        r == be_val(seq![b0, b1]),
{
    proof {
        reveal_with_fuel(be_val, 4);
        let s = seq![b0, b1];
        assert(s.drop_last() =~= seq![b0]);
        assert(s.last() == b1);
        assert(seq![b0].drop_last() =~= Seq::<u8>::empty());
        assert(seq![b0].last() == b0);
        assert(be_val(s) == (b0 as nat) * 256 + b1 as nat);
    }
    (b0 as u16) * 256 + (b1 as u16)
}

/// Big-endian bytes of a 16-bit value.
pub fn be16_bytes(v: u16) -> (r: Vec<u8>)
    ensures
        r@.len() == 2,
        be_val(r@) == v,
{
    let b0 = (v / 256) as u8;
    let b1 = (v % 256) as u8;
    let mut r: Vec<u8> = Vec::new();
    r.push(b0);
    r.push(b1);
    proof {
        reveal_with_fuel(be_val, 4);
        assert(r@.drop_last() =~= seq![b0]);
        assert(r@.last() == b1);
        assert(seq![b0].drop_last() =~= Seq::<u8>::empty());
        assert(seq![b0].last() == b0);
        assert(be_val(r@) == (b0 as nat) * 256 + b1 as nat);
        assert(v / 256 < 256) by (nonlinear_arith);
        assert(v as nat == (v as nat / 256) * 256 + (v as nat) % 256) by (nonlinear_arith);
    }
    r
}

/// Big-endian 64-bit value of eight bytes.
pub fn be64_value(s: &[u8]) -> (r: u64)
    requires
        s@.len() == 8,
    ensures
        r == be_val(s@),
{
    let mut acc: u64 = 0;
    let mut i: usize = 0;
    while i < 8
        invariant
            0 <= i <= 8,
            s@.len() == 8,
            acc == be_val(s@.take(i as int)),
            acc < p256(i as nat),
        decreases 8 - i,
    {
        proof {
            assert(s@.take(i + 1).drop_last() =~= s@.take(i as int));
            assert(s@.take(i + 1).last() == s@[i as int]);
            reveal_with_fuel(p256, 9);
            assert(p256(7) == 72057594037927936);
            assert(p256(i as nat) <= p256(7)) by {
                lemma_p256_mono(i as nat, 7);
            }
            assert(acc * 256 <= (p256(i as nat) - 1) * 256) by (nonlinear_arith)
                requires
                    acc <= p256(i as nat) - 1,
            ;
            assert((p256(i as nat) - 1) * 256 + 255 < 256 * p256(i as nat)) by (nonlinear_arith);
            assert(256 * p256(i as nat) == p256(i as nat + 1));
            assert(p256(8) == 0x10000000000000000);
            assert(p256(i as nat + 1) <= p256(8)) by {
                lemma_p256_mono(i as nat + 1, 8);
            }
        }
        acc = acc * 256 + (s[i] as u64);
        i += 1;
    }
    proof {
        assert(s@.take(8) =~= s@);
    }
    acc
}

proof fn lemma_p256_mono(i: nat, j: nat)
    requires
        i <= j,
    ensures
        p256(i) <= p256(j),
    decreases j,
{
    if i < j {
        lemma_p256_mono(i, (j - 1) as nat);
        assert(p256((j - 1) as nat) <= 256 * p256((j - 1) as nat)) by (nonlinear_arith)
            requires
                p256((j - 1) as nat) >= 0,
        ;
    }
}

/// Big-endian bytes of a 64-bit value.
pub fn be64_bytes(v: u64) -> (r: Vec<u8>)
    ensures
        r@.len() == 8,
        be_val(r@) == v,
{
    let mut le: Vec<u8> = Vec::new();
    let mut w: u64 = v;
    let mut k: usize = 0;
    proof {
        assert(le_val(le@) == 0);
        assert(p256(0) == 1);
        assert((w as nat) * 1 == w as nat) by (nonlinear_arith);
    }
    while k < 8
        invariant
            0 <= k <= 8,
            le@.len() == k,
            v as nat == le_val(le@) + (w as nat) * p256(k as nat),
        decreases 8 - k,
    {
        let b = (w % 256) as u8;
        proof {
            lemma_le_val_push(le@, b);
            let wn = w as nat;
            assert(wn == (wn / 256) * 256 + wn % 256) by (nonlinear_arith);
            assert((wn / 256) * p256(k as nat + 1) + (wn % 256) * p256(k as nat) == ((wn / 256)
                * 256 + wn % 256) * p256(k as nat)) by (nonlinear_arith);
        }
        le.push(b);
        w = w / 256;
        k += 1;
    }
    proof {
        reveal_with_fuel(p256, 9);
        assert(p256(8) == 0x10000000000000000);
        assert((w as nat) * p256(8) >= p256(8) || w == 0) by (nonlinear_arith);
        assert(w == 0);
    }
    let mut r: Vec<u8> = Vec::new();
    let mut j: usize = 0;
    while j < 8
        invariant
            0 <= j <= 8,
            le@.len() == 8,
            r@.len() == j,
            forall|i: int| 0 <= i < j ==> r@[i] == le@[7 - i],
        decreases 8 - j,
    {
        r.push(le[7 - j]);
        j += 1;
    }
    proof {
        assert(r@ =~= le@.reverse());
        lemma_be_rev_le(le@);
    }
    r
}

/// The `w`-byte big-endian encoding of `n`.
pub open spec fn be_bytes(n: nat, w: nat) -> Seq<u8>
    decreases w,
{
    if w == 0 {
        Seq::empty()
    } else {
        be_bytes(n / 256, (w - 1) as nat).push((n % 256) as u8)
    }
}

pub proof fn lemma_be_bytes_len(n: nat, w: nat)
    ensures
        be_bytes(n, w).len() == w,
    decreases w,
{
    if w > 0 {
        lemma_be_bytes_len(n / 256, (w - 1) as nat);
    }
}

pub proof fn lemma_be_val_of_bytes(n: nat, w: nat)
    requires
        n < p256(w),
    ensures
        be_val(be_bytes(n, w)) == n,
    decreases w,
{
    if w == 0 {
    } else {
        lemma_be_bytes_len(n / 256, (w - 1) as nat);
        assert(n / 256 < p256((w - 1) as nat) && n == (n / 256) * 256 + n % 256 && n % 256 < 256)
            by (nonlinear_arith)
            requires
                n < 256 * p256((w - 1) as nat),
        ;
        lemma_be_val_of_bytes(n / 256, (w - 1) as nat);
        let b = be_bytes(n, w);
        assert(b.drop_last() =~= be_bytes(n / 256, (w - 1) as nat));
        assert(b.last() == (n % 256) as u8);
    }
}

/// A byte sequence is the canonical big-endian encoding of its value.
pub proof fn lemma_be_bytes_unique(r: Seq<u8>)
    ensures
        r == be_bytes(be_val(r), r.len()),
    decreases r.len(),
{
    if r.len() > 0 {
        let v = be_val(r);
        let hi = be_val(r.drop_last());
        assert(v == hi * 256 + r.last());
        assert(v / 256 == hi && v % 256 == r.last()) by (nonlinear_arith)
            requires
                v == hi * 256 + r.last(),
                r.last() < 256,
                hi >= 0,
        ;
        lemma_be_bytes_unique(r.drop_last());
        assert(be_bytes(v, r.len()) == be_bytes(v / 256, (r.len() - 1) as nat).push(
            (v % 256) as u8,
        ));
        assert(r =~= r.drop_last().push(r.last()));
    } else {
        assert(r =~= Seq::<u8>::empty());
    }
}

} // verus!
