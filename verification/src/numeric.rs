//! Big-endian byte-sequence arithmetic and decimal rendering.
//!
//! Token identifiers and quantities arrive as 32-byte big-endian words.  The
//! specs here give such a word its mathematical value, describe the canonical
//! decimal rendering of an unsigned integer, and describe the minimal
//! big-endian encoding used for token identifiers.

use vstd::prelude::*;

verus! {

use vstd::arithmetic::power::pow;
use vstd::string::StringExecFns;

/// Value of a byte sequence read as a big-endian unsigned integer.
pub open spec fn be_val(s: Seq<u8>) -> nat
    decreases s.len(),
{
    if s.len() == 0 {
        0
    } else {
        be_val(s.drop_last()) * 256 + s.last() as nat
    }
}

/// Decimal digit character for a value below ten.
pub open spec fn dec_digit(d: nat) -> char {
    if d == 0 {
        '0'
    } else if d == 1 {
        '1'
    } else if d == 2 {
        '2'
    } else if d == 3 {
        '3'
    } else if d == 4 {
        '4'
    } else if d == 5 {
        '5'
    } else if d == 6 {
        '6'
    } else if d == 7 {
        '7'
    } else if d == 8 {
        '8'
    } else {
        '9'
    }
}

/// Decimal digits of `n`, most significant first; empty for zero.
pub open spec fn dec_digits(n: nat) -> Seq<char>
    decreases n,
{
    if n == 0 {
        Seq::empty()
    } else {
        dec_digits(n / 10).push(dec_digit(n % 10))
    }
}

/// Canonical decimal rendering: no leading zeros, and `"0"` for zero.
pub open spec fn dec_rep(n: nat) -> Seq<char> {
    if n == 0 {
        seq!['0']
    } else {
        dec_digits(n)
    }
}

/// Minimal big-endian encoding of the value of `s`: leading zero bytes are
/// dropped, and the zero value is kept as the single byte `0`.
pub open spec fn min_be(s: Seq<u8>) -> Seq<u8>
    decreases s.len(),
{
    if s.len() == 0 {
        seq![0u8]
    } else if s[0] != 0 {
        s
    } else {
        min_be(s.skip(1))
    }
}

/// The 32-byte word of `d` starting at `off`.
pub open spec fn word_at(d: Seq<u8>, off: int) -> Seq<u8> {
    d.subrange(off, off + 32)
}

/// Splitting a byte sequence splits its big-endian value positionally.
pub proof fn lemma_be_val_split(s: Seq<u8>, k: int)
    requires
        0 <= k <= s.len(),
    ensures
        be_val(s) == be_val(s.take(k)) * pow(256, (s.len() - k) as nat) + be_val(s.skip(k)),
    decreases s.len(),
{
    if k == s.len() {
        assert(s.take(k) =~= s);
        assert(s.skip(k) =~= Seq::empty());
        vstd::arithmetic::power::lemma_pow0(256);
    } else {
        let d = s.drop_last();
        lemma_be_val_split(d, k);
        assert(d.take(k) =~= s.take(k));
        assert(d.skip(k) =~= s.skip(k).drop_last());
        let p = pow(256, (d.len() - k) as nat);
        assert(pow(256, (s.len() - k) as nat) == p * 256) by {
            vstd::arithmetic::power::lemma_pow_adds(256, (d.len() - k) as nat, 1);
            vstd::arithmetic::power::lemma_pow1(256);
        }
        assert(s.skip(k).len() > 0);
        assert(s.skip(k).last() == s.last());
        assert(be_val(s.skip(k)) == be_val(s.skip(k).drop_last()) * 256 + s.last() as nat);
        assert((be_val(s.take(k)) * p + be_val(s.skip(k).drop_last())) * 256 == be_val(s.take(k))
            * (p * 256) + be_val(s.skip(k).drop_last()) * 256) by (nonlinear_arith);
        assert(be_val(s) == be_val(d) * 256 + s.last() as nat);
    }
}

/// The minimal encoding always holds at least one byte.
pub proof fn lemma_min_be_len(s: Seq<u8>)
    ensures
        min_be(s).len() > 0,
    decreases s.len(),
{
    if s.len() > 0 && s[0] == 0 {
        lemma_min_be_len(s.skip(1));
    }
}

/// Trimming leading zero bytes keeps the big-endian value.
pub proof fn lemma_min_be_val(s: Seq<u8>)
    ensures
        be_val(min_be(s)) == be_val(s),
    decreases s.len(),
{
    if s.len() == 0 {
        assert(be_val(min_be(s)) == be_val(seq![0u8].drop_last()) * 256 + 0);
    } else if s[0] != 0 {
    } else {
        lemma_min_be_val(s.skip(1));
        lemma_be_val_split(s, 1);
        assert(s.take(1) =~= seq![s[0]]);
        assert(be_val(seq![s[0]]) == be_val(seq![s[0]].drop_last()) * 256 + s[0] as nat);
        assert(be_val(seq![s[0]]) == 0);
        assert(be_val(s.take(1)) * pow(256, (s.len() - 1) as nat) == 0) by (nonlinear_arith)
            requires
                be_val(s.take(1)) == 0,
        ;
    }
}

/// Relies on `substreams::scalar::BigInt::from_unsigned_bytes_be` and its
/// `Display` impl (delegating to `num-bigint`): the result is the canonical
/// decimal rendering of the big-endian value of the bytes, with no leading
/// zeros and `"0"` for the zero value.
#[verifier::external_body]
pub fn dec_string_of_be(b: &Vec<u8>) -> (r: String)
    ensures
        r@ == dec_rep(be_val(b@)),
{
    substreams::scalar::BigInt::from_unsigned_bytes_be(b).to_string()
}

fn dec_digit_str(d: u8) -> (r: &'static str)
    requires
        d < 10,
    ensures
        r@ == seq![dec_digit(d as nat)],
{
    let r: &'static str = match d {
        0 => "0",
        1 => "1",
        2 => "2",
        3 => "3",
        4 => "4",
        5 => "5",
        6 => "6",
        7 => "7",
        8 => "8",
        _ => "9",
    };
    proof {
        reveal_strlit("0");
        reveal_strlit("1");
        reveal_strlit("2");
        reveal_strlit("3");
        reveal_strlit("4");
        reveal_strlit("5");
        reveal_strlit("6");
        reveal_strlit("7");
        reveal_strlit("8");
        reveal_strlit("9");
        assert(r@ =~= seq![dec_digit(d as nat)]);
    }
    r
}

/// Canonical decimal rendering of a 64-bit unsigned integer.
pub fn u64_to_dec(n: u64) -> (r: String)
    ensures
        r@ == dec_rep(n as nat),
{
    if n == 0 {
        let r = String::from_str(dec_digit_str(0));
        proof {
            assert(r@ =~= dec_rep(0));
        }
        return r;
    }
    let mut s = String::new();
    let mut m: u64 = n;
    while m > 0
        invariant
            dec_digits(n as nat) == dec_digits(m as nat) + s@,
        decreases m,
    {
        let d: u8 = (m % 10) as u8;
        let piece = dec_digit_str(d);
        proof {
            assert(dec_digits(m as nat) =~= dec_digits((m / 10) as nat) + seq![dec_digit(
                (m % 10) as nat,
            )]);
            assert(dec_digits((m / 10) as nat) + (piece@ + s@) =~= (dec_digits((m / 10) as nat)
                + piece@) + s@);
        }
        s = String::from_str(piece).concat(s.as_str());
        m = m / 10;
    }
    proof {
        assert(dec_digits(n as nat) =~= s@);
    }
    s
}

/// Copies the bytes of `d` between `a` and `b`.
pub fn copy_range(d: &Vec<u8>, a: usize, b: usize) -> (r: Vec<u8>)
    requires
        a <= b <= d.len(),
    ensures
        r@ == d@.subrange(a as int, b as int),
{
    let mut r: Vec<u8> = Vec::new();
    let mut i: usize = a;
    while i < b
        invariant
            a <= i <= b <= d.len(),
            r@ =~= d@.subrange(a as int, i as int),
        decreases b - i,
    {
        r.push(d[i]);
        i = i + 1;
    }
    proof {
        assert(r@ =~= d@.subrange(a as int, b as int));
    }
    r
}

/// Copies the 32-byte word of `d` at `off`.
pub fn word_vec(d: &Vec<u8>, off: usize) -> (r: Vec<u8>)
    requires
        off + 32 <= d.len(),
    ensures
        r@ == word_at(d@, off as int),
{
    let mut r: Vec<u8> = Vec::new();
    let mut i: usize = 0;
    while i < 32
        invariant
            off + 32 <= d.len(),
            i <= 32,
            r@ =~= d@.subrange(off as int, off + i),
        decreases 32 - i,
    {
        r.push(d[off + i]);
        i = i + 1;
    }
    proof {
        assert(r@ =~= word_at(d@, off as int));
    }
    r
}

/// Reads the 32-byte word of `d` at `off` as a machine integer; `None` means
/// the word's value does not fit in 64 bits.
pub fn word_u64(d: &Vec<u8>, off: usize) -> (r: Option<u64>)
    requires
        off + 32 <= d.len(),
    ensures
        match r {
            Some(v) => v as nat == be_val(word_at(d@, off as int)),
            None => be_val(word_at(d@, off as int)) >= pow(256, 8),
        },
{
    let ghost w = word_at(d@, off as int);
    let mut i: usize = 0;
    while i < 24
        invariant
            off + 32 <= d.len(),
            i <= 24,
            w == word_at(d@, off as int),
            forall|j: int| 0 <= j < i ==> w[j] == 0,
        decreases 24 - i,
    {
        if d[off + i] != 0 {
            proof {
                lemma_be_val_split(w, i + 1);
                lemma_be_val_split(w.take(i + 1), i as int);
                assert(w.take(i + 1).take(i as int) =~= w.take(i as int));
                assert(w.take(i + 1).skip(i as int) =~= seq![w[i as int]]);
                assert(be_val(seq![w[i as int]]) == be_val(
                    seq![w[i as int]].drop_last(),
                ) * 256 + w[i as int] as nat);
                assert(be_val(w.take(i + 1)) >= 1) by (nonlinear_arith)
                    requires
                        be_val(w.take(i + 1)) == be_val(w.take(i as int)) * 256 + be_val(
                            seq![w[i as int]],
                        ),
                        be_val(seq![w[i as int]]) >= 1,
                ;
                let p = pow(256, (32 - (i + 1)) as nat);
                vstd::arithmetic::power::lemma_pow_positive(256, (32 - (i + 1)) as nat);
                assert(be_val(w.take(i + 1)) * p >= p) by (nonlinear_arith)
                    requires
                        be_val(w.take(i + 1)) >= 1,
                        p > 0,
                ;
                vstd::arithmetic::power::lemma_pow_increases(256, 8, (32 - (i + 1)) as nat);
            }
            return None;
        }
        i = i + 1;
    }
    let mut acc: u64 = 0;
    let mut k: usize = 24;
    proof {
        vstd::arithmetic::power::lemma_pow0(256);
        assert(w.subrange(24, 24) =~= Seq::<u8>::empty());
    }
    while k < 32
        invariant
            off + 32 <= d.len(),
            24 <= k <= 32,
            w == word_at(d@, off as int),
            acc as nat == be_val(w.subrange(24, k as int)),
            (acc as nat) < pow(256, (k - 24) as nat),
        decreases 32 - k,
    {
        let b = d[off + k];
        proof {
            let sub = w.subrange(24, k + 1);
            assert(sub.drop_last() =~= w.subrange(24, k as int));
            assert(sub.last() == w[k as int]);
            let p = pow(256, (k - 24) as nat);
            assert(pow(256, (k + 1 - 24) as nat) == p * 256) by {
                vstd::arithmetic::power::lemma_pow_adds(256, (k - 24) as nat, 1);
                vstd::arithmetic::power::lemma_pow1(256);
            }
            assert((acc as nat) * 256 + (b as nat) < p * 256) by (nonlinear_arith)
                requires
                    (acc as nat) < p,
                    b < 256,
            ;
            vstd::arithmetic::power::lemma_pow_increases(256, (k + 1 - 24) as nat, 8);
            assert(pow(256, 8) == 0x10000000000000000) by {
                reveal_with_fuel(vstd::arithmetic::power::pow, 9);
            }
        }
        acc = acc * 256 + (b as u64);
        k = k + 1;
    }
    proof {
        lemma_be_val_split(w, 24);
        assert(w.skip(24) =~= w.subrange(24, 32));
        assert(forall|j: int| 0 <= j < 24 ==> w.take(24)[j] == 0);
        lemma_all_zero_val(w.take(24));
        assert(be_val(w.take(24)) * pow(256, 8) == 0) by (nonlinear_arith)
            requires
                be_val(w.take(24)) == 0,
        ;
    }
    Some(acc)
}

/// A sequence of zero bytes has big-endian value zero.
pub proof fn lemma_all_zero_val(s: Seq<u8>)
    requires
        forall|j: int| 0 <= j < s.len() ==> s[j] == 0,
    ensures
        be_val(s) == 0,
    decreases s.len(),
{
    if s.len() > 0 {
        lemma_all_zero_val(s.drop_last());
    }
}

/// Minimal big-endian bytes of the value carried by `b`, as a token
/// identifier is rendered.
pub fn min_be_bytes(b: &Vec<u8>) -> (r: Vec<u8>)
    ensures
        r@ == min_be(b@),
{
    let mut i: usize = 0;
    proof {
        assert(b@.skip(0) =~= b@);
    }
    while i < b.len() && b[i] == 0
        invariant
            i <= b.len(),
            min_be(b@) == min_be(b@.skip(i as int)),
        decreases b.len() - i,
    {
        proof {
            assert(b@.skip(i as int)[0] == 0);
            assert(b@.skip(i as int).skip(1) =~= b@.skip(i + 1));
        }
        i = i + 1;
    }
    if i == b.len() {
        let mut r: Vec<u8> = Vec::new();
        r.push(0);
        proof {
            assert(b@.skip(i as int) =~= Seq::<u8>::empty());
            assert(r@ =~= min_be(b@));
        }
        r
    } else {
        let mut r: Vec<u8> = Vec::new();
        let mut k: usize = i;
        while k < b.len()
            invariant
                i <= k <= b.len(),
                r@ =~= b@.subrange(i as int, k as int),
            decreases b.len() - k,
        {
            r.push(b[k]);
            k = k + 1;
        }
        proof {
            assert(r@ =~= b@.skip(i as int));
            assert(b@.skip(i as int)[0] != 0);
        }
        r
    }
}

} // verus!
