//! Lowercase hexadecimal rendering of byte sequences.
//!
//! Binary columns (addresses, hashes, token identifiers) are rendered as
//! lowercase hexadecimal, two digits per byte.  Decoding is the exact
//! inverse, so a projected column determines the bytes it renders.

use vstd::prelude::*;

verus! {

use vstd::string::StrSliceExecFns;
use vstd::string::StringExecFns;

/// Lowercase hexadecimal digit character for a value below sixteen.
pub open spec fn hex_digit(d: nat) -> char {
    if d == 0 {
        '0'
    } else if d == 1 {
        '1'
    } else if d == 2 {
        '2'
    } else if d == 3 {
        '3'
    } else if d == 4 {
        '4'
    } else if d == 5 {
        '5'
    } else if d == 6 {
        '6'
    } else if d == 7 {
        '7'
    } else if d == 8 {
        '8'
    } else if d == 9 {
        '9'
    } else if d == 10 {
        'a'
    } else if d == 11 {
        'b'
    } else if d == 12 {
        'c'
    } else if d == 13 {
        'd'
    } else if d == 14 {
        'e'
    } else {
        'f'
    }
}

/// Lowercase hexadecimal rendering of a byte sequence, two digits per byte.
pub open spec fn hex_of(s: Seq<u8>) -> Seq<char>
    decreases s.len(),
{
    if s.len() == 0 {
        Seq::empty()
    } else {
        hex_of(s.drop_last()) + seq![
            hex_digit(s.last() as nat / 16),
            hex_digit(s.last() as nat % 16),
        ]
    }
}

/// Value of a lowercase hexadecimal digit character; sixteen for any other
/// character.
pub open spec fn hex_char_val(c: char) -> nat {
    if c == '0' {
        0
    } else if c == '1' {
        1
    } else if c == '2' {
        2
    } else if c == '3' {
        3
    } else if c == '4' {
        4
    } else if c == '5' {
        5
    } else if c == '6' {
        6
    } else if c == '7' {
        7
    } else if c == '8' {
        8
    } else if c == '9' {
        9
    } else if c == 'a' {
        10
    } else if c == 'b' {
        11
    } else if c == 'c' {
        12
    } else if c == 'd' {
        13
    } else if c == 'e' {
        14
    } else if c == 'f' {
        15
    } else {
        16
    }
}

/// A character sequence that is a well-formed lowercase hexadecimal
/// rendering: even length, every character a hex digit.
pub open spec fn is_hex_seq(s: Seq<char>) -> bool {
    s.len() % 2 == 0 && forall|i: int| 0 <= i < s.len() ==> hex_char_val(#[trigger] s[i]) < 16
}

fn hex_digit_str(d: u8) -> (r: &'static str)
    requires
        d < 16,
    ensures
        r@ == seq![hex_digit(d as nat)],
{
    let r: &'static str = match d {
        0 => "0",
        1 => "1",
        2 => "2",
        3 => "3",
        4 => "4",
        5 => "5",
        6 => "6",
        7 => "7",
        8 => "8",
        9 => "9",
        10 => "a",
        11 => "b",
        12 => "c",
        13 => "d",
        14 => "e",
        _ => "f",
    };
    proof {
        reveal_strlit("0");
        reveal_strlit("1");
        reveal_strlit("2");
        reveal_strlit("3");
        reveal_strlit("4");
        reveal_strlit("5");
        reveal_strlit("6");
        reveal_strlit("7");
        reveal_strlit("8");
        reveal_strlit("9");
        reveal_strlit("a");
        reveal_strlit("b");
        reveal_strlit("c");
        reveal_strlit("d");
        reveal_strlit("e");
        reveal_strlit("f");
        assert(r@ =~= seq![hex_digit(d as nat)]);
    }
    r
}

fn hex_val_exec(c: char) -> (v: u8)
    ensures
        v as nat == hex_char_val(c),
{
    match c {
        '0' => 0,
        '1' => 1,
        '2' => 2,
        '3' => 3,
        '4' => 4,
        '5' => 5,
        '6' => 6,
        '7' => 7,
        '8' => 8,
        '9' => 9,
        'a' => 10,
        'b' => 11,
        'c' => 12,
        'd' => 13,
        'e' => 14,
        'f' => 15,
        _ => 16,
    }
}

/// Renders bytes as lowercase hexadecimal, two digits per byte.
pub fn hex_encode(b: &Vec<u8>) -> (r: String)
    ensures
        r@ == hex_of(b@),
{
    let mut r = String::new();
    let mut i: usize = 0;
    while i < b.len()
        invariant
            i <= b.len(),
            r@ == hex_of(b@.take(i as int)),
        decreases b.len() - i,
    {
        let byte = b[i];
        let hi = hex_digit_str(byte / 16);
        let lo = hex_digit_str(byte % 16);
        proof {
            let t = b@.take(i + 1);
            assert(t.drop_last() =~= b@.take(i as int));
            assert(t.last() == b@[i as int]);
            assert((r@ + hi@) + lo@ =~= hex_of(b@.take(i as int)) + seq![
                hex_digit(byte as nat / 16),
                hex_digit(byte as nat % 16),
            ]);
        }
        r.append(hi);
        r.append(lo);
        i = i + 1;
    }
    proof {
        assert(b@.take(b@.len() as int) =~= b@);
    }
    r
}

/// A rendered hexadecimal digit reads back as its value.
proof fn lemma_hex_digit_val(d: nat)
    requires
        d < 16,
    ensures
        hex_char_val(hex_digit(d)) == d,
{
}

/// A hexadecimal digit character renders back from its value.
proof fn lemma_hex_val_digit(c: char)
    requires
        hex_char_val(c) < 16,
    ensures
        hex_digit(hex_char_val(c)) == c,
{
}

/// A rendering has twice as many characters as there are bytes.
pub proof fn lemma_hex_of_len(s: Seq<u8>)
    ensures
        hex_of(s).len() == 2 * s.len(),
    decreases s.len(),
{
    if s.len() > 0 {
        lemma_hex_of_len(s.drop_last());
    }
}

/// A rendering is a well-formed hexadecimal character sequence.
pub proof fn lemma_hex_of_valid(s: Seq<u8>)
    ensures
        is_hex_seq(hex_of(s)),
    decreases s.len(),
{
    if s.len() > 0 {
        lemma_hex_of_valid(s.drop_last());
        lemma_hex_of_len(s.drop_last());
        lemma_hex_digit_val(s.last() as nat / 16);
        lemma_hex_digit_val(s.last() as nat % 16);
        assert forall|i: int| 0 <= i < hex_of(s).len() implies hex_char_val(
            #[trigger] hex_of(s)[i],
        ) < 16 by {
            if i < hex_of(s.drop_last()).len() {
                assert(hex_of(s)[i] == hex_of(s.drop_last())[i]);
            }
        }
    }
}

/// Two byte sequences with the same rendering are the same sequence.
proof fn lemma_hex_of_injective(a: Seq<u8>, b: Seq<u8>)
    requires
        hex_of(a) == hex_of(b),
    ensures
        a == b,
    decreases a.len(),
{
    lemma_hex_of_len(a);
    lemma_hex_of_len(b);
    if a.len() == 0 {
        assert(a =~= b);
    } else {
        let ha = hex_of(a.drop_last());
        let hb = hex_of(b.drop_last());
        lemma_hex_of_len(a.drop_last());
        lemma_hex_of_len(b.drop_last());
        assert(hex_of(a)[2 * a.len() - 2] == hex_digit(a.last() as nat / 16));
        assert(hex_of(a)[2 * a.len() - 1] == hex_digit(a.last() as nat % 16));
        assert(hex_of(b)[2 * b.len() - 2] == hex_digit(b.last() as nat / 16));
        assert(hex_of(b)[2 * b.len() - 1] == hex_digit(b.last() as nat % 16));
        lemma_hex_digit_val(a.last() as nat / 16);
        lemma_hex_digit_val(a.last() as nat % 16);
        lemma_hex_digit_val(b.last() as nat / 16);
        lemma_hex_digit_val(b.last() as nat % 16);
        assert(a.last() as nat / 16 == b.last() as nat / 16);
        assert(a.last() as nat % 16 == b.last() as nat % 16);
        assert(a.last() == b.last());
        assert(ha =~= hb) by {
            assert forall|i: int| 0 <= i < ha.len() implies ha[i] == hb[i] by {
                assert(hex_of(a)[i] == ha[i]);
                assert(hex_of(b)[i] == hb[i]);
            }
        }
        lemma_hex_of_injective(a.drop_last(), b.drop_last());
        assert forall|i: int| 0 <= i < a.len() implies a[i] == b[i] by {
            if i < a.len() - 1 {
                assert(a[i] == a.drop_last()[i]);
                assert(b[i] == b.drop_last()[i]);
            } else {
                assert(a[i] == a.last());
                assert(b[i] == b.last());
            }
        }
        assert(a =~= b);
    }
}

/// Law: the hexadecimal rendering of any byte sequence is well formed, and no
/// other byte sequence renders to it; together with `hex_decode`'s contract,
/// decoding a rendering yields exactly the rendered bytes.
pub proof fn lemma_hex_round_trip(b: Seq<u8>)
    ensures
        is_hex_seq(hex_of(b)),
        forall|c: Seq<u8>| hex_of(c) == hex_of(b) ==> c == b,
{
    lemma_hex_of_valid(b);
    assert forall|c: Seq<u8>| hex_of(c) == hex_of(b) implies c == b by {
        lemma_hex_of_injective(c, b);
    }
}

/// Decodes a lowercase hexadecimal rendering back into bytes; `None` exactly
/// when the input is not a well-formed rendering.
pub fn hex_decode(s: &str) -> (r: Option<Vec<u8>>)
    ensures
        match r {
            Some(v) => is_hex_seq(s@) && hex_of(v@) == s@,
            None => !is_hex_seq(s@),
        },
{
    let n = s.unicode_len();
    if n % 2 != 0 {
        return None;
    }
    let mut out: Vec<u8> = Vec::new();
    let mut i: usize = 0;
    while i < n
        invariant
            n == s@.len(),
            n % 2 == 0,
            i % 2 == 0,
            i <= n,
            hex_of(out@) == s@.take(i as int),
            out@.len() * 2 == i,
            forall|j: int| 0 <= j < i ==> hex_char_val(#[trigger] s@[j]) < 16,
        decreases n - i,
    {
        let c1 = s.get_char(i);
        let c2 = s.get_char(i + 1);
        let v1 = hex_val_exec(c1);
        let v2 = hex_val_exec(c2);
        if v1 >= 16 || v2 >= 16 {
            return None;
        }
        let byte = v1 * 16 + v2;
        proof {
            let t = out@.push(byte);
            assert(t.drop_last() =~= out@);
            assert(byte as nat / 16 == v1 as nat && byte as nat % 16 == v2 as nat);
            lemma_hex_val_digit(c1);
            lemma_hex_val_digit(c2);
            assert(hex_of(t) =~= s@.take(i + 2)) by {
                assert(hex_of(t) == hex_of(out@) + seq![
                    hex_digit(byte as nat / 16),
                    hex_digit(byte as nat % 16),
                ]);
            }
        }
        out.push(byte);
        i = i + 2;
    }
    proof {
        assert(s@.take(n as int) =~= s@);
    }
    Some(out)
}

} // verus!
