//! Text and byte helpers: decimal rendering of integers, UTF-8 decoding of
//! byte fields, and equality on byte strings.

use std::cmp::Ordering;
use vstd::prelude::*;
use vstd::string::StringExecFns;
use vstd::utf8::{decode_utf8, encode_utf8, valid_utf8};

verus! {

/// The character that stands for the decimal digit `d`.
pub open spec fn digit_char(d: int) -> char
    recommends
        0 <= d < 10,
{
    if d == 0 {
        '0'
    } else if d == 1 {
        '1'
    } else if d == 2 {
        '2'
    } else if d == 3 {
        '3'
    } else if d == 4 {
        '4'
    } else if d == 5 {
        '5'
    } else if d == 6 {
        '6'
    } else if d == 7 {
        '7'
    } else if d == 8 {
        '8'
    } else {
        '9'
    }
}

/// Decimal digits of a natural number, most significant first, without
/// leading zeros (zero is the single digit `0`).
pub open spec fn decimal_nat(n: nat) -> Seq<char>
    decreases n,
{
    if n < 10 {
        seq![digit_char(n as int)]
    } else {
        decimal_nat(n / 10).push(digit_char((n % 10) as int))
    }
}

/// Decimal rendering of an integer: a minus sign for negative numbers, then
/// the digits of the magnitude.
pub open spec fn decimal(n: int) -> Seq<char> {
    if n < 0 {
        seq!['-'] + decimal_nat((-n) as nat)
    } else {
        decimal_nat(n as nat)
    }
}

fn digit_str(d: u64) -> (r: &'static str)
    requires
        d < 10,
    ensures
        r@ == seq![digit_char(d as int)],
{
    proof {
        reveal_strlit("0");
        reveal_strlit("1");
        reveal_strlit("2");
        reveal_strlit("3");
        reveal_strlit("4");
        reveal_strlit("5");
        reveal_strlit("6");
        reveal_strlit("7");
        reveal_strlit("8");
        reveal_strlit("9");
    }
    let r = if d == 0 {
        "0"
    } else if d == 1 {
        "1"
    } else if d == 2 {
        "2"
    } else if d == 3 {
        "3"
    } else if d == 4 {
        "4"
    } else if d == 5 {
        "5"
    } else if d == 6 {
        "6"
    } else if d == 7 {
        "7"
    } else if d == 8 {
        "8"
    } else {
        "9"
    };
    assert(r@ =~= seq![digit_char(d as int)]);
    r
}

/// Appends the decimal digits of `n` to `out`.
pub fn push_decimal_u64(out: &mut String, n: u64)
    ensures
        final(out)@ == old(out)@ + decimal_nat(n as nat),
    decreases n,
{
    if n >= 10 {
        push_decimal_u64(out, n / 10);
        out.append(digit_str(n % 10));
        assert(out@ =~= old(out)@ + decimal_nat(n as nat));
    } else {
        out.append(digit_str(n));
    }
}

/// Appends the decimal rendering of `n` to `out`.
pub fn push_decimal_i64(out: &mut String, n: i64)
    ensures
        final(out)@ == old(out)@ + decimal(n as int),
{
    if n < 0 {
        proof {
            reveal_strlit("-");
        }
        out.append("-");
        // -(n + 1) is in range for every negative n, i64::MIN included
        let m: u64 = (-(n + 1)) as u64 + 1;
        push_decimal_u64(out, m);
        assert(out@ =~= old(out)@ + decimal(n as int));
    } else {
        push_decimal_u64(out, n as u64);
    }
}

/// Whether two byte strings hold the same bytes.
pub fn bytes_eq(a: &Vec<u8>, b: &Vec<u8>) -> (r: bool)
    ensures
        r == (a@ == b@),
{
    if a.len() != b.len() {
        return false;
    }
    let mut i: usize = 0;
    while i < a.len()
        invariant
            i <= a.len(),
            a.len() == b.len(),
            forall|j: int| 0 <= j < i ==> a@[j] == b@[j],
        decreases a.len() - i,
    {
        if a[i] != b[i] {
            return false;
        }
        i += 1;
    }
    assert(a@ =~= b@);
    true
}

/// A copy of a byte string.
pub fn bytes_clone(a: &Vec<u8>) -> (r: Vec<u8>)
    ensures
        r@ == a@,
{
    let mut r: Vec<u8> = Vec::new();
    let mut i: usize = 0;
    while i < a.len()
        invariant
            i <= a.len(),
            r@ == a@.subrange(0, i as int),
        decreases a.len() - i,
    {
        r.push(a[i]);
        assert(r@ =~= a@.subrange(0, i + 1));
        i += 1;
    }
    assert(r@ =~= a@);
    r
}

/// The two byte strings hold the same bytes before index `k`.
pub open spec fn agree_before(a: Seq<u8>, b: Seq<u8>, k: int) -> bool {
    &&& 0 <= k <= a.len()
    &&& k <= b.len()
    &&& forall|j: int| 0 <= j < k ==> a[j] == b[j]
}

/// `a` comes before `b` in the lexicographic order of bytes: at the first
/// place where they part, `a` has ended or holds the smaller byte.
pub open spec fn lex_less(a: Seq<u8>, b: Seq<u8>) -> bool {
    exists|k: int|
        #[trigger] agree_before(a, b, k) && k < b.len() && (k < a.len() ==> a[k] < b[k])
}

/// Lexicographic order of two byte strings.
pub open spec fn lex_order(a: Seq<u8>, b: Seq<u8>) -> Ordering {
    if lex_less(a, b) {
        Ordering::Less
    } else if lex_less(b, a) {
        Ordering::Greater
    } else {
        Ordering::Equal
    }
}

/// Two byte strings part at one place only: where `a` is the smaller one
/// there, `b` is not smaller anywhere.
pub proof fn lemma_lex_less_asymmetric(a: Seq<u8>, b: Seq<u8>)
    requires
        lex_less(a, b),
    ensures
        !lex_less(b, a),
        a != b,
{
    let k = choose|k: int|
        #[trigger] agree_before(a, b, k) && k < b.len() && (k < a.len() ==> a[k] < b[k]);
    assert forall|m: int|
        #[trigger] agree_before(b, a, m) && m < a.len() implies !(m < b.len() ==> b[m] < a[m]) by {
        if m < k {
            assert(a[m] == b[m]);
        } else if m > k {
            assert(b[k] == a[k]);
        }
    }
}

/// Byte strings that neither come before the other are the same.
pub proof fn lemma_lex_order_total(a: Seq<u8>, b: Seq<u8>)
    ensures
        lex_order(a, b) == Ordering::Equal <==> a == b,
{
    if a == b {
        if lex_less(a, b) {
            lemma_lex_less_asymmetric(a, b);
        }
    } else {
        lemma_first_difference(a, b, 0);
    }
}

proof fn lemma_first_difference(a: Seq<u8>, b: Seq<u8>, k: int)
    requires
        a != b,
        agree_before(a, b, k),
    ensures
        lex_less(a, b) || lex_less(b, a),
    decreases a.len() - k,
{
    if k == a.len() && k == b.len() {
        assert(a =~= b);
    } else if k == a.len() {
        assert(agree_before(a, b, k) && k < b.len());
    } else if k == b.len() {
        assert(agree_before(b, a, k) && k < a.len());
    } else if a[k] < b[k] {
        assert(agree_before(a, b, k) && k < b.len());
    } else if b[k] < a[k] {
        assert(agree_before(b, a, k) && k < a.len());
    } else {
        assert(agree_before(a, b, k + 1));
        lemma_first_difference(a, b, k + 1);
    }
}

/// Whether `a` comes before `b` in the lexicographic order of bytes.
pub fn bytes_less(a: &Vec<u8>, b: &Vec<u8>) -> (r: bool)
    ensures
        r == lex_less(a@, b@),
{
    let mut i: usize = 0;
    while i < a.len() && i < b.len()
        invariant
            agree_before(a@, b@, i as int),
        decreases a.len() - i,
    {
        if a[i] < b[i] {
            assert(agree_before(a@, b@, i as int) && i < b@.len());
            return true;
        }
        if a[i] > b[i] {
            assert(agree_before(b@, a@, i as int) && i < a@.len());
            proof {
                lemma_lex_less_asymmetric(b@, a@);
            }
            return false;
        }
        i += 1;
    }
    if i < b.len() {
        assert(agree_before(a@, b@, i as int) && i < b@.len());
        true
    } else {
        proof {
            if i < a.len() {
                assert(agree_before(b@, a@, i as int) && i < a@.len());
                lemma_lex_less_asymmetric(b@, a@);
            } else {
                assert(a@ =~= b@);
                if lex_less(a@, b@) {
                    lemma_lex_less_asymmetric(a@, b@);
                }
            }
        }
        false
    }
}

/// Decodes a byte string as UTF-8 through `String::from_utf8`. The contract
/// is taken on trust from the standard library's documentation: the call
/// succeeds exactly on well-formed UTF-8, and the string it gives back is made
/// of the very bytes that went in.
#[verifier::external_body]
pub(crate) fn string_from_utf8(bytes: Vec<u8>) -> (r: Option<String>)
    ensures
        r is Some <==> valid_utf8(bytes@),
        r matches Some(s) ==> encode_utf8(s@) == bytes@,
{
    String::from_utf8(bytes).ok()
}

/// The text that a byte field holds, or `None` where it is not UTF-8.
pub fn utf8_text(bytes: &Vec<u8>) -> (r: Option<String>)
    ensures
        r is Some <==> valid_utf8(bytes@),
        r matches Some(s) ==> s@ == decode_utf8(bytes@),
{
    let r = string_from_utf8(bytes_clone(bytes));
    proof {
        if let Some(s) = &r {
            vstd::utf8::encode_utf8_decode_utf8(s@);
        }
    }
    r
}

} // verus!
