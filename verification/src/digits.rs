//! The mathematical model of decimal numerals: the value denoted by an
//! ASCII digit string, the canonical digit string of a number, and the
//! lemmas relating the two.

use vstd::prelude::*;
use vstd::arithmetic::div_mod::lemma_fundamental_div_mod;

verus! {

/// ASCII code of the digit `0`.
pub const DIGIT_ZERO: u8 = 48;

/// ASCII code of the digit `9`.
pub const DIGIT_NINE: u8 = 57;

pub open spec fn is_ascii_digit(b: u8) -> bool {
    DIGIT_ZERO <= b && b <= DIGIT_NINE
}

pub open spec fn all_digits(s: Seq<u8>) -> bool {
    forall|i: int| 0 <= i < s.len() ==> is_ascii_digit(#[trigger] s[i])
}

/// The numeric value of one ASCII digit.
pub open spec fn digit_val(b: u8) -> nat {
    if DIGIT_ZERO <= b {
        (b - DIGIT_ZERO) as nat
    } else {
        0
    }
}

/// The number denoted by an ASCII digit string, most significant digit first.
pub open spec fn val_of(s: Seq<u8>) -> nat
    decreases s.len(),
{
    if s.len() == 0 {
        0
    } else {
        10 * val_of(s.drop_last()) + digit_val(s.last())
    }
}

pub open spec fn pow10(n: nat) -> nat
    decreases n,
{
    if n == 0 {
        1
    } else {
        10 * pow10((n - 1) as nat)
    }
}

/// The canonical decimal digit string of `n`: no leading zeros, and the
/// single digit `0` for zero.
pub open spec fn dec_digits(n: nat) -> Seq<u8>
    decreases n,
{
    if n < 10 {
        seq![(DIGIT_ZERO + n) as u8]
    } else {
        dec_digits(n / 10).push((DIGIT_ZERO + n % 10) as u8)
    }
}

/// `k` copies of the byte `b`.
pub open spec fn rep_seq(b: u8, k: nat) -> Seq<u8> {
    Seq::new(k, |i: int| b)
}

pub proof fn lemma_val_of_singleton(b: u8)
    ensures
        val_of(seq![b]) == digit_val(b),
{
    let s = seq![b];
    assert(s.drop_last() =~= Seq::<u8>::empty());
    assert(val_of(Seq::<u8>::empty()) == 0);
    assert(s.last() == b);
    assert(val_of(s) == 10 * val_of(s.drop_last()) + digit_val(s.last()));
}

pub proof fn lemma_pow10_pos(n: nat)
    ensures
        pow10(n) >= 1,
    decreases n,
{
    if n > 0 {
        lemma_pow10_pos((n - 1) as nat);
    }
}

pub proof fn lemma_pow10_mono(a: nat, b: nat)
    requires
        a <= b,
    ensures
        pow10(a) <= pow10(b),
    decreases b,
{
    if a < b {
        lemma_pow10_mono(a, (b - 1) as nat);
        lemma_pow10_pos((b - 1) as nat);
    }
}

pub proof fn lemma_val_of_rep_zero(k: nat)
    ensures
        val_of(rep_seq(DIGIT_ZERO, k)) == 0,
    decreases k,
{
    if k > 0 {
        assert(rep_seq(DIGIT_ZERO, k).drop_last() =~= rep_seq(DIGIT_ZERO, (k - 1) as nat));
        lemma_val_of_rep_zero((k - 1) as nat);
    }
}

pub proof fn lemma_val_of_rep_nine(k: nat)
    ensures
        val_of(rep_seq(DIGIT_NINE, k)) + 1 == pow10(k),
    decreases k,
{
    if k > 0 {
        assert(rep_seq(DIGIT_NINE, k).drop_last() =~= rep_seq(DIGIT_NINE, (k - 1) as nat));
        lemma_val_of_rep_nine((k - 1) as nat);
    }
}

/// Concatenation shifts the left part by a power of ten.
pub proof fn lemma_val_of_append(s: Seq<u8>, t: Seq<u8>)
    ensures
        val_of(s + t) == val_of(s) * pow10(t.len()) + val_of(t),
    decreases t.len(),
{
    if t.len() == 0 {
        assert(s + t =~= s);
        assert(val_of(t) == 0);
        assert(pow10(t.len()) == 1);
        assert(val_of(s) * 1 == val_of(s)) by (nonlinear_arith);
    } else {
        let k = (t.len() - 1) as nat;
        assert((s + t).drop_last() =~= s + t.drop_last());
        assert((s + t).last() == t.last());
        lemma_val_of_append(s, t.drop_last());
        assert(t.drop_last().len() == k);
        assert(val_of(s + t) == 10 * (val_of(s) * pow10(k) + val_of(t.drop_last())) + digit_val(
            t.last(),
        ));
        assert(pow10(t.len()) == 10 * pow10(k));
        assert(val_of(s) * pow10(t.len()) == 10 * (val_of(s) * pow10(k))) by (nonlinear_arith)
            requires
                pow10(t.len()) == 10 * pow10(k),
        ;
        assert(val_of(t) == 10 * val_of(t.drop_last()) + digit_val(t.last()));
        assert(val_of(s + t) == val_of(s) * pow10(t.len()) + val_of(t));
    }
}

/// A digit string of length `k` denotes a number below `pow10(k)`.
pub proof fn lemma_val_of_bound(s: Seq<u8>)
    requires
        all_digits(s),
    ensures
        val_of(s) < pow10(s.len()),
    decreases s.len(),
{
    if s.len() > 0 {
        assert(all_digits(s.drop_last()));
        lemma_val_of_bound(s.drop_last());
    }
}

/// A digit string with a nonzero leading digit denotes at least
/// `pow10(len - 1)`.
pub proof fn lemma_val_of_lower(s: Seq<u8>)
    requires
        all_digits(s),
        s.len() >= 1,
        s[0] != DIGIT_ZERO,
    ensures
        val_of(s) >= pow10((s.len() - 1) as nat),
{
    assert(s =~= seq![s[0]] + s.skip(1));
    lemma_val_of_append(seq![s[0]], s.skip(1));
    assert(digit_val(s[0]) >= 1);
    lemma_val_of_singleton(s[0]);
    assert(digit_val(s[0]) * pow10((s.len() - 1) as nat) >= 1 * pow10((s.len() - 1) as nat))
        by (nonlinear_arith)
        requires digit_val(s[0]) >= 1;
}

/// The canonical digit string denotes its number, is nonempty, holds only
/// digits, and has no leading zero unless the number is zero.
pub proof fn lemma_dec_digits_basic(n: nat)
    ensures
        dec_digits(n).len() >= 1,
        all_digits(dec_digits(n)),
        val_of(dec_digits(n)) == n,
        n >= 1 ==> dec_digits(n)[0] != DIGIT_ZERO,
    decreases n,
{
    if n < 10 {
        lemma_val_of_singleton((DIGIT_ZERO + n) as u8);
    } else {
        lemma_dec_digits_basic(n / 10);
        let d = dec_digits(n / 10);
        assert(dec_digits(n).drop_last() =~= d);
        lemma_fundamental_div_mod(n as int, 10);
        assert(val_of(dec_digits(n)) == 10 * (n / 10) + n % 10);
    }
}

/// A number below `pow10(k)` has at most `k` canonical digits.
pub proof fn lemma_dec_digits_len_le(n: nat, k: nat)
    requires
        k >= 1,
        n < pow10(k),
    ensures
        dec_digits(n).len() <= k,
    decreases n,
{
    if n >= 10 {
        if k == 1 {
            assert(pow10(1nat) == 10);
            assert(false);
        }
        lemma_fundamental_div_mod(n as int, 10);
        if n / 10 >= pow10((k - 1) as nat) {
            assert(10 * (n / 10) >= 10 * pow10((k - 1) as nat));
            assert(false);
        }
        lemma_dec_digits_len_le(n / 10, (k - 1) as nat);
    }
}

/// A number of `k` or more canonical digits is at least `pow10(k - 1)`;
/// stated contrapositively through the two lemmas above, this pins the
/// canonical length: `pow10(len - 1) <= n < pow10(len)` for `n >= 1`.
pub proof fn lemma_dec_digits_len_ge(n: nat)
    requires
        n >= 1,
    ensures
        n >= pow10((dec_digits(n).len() - 1) as nat),
{
    lemma_dec_digits_basic(n);
    lemma_val_of_lower(dec_digits(n));
}

/// The canonical length never shrinks at an increment and grows by at most
/// one; it grows exactly when the successor is a power of ten, that is,
/// exactly when the canonical digits are all nines.
pub proof fn lemma_dec_len_succ(v: nat)
    ensures
        dec_digits(v).len() <= dec_digits((v + 1) as nat).len(),
        dec_digits((v + 1) as nat).len() <= dec_digits(v).len() + 1,
        (dec_digits((v + 1) as nat).len() == dec_digits(v).len() + 1) <==> (v + 1 == pow10(
            dec_digits(v).len(),
        )),
        (v + 1 == pow10(dec_digits(v).len())) <==> (dec_digits(v) == rep_seq(
            DIGIT_NINE,
            dec_digits(v).len(),
        )),
{
    let w = (v + 1) as nat;
    let l1 = dec_digits(v).len();
    let l2 = dec_digits(w).len();
    lemma_dec_digits_basic(v);
    lemma_dec_digits_basic(w);
    lemma_val_of_bound(dec_digits(v));
    lemma_val_of_bound(dec_digits(w));
    lemma_pow10_pos(l1);
    // l2 <= l1 + 1
    assert(pow10((l1 + 1) as nat) == 10 * pow10(l1));
    lemma_dec_digits_len_le(w, (l1 + 1) as nat);
    // l2 >= l1
    if v >= 1 {
        lemma_dec_digits_len_ge(v);
        if l2 < l1 {
            lemma_pow10_mono(l2, (l1 - 1) as nat);
            assert(false);
        }
    }
    // growth happens exactly at a power of ten
    lemma_dec_digits_len_ge(w);
    if l2 == l1 + 1 {
        lemma_pow10_mono(l1, (l2 - 1) as nat);
        assert(w >= pow10(l1));
        assert(w == pow10(l1));
    }
    if w == pow10(l1) && l2 <= l1 {
        lemma_pow10_mono(l2, l1);
        assert(false);
    }
    // all-nines characterization
    assert(all_digits(rep_seq(DIGIT_NINE, l1)));
    lemma_val_of_rep_nine(l1);
    if dec_digits(v) == rep_seq(DIGIT_NINE, l1) {
        assert(v == val_of(rep_seq(DIGIT_NINE, l1)));
    }
    if w == pow10(l1) {
        assert(val_of(dec_digits(v)) == val_of(rep_seq(DIGIT_NINE, l1)));
        lemma_val_of_injective(dec_digits(v), rep_seq(DIGIT_NINE, l1));
    }
}

/// Two digit strings of one length denoting one number are equal:
/// a fixed-width decimal representation is unique.
pub proof fn lemma_val_of_injective(s: Seq<u8>, t: Seq<u8>)
    requires
        all_digits(s),
        all_digits(t),
        s.len() == t.len(),
        val_of(s) == val_of(t),
    ensures
        s == t,
    decreases s.len(),
{
    if s.len() == 0 {
        assert(s =~= t);
    } else {
        assert(all_digits(s.drop_last()));
        assert(all_digits(t.drop_last()));
        assert(digit_val(s.last()) < 10);
        assert(digit_val(t.last()) < 10);
        assert(val_of(s.drop_last()) == val_of(t.drop_last()) && digit_val(s.last()) == digit_val(
            t.last(),
        )) by (nonlinear_arith)
            requires
                10 * val_of(s.drop_last()) + digit_val(s.last()) == 10 * val_of(t.drop_last())
                    + digit_val(t.last()),
                digit_val(s.last()) < 10,
                digit_val(t.last()) < 10,
        ;
        lemma_val_of_injective(s.drop_last(), t.drop_last());
        assert(s.last() == t.last());
        assert(s =~= s.drop_last().push(s.last()));
        assert(t =~= t.drop_last().push(t.last()));
    }
}

} // verus!
