//! The incremental numeral cursor: a fixed-width, zero-padded ASCII
//! decimal numeral that advances to the next value by in-place carry
//! propagation instead of re-converting the integer each time.

use vstd::prelude::*;
use vstd::slice::slice_subrange;
use crate::digits::{
    all_digits, dec_digits, digit_val, pow10, rep_seq, val_of, DIGIT_NINE, DIGIT_ZERO,
    lemma_dec_digits_basic, lemma_dec_digits_len_le, lemma_dec_len_succ, lemma_pow10_pos,
    lemma_val_of_append, lemma_val_of_injective, lemma_val_of_rep_nine, lemma_val_of_rep_zero,
};

verus! {

/// Number of digit slots in a numeral: the widest value a cursor supports
/// has this many digits.
pub const NUM_WIDTH: usize = 12;

/// A numeral that is not all nines has a digit the carry will stop at.
proof fn lemma_some_digit_absorbs(s: Seq<u8>)
    requires
        s.len() == NUM_WIDTH,
        all_digits(s),
        val_of(s) + 1 < pow10(NUM_WIDTH as nat),
    ensures
        exists|j: int| 0 <= j < NUM_WIDTH && s[j] != DIGIT_NINE,
{
    if forall|j: int| 0 <= j < NUM_WIDTH ==> s[j] == DIGIT_NINE {
        assert(s =~= rep_seq(DIGIT_NINE, NUM_WIDTH as nat));
        lemma_val_of_rep_nine(NUM_WIDTH as nat);
        assert(false);
    }
}

/// Bumping the digit at `i` by one and zeroing the wrapped nines behind it
/// adds exactly one to the denoted value.
proof fn lemma_carry_value(s: Seq<u8>, i: int)
    requires
        s.len() == NUM_WIDTH,
        all_digits(s),
        0 <= i < NUM_WIDTH,
        s[i] != DIGIT_NINE,
        forall|j: int| i < j < NUM_WIDTH ==> s[j] == DIGIT_NINE,
    ensures
        val_of(s.take(i).push((s[i] + 1) as u8) + rep_seq(DIGIT_ZERO, (NUM_WIDTH - 1 - i) as nat))
            == val_of(s) + 1,
{
    let k = (NUM_WIDTH - 1 - i) as nat;
    let a = s.take(i + 1);
    assert(s.skip(i + 1) =~= rep_seq(DIGIT_NINE, k));
    assert(s =~= a + s.skip(i + 1));
    lemma_val_of_append(a, s.skip(i + 1));
    lemma_val_of_rep_nine(k);
    assert(val_of(s) == val_of(a) * pow10(k) + (pow10(k) - 1));
    let b = s.take(i).push((s[i] + 1) as u8);
    assert(a.drop_last() =~= s.take(i));
    assert(b.drop_last() =~= s.take(i));
    assert(a.last() == s[i]);
    assert(b.last() == (s[i] + 1) as u8);
    assert(digit_val((s[i] + 1) as u8) == digit_val(s[i]) + 1);
    assert(val_of(b) == val_of(a) + 1);
    lemma_val_of_append(b, rep_seq(DIGIT_ZERO, k));
    lemma_val_of_rep_zero(k);
    assert(val_of(b + rep_seq(DIGIT_ZERO, k)) == val_of(b) * pow10(k));
    assert((val_of(a) + 1) * pow10(k) == val_of(a) * pow10(k) + pow10(k)) by (nonlinear_arith);
}

/// Adds one to the zero-padded decimal numeral in `input` by carry
/// propagation from the rightmost digit: a `9` wraps to `0` and carries
/// one slot left; the first other digit absorbs the carry. Returns 0 when
/// the rightmost digit absorbed it, and otherwise one more than the count
/// of wrapped nines, i.e. the width of the slot span the carry touched.
pub fn increase_str_num(input: &mut Vec<u8>) -> (grown: usize)
    requires
        old(input)@.len() == NUM_WIDTH,
        all_digits(old(input)@),
        val_of(old(input)@) + 1 < pow10(NUM_WIDTH as nat),
    ensures
        final(input)@.len() == NUM_WIDTH,
        all_digits(final(input)@),
        val_of(final(input)@) == val_of(old(input)@) + 1,
        grown == 0 ==> old(input)@[NUM_WIDTH - 1] != DIGIT_NINE,
        grown != 0 ==> 2 <= grown <= NUM_WIDTH && old(input)@[NUM_WIDTH - grown]
            != DIGIT_NINE && (forall|j: int|
            NUM_WIDTH - grown < j < NUM_WIDTH ==> old(input)@[j] == DIGIT_NINE),
{
    let last = input[NUM_WIDTH - 1];
    if last < DIGIT_NINE {
        input.set(NUM_WIDTH - 1, last + 1);
        proof {
            assert(input@.drop_last() =~= old(input)@.drop_last());
            assert(input@.last() == (last + 1) as u8);
            assert(digit_val((last + 1) as u8) == digit_val(last) + 1);
            assert(val_of(input@) == 10 * val_of(old(input)@.drop_last()) + digit_val(
                (last + 1) as u8,
            ));
            assert(val_of(old(input)@) == 10 * val_of(old(input)@.drop_last()) + digit_val(last));
        }
        return 0;
    }
    input.set(NUM_WIDTH - 1, DIGIT_ZERO);
    proof {
        assert(input@ =~= old(input)@.take(NUM_WIDTH - 1) + rep_seq(DIGIT_ZERO, 1));
        lemma_some_digit_absorbs(old(input)@);
        let j0 = choose|j: int| 0 <= j < NUM_WIDTH && old(input)@[j] != DIGIT_NINE;
        assert(old(input)@[NUM_WIDTH - 1] == DIGIT_NINE);
        assert(0 <= j0 <= NUM_WIDTH - 2 && old(input)@[j0] != DIGIT_NINE);
    }
    let mut i: usize = NUM_WIDTH - 2;
    loop
        invariant
            0 <= i <= NUM_WIDTH - 2,
            input@.len() == NUM_WIDTH,
            all_digits(input@),
            old(input)@.len() == NUM_WIDTH,
            all_digits(old(input)@),
            input@ == old(input)@.take(i + 1) + rep_seq(DIGIT_ZERO, (NUM_WIDTH - 1 - i) as nat),
            forall|j: int| i < j < NUM_WIDTH ==> old(input)@[j] == DIGIT_NINE,
            exists|j: int| 0 <= j <= i && old(input)@[j] != DIGIT_NINE,
        decreases i,
    {
        let d = input[i];
        proof {
            assert(input@[i as int] == old(input)@.take(i + 1)[i as int]);
            assert(d == old(input)@[i as int]);
        }
        if d < DIGIT_NINE {
            input.set(i, d + 1);
            proof {
                lemma_carry_value(old(input)@, i as int);
                assert(input@ =~= old(input)@.take(i as int).push((d + 1) as u8) + rep_seq(
                    DIGIT_ZERO,
                    (NUM_WIDTH - 1 - i) as nat,
                ));
            }
            return NUM_WIDTH - i;
        }
        input.set(i, DIGIT_ZERO);
        proof {
            assert(old(input)@[i as int] == DIGIT_NINE);
            let j0 = choose|j: int| 0 <= j <= i && old(input)@[j] != DIGIT_NINE;
            assert(j0 < i);
            assert(0 <= j0 <= i - 1 && old(input)@[j0] != DIGIT_NINE);
            assert(i >= 1);
            assert(input@ =~= old(input)@.take(i as int) + rep_seq(
                DIGIT_ZERO,
                (NUM_WIDTH - i) as nat,
            ));
        }
        i -= 1;
    }
}

/// A fixed-width ASCII numeral that counts `0, 1, 2, …` by in-place
/// mutation. The significant suffix of the slots is the canonical decimal
/// numeral of the current value; the slots before it hold padding zeros.
pub struct NumeralCursor {
    digits: Vec<u8>,
    sig_len: usize,
}

impl NumeralCursor {
    /// The number this cursor denotes.
    pub closed spec fn value(&self) -> nat {
        val_of(self.digits@)
    }

    /// The slots hold the zero-padded decimal numeral of the value, the
    /// value fits the slots, and `sig_len` counts the canonical digits.
    pub closed spec fn wf(&self) -> bool {
        &&& self.digits@.len() == NUM_WIDTH
        &&& all_digits(self.digits@)
        &&& self.value() < pow10(NUM_WIDTH as nat)
        &&& 1 <= self.sig_len <= NUM_WIDTH
        &&& self.sig_len == dec_digits(self.value()).len()
        &&& self.digits@ == rep_seq(DIGIT_ZERO, (NUM_WIDTH - self.sig_len) as nat) + dec_digits(
            self.value(),
        )
    }

    /// A well-formed cursor's numeral fits the slots: between one and
    /// `NUM_WIDTH` canonical digits.
    pub proof fn lemma_digit_len(&self)
        requires
            self.wf(),
        ensures
            1 <= dec_digits(self.value()).len() <= NUM_WIDTH,
    {
        lemma_dec_digits_basic(self.value());
        lemma_dec_digits_len_le(self.value(), NUM_WIDTH as nat);
    }

    /// A cursor standing at zero.
    pub fn new() -> (c: NumeralCursor)
        ensures
            c.wf(),
            c.value() == 0,
    {
        let digits: Vec<u8> = vec![DIGIT_ZERO; NUM_WIDTH];
        let c = NumeralCursor { digits, sig_len: 1 };
        proof {
            assert(c.digits@ =~= rep_seq(DIGIT_ZERO, NUM_WIDTH as nat));
            lemma_val_of_rep_zero(NUM_WIDTH as nat);
            lemma_pow10_pos(NUM_WIDTH as nat);
            lemma_dec_digits_basic(0);
            assert(dec_digits(0) =~= seq![DIGIT_ZERO]);
            assert(c.digits@ =~= rep_seq(DIGIT_ZERO, (NUM_WIDTH - 1) as nat) + dec_digits(0));
        }
        c
    }

    /// A view of the significant suffix: the canonical decimal digits of
    /// the current value, without padding zeros.
    pub fn current_digits(&self) -> (d: &[u8])
        requires
            self.wf(),
        ensures
            d@ == dec_digits(self.value()),
    {
        let d = slice_subrange(self.digits.as_slice(), NUM_WIDTH - self.sig_len, NUM_WIDTH);
        proof {
            assert(d@ =~= dec_digits(self.value()));
        }
        d
    }

    /// How many digits the current value has.
    pub fn significant_len(&self) -> (n: usize)
        requires
            self.wf(),
        ensures
            n == dec_digits(self.value()).len(),
    {
        self.sig_len
    }

    /// Advances the cursor to the next value by carry propagation and
    /// returns the new significant length. Produces exactly the numeral
    /// that formatting the next integer from scratch would produce.
    pub fn increment(&mut self) -> (n: usize)
        requires
            old(self).wf(),
            old(self).value() + 1 < pow10(NUM_WIDTH as nat),
        ensures
            final(self).wf(),
            final(self).value() == old(self).value() + 1,
            n == dec_digits(final(self).value()).len(),
    {
        let grown = increase_str_num(&mut self.digits);
        if grown > self.sig_len {
            self.sig_len = grown;
        }
        proof {
            let v = old(self).value();
            let w = (v + 1) as nat;
            let od = old(self).digits@;
            let l1 = dec_digits(v).len() as int;
            let l2 = dec_digits(w).len() as int;
            lemma_dec_digits_basic(v);
            lemma_dec_digits_basic(w);
            lemma_dec_len_succ(v);
            lemma_dec_digits_len_le(w, NUM_WIDTH as nat);
            // the slots now hold the zero-padded numeral of the new value,
            // since a fixed-width decimal representation is unique
            let target = rep_seq(DIGIT_ZERO, (NUM_WIDTH - l2) as nat) + dec_digits(w);
            assert(target.len() == NUM_WIDTH);
            assert(all_digits(target));
            lemma_val_of_append(rep_seq(DIGIT_ZERO, (NUM_WIDTH - l2) as nat), dec_digits(w));
            lemma_val_of_rep_zero((NUM_WIDTH - l2) as nat);
            assert(val_of(target) == w);
            lemma_val_of_injective(self.digits@, target);
            // the stored significant length tracks the canonical length
            assert(forall|j: int|
                NUM_WIDTH - l1 <= j < NUM_WIDTH ==> od[j] == dec_digits(v)[j - (NUM_WIDTH - l1)]);
            assert(forall|j: int| 0 <= j < NUM_WIDTH - l1 ==> od[j] == DIGIT_ZERO);
            if grown == 0 {
                // the rightmost digit absorbed the increment, so the
                // numeral was not all nines and the length is unchanged
                assert(od[NUM_WIDTH - 1] == dec_digits(v)[l1 - 1]);
                if l2 == l1 + 1 {
                    assert(dec_digits(v) == rep_seq(DIGIT_NINE, l1 as nat));
                    assert(dec_digits(v)[l1 - 1] == DIGIT_NINE);
                    assert(false);
                }
                assert(l2 == l1);
            } else if grown <= l1 {
                // the carry stopped inside the significant digits
                assert(od[NUM_WIDTH - grown] == dec_digits(v)[l1 - grown]);
                if l2 == l1 + 1 {
                    assert(dec_digits(v) == rep_seq(DIGIT_NINE, l1 as nat));
                    assert(dec_digits(v)[l1 - grown] == DIGIT_NINE);
                    assert(false);
                }
                assert(l2 == l1);
            } else {
                // the carry ran past every significant digit, so they were
                // all nines and the numeral grew by one digit
                if grown >= l1 + 2 {
                    let p = NUM_WIDTH + 1 - grown as int;
                    assert(NUM_WIDTH - grown < p < NUM_WIDTH);
                    assert(od[p] == DIGIT_NINE);
                    assert(0 <= p < NUM_WIDTH - l1);
                    assert(od[p] == DIGIT_ZERO);
                    assert(false);
                }
                assert(grown == l1 + 1);
                assert(forall|m: int| 0 <= m < l1 ==> dec_digits(v)[m] == od[NUM_WIDTH - l1 + m]);
                assert(forall|j: int|
                    NUM_WIDTH - grown < j < NUM_WIDTH ==> od[j] == DIGIT_NINE);
                assert(dec_digits(v) =~= rep_seq(DIGIT_NINE, l1 as nat));
                assert(l2 == l1 + 1);
            }
        }
        self.sig_len
    }
}

} // verus!
