//! Mathematical model of the digit sequence and its sliding windows.
//!
//! A scanner's data is a sequence of decimal digits (each `< 10`) drawn from
//! the fractional part of a literal numeric text. A window is a run of
//! `WINDOW_WIDTH` consecutive digits; its value is the base-10 fold of those
//! digits and its sum is their plain arithmetic sum.

use vstd::prelude::*;

verus! {

use crate::WINDOW_WIDTH;

/// Does this character stand for a decimal digit?
pub open spec fn is_digit_char(c: char) -> bool {
    48 <= c as u32 <= 57
}

/// The numeric value of a decimal digit character.
pub open spec fn digit_val(c: char) -> u32 {
    (c as u32 - 48) as u32
}

/// Does the sequence contain a decimal point?
pub open spec fn has_dot(s: Seq<char>) -> bool {
    exists|i: int| 0 <= i < s.len() && s[i] == '.'
}

/// The digits extracted from a literal numeric text: every digit character
/// that stands strictly after the first `'.'`, in order. Everything up to and
/// including the first `'.'` (the integer part) and every non-digit character
/// (formatting such as newlines) is discarded.
pub open spec fn frac_digits(s: Seq<char>) -> Seq<u32>
    decreases s.len(),
{
    if s.len() == 0 {
        Seq::empty()
    } else {
        frac_digits(s.drop_last()) + (if has_dot(s.drop_last()) && is_digit_char(s.last()) {
            seq![digit_val(s.last())]
        } else {
            Seq::empty()
        })
    }
}

/// Is every element of the sequence a single decimal digit?
pub open spec fn all_digits(s: Seq<u32>) -> bool {
    forall|i: int| 0 <= i < s.len() ==> s[i] < 10
}

/// The base-10 value of a digit sequence, folded left to right
/// (`value = value * 10 + digit`).
pub open spec fn seq_value(s: Seq<u32>) -> nat
    decreases s.len(),
{
    if s.len() == 0 {
        0
    } else {
        seq_value(s.drop_last()) * 10 + s.last() as nat
    }
}

/// The arithmetic sum of a digit sequence.
pub open spec fn seq_sum(s: Seq<u32>) -> nat
    decreases s.len(),
{
    if s.len() == 0 {
        0
    } else {
        seq_sum(s.drop_last()) + s.last() as nat
    }
}

/// May a full window be read at cursor position `c`?
pub open spec fn can_read(s: Seq<u32>, c: int) -> bool {
    0 <= c && c + WINDOW_WIDTH <= s.len()
}

/// The window of `WINDOW_WIDTH` consecutive digits starting at cursor `c`.
pub open spec fn window(s: Seq<u32>, c: int) -> Seq<u32> {
    s.subrange(c, c + WINDOW_WIDTH)
}

/// The base-10 value of the window at cursor `c`.
pub open spec fn window_value(s: Seq<u32>, c: int) -> nat {
    seq_value(window(s, c))
}

/// The digit-sum of the window at cursor `c`.
pub open spec fn window_sum(s: Seq<u32>, c: int) -> nat {
    seq_sum(window(s, c))
}

/// Ten to the power `n`.
pub open spec fn pow10(n: nat) -> nat
    decreases n,
{
    if n == 0 {
        1
    } else {
        10 * pow10((n - 1) as nat)
    }
}

/// The last `k` decimal digits of `v`, most significant first,
/// zero-padded on the left to exactly `k` digits.
pub open spec fn digits_of_value(v: nat, k: nat) -> Seq<u32>
    decreases k,
{
    if k == 0 {
        Seq::empty()
    } else {
        digits_of_value(v / 10, (k - 1) as nat).push((v % 10) as u32)
    }
}

/// Extending a prefix by one element: the longer prefix drops back to the
/// shorter one and ends with the element at `i`.
pub proof fn lemma_prefix_step<T>(s: Seq<T>, i: int)
    requires
        0 <= i < s.len(),
    ensures
        s.subrange(0, i + 1).drop_last() == s.subrange(0, i),
        s.subrange(0, i + 1).last() == s[i],
{
    assert(s.subrange(0, i + 1).drop_last() =~= s.subrange(0, i));
}

/// `pow10` never decreases.
pub proof fn lemma_pow10_increases(m: nat, n: nat)
    requires
        m <= n,
    ensures
        pow10(m) <= pow10(n),
    decreases n,
{
    if m < n {
        lemma_pow10_increases(m, (n - 1) as nat);
    }
}

/// The value of a digit sequence is below `pow10` of its length.
pub proof fn lemma_seq_value_bound(s: Seq<u32>)
    requires
        all_digits(s),
    ensures
        seq_value(s) < pow10(s.len()),
    decreases s.len(),
{
    if s.len() > 0 {
        assert(all_digits(s.drop_last()));
        lemma_seq_value_bound(s.drop_last());
    }
}

/// The sum of a digit sequence is at most nine times its length.
pub proof fn lemma_seq_sum_bound(s: Seq<u32>)
    requires
        all_digits(s),
    ensures
        seq_sum(s) <= 9 * s.len(),
    decreases s.len(),
{
    if s.len() > 0 {
        assert(all_digits(s.drop_last()));
        lemma_seq_sum_bound(s.drop_last());
    }
}

/// Round trip between digits and value: decoding the folded value of a digit
/// sequence back into as many decimal digits as the sequence has restores the
/// sequence exactly, zero-padding included.
pub proof fn lemma_value_digits_roundtrip(s: Seq<u32>)
    requires
        all_digits(s),
    ensures
        digits_of_value(seq_value(s), s.len()) == s,
    decreases s.len(),
{
    if s.len() > 0 {
        let p = s.drop_last();
        assert(all_digits(p));
        lemma_value_digits_roundtrip(p);
        let v = seq_value(s);
        vstd::arithmetic::div_mod::lemma_fundamental_div_mod_converse(
            v as int,
            10,
            seq_value(p) as int,
            s.last() as int,
        );
        assert(digits_of_value(v, s.len()) =~= s);
    } else {
        assert(digits_of_value(seq_value(s), s.len()) =~= s);
    }
}

/// A window of a digit sequence is itself a digit sequence.
pub proof fn lemma_window_all_digits(s: Seq<u32>, c: int)
    requires
        all_digits(s),
        can_read(s, c),
    ensures
        all_digits(window(s, c)),
{
    assert forall|i: int| 0 <= i < window(s, c).len() implies window(s, c)[i] < 10 by {
        assert(window(s, c)[i] == s[c + i]);
    }
}

/// A window's value always fits in ten decimal digits.
pub proof fn lemma_window_value_fits(s: Seq<u32>, c: int)
    requires
        all_digits(s),
        can_read(s, c),
    ensures
        window_value(s, c) < 10000000000,
{
    lemma_window_all_digits(s, c);
    lemma_seq_value_bound(window(s, c));
    assert(pow10(10) == 10000000000) by {
        reveal_with_fuel(pow10, 11);
    }
}

/// A window's digit-sum is at most ninety.
pub proof fn lemma_window_sum_fits(s: Seq<u32>, c: int)
    requires
        all_digits(s),
        can_read(s, c),
    ensures
        window_sum(s, c) <= 90,
{
    lemma_window_all_digits(s, c);
    lemma_seq_sum_bound(window(s, c));
}

/// Reading a window and decoding the returned value back into ten decimal
/// digits yields the ten source digits at the cursor, in order: the value a
/// window request returns encodes the window losslessly.
pub proof fn lemma_window_roundtrip(s: Seq<u32>, c: int)
    requires
        all_digits(s),
        can_read(s, c),
    ensures
        digits_of_value(window_value(s, c), WINDOW_WIDTH as nat) == window(s, c),
{
    lemma_window_all_digits(s, c);
    lemma_value_digits_roundtrip(window(s, c));
}

/// The digit-sum returned with a window equals the digit-sum of the decimal
/// representation of the returned value, zero-padded to ten digits.
pub proof fn lemma_sum_matches_value_digits(s: Seq<u32>, c: int)
    requires
        all_digits(s),
        can_read(s, c),
    ensures
        seq_sum(digits_of_value(window_value(s, c), WINDOW_WIDTH as nat)) == window_sum(s, c),
{
    lemma_window_roundtrip(s, c);
}

/// Consecutive windows overlap in all but one digit: digits 1 to 9 of the
/// window at `c` are digits 0 to 8 of the window at `c + 1`.
pub proof fn lemma_window_overlap(s: Seq<u32>, c: int)
    requires
        0 <= c,
        c + WINDOW_WIDTH + 1 <= s.len(),
    ensures
        window(s, c).subrange(1, WINDOW_WIDTH as int) == window(s, c + 1).subrange(
            0,
            WINDOW_WIDTH as int - 1,
        ),
{
    assert(window(s, c).subrange(1, WINDOW_WIDTH as int) =~= window(s, c + 1).subrange(
        0,
        WINDOW_WIDTH as int - 1,
    ));
}

} // verus!
