//! The digit scanner: an immutable digit sequence with a sliding cursor.
//!
//! A scanner is built once from a literal numeric text and then hands out
//! ten-digit windows, advancing its cursor by one digit after each window, so
//! consecutive windows overlap in all but one digit. Reading past the end is
//! an explicit, checked error, never a partial window.

use vstd::prelude::*;

verus! {

use crate::WINDOW_WIDTH;
use crate::model::{
    frac_digits,
    has_dot,
    is_digit_char,
    digit_val,
    all_digits,
    seq_value,
    seq_sum,
    window,
    window_value,
    window_sum,
    can_read,
    pow10,
    lemma_prefix_step,
    lemma_pow10_increases,
};

/// How an operation on the digit sequence can fail.
#[derive(Clone, Copy, Debug, PartialEq, Eq, Structural)]
pub enum ScanError {
    /// The literal text yielded no digits at all.
    ParseError,
    /// Fewer than `WINDOW_WIDTH` digits remain at the cursor.
    OutOfRange,
    /// A whole scan finished without satisfying its predicate.
    NotFound,
}

/// The scanner: the digits of a literal's fractional part, and a cursor.
pub struct E {
    /// The current cursor position.
    index: usize,
    /// Every digit of the fractional part, in order, each `< 10`.
    numbers: Vec<u32>,
}

/// What a window request returns: the folded value of the window at `c`, or
/// `OutOfRange` when no full window starts there.
pub open spec fn next_window_result(s: Seq<u32>, c: int) -> Result<u64, ScanError> {
    if can_read(s, c) {
        Ok(window_value(s, c) as u64)
    } else {
        Err(ScanError::OutOfRange)
    }
}

/// What a window-and-sum request returns: the folded value of the window at
/// `c` together with its digit-sum, or `OutOfRange`.
pub open spec fn next_sum_result(s: Seq<u32>, c: int) -> Result<(u64, u32), ScanError> {
    if can_read(s, c) {
        Ok((window_value(s, c) as u64, window_sum(s, c) as u32))
    } else {
        Err(ScanError::OutOfRange)
    }
}

/// Where the cursor stands after a window request: one digit further on
/// success, unchanged on `OutOfRange`.
pub open spec fn next_cursor(s: Seq<u32>, c: int) -> int {
    if can_read(s, c) {
        c + 1
    } else {
        c
    }
}

/// Extending the scanned prefix by the character at `i` adds its digit value
/// exactly when a dot stands before `i` and the character is a digit.
proof fn lemma_frac_digits_step(s: Seq<char>, i: int)
    requires
        0 <= i < s.len(),
    ensures
        has_dot(s.subrange(0, i + 1)) == (has_dot(s.subrange(0, i)) || s[i] == '.'),
        frac_digits(s.subrange(0, i + 1)) == frac_digits(s.subrange(0, i)) + (if has_dot(
            s.subrange(0, i),
        ) && is_digit_char(s[i]) {
            seq![digit_val(s[i])]
        } else {
            Seq::<u32>::empty()
        }),
{
    let p = s.subrange(0, i);
    let q = s.subrange(0, i + 1);
    lemma_prefix_step(s, i);
    if has_dot(p) {
        let j = choose|j: int| 0 <= j < p.len() && p[j] == '.';
        assert(q[j] == '.');
        assert(has_dot(q));
    }
    if s[i] == '.' {
        assert(q[i] == '.');
        assert(has_dot(q));
    }
    if has_dot(q) && !has_dot(p) {
        let j = choose|j: int| 0 <= j < q.len() && q[j] == '.';
        if j < i {
            assert(p[j] == '.');
        }
    }
}

impl E {
    /// The digit sequence the scanner was built over.
    pub closed spec fn digits(&self) -> Seq<u32> {
        self.numbers@
    }

    /// The current cursor position.
    pub closed spec fn cursor(&self) -> int {
        self.index as int
    }

    /// Well-formedness: every stored element is a single decimal digit and the
    /// cursor stays within the sequence.
    pub open spec fn wf(&self) -> bool {
        all_digits(self.digits()) && 0 <= self.cursor() <= self.digits().len()
    }

    /// Builds a scanner from a literal numeric text: keeps exactly the digit
    /// characters after the first `'.'`, in order, and places the cursor at
    /// the start. Fails with `ParseError` exactly when that leaves no digits.
    pub fn from_str(s: &str) -> (r: Result<E, ScanError>)
        ensures
            frac_digits(s@).len() == 0 ==> r == Err::<E, ScanError>(ScanError::ParseError),
            frac_digits(s@).len() > 0 ==> (r matches Ok(e) && e.wf() && e.digits() == frac_digits(
                s@,
            ) && e.cursor() == 0),
    {
        let n = s.unicode_len();
        let mut numbers: Vec<u32> = Vec::new();
        let mut seen_dot = false;
        let mut i: usize = 0;
        while i < n
            invariant
                n == s@.len(),
                i <= n,
                seen_dot == has_dot(s@.subrange(0, i as int)),
                numbers@ == frac_digits(s@.subrange(0, i as int)),
                all_digits(numbers@),
            decreases n - i,
        {
            let c = s.get_char(i);
            proof {
                lemma_frac_digits_step(s@, i as int);
            }
            let u = c as u32;
            if seen_dot && 48 <= u && u <= 57 {
                numbers.push(u - 48);
            }
            if c == '.' {
                seen_dot = true;
            }
            i = i + 1;
        }
        proof {
            assert(s@.subrange(0, n as int) =~= s@);
        }
        if numbers.len() == 0 {
            Err(ScanError::ParseError)
        } else {
            Ok(E { index: 0, numbers })
        }
    }

    /// Reads the `length_of_number` digits at the cursor, folds them left to
    /// right into a base-10 integer, and advances the cursor by one digit.
    /// Fails with `OutOfRange`, leaving the scanner unchanged, exactly when no
    /// full window starts at the cursor.
    pub fn get_next_number(&mut self, length_of_number: usize) -> (r: Result<u64, ScanError>)
        requires
            old(self).wf(),
            length_of_number == WINDOW_WIDTH,
        ensures
            final(self).wf(),
            final(self).digits() == old(self).digits(),
            r == next_window_result(old(self).digits(), old(self).cursor()),
            final(self).cursor() == next_cursor(old(self).digits(), old(self).cursor()),
    {
        if self.numbers.len() - self.index < length_of_number {
            return Err(ScanError::OutOfRange);
        }
        let number = self.fold_window();
        self.index = self.index + 1;
        Ok(number)
    }

    /// Reads the `length_of_number` digits at the cursor, folds them into a
    /// base-10 integer and independently sums them, and advances the cursor by
    /// one digit. Fails with `OutOfRange`, leaving the scanner unchanged,
    /// exactly when no full window starts at the cursor.
    pub fn sum_of_next_number(&mut self, length_of_number: usize) -> (r: Result<
        (u64, u32),
        ScanError,
    >)
        requires
            old(self).wf(),
            length_of_number == WINDOW_WIDTH,
        ensures
            final(self).wf(),
            final(self).digits() == old(self).digits(),
            r == next_sum_result(old(self).digits(), old(self).cursor()),
            final(self).cursor() == next_cursor(old(self).digits(), old(self).cursor()),
    {
        if self.numbers.len() - self.index < length_of_number {
            return Err(ScanError::OutOfRange);
        }
        let number = self.fold_window();
        let sum = self.sum_window();
        self.index = self.index + 1;
        Ok((number, sum))
    }

    /// Folds the window at the cursor into its base-10 value without moving
    /// the cursor.
    fn fold_window(&self) -> (number: u64)
        requires
            self.wf(),
            can_read(self.digits(), self.cursor()),
        ensures
            number == window_value(self.digits(), self.cursor()),
    {
        let ghost w = window(self.digits(), self.cursor());
        let mut number: u64 = 0;
        let mut j: usize = 0;
        while j < WINDOW_WIDTH
            invariant
                self.wf(),
                can_read(self.digits(), self.cursor()),
                w == window(self.digits(), self.cursor()),
                j <= WINDOW_WIDTH,
                number == seq_value(w.subrange(0, j as int)),
                number < pow10(j as nat),
            decreases WINDOW_WIDTH - j,
        {
            let n = self.numbers.len();
            let d = self.numbers[self.index + j];
            proof {
                lemma_prefix_step(w, j as int);
                assert(w[j as int] == self.digits()[self.cursor() + j]);
                lemma_pow10_increases(j as nat, 9);
                assert(pow10(9) == 1000000000) by {
                    reveal_with_fuel(pow10, 10);
                }
            }
            number = number * 10 + (d as u64);
            j = j + 1;
        }
        proof {
            assert(w.subrange(0, WINDOW_WIDTH as int) =~= w);
        }
        number
    }

    /// Sums the digits of the window at the cursor without moving the cursor.
    fn sum_window(&self) -> (sum: u32)
        requires
            self.wf(),
            can_read(self.digits(), self.cursor()),
        ensures
            sum == window_sum(self.digits(), self.cursor()),
    {
        let ghost w = window(self.digits(), self.cursor());
        let mut sum: u32 = 0;
        let mut j: usize = 0;
        while j < WINDOW_WIDTH
            invariant
                self.wf(),
                can_read(self.digits(), self.cursor()),
                w == window(self.digits(), self.cursor()),
                j <= WINDOW_WIDTH,
                sum == seq_sum(w.subrange(0, j as int)),
                sum <= 9 * j,
            decreases WINDOW_WIDTH - j,
        {
            let n = self.numbers.len();
            let d = self.numbers[self.index + j];
            proof {
                lemma_prefix_step(w, j as int);
                assert(w[j as int] == self.digits()[self.cursor() + j]);
            }
            sum = sum + d;
            j = j + 1;
        }
        proof {
            assert(w.subrange(0, WINDOW_WIDTH as int) =~= w);
        }
        sum
    }
}

/// Scanning is deterministic: two scanners over equal digit sequences with
/// equal cursors are taken by the same operation to equal results and equal
/// successor cursors. Hence two scanners built independently from one literal
/// and driven through identical call sequences produce identical results.
pub proof fn lemma_scanner_determinism(a: E, b: E)
    requires
        a.digits() == b.digits(),
        a.cursor() == b.cursor(),
    ensures
        next_window_result(a.digits(), a.cursor()) == next_window_result(b.digits(), b.cursor()),
        next_sum_result(a.digits(), a.cursor()) == next_sum_result(b.digits(), b.cursor()),
        next_cursor(a.digits(), a.cursor()) == next_cursor(b.digits(), b.cursor()),
{
}

} // verus!
