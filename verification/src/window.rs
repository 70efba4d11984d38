//! The shared window size: a single runtime-mutable duration controlling
//! how much history is visible, read by every channel's trim step.
//!
//! The size is kept in whole milliseconds. A settings surface hands in
//! free-form text; it is parsed here as an unsigned decimal number of
//! seconds with millisecond resolution, and anything else — empty text,
//! stray characters, a missing digit around the decimal point, a value
//! below one millisecond, or an integer part beyond [`MAX_INT_DIGITS`]
//! digits — is rejected without touching the committed value.

use vstd::prelude::*;

verus! {

/// The window size every run starts with: ten seconds.
pub const WINDOW_DEFAULT_MILLIS: u64 = 10000;

/// ASCII decimal point.
pub const DOT: u8 = 0x2E;

/// ASCII zero.
pub const ZERO: u8 = 0x30;

/// ASCII nine.
pub const NINE: u8 = 0x39;

/// Longest accepted integer part, in digits; keeps every accepted value
/// well inside the millisecond counter's range.
pub const MAX_INT_DIGITS: usize = 16;

/// An ASCII decimal digit.
pub open spec fn is_digit(b: u8) -> bool {
    ZERO <= b <= NINE
}

/// The numeric value of one ASCII digit.
pub open spec fn digit_val(b: u8) -> int {
    b - ZERO
}

/// Every byte of the sequence is an ASCII digit.
pub open spec fn all_digits(s: Seq<u8>) -> bool {
    forall|i: int| 0 <= i < s.len() ==> is_digit(#[trigger] s[i])
}

/// The number a sequence of ASCII digits denotes, most significant first.
pub open spec fn digits_val(s: Seq<u8>) -> int
    decreases s.len(),
{
    if s.len() == 0 {
        0
    } else {
        digits_val(s.drop_last()) * 10 + digit_val(s.last())
    }
}

/// Ten to the `n`th.
pub open spec fn pow10(n: nat) -> int
    decreases n,
{
    if n == 0 {
        1
    } else {
        10 * pow10((n - 1) as nat)
    }
}

/// Where the decimal point stands: the index of the first [`DOT`], or the
/// length if there is none.
pub open spec fn dot_pos(s: Seq<u8>) -> int
    decreases s.len(),
{
    if s.len() == 0 {
        0
    } else if s[0] == DOT {
        0
    } else {
        1 + dot_pos(s.skip(1))
    }
}

/// The digits before the decimal point (or the whole input without one).
pub open spec fn int_part(s: Seq<u8>) -> Seq<u8> {
    s.take(dot_pos(s))
}

/// The digits after the decimal point; empty without one.
pub open spec fn frac_part(s: Seq<u8>) -> Seq<u8> {
    if dot_pos(s) < s.len() {
        s.skip(dot_pos(s) + 1)
    } else {
        Seq::<u8>::empty()
    }
}

/// Accepted window-size text: a non-empty run of digits, optionally
/// followed by a decimal point and at least one more digit, the integer
/// part at most [`MAX_INT_DIGITS`] digits long.
pub open spec fn input_valid(s: Seq<u8>) -> bool {
    &&& 1 <= int_part(s).len() <= MAX_INT_DIGITS
    &&& all_digits(int_part(s))
    &&& (dot_pos(s) < s.len() ==> frac_part(s).len() >= 1 && all_digits(frac_part(s)))
}

/// The milliseconds the fraction digits denote, truncated to millisecond
/// resolution: only the first three fraction digits count.
pub open spec fn frac_millis(s: Seq<u8>) -> int {
    if s.len() >= 3 {
        digits_val(s.take(3))
    } else {
        digits_val(s) * pow10((3 - s.len()) as nat)
    }
}

/// The whole input read as milliseconds: seconds times a thousand plus
/// the fraction's milliseconds.
pub open spec fn value_millis(s: Seq<u8>) -> int {
    digits_val(int_part(s)) * 1000 + frac_millis(frac_part(s))
}

/// [`dot_pos`] lies within the sequence, nothing before it is a [`DOT`],
/// and the byte there (if any) is one.
pub proof fn lemma_dot_pos_bounds(s: Seq<u8>)
    ensures
        0 <= dot_pos(s) <= s.len(),
        forall|j: int| 0 <= j < dot_pos(s) ==> s[j] != DOT,
        dot_pos(s) < s.len() ==> s[dot_pos(s)] == DOT,
    decreases s.len(),
{
    if s.len() == 0 {
    } else if s[0] == DOT {
    } else {
        lemma_dot_pos_bounds(s.skip(1));
        assert forall|j: int| 0 <= j < dot_pos(s) implies s[j] != DOT by {
            if j > 0 {
                assert(s.skip(1)[j - 1] == s[j]);
            }
        }
        if dot_pos(s) < s.len() {
            assert(s.skip(1)[dot_pos(s) - 1] == s[dot_pos(s)]);
        }
    }
}

/// Any index with no [`DOT`] before it and a [`DOT`] (or the end) at it
/// is [`dot_pos`].
pub proof fn lemma_dot_pos_unique(s: Seq<u8>, i: int)
    requires
        0 <= i <= s.len(),
        forall|j: int| 0 <= j < i ==> s[j] != DOT,
        i < s.len() ==> s[i] == DOT,
    ensures
        dot_pos(s) == i,
    decreases s.len(),
{
    if i == 0 {
    } else {
        assert(s[0] != DOT);
        assert forall|j: int| 0 <= j < i - 1 implies s.skip(1)[j] != DOT by {
            assert(s.skip(1)[j] == s[j + 1]);
        }
        if i - 1 < s.skip(1).len() {
            assert(s.skip(1)[i - 1] == s[i]);
        }
        lemma_dot_pos_unique(s.skip(1), i - 1);
    }
}

/// A run of digits denotes a value below ten to its length.
pub proof fn lemma_digits_val_bound(s: Seq<u8>)
    requires
        all_digits(s),
    ensures
        0 <= digits_val(s) < pow10(s.len()),
    decreases s.len(),
{
    if s.len() == 0 {
    } else {
        assert(all_digits(s.drop_last())) by {
            assert(forall|i: int| 0 <= i < s.len() - 1 ==> s.drop_last()[i] == s[i]);
        }
        lemma_digits_val_bound(s.drop_last());
    }
}

/// Ten to the power never shrinks as the exponent grows.
pub proof fn lemma_pow10_mono(a: nat, b: nat)
    requires
        a <= b,
    ensures
        pow10(a) <= pow10(b),
        pow10(a) >= 1,
    decreases b,
{
    if a == b {
        if a > 0 {
            lemma_pow10_mono((a - 1) as nat, (a - 1) as nat);
        }
    } else {
        lemma_pow10_mono(a, (b - 1) as nat);
    }
}

/// Parses window-size text as an unsigned decimal number of seconds and
/// returns its whole-millisecond value; rejects exactly the inputs that
/// [`input_valid`] rejects.
pub fn parse_window_millis(input: &Vec<u8>) -> (r: Option<u64>)
    ensures
        r is Some <==> input_valid(input@),
        r matches Some(v) ==> v as int == value_millis(input@),
{
    let n: usize = input.len();
    proof {
        lemma_dot_pos_bounds(input@);
    }
    let mut dot: usize = 0;
    while dot < n && input[dot] != DOT
        invariant
            n == input@.len(),
            dot <= n,
            forall|j: int| 0 <= j < dot ==> input@[j] != DOT,
        decreases n - dot,
    {
        dot += 1;
    }
    proof {
        lemma_dot_pos_unique(input@, dot as int);
        assert(int_part(input@).len() == dot);
    }
    if dot == 0 || dot > MAX_INT_DIGITS {
        return None;
    }
    let ghost ip = int_part(input@);
    let mut acc: u64 = 0;
    let mut j: usize = 0;
    while j < dot
        invariant
            n == input@.len(),
            dot <= n,
            dot <= MAX_INT_DIGITS,
            dot_pos(input@) == dot,
            ip == int_part(input@),
            ip.len() == dot,
            j <= dot,
            forall|k: int| 0 <= k < j ==> is_digit(#[trigger] ip[k]),
            acc as int == digits_val(ip.take(j as int)),
            acc < pow10(j as nat),
        decreases dot - j,
    {
        let b = input[j];
        if b < ZERO || b > NINE {
            proof {
                assert(!is_digit(ip[j as int]));
            }
            return None;
        }
        proof {
            assert(ip.take(j + 1).drop_last() =~= ip.take(j as int));
            assert(ip.take(j + 1).last() == ip[j as int]);
            lemma_pow10_mono((j + 1) as nat, MAX_INT_DIGITS as nat);
            assert(pow10(16) == 10000000000000000) by {
                reveal_with_fuel(pow10, 17);
            }
        }
        acc = acc * 10 + ((b - ZERO) as u64);
        j += 1;
    }
    proof {
        assert(ip.take(dot as int) =~= ip);
        lemma_pow10_mono(dot as nat, MAX_INT_DIGITS as nat);
        assert(pow10(16) == 10000000000000000) by {
            reveal_with_fuel(pow10, 17);
        }
    }
    let mut fm: u64 = 0;
    if dot < n {
        let ghost fp = frac_part(input@);
        let flen: usize = n - dot - 1;
        proof {
            assert(fp.len() == flen);
        }
        if flen == 0 {
            return None;
        }
        let mut k: usize = 0;
        while k < flen
            invariant
                n == input@.len(),
                dot < n,
                dot_pos(input@) == dot,
                fp == frac_part(input@),
                fp.len() == flen,
                flen == n - dot - 1,
                k <= flen,
                forall|i: int| 0 <= i < k ==> is_digit(#[trigger] fp[i]),
                forall|i: int| 0 <= i < k ==> fp[i] == input@[dot + 1 + i],
            decreases flen - k,
        {
            let b = input[dot + 1 + k];
            proof {
                assert(fp[k as int] == input@[dot + 1 + k]);
            }
            if b < ZERO || b > NINE {
                proof {
                    assert(!is_digit(fp[k as int]));
                }
                return None;
            }
            k += 1;
        }
        proof {
            assert(fp[0] == input@[dot + 1]);
            assert(flen >= 2 ==> fp[1] == input@[dot + 2]);
            assert(flen >= 3 ==> fp[2] == input@[dot + 3]);
        }
        let d0: u64 = (input[dot + 1] - ZERO) as u64;
        if flen == 1 {
            fm = d0 * 100;
            proof {
                reveal_with_fuel(digits_val, 4);
                assert(fp =~= seq![fp[0]]);
                assert(fp.drop_last() =~= Seq::<u8>::empty());
                assert(digits_val(fp) == digit_val(fp[0]));
                assert(pow10(2) == 100) by {
                    reveal_with_fuel(pow10, 3);
                }
            }
        } else if flen == 2 {
            let d1: u64 = (input[dot + 2] - ZERO) as u64;
            fm = d0 * 100 + d1 * 10;
            proof {
                reveal_with_fuel(digits_val, 4);
                assert(fp[1] == input@[dot + 2]);
                let two = fp.take(2);
                assert(two =~= fp);
                assert(fp.drop_last() =~= seq![fp[0]]);
                assert(seq![fp[0]].drop_last() =~= Seq::<u8>::empty());
                assert(digits_val(fp) == digit_val(fp[0]) * 10 + digit_val(fp[1]));
                assert(pow10(1) == 10) by {
                    reveal_with_fuel(pow10, 2);
                }
            }
        } else {
            let d1: u64 = (input[dot + 2] - ZERO) as u64;
            let d2: u64 = (input[dot + 3] - ZERO) as u64;
            fm = d0 * 100 + d1 * 10 + d2;
            proof {
                reveal_with_fuel(digits_val, 4);
                assert(fp[1] == input@[dot + 2]);
                assert(fp[2] == input@[dot + 3]);
                let three = fp.take(3);
                assert(three.drop_last() =~= seq![fp[0], fp[1]]);
                assert(seq![fp[0], fp[1]].drop_last() =~= seq![fp[0]]);
                assert(seq![fp[0]].drop_last() =~= Seq::<u8>::empty());
                assert(three.last() == fp[2]);
                assert(digits_val(three) == (digit_val(fp[0]) * 10 + digit_val(fp[1])) * 10
                    + digit_val(fp[2]));
            }
        }
        proof {
            assert(fm as int == frac_millis(frac_part(input@)));
            assert(fm <= 999);
        }
    } else {
        proof {
            assert(frac_part(input@) =~= Seq::<u8>::empty());
            assert(frac_millis(frac_part(input@)) == 0) by {
                reveal_with_fuel(pow10, 4);
            }
        }
    }
    proof {
        lemma_digits_val_bound(ip);
        assert(acc as int == digits_val(int_part(input@)));
    }
    Some(acc * 1000 + fm)
}

/// The shared window size, in whole milliseconds; always at least one.
pub struct WindowSize {
    millis: u64,
}

impl WindowSize {
    /// The committed value, in milliseconds.
    pub closed spec fn millis(&self) -> u64 {
        self.millis
    }

    /// The window size is always positive.
    pub open spec fn wf(&self) -> bool {
        self.millis() >= 1
    }

    /// Starts at the default of ten seconds.
    pub fn new() -> (r: WindowSize)
        ensures
            r.wf(),
            r.millis() == WINDOW_DEFAULT_MILLIS,
    {
        WindowSize { millis: WINDOW_DEFAULT_MILLIS }
    }

    /// The most recently committed value.
    pub fn get(&self) -> (r: u64)
        ensures
            r == self.millis(),
    {
        self.millis
    }

    /// Commits a new value if it is positive; otherwise leaves the
    /// committed value untouched.
    pub fn set_millis(&mut self, v: u64) -> (ok: bool)
        requires
            old(self).wf(),
        ensures
            final(self).wf(),
            ok == (v >= 1),
            ok ==> final(self).millis() == v,
            !ok ==> final(self).millis() == old(self).millis(),
    {
        if v >= 1 {
            self.millis = v;
            true
        } else {
            false
        }
    }

    /// Applies one free-form settings entry: parses it as seconds and
    /// commits the value exactly when the text is well-formed and comes
    /// to at least one millisecond; on any rejection the prior value
    /// stands.
    pub fn apply_text(&mut self, input: &Vec<u8>) -> (ok: bool)
        requires
            old(self).wf(),
        ensures
            final(self).wf(),
            ok == (input_valid(input@) && value_millis(input@) >= 1),
            ok ==> final(self).millis() as int == value_millis(input@),
            !ok ==> final(self).millis() == old(self).millis(),
    {
        match parse_window_millis(input) {
            Some(v) => self.set_millis(v),
            None => false,
        }
    }
}

} // verus!
