//! Decimal digit sequences: spec-level rendering and parsing of unsigned
//! numbers, and the executable routines that realise them on `String`.

use vstd::prelude::*;
use vstd::string::StringExecFns;
use vstd::string::StrSliceExecFns;

verus! {

/// 10^k as a mathematical natural.
pub open spec fn pow10(k: nat) -> nat
    decreases k,
{
    if k == 0 {
        1
    } else {
        10 * pow10((k - 1) as nat)
    }
}

/// The ASCII decimal digits '0' through '9'.
pub open spec fn is_digit_char(c: char) -> bool {
    48 <= c as int && c as int <= 57
}

/// Numeric value of a digit character.
pub open spec fn digit_val(c: char) -> nat {
    (c as int - 48) as nat
}

/// The digit character for a value below ten.
pub open spec fn digit_char(d: nat) -> char {
    if d == 0 {
        '0'
    } else if d == 1 {
        '1'
    } else if d == 2 {
        '2'
    } else if d == 3 {
        '3'
    } else if d == 4 {
        '4'
    } else if d == 5 {
        '5'
    } else if d == 6 {
        '6'
    } else if d == 7 {
        '7'
    } else if d == 8 {
        '8'
    } else {
        '9'
    }
}

/// Base-10 rendering of `n` with no leading zeros ("0" for zero).
pub open spec fn dec_digits(n: nat) -> Seq<char>
    decreases n,
{
    if n < 10 {
        seq![digit_char(n)]
    } else {
        dec_digits(n / 10).push(digit_char(n % 10))
    }
}

/// Base-10 rendering of `n mod 10^width`, zero-padded to exactly `width` digits.
pub open spec fn fixed_digits(n: nat, width: nat) -> Seq<char>
    decreases width,
{
    if width == 0 {
        Seq::<char>::empty()
    } else {
        fixed_digits(n / 10, (width - 1) as nat).push(digit_char(n % 10))
    }
}

pub open spec fn all_digits(s: Seq<char>) -> bool {
    forall|i: int| 0 <= i < s.len() ==> is_digit_char(#[trigger] s[i])
}

/// The number a digit sequence denotes.
pub open spec fn digits_val(s: Seq<char>) -> nat
    decreases s.len(),
{
    if s.len() == 0 {
        0
    } else {
        digits_val(s.drop_last()) * 10 + digit_val(s.last())
    }
}

/// Index of the first occurrence of `c` in `s`, or `s.len()` if absent.
pub open spec fn find_char(s: Seq<char>, c: char) -> int
    decreases s.len(),
{
    if s.len() == 0 {
        0
    } else if s[0] == c {
        0
    } else {
        1 + find_char(s.skip(1), c)
    }
}

/// The text with every trailing `'.'` removed.
pub open spec fn trim_trailing_dots(s: Seq<char>) -> Seq<char>
    decreases s.len(),
{
    if s.len() > 0 && s.last() == '.' {
        trim_trailing_dots(s.drop_last())
    } else {
        s
    }
}

/// If everything from `end` on is a dot and the character before `end` is
/// not, trimming keeps exactly the first `end` characters.
pub proof fn lemma_trim_trailing_dots_is(s: Seq<char>, end: int)
    requires
        0 <= end <= s.len(),
        forall|k: int| end <= k < s.len() ==> s[k] == '.',
        end > 0 ==> s[end - 1] != '.',
    ensures
        trim_trailing_dots(s) == s.subrange(0, end),
    decreases s.len(),
{
    if s.len() == 0 {
        assert(s.subrange(0, 0) =~= s);
    } else if end == s.len() {
        assert(s.last() != '.');
        assert(s.subrange(0, end) =~= s);
    } else {
        assert(s.last() == '.');
        let s0 = s.drop_last();
        lemma_trim_trailing_dots_is(s0, end);
        assert(s0.subrange(0, end) =~= s.subrange(0, end));
    }
}

pub proof fn lemma_digit_char_val(d: nat)
    requires
        d < 10,
    ensures
        is_digit_char(digit_char(d)),
        digit_val(digit_char(d)) == d,
{
}

pub proof fn lemma_pow10_pos(k: nat)
    ensures
        pow10(k) >= 1,
    decreases k,
{
    if k > 0 {
        lemma_pow10_pos((k - 1) as nat);
    }
}

/// `dec_digits` renders every natural as at least one digit, and the
/// rendering denotes the number it came from.
pub proof fn lemma_dec_digits(n: nat)
    ensures
        dec_digits(n).len() >= 1,
        all_digits(dec_digits(n)),
        digits_val(dec_digits(n)) == n,
    decreases n,
{
    if n < 10 {
        lemma_digit_char_val(n);
        assert(dec_digits(n) == seq![digit_char(n)]);
        assert(dec_digits(n).drop_last() =~= Seq::<char>::empty());
        assert(digits_val(Seq::<char>::empty()) == 0);
    } else {
        lemma_dec_digits(n / 10);
        lemma_digit_char_val(n % 10);
        let s = dec_digits(n);
        assert(s.drop_last() =~= dec_digits(n / 10));
        assert(digits_val(s) == (n / 10) * 10 + n % 10);
    }
}

/// `fixed_digits` renders exactly `width` digits denoting `n`, for `n` below
/// `10^width`.
pub proof fn lemma_fixed_digits(n: nat, width: nat)
    requires
        n < pow10(width),
    ensures
        fixed_digits(n, width).len() == width,
        all_digits(fixed_digits(n, width)),
        digits_val(fixed_digits(n, width)) == n,
    decreases width,
{
    if width == 0 {
    } else {
        assert(pow10(width) == 10 * pow10((width - 1) as nat));
        assert(n / 10 < pow10((width - 1) as nat)) by (nonlinear_arith)
            requires
                n < 10 * pow10((width - 1) as nat),
        ;
        lemma_fixed_digits(n / 10, (width - 1) as nat);
        lemma_digit_char_val(n % 10);
        let s = fixed_digits(n, width);
        assert(s.drop_last() =~= fixed_digits(n / 10, (width - 1) as nat));
        assert(digits_val(s) == (n / 10) * 10 + n % 10);
    }
}

/// Splitting a digit string multiplies the head's value by a power of ten.
pub proof fn lemma_digits_val_concat(a: Seq<char>, b: Seq<char>)
    ensures
        digits_val(a + b) == digits_val(a) * pow10(b.len()) + digits_val(b),
    decreases b.len(),
{
    if b.len() == 0 {
        assert(a + b =~= a);
        assert(pow10(b.len()) == 1);
        assert(digits_val(b) == 0);
        assert(digits_val(a) * 1 == digits_val(a)) by (nonlinear_arith);
    } else {
        let b0 = b.drop_last();
        let x = b.last();
        lemma_digits_val_concat(a, b0);
        assert((a + b).drop_last() =~= a + b0);
        assert((a + b).last() == x);
        assert(digits_val(a + b) == digits_val(a + b0) * 10 + digit_val(x));
        assert(digits_val(b) == digits_val(b0) * 10 + digit_val(x));
        assert(pow10(b.len()) == 10 * pow10(b0.len()));
        assert(digits_val(a + b) == digits_val(a) * pow10(b.len()) + digits_val(b))
            by (nonlinear_arith)
            requires
                digits_val(a + b) == digits_val(a + b0) * 10 + digit_val(x),
                digits_val(a + b0) == digits_val(a) * pow10(b0.len()) + digits_val(b0),
                digits_val(b) == digits_val(b0) * 10 + digit_val(x),
                pow10(b.len()) == 10 * pow10(b0.len()),
        ;
    }
}

/// A digit string of length `w` denotes a value below `10^w`.
pub proof fn lemma_digits_val_bound(s: Seq<char>)
    requires
        all_digits(s),
    ensures
        digits_val(s) < pow10(s.len()),
    decreases s.len(),
{
    if s.len() == 0 {
    } else {
        let s0 = s.drop_last();
        assert(all_digits(s0));
        lemma_digits_val_bound(s0);
        assert(is_digit_char(s.last()));
        assert(digit_val(s.last()) <= 9);
        assert(pow10(s.len()) == 10 * pow10(s0.len()));
        assert(digits_val(s0) * 10 + 9 < 10 * pow10(s0.len())) by (nonlinear_arith)
            requires
                digits_val(s0) < pow10(s0.len()),
        ;
    }
}

/// `find_char` lands on the first occurrence.
pub proof fn lemma_find_char(s: Seq<char>, c: char)
    ensures
        0 <= find_char(s, c) <= s.len(),
        find_char(s, c) < s.len() ==> s[find_char(s, c)] == c,
        forall|k: int| 0 <= k < find_char(s, c) ==> s[k] != c,
    decreases s.len(),
{
    if s.len() == 0 {
    } else if s[0] == c {
    } else {
        lemma_find_char(s.skip(1), c);
        assert forall|k: int| 0 <= k < find_char(s, c) implies s[k] != c by {
            if k > 0 {
                assert(s.skip(1)[k - 1] == s[k]);
            }
        }
    }
}

/// If `c` first occurs at `i` (or not at all, with `i == s.len()`), then
/// `find_char` returns `i`.
pub proof fn lemma_find_char_is(s: Seq<char>, c: char, i: int)
    requires
        0 <= i <= s.len(),
        i < s.len() ==> s[i] == c,
        forall|k: int| 0 <= k < i ==> s[k] != c,
    ensures
        find_char(s, c) == i,
    decreases s.len(),
{
    if s.len() == 0 {
    } else if s[0] == c {
        assert(i == 0);
    } else {
        assert(i >= 1);
        let t = s.skip(1);
        assert forall|k: int| 0 <= k < i - 1 implies t[k] != c by {
            assert(t[k] == s[k + 1]);
        }
        assert(i - 1 < t.len() ==> t[i - 1] == c);
        lemma_find_char_is(t, c, i - 1);
    }
}

pub proof fn lemma_pow10_mono(a: nat, b: nat)
    requires
        a <= b,
    ensures
        pow10(a) <= pow10(b),
    decreases b,
{
    if a < b {
        lemma_pow10_mono(a, (b - 1) as nat);
        lemma_pow10_pos((b - 1) as nat);
        assert(pow10(b) == 10 * pow10((b - 1) as nat));
    }
}

/// 10^k as a `u64`, for exponents small enough to fit.
pub fn pow10_u64(k: usize) -> (r: u64)
    requires
        k <= 19,
    ensures
        r == pow10(k as nat),
    decreases k,
{
    if k == 0 {
        1
    } else {
        let sub = pow10_u64(k - 1);
        proof {
            lemma_pow10_mono((k - 1) as nat, 18);
            assert(pow10(18) == 1000000000000000000) by {
                reveal_with_fuel(pow10, 19);
            }
        }
        10 * sub
    }
}

/// Appends the single digit `d` to `out`.
pub fn append_digit(out: &mut String, d: u64)
    requires
        d < 10,
    ensures
        final(out)@ == old(out)@.push(digit_char(d as nat)),
{
    let piece: &str = if d == 0 {
        "0"
    } else if d == 1 {
        "1"
    } else if d == 2 {
        "2"
    } else if d == 3 {
        "3"
    } else if d == 4 {
        "4"
    } else if d == 5 {
        "5"
    } else if d == 6 {
        "6"
    } else if d == 7 {
        "7"
    } else if d == 8 {
        "8"
    } else {
        "9"
    };
    proof {
        reveal_strlit("0");
        reveal_strlit("1");
        reveal_strlit("2");
        reveal_strlit("3");
        reveal_strlit("4");
        reveal_strlit("5");
        reveal_strlit("6");
        reveal_strlit("7");
        reveal_strlit("8");
        reveal_strlit("9");
    }
    out.append(piece);
    proof {
        assert(final(out)@ =~= old(out)@.push(digit_char(d as nat)));
    }
}

/// Appends the base-10 rendering of `n`, without leading zeros.
pub fn push_u64(out: &mut String, n: u64)
    ensures
        final(out)@ == old(out)@ + dec_digits(n as nat),
    decreases n,
{
    if n < 10 {
        append_digit(out, n);
        proof {
            assert(final(out)@ =~= old(out)@ + seq![digit_char(n as nat)]);
        }
    } else {
        push_u64(out, n / 10);
        append_digit(out, n % 10);
        proof {
            assert(final(out)@ =~= old(out)@ + dec_digits(n as nat));
        }
    }
}

/// Appends exactly `width` digits rendering `n mod 10^width`.
pub fn push_fixed(out: &mut String, n: u64, width: usize)
    ensures
        final(out)@ == old(out)@ + fixed_digits(n as nat, width as nat),
    decreases width,
{
    if width == 0 {
        proof {
            assert(final(out)@ =~= old(out)@ + fixed_digits(n as nat, 0));
        }
    } else {
        push_fixed(out, n / 10, width - 1);
        append_digit(out, n % 10);
        proof {
            assert(final(out)@ =~= old(out)@ + fixed_digits(n as nat, width as nat));
        }
    }
}

/// Whether `pat` occurs in `s` starting at index `i`.
pub open spec fn matches_at(s: Seq<char>, i: int, pat: Seq<char>) -> bool {
    0 <= i && i + pat.len() <= s.len() && s.subrange(i, i + pat.len()) == pat
}

/// Index of the first occurrence of `pat` in `s`, or `s.len()` when absent.
pub open spec fn find_sub(s: Seq<char>, pat: Seq<char>) -> int
    decreases s.len(),
{
    if matches_at(s, 0, pat) {
        0
    } else if s.len() == 0 {
        0
    } else {
        1 + find_sub(s.skip(1), pat)
    }
}

/// If `pat` first occurs at `i` (or not at all, with `i == s.len()`), then
/// `find_sub` returns `i`.
pub proof fn lemma_find_sub_is(s: Seq<char>, pat: Seq<char>, i: int)
    requires
        pat.len() > 0,
        0 <= i <= s.len(),
        forall|k: int| 0 <= k < i ==> !matches_at(s, k, pat),
        i < s.len() ==> matches_at(s, i, pat),
    ensures
        find_sub(s, pat) == i,
    decreases s.len(),
{
    if s.len() == 0 {
    } else if matches_at(s, 0, pat) {
        assert(i == 0);
    } else {
        assert(i >= 1);
        let t = s.skip(1);
        assert forall|k: int| 0 <= k < i - 1 implies !matches_at(t, k, pat) by {
            if matches_at(t, k, pat) {
                assert(t.subrange(k, k + pat.len()) =~= s.subrange(k + 1, k + 1 + pat.len()));
                assert(matches_at(s, k + 1, pat));
            }
        }
        if i - 1 < t.len() {
            assert(matches_at(s, i, pat));
            assert(t.subrange(i - 1, i - 1 + pat.len()) =~= s.subrange(i, i + pat.len()));
        }
        lemma_find_sub_is(t, pat, i - 1);
    }
}

/// Whether `pat` occurs in `s` at index `i`, checked character by
/// character.
pub fn match_at(s: &str, pat: &str, i: usize) -> (r: bool)
    requires
        i <= s@.len(),
    ensures
        r == matches_at(s@, i as int, pat@),
{
    let n = s.unicode_len();
    let m = pat.unicode_len();
    if m > n - i {
        return false;
    }
    let mut j: usize = 0;
    while j < m
        invariant
            0 <= j <= m == pat@.len(),
            i + m <= n == s@.len(),
            forall|k: int| 0 <= k < j ==> s@[i + k] == pat@[k],
        decreases m - j,
    {
        if s.get_char(i + j) != pat.get_char(j) {
            proof {
                if matches_at(s@, i as int, pat@) {
                    assert(s@.subrange(i as int, i + m) == pat@);
                    assert(s@.subrange(i as int, i + m)[j as int] == s@[i + j]);
                }
            }
            return false;
        }
        j = j + 1;
    }
    proof {
        assert(s@.subrange(i as int, i + m) =~= pat@);
    }
    true
}

/// The index of the first occurrence of `pat` in `s`, or `s`'s length when
/// there is none.
pub fn scan_for_sub(s: &str, pat: &str) -> (r: usize)
    requires
        pat@.len() > 0,
    ensures
        r <= s@.len(),
        forall|k: int| 0 <= k < r ==> !matches_at(s@, k, pat@),
        r < s@.len() ==> matches_at(s@, r as int, pat@),
        find_sub(s@, pat@) == r,
{
    let n = s.unicode_len();
    let mut i: usize = 0;
    let mut found = false;
    while i < n && !found
        invariant
            0 <= i <= n == s@.len(),
            pat@.len() > 0,
            forall|k: int| 0 <= k < i ==> !matches_at(s@, k, pat@),
            found ==> i < n && matches_at(s@, i as int, pat@),
        decreases n - i + (if found {
            0int
        } else {
            1int
        }),
    {
        if match_at(s, pat, i) {
            found = true;
        } else {
            i = i + 1;
        }
    }
    proof {
        lemma_find_sub_is(s@, pat@, i as int);
    }
    i
}

/// The index of the first occurrence of `c` in `s` at or after `from`, or
/// `s`'s length when there is none.
pub fn scan_for_char(s: &str, from: usize, c: char) -> (r: usize)
    requires
        from <= s@.len(),
    ensures
        from <= r <= s@.len(),
        forall|k: int| from <= k < r ==> s@[k] != c,
        r < s@.len() ==> s@[r as int] == c,
{
    let n = s.unicode_len();
    let mut i: usize = from;
    let mut found = false;
    while i < n && !found
        invariant
            from <= i <= n == s@.len(),
            forall|k: int| from <= k < i ==> s@[k] != c,
            found ==> i < n && s@[i as int] == c,
        decreases n - i + (if found {
            0int
        } else {
            1int
        }),
    {
        if s.get_char(i) == c {
            found = true;
        } else {
            i = i + 1;
        }
    }
    i
}

/// Whether two pieces of text hold the same characters.
pub fn str_eq(a: &str, b: &str) -> (r: bool)
    ensures
        r == (a@ == b@),
{
    let sa = String::from_str(a);
    let sb = String::from_str(b);
    sa == sb
}

/// Reads the digit range `[from, to)` of `s` as a `u64`: `None` when the
/// range is empty, holds a non-digit, or denotes a value above `u64::MAX`.
pub fn parse_u64_digits(s: &str, from: usize, to: usize) -> (r: Option<u64>)
    requires
        from <= to <= s@.len(),
    ensures
        (match r {
            Some(v) => all_digits(s@.subrange(from as int, to as int)) && from < to && v
                == digits_val(s@.subrange(from as int, to as int)),
            None => !(all_digits(s@.subrange(from as int, to as int)) && from < to && digits_val(
                s@.subrange(from as int, to as int),
            ) <= u64::MAX),
        }),
{
    if from == to {
        return None;
    }
    let mut acc: u64 = 0;
    let mut i: usize = from;
    while i < to
        invariant
            from <= i <= to <= s@.len(),
            all_digits(s@.subrange(from as int, i as int)),
            acc == digits_val(s@.subrange(from as int, i as int)),
        decreases to - i,
    {
        let c = s.get_char(i);
        let cv = c as u32;
        proof {
            assert(s@.subrange(from as int, (i + 1) as int).drop_last() =~= s@.subrange(
                from as int,
                i as int,
            ));
        }
        if cv < 48 || cv > 57 {
            proof {
                assert(s@.subrange(from as int, to as int)[i - from] == s@[i as int]);
                assert(!is_digit_char(s@.subrange(from as int, to as int)[i - from]));
            }
            return None;
        }
        let d: u64 = (cv - 48) as u64;
        if acc > (u64::MAX - d) / 10 {
            proof {
                let whole = s@.subrange(from as int, to as int);
                let pre = s@.subrange(from as int, (i + 1) as int);
                assert(acc * 10 + d > u64::MAX) by (nonlinear_arith)
                    requires
                        acc > (u64::MAX - d) / 10,
                        d < 10,
                        acc <= u64::MAX,
                ;
                assert(digits_val(pre) == acc * 10 + d);
                if all_digits(whole) && digits_val(whole) <= u64::MAX {
                    assert(whole =~= pre + s@.subrange((i + 1) as int, to as int));
                    lemma_digits_val_concat(pre, s@.subrange((i + 1) as int, to as int));
                    lemma_pow10_pos(s@.subrange((i + 1) as int, to as int).len() as nat);
                    assert(digits_val(whole) >= digits_val(pre) * 1) by (nonlinear_arith)
                        requires
                            digits_val(whole) == digits_val(pre) * pow10(
                                s@.subrange((i + 1) as int, to as int).len() as nat,
                            ) + digits_val(s@.subrange((i + 1) as int, to as int)),
                            pow10(s@.subrange((i + 1) as int, to as int).len() as nat) >= 1,
                    ;
                    assert(false);
                }
            }
            return None;
        }
        proof {
            assert(acc * 10 + d <= u64::MAX) by (nonlinear_arith)
                requires
                    acc <= (u64::MAX - d) / 10,
                    d < 10,
            ;
        }
        acc = acc * 10 + d;
        i = i + 1;
    }
    proof {
        assert(s@.subrange(from as int, to as int) =~= s@.subrange(from as int, i as int));
    }
    Some(acc)
}

} // verus!
