//! Which texts read as floating point numbers.

use vstd::prelude::*;

verus! {

/// Whether a character is a decimal digit.
pub open spec fn is_digit(c: char) -> bool {
    '0' <= c && c <= '9'
}

/// The first place from `i` on that holds no digit.
pub open spec fn digit_run(s: Seq<char>, i: int) -> int
    decreases s.len() - i,
{
    if 0 <= i < s.len() && is_digit(s[i]) {
        digit_run(s, i + 1)
    } else {
        i
    }
}

/// Whether a sign stands at a place.
pub open spec fn sign_at(s: Seq<char>, i: int) -> bool {
    0 <= i < s.len() && (s[i] == '+' || s[i] == '-')
}

/// The place behind an optional sign.
pub open spec fn past_sign(s: Seq<char>, i: int) -> int {
    if sign_at(s, i) {
        i + 1
    } else {
        i
    }
}

/// Whether the rest of a text is an exponent, or empty.
pub open spec fn ends_in_exponent(s: Seq<char>, i: int) -> bool {
    i == s.len() || {
        let first = past_sign(s, i + 1);
        &&& 0 <= i < s.len()
        &&& s[i] == 'e' || s[i] == 'E'
        &&& digit_run(s, first) > first
        &&& digit_run(s, first) == s.len()
    }
}

/// Whether the rest of a text is digits with an optional point among them and
/// an optional exponent behind them.
pub open spec fn is_decimal(s: Seq<char>, i: int) -> bool {
    let whole = digit_run(s, i);
    if 0 <= whole < s.len() && s[whole] == '.' {
        let end = digit_run(s, whole + 1);
        (whole > i || end > whole + 1) && ends_in_exponent(s, end)
    } else {
        whole > i && ends_in_exponent(s, whole)
    }
}

/// Whether the rest of a text is a word, in letters of either case.
pub open spec fn is_word(s: Seq<char>, i: int, lower: Seq<char>, upper: Seq<char>) -> bool {
    &&& s.len() - i == lower.len()
    &&& forall|k: int|
        0 <= k < lower.len() ==> (#[trigger] s[i + k] == lower[k] || s[i + k] == upper[k])
}

/// Whether a text reads as "not a number".
pub open spec fn reads_as_nan(s: Seq<char>) -> bool {
    is_word(s, past_sign(s, 0), seq!['n', 'a', 'n'], seq!['N', 'A', 'N'])
}

/// Whether a text reads as a number, finite or infinite: an optional sign, and
/// a decimal number or one of two words for infinity.
pub open spec fn reads_as_number(s: Seq<char>) -> bool {
    let i = past_sign(s, 0);
    ||| is_decimal(s, i)
    ||| is_word(s, i, seq!['i', 'n', 'f'], seq!['I', 'N', 'F'])
    ||| is_word(
        s,
        i,
        seq!['i', 'n', 'f', 'i', 'n', 'i', 't', 'y'],
        seq!['I', 'N', 'F', 'I', 'N', 'I', 'T', 'Y'],
    )
}

fn skip_digits(s: &str, i: usize) -> (r: usize)
    requires
        i <= s@.len(),
        s@.len() <= usize::MAX,
    ensures
        r == digit_run(s@, i as int),
        i <= r <= s@.len(),
{
    let n: usize = s.unicode_len();
    let mut k: usize = i;
    while k < n
        invariant
            i <= k <= n,
            n == s@.len(),
            digit_run(s@, i as int) == digit_run(s@, k as int),
        decreases n - k,
    {
        let c: char = s.get_char(k);
        if c < '0' || c > '9' {
            return k;
        }
        k += 1;
    }
    k
}

fn skip_sign(s: &str, i: usize) -> (r: usize)
    requires
        i <= s@.len(),
    ensures
        r == past_sign(s@, i as int),
        i <= r <= s@.len(),
{
    let n: usize = s.unicode_len();
    if i < n {
        let c: char = s.get_char(i);
        if c == '+' || c == '-' {
            return i + 1;
        }
    }
    i
}

fn is_exponent(s: &str, i: usize) -> (r: bool)
    requires
        i <= s@.len(),
    ensures
        r == ends_in_exponent(s@, i as int),
{
    let n: usize = s.unicode_len();
    if i == n {
        return true;
    }
    let c: char = s.get_char(i);
    if c != 'e' && c != 'E' {
        return false;
    }
    let first: usize = skip_sign(s, i + 1);
    let end: usize = skip_digits(s, first);
    end > first && end == n
}

fn decimal_from(s: &str, i: usize) -> (r: bool)
    requires
        i <= s@.len(),
    ensures
        r == is_decimal(s@, i as int),
{
    let n: usize = s.unicode_len();
    let whole: usize = skip_digits(s, i);
    if whole < n && s.get_char(whole) == '.' {
        let end: usize = skip_digits(s, whole + 1);
        (whole > i || end > whole + 1) && is_exponent(s, end)
    } else {
        whole > i && is_exponent(s, whole)
    }
}

fn word_from(s: &str, i: usize, lower: &Vec<char>, upper: &Vec<char>) -> (r: bool)
    requires
        i <= s@.len(),
        lower.len() == upper.len(),
    ensures
        r == is_word(s@, i as int, lower@, upper@),
{
    let n: usize = s.unicode_len();
    if n - i != lower.len() {
        return false;
    }
    let mut k: usize = 0;
    while k < lower.len()
        invariant
            k <= lower.len(),
            lower.len() == upper.len(),
            n == s@.len(),
            i <= n,
            n - i == lower.len(),
            forall|j: int|
                0 <= j < k ==> (#[trigger] s@[i + j] == lower[j] || s@[i + j] == upper[j]),
        decreases lower.len() - k,
    {
        let c: char = s.get_char(i + k);
        if c != lower[k] && c != upper[k] {
            assert(s@[i + k] == c);
            return false;
        }
        k += 1;
    }
    true
}

/// What a text reads as.
#[derive(Clone, Copy, Debug, PartialEq, Eq, Structural)]
pub enum Reading {
    Number,
    NotANumber,
    Word,
}

/// What a text reads as.
pub open spec fn reading(s: Seq<char>) -> Reading {
    if reads_as_number(s) {
        Reading::Number
    } else if reads_as_nan(s) {
        Reading::NotANumber
    } else {
        Reading::Word
    }
}

/// What a text reads as.
pub fn read(s: &str) -> (r: Reading)
    ensures
        r == reading(s@),
{
    let i: usize = skip_sign(s, 0);
    if decimal_from(s, i) {
        return Reading::Number;
    }
    let lower: Vec<char> = vec!['i', 'n', 'f'];
    let upper: Vec<char> = vec!['I', 'N', 'F'];
    assert(lower@ =~= seq!['i', 'n', 'f']);
    assert(upper@ =~= seq!['I', 'N', 'F']);
    if word_from(s, i, &lower, &upper) {
        return Reading::Number;
    }
    let lower: Vec<char> = vec!['i', 'n', 'f', 'i', 'n', 'i', 't', 'y'];
    let upper: Vec<char> = vec!['I', 'N', 'F', 'I', 'N', 'I', 'T', 'Y'];
    assert(lower@ =~= seq!['i', 'n', 'f', 'i', 'n', 'i', 't', 'y']);
    assert(upper@ =~= seq!['I', 'N', 'F', 'I', 'N', 'I', 'T', 'Y']);
    if word_from(s, i, &lower, &upper) {
        return Reading::Number;
    }
    let lower: Vec<char> = vec!['n', 'a', 'n'];
    let upper: Vec<char> = vec!['N', 'A', 'N'];
    assert(lower@ =~= seq!['n', 'a', 'n']);
    assert(upper@ =~= seq!['N', 'A', 'N']);
    if word_from(s, i, &lower, &upper) {
        Reading::NotANumber
    } else {
        Reading::Word
    }
}

} // verus!
