//! The three literal forms that the classifier recognises by their grammar
//! alone: truth values, signed 64-bit integers and floating-point numbers.

use crate::config::CSVAnalyzer;
use crate::text::{chars_of, lower, lowered};
use vstd::prelude::*;

verus! {

/// One of the ten decimal digits of ASCII.
pub open spec fn is_digit(c: char) -> bool {
    '0' <= c <= '9'
}

/// A plus or a minus sign.
pub open spec fn is_sign(c: char) -> bool {
    c == '+' || c == '-'
}

/// The number that a decimal digit stands for.
pub open spec fn digit_value(c: char) -> nat {
    (c as u32 - '0' as u32) as nat
}

/// Whether `s` holds decimal digits and nothing else.
pub open spec fn all_digits(s: Seq<char>) -> bool {
    forall|i: int| 0 <= i < s.len() ==> is_digit(#[trigger] s[i])
}

/// The number that a run of decimal digits denotes.
pub open spec fn decimal_value(s: Seq<char>) -> nat
    decreases s.len(),
{
    if s.len() == 0 {
        0
    } else {
        decimal_value(s.drop_last()) * 10 + digit_value(s.last())
    }
}

/// `s` without its leading sign, if it has one.
pub open spec fn unsigned_part(s: Seq<char>) -> Seq<char> {
    if s.len() > 0 && is_sign(s[0]) {
        s.subrange(1, s.len() as int)
    } else {
        s
    }
}

/// Whether `s` starts with a minus sign.
pub open spec fn is_negative(s: Seq<char>) -> bool {
    s.len() > 0 && s[0] == '-'
}

/// The largest magnitude that a text with the sign of `s` may denote and
/// still fit a signed 64-bit integer.
pub open spec fn magnitude_limit(s: Seq<char>) -> nat {
    if is_negative(s) {
        0x8000_0000_0000_0000
    } else {
        0x7fff_ffff_ffff_ffff
    }
}

/// An optional sign, then one or more decimal digits and nothing else, the
/// whole denoting a number that a signed 64-bit integer can hold.
pub open spec fn is_integer_text(s: Seq<char>) -> bool {
    let digits = unsigned_part(s);
    &&& digits.len() > 0
    &&& all_digits(digits)
    &&& decimal_value(digits) <= magnitude_limit(s)
}

/// The truth values, written in lower case.
pub open spec fn truth_words() -> Seq<Seq<char>> {
    seq![
        seq!['t', 'r', 'u', 'e'],
        seq!['f', 'a', 'l', 's', 'e'],
        seq!['1'],
        seq!['0'],
        seq!['y', 'e', 's'],
        seq!['n', 'o'],
        seq!['o', 'u', 'i'],
        seq!['n', 'o', 'n'],
    ]
}

/// One of the truth values, in any mix of upper and lower case.
pub open spec fn is_boolean_text(s: Seq<char>) -> bool {
    truth_words().contains(lowered(s))
}

/// A decimal comma is read as a decimal point.
pub open spec fn decimal_point(c: char) -> char {
    if c == ',' {
        '.'
    } else {
        c
    }
}

/// `s` with every comma replaced by a period.
pub open spec fn with_decimal_points(s: Seq<char>) -> Seq<char> {
    Seq::new(s.len(), |i: int| decimal_point(s[i]))
}

/// The position just after the run of digits that starts at `from`.
pub open spec fn digits_end(s: Seq<char>, from: int) -> int
    decreases s.len() - from,
{
    if 0 <= from < s.len() && is_digit(s[from]) {
        digits_end(s, from + 1)
    } else {
        from
    }
}

/// The names of the values that are no decimal numbers, in lower case.
pub open spec fn special_words() -> Seq<Seq<char>> {
    seq![
        seq!['i', 'n', 'f'],
        seq!['i', 'n', 'f', 'i', 'n', 'i', 't', 'y'],
        seq!['n', 'a', 'n'],
    ]
}

/// An exponent that starts at `at` and runs to the end of `s`: the letter
/// `e`, an optional sign, one or more digits.
pub open spec fn is_exponent_at(s: Seq<char>, at: int) -> bool {
    let digits_from = if at + 1 < s.len() && is_sign(s[at + 1]) {
        at + 2
    } else {
        at + 1
    };
    &&& 0 <= at < s.len()
    &&& lower(s[at]) == 'e'
    &&& digits_from < s.len()
    &&& digits_end(s, digits_from) == s.len()
}

/// Digits with at most one decimal point among them and at least one digit
/// on one side of it, then an optional exponent.
pub open spec fn is_decimal_number(body: Seq<char>) -> bool {
    let whole_end = digits_end(body, 0);
    let has_point = whole_end < body.len() && body[whole_end] == '.';
    let fraction_end = if has_point {
        digits_end(body, whole_end + 1)
    } else {
        whole_end
    };
    let digits = if has_point {
        fraction_end - 1
    } else {
        fraction_end
    };
    &&& digits >= 1
    &&& (fraction_end == body.len() || is_exponent_at(body, fraction_end))
}

/// The grammar of a floating-point literal: an optional sign, then `inf`,
/// `infinity` or `nan` in any case, or a decimal number.
pub open spec fn is_float_literal(s: Seq<char>) -> bool {
    let body = unsigned_part(s);
    special_words().contains(lowered(body)) || is_decimal_number(body)
}

/// A floating-point literal once its commas are read as decimal points.
pub open spec fn is_float_text(s: Seq<char>) -> bool {
    is_float_literal(with_decimal_points(s))
}

/// One more digit multiplies the number by ten and adds the digit.
proof fn lemma_decimal_value_push(s: Seq<char>, from: int, to: int)
    requires
        0 <= from <= to < s.len(),
    ensures
        decimal_value(s.subrange(from, to + 1)) == decimal_value(s.subrange(from, to)) * 10
            + digit_value(s[to]),
{
    assert(s.subrange(from, to + 1).drop_last() =~= s.subrange(from, to));
}

/// A run of digits from `from` ends at `to`, where the text ends or
/// something other than a digit stands.
proof fn lemma_digits_end_run(s: Seq<char>, from: int, to: int)
    requires
        0 <= from <= to <= s.len(),
        forall|i: int| from <= i < to ==> is_digit(s[i]),
        to == s.len() || !is_digit(s[to]),
    ensures
        digits_end(s, from) == to,
    decreases to - from,
{
    if from < to {
        lemma_digits_end_run(s, from + 1, to);
    }
}

/// Whether `c` is a decimal digit.
fn is_digit_char(c: char) -> (r: bool)
    ensures
        r == is_digit(c),
{
    let code: u32 = c as u32;
    48 <= code && code <= 57
}

/// Whether `c` is `letter` or its capital; `letter` is a lower-case letter
/// or no letter at all.
fn folds_to(c: char, letter: char) -> (r: bool)
    requires
        !('A' <= letter <= 'Z'),
    ensures
        r == (lower(c) == letter),
{
    let code: u32 = c as u32;
    if 65 <= code && code <= 90 {
        code + 32 == letter as u32
    } else {
        c == letter
    }
}

/// Whether the characters of `chars` from `from` on are those of `word`, up
/// to the case of ASCII letters.
fn tail_folds_to(chars: &Vec<char>, from: usize, word: &[char]) -> (r: bool)
    requires
        from <= chars.len(),
        forall|i: int| 0 <= i < word@.len() ==> !('A' <= #[trigger] word@[i] <= 'Z'),
    ensures
        r == (lowered(chars@.subrange(from as int, chars.len() as int)) == word@),
{
    let ghost tail = chars@.subrange(from as int, chars.len() as int);
    if chars.len() - from != word.len() {
        return false;
    }
    let mut i: usize = 0;
    while i < word.len()
        invariant
            from <= chars.len(),
            chars.len() - from == word@.len(),
            i <= word@.len(),
            tail == chars@.subrange(from as int, chars.len() as int),
            forall|j: int| 0 <= j < word@.len() ==> !('A' <= #[trigger] word@[j] <= 'Z'),
            forall|j: int| 0 <= j < i ==> lower(tail[j]) == word@[j],
        decreases word@.len() - i,
    {
        if !folds_to(chars[from + i], word[i]) {
            assert(lowered(tail)[i as int] != word@[i as int]);
            return false;
        }
        i += 1;
    }
    assert(lowered(tail) =~= word@);
    true
}

/// The position just after the run of digits that starts at `from`.
fn skip_digits(chars: &Vec<char>, from: usize) -> (to: usize)
    requires
        from <= chars.len(),
    ensures
        from <= to <= chars.len(),
        to == digits_end(chars@, from as int),
{
    let mut to: usize = from;
    while to < chars.len() && is_digit_char(chars[to])
        invariant
            from <= to <= chars.len(),
            forall|i: int| from <= i < to ==> is_digit(chars@[i]),
        decreases chars.len() - to,
    {
        to += 1;
    }
    proof {
        lemma_digits_end_run(chars@, from as int, to as int);
    }
    to
}

/// `chars` with every comma replaced by a period.
fn replace_commas(chars: &Vec<char>) -> (out: Vec<char>)
    ensures
        out@ == with_decimal_points(chars@),
{
    let mut out: Vec<char> = Vec::new();
    let mut i: usize = 0;
    while i < chars.len()
        invariant
            i <= chars.len(),
            out@.len() == i,
            forall|j: int| 0 <= j < i ==> out@[j] == decimal_point(chars@[j]),
        decreases chars.len() - i,
    {
        let c = chars[i];
        if c == ',' {
            out.push('.');
        } else {
            out.push(c);
        }
        i += 1;
    }
    assert(out@ =~= with_decimal_points(chars@));
    out
}

/// Decides `is_float_literal` on the characters of a text.
fn is_float_chars(chars: &Vec<char>) -> (r: bool)
    ensures
        r == is_float_literal(chars@),
{
    let n = chars.len();
    let start: usize = if n > 0 && (chars[0] == '+' || chars[0] == '-') {
        1
    } else {
        0
    };
    let ghost body = unsigned_part(chars@);
    assert(body == chars@.subrange(start as int, n as int)) by {
        assert(chars@.subrange(0, n as int) =~= chars@);
    }
    let inf: [char; 3] = ['i', 'n', 'f'];
    let infinity: [char; 8] = ['i', 'n', 'f', 'i', 'n', 'i', 't', 'y'];
    let nan: [char; 3] = ['n', 'a', 'n'];
    let special = tail_folds_to(chars, start, inf.as_slice()) || tail_folds_to(
        chars,
        start,
        infinity.as_slice(),
    ) || tail_folds_to(chars, start, nan.as_slice());
    proof {
        let words = special_words();
        assert(words[0] =~= inf@);
        assert(words[1] =~= infinity@);
        assert(words[2] =~= nan@);
        assert(special == words.contains(lowered(body)));
    }
    if special {
        return true;
    }
    let tail = tail_of(chars, start);
    assert(tail@ == body);
    is_decimal_chars(&tail)
}

/// The characters of `chars` from `from` on.
fn tail_of(chars: &Vec<char>, from: usize) -> (tail: Vec<char>)
    requires
        from <= chars.len(),
    ensures
        tail@ == chars@.subrange(from as int, chars.len() as int),
{
    let mut tail: Vec<char> = Vec::new();
    let mut i: usize = from;
    while i < chars.len()
        invariant
            from <= i <= chars.len(),
            tail@ == chars@.subrange(from as int, i as int),
        decreases chars.len() - i,
    {
        tail.push(chars[i]);
        assert(chars@.subrange(from as int, i as int).push(chars@[i as int]) =~= chars@.subrange(
            from as int,
            i + 1,
        ));
        i += 1;
    }
    tail
}

/// Decides `is_decimal_number`.
fn is_decimal_chars(body: &Vec<char>) -> (r: bool)
    ensures
        r == is_decimal_number(body@),
{
    let n = body.len();
    let whole_end = skip_digits(body, 0);
    let has_point = whole_end < n && body[whole_end] == '.';
    let fraction_end = if has_point {
        skip_digits(body, whole_end + 1)
    } else {
        whole_end
    };
    let digits = if has_point {
        fraction_end - 1
    } else {
        fraction_end
    };
    if digits < 1 {
        return false;
    }
    if fraction_end == n {
        return true;
    }
    if !folds_to(body[fraction_end], 'e') {
        return false;
    }
    let digits_from = if fraction_end + 1 < n && (body[fraction_end + 1] == '+' || body[fraction_end
        + 1] == '-') {
        fraction_end + 2
    } else {
        fraction_end + 1
    };
    if digits_from >= n {
        return false;
    }
    skip_digits(body, digits_from) == n
}

impl CSVAnalyzer {
    /// Whether `value` is a truth value: `true`, `false`, `1`, `0`, `yes`,
    /// `no`, `oui` or `non`, in any mix of upper and lower case.
    pub fn is_boolean(value: &str) -> (r: bool)
        ensures
            r == is_boolean_text(value@),
    {
        let chars = chars_of(value);
        let yes_true: [char; 4] = ['t', 'r', 'u', 'e'];
        let no_false: [char; 5] = ['f', 'a', 'l', 's', 'e'];
        let one: [char; 1] = ['1'];
        let zero: [char; 1] = ['0'];
        let yes: [char; 3] = ['y', 'e', 's'];
        let no: [char; 2] = ['n', 'o'];
        let oui: [char; 3] = ['o', 'u', 'i'];
        let non: [char; 3] = ['n', 'o', 'n'];
        let found = tail_folds_to(&chars, 0, yes_true.as_slice()) || tail_folds_to(
            &chars,
            0,
            no_false.as_slice(),
        ) || tail_folds_to(&chars, 0, one.as_slice()) || tail_folds_to(&chars, 0, zero.as_slice())
            || tail_folds_to(&chars, 0, yes.as_slice()) || tail_folds_to(&chars, 0, no.as_slice())
            || tail_folds_to(&chars, 0, oui.as_slice()) || tail_folds_to(&chars, 0, non.as_slice());
        proof {
            let words = truth_words();
            assert(chars@.subrange(0, chars.len() as int) =~= chars@);
            assert(words[0] =~= yes_true@);
            assert(words[1] =~= no_false@);
            assert(words[2] =~= one@);
            assert(words[3] =~= zero@);
            assert(words[4] =~= yes@);
            assert(words[5] =~= no@);
            assert(words[6] =~= oui@);
            assert(words[7] =~= non@);
            assert(found == words.contains(lowered(value@)));
        }
        found
    }

    /// Whether `value` reads as a signed 64-bit integer: an optional sign and
    /// decimal digits, within the range of the type.
    pub fn is_integer(value: &str) -> (r: bool)
        ensures
            r == is_integer_text(value@),
    {
        let chars = chars_of(value);
        let n = chars.len();
        let negative = n > 0 && chars[0] == '-';
        let start: usize = if n > 0 && (chars[0] == '+' || chars[0] == '-') {
            1
        } else {
            0
        };
        let ghost digits = unsigned_part(chars@);
        assert(digits == chars@.subrange(start as int, n as int)) by {
            assert(chars@.subrange(0, n as int) =~= chars@);
        }
        if start == n {
            return false;
        }
        let limit: u64 = if negative {
            0x8000_0000_0000_0000
        } else {
            0x7fff_ffff_ffff_ffff
        };
        let mut magnitude: u64 = 0;
        let mut fits = true;
        let mut i: usize = start;
        while i < n
            invariant
                start <= i <= n,
                n == chars.len(),
                chars@ == value@,
                digits == unsigned_part(value@),
                limit == magnitude_limit(chars@),
                digits == chars@.subrange(start as int, n as int),
                forall|j: int| start <= j < i ==> is_digit(chars@[j]),
                fits ==> magnitude == decimal_value(chars@.subrange(start as int, i as int))
                    && magnitude <= limit,
                !fits ==> decimal_value(chars@.subrange(start as int, i as int)) > limit,
            decreases n - i,
        {
            let c = chars[i];
            if !is_digit_char(c) {
                assert(!is_digit(digits[i - start]));
                return false;
            }
            let digit: u64 = (c as u32 - 48) as u64;
            proof {
                lemma_decimal_value_push(chars@, start as int, i as int);
            }
            if fits {
                if magnitude > (limit - digit) / 10 {
                    fits = false;
                } else {
                    magnitude = magnitude * 10 + digit;
                }
            }
            i += 1;
        }
        assert(chars@.subrange(start as int, n as int) == digits);
        assert(all_digits(digits));
        fits
    }

    /// Whether `value` reads as a floating-point number once its commas are
    /// taken for decimal points.
    pub fn is_float(value: &str) -> (r: bool)
        ensures
            r == is_float_text(value@),
    {
        let chars = chars_of(value);
        let normal = replace_commas(&chars);
        is_float_chars(&normal)
    }
}

} // verus!
