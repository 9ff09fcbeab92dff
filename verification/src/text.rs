//! Characters, white space and decimal numbers in text.
use vstd::prelude::*;

verus! {

/// Whether `c` is white space in the sense of Unicode's `White_Space`
/// property.
pub open spec fn is_white_space(c: char) -> bool {
    let u = c as u32;
    ||| 0x09 <= u <= 0x0D
    ||| u == 0x20
    ||| u == 0x85
    ||| u == 0xA0
    ||| u == 0x1680
    ||| 0x2000 <= u <= 0x200A
    ||| u == 0x2028
    ||| u == 0x2029
    ||| u == 0x202F
    ||| u == 0x205F
    ||| u == 0x3000
}

/// Whether `c` is one of the digits `0` to `9`.
pub open spec fn is_decimal_digit(c: char) -> bool {
    0x30 <= c as u32 <= 0x39
}

/// The first index at or after `from` whose character is not white space;
/// the length of `s` where there is none.
pub open spec fn leading_end(s: Seq<char>, from: int) -> int
    decreases s.len() - from,
{
    if 0 <= from < s.len() && is_white_space(s[from]) {
        leading_end(s, from + 1)
    } else {
        from
    }
}

/// The least index from `floor` up to `to` after which only white space
/// stands before `to`.
pub open spec fn trailing_start(s: Seq<char>, floor: int, to: int) -> int
    decreases to - floor,
{
    if floor < to <= s.len() && is_white_space(s[to - 1]) {
        trailing_start(s, floor, to - 1)
    } else {
        to
    }
}

/// The bounds of `s` without the white space at its two ends.
pub open spec fn trimmed_bounds(s: Seq<char>) -> (int, int) {
    let start = leading_end(s, 0);
    (start, trailing_start(s, start, s.len() as int))
}

/// `s` without the white space at its two ends.
pub open spec fn trimmed(s: Seq<char>) -> Seq<char> {
    s.subrange(trimmed_bounds(s).0, trimmed_bounds(s).1)
}

/// The number that the decimal digits `digits` write.
pub open spec fn decimal_value(digits: Seq<char>) -> nat
    decreases digits.len(),
{
    if digits.len() == 0 {
        0
    } else {
        (decimal_value(digits.drop_last()) * 10 + (digits.last() as u32 - 0x30)) as nat
    }
}

/// Whether every character of `s` is a decimal digit.
pub open spec fn all_digits(s: Seq<char>) -> bool {
    forall|i: int| 0 <= i < s.len() ==> is_decimal_digit(#[trigger] s[i])
}

/// The digits of a decimal numeral: `s` without a plus sign in front.
pub open spec fn unsigned_digits(s: Seq<char>) -> Seq<char> {
    if s.len() > 0 && s[0] == '+' {
        s.drop_first()
    } else {
        s
    }
}

/// The number that `s` writes: at least one decimal digit, a plus sign
/// before them or none, and a value that fits. Anything else writes no
/// number.
pub open spec fn parsed_usize(s: Seq<char>) -> Option<usize> {
    let digits = unsigned_digits(s);
    if digits.len() > 0 && all_digits(digits) && decimal_value(digits) <= usize::MAX {
        Some(decimal_value(digits) as usize)
    } else {
        None
    }
}

/// The character that writes the digit `d`.
pub open spec fn digit_of(d: nat) -> char
    recommends
        d < 10,
{
    ((0x30 + d) as u8) as char
}

/// The decimal numeral of `n`: its digits from the most significant down,
/// and the single digit `0` for zero.
pub open spec fn numeral(n: nat) -> Seq<char>
    decreases n,
{
    if n < 10 {
        seq![digit_of(n)]
    } else {
        numeral(n / 10).push(digit_of(n % 10))
    }
}

/// The characters of `text`, one by one.
pub fn chars_of(text: &str) -> (chars: Vec<char>)
    ensures
        chars@ == text@,
{
    let mut chars: Vec<char> = Vec::new();
    for c in it: text.chars()
        invariant
            it.seq() == text@,
            chars@ == it.seq().take(it.index() as int),
    {
        chars.push(c);
    }
    chars
}

/// Whether `c` is white space.
pub fn is_whitespace(c: char) -> (b: bool)
    ensures
        b == is_white_space(c),
{
    let u: u32 = c as u32;
    (0x09 <= u && u <= 0x0D) || u == 0x20 || u == 0x85 || u == 0xA0 || u == 0x1680 || (0x2000 <= u
        && u <= 0x200A) || u == 0x2028 || u == 0x2029 || u == 0x202F || u == 0x205F || u == 0x3000
}

/// The bounds of `text` without the white space at its two ends: the
/// characters from `start` up to `end` are what is left.
pub fn trim(text: &[char]) -> (bounds: (usize, usize))
    ensures
        (bounds.0 as int, bounds.1 as int) == trimmed_bounds(text@),
        bounds.0 <= bounds.1 <= text@.len(),
{
    let mut start: usize = 0;
    while start < text.len() && is_whitespace(text[start])
        invariant
            start <= text@.len(),
            leading_end(text@, 0) == leading_end(text@, start as int),
        decreases text@.len() - start,
    {
        start += 1;
    }
    let mut end: usize = text.len();
    while end > start && is_whitespace(text[end - 1])
        invariant
            start <= end <= text@.len(),
            trailing_start(text@, start as int, text@.len() as int) == trailing_start(
                text@,
                start as int,
                end as int,
            ),
        decreases end,
    {
        end -= 1;
    }
    (start, end)
}

/// Reads a decimal numeral: `Some` of the number where `text` writes one
/// that fits, `None` otherwise.
pub fn parse_usize(text: &[char]) -> (n: Option<usize>)
    ensures
        n == parsed_usize(text@),
{
    let first: usize = if text.len() > 0 && text[0] == '+' {
        1
    } else {
        0
    };
    let ghost digits = unsigned_digits(text@);
    assert(digits == text@.subrange(first as int, text@.len() as int));
    if first == text.len() {
        return None;
    }
    let mut value: usize = 0;
    let mut k: usize = first;
    while k < text.len()
        invariant
            first <= k <= text@.len(),
            digits == unsigned_digits(text@),
            digits == text@.subrange(first as int, text@.len() as int),
            all_digits(digits.take(k - first)),
            value == decimal_value(digits.take(k - first)),
        decreases text@.len() - k,
    {
        let u: u32 = text[k] as u32;
        proof {
            assert(digits.take(k - first + 1).drop_last() == digits.take(k - first));
            assert(digits.take(k - first + 1).last() == text@[k as int]);
        }
        if u < 0x30 || u > 0x39 {
            proof {
                assert(digits[k - first] == text@[k as int]);
            }
            return None;
        }
        let d: usize = (u - 0x30) as usize;
        if value > (usize::MAX - d) / 10 {
            proof {
                assert(decimal_value(digits.take(k - first + 1)) == value * 10 + d);
                if all_digits(digits) {
                    lemma_decimal_value_grows(digits, k - first + 1);
                }
            }
            return None;
        }
        value = value * 10 + d;
        k += 1;
    }
    proof {
        assert(digits.take(k - first) == digits);
    }
    Some(value)
}

/// The character that writes the digit `d`.
pub fn digit(d: u8) -> (c: char)
    requires
        d < 10,
    ensures
        c == digit_of(d as nat),
{
    (0x30 + d) as char
}

/// Writes `n` as a decimal numeral.
pub fn write_numeral(n: u128) -> (digits: Vec<char>)
    ensures
        digits@ == numeral(n as nat),
{
    let mut digits: Vec<char> = Vec::new();
    let mut rest: u128 = n;
    loop
        invariant_except_break
            numeral(n as nat) == numeral(rest as nat) + digits@,
        ensures
            digits@ == numeral(n as nat),
        decreases rest,
    {
        let ghost written = digits@;
        let last = digit((rest % 10) as u8);
        digits.insert(0, last);
        proof {
            assert(digits@ == seq![last] + written);
            if rest >= 10 {
                assert(numeral(rest as nat) + written == numeral((rest / 10) as nat) + digits@);
            } else {
                assert(numeral(rest as nat) + written == digits@);
            }
        }
        if rest < 10 {
            break ;
        }
        rest = rest / 10;
    }
    digits
}

/// Digits that follow can only make a numeral larger: the value of the
/// first `k` digits is at most the value of all of them.
pub proof fn lemma_decimal_value_grows(digits: Seq<char>, k: int)
    requires
        all_digits(digits),
        0 <= k <= digits.len(),
    ensures
        decimal_value(digits.take(k)) <= decimal_value(digits),
    decreases digits.len() - k,
{
    if k < digits.len() {
        lemma_decimal_value_grows(digits, k + 1);
        assert(digits.take(k + 1).drop_last() == digits.take(k));
        assert(is_decimal_digit(digits[k]));
        assert(digits.take(k + 1).last() == digits[k]);
    } else {
        assert(digits.take(k) == digits);
    }
}

/// What trimming leaves: everything before and after the bounds is white
/// space, and what lies between them, if anything, begins and ends with a
/// character that is none.
pub proof fn lemma_trimmed_bounds(s: Seq<char>)
    ensures
        ({
            let (start, end) = trimmed_bounds(s);
            &&& 0 <= start <= end <= s.len()
            &&& forall|i: int| 0 <= i < start ==> is_white_space(#[trigger] s[i])
            &&& forall|i: int| end <= i < s.len() ==> is_white_space(#[trigger] s[i])
            &&& start < end ==> !is_white_space(s[start]) && !is_white_space(s[end - 1])
        }),
{
    lemma_leading_end(s, 0);
    lemma_trailing_start(s, leading_end(s, 0), s.len() as int);
}

proof fn lemma_leading_end(s: Seq<char>, from: int)
    requires
        0 <= from <= s.len(),
    ensures
        from <= leading_end(s, from) <= s.len(),
        forall|i: int| from <= i < leading_end(s, from) ==> is_white_space(#[trigger] s[i]),
        leading_end(s, from) < s.len() ==> !is_white_space(s[leading_end(s, from)]),
    decreases s.len() - from,
{
    if from < s.len() && is_white_space(s[from]) {
        lemma_leading_end(s, from + 1);
    }
}

proof fn lemma_trailing_start(s: Seq<char>, floor: int, to: int)
    requires
        0 <= floor <= to <= s.len(),
    ensures
        floor <= trailing_start(s, floor, to) <= to,
        forall|i: int| trailing_start(s, floor, to) <= i < to ==> is_white_space(#[trigger] s[i]),
        floor < trailing_start(s, floor, to) ==> !is_white_space(
            s[trailing_start(s, floor, to) - 1],
        ),
    decreases to - floor,
{
    if floor < to && is_white_space(s[to - 1]) {
        lemma_trailing_start(s, floor, to - 1);
    }
}

/// A numeral reads back as the number it was written for: it has at least
/// one character, all of them digits, and their value is the number.
pub proof fn lemma_numeral_reads_back(n: nat)
    ensures
        numeral(n).len() >= 1,
        all_digits(numeral(n)),
        decimal_value(numeral(n)) == n,
        n <= usize::MAX ==> parsed_usize(numeral(n)) == Some(n as usize),
    decreases n,
{
    let digits = numeral(n);
    if n < 10 {
        assert(digits.drop_last() == Seq::<char>::empty());
        assert(decimal_value(digits.drop_last()) == 0);
        assert(digits.last() == digit_of(n));
    } else {
        lemma_numeral_reads_back(n / 10);
        assert(digits.drop_last() == numeral(n / 10));
        assert(digits.last() == digit_of(n % 10));
        assert forall|i: int| 0 <= i < digits.len() implies is_decimal_digit(
            #[trigger] digits[i],
        ) by {
            if i < digits.len() - 1 {
                assert(digits[i] == numeral(n / 10)[i]);
            }
        }
    }
    assert(digits[0] != '+');
}

} // verus!
