//! The grammar of a real number written as text.
//!
//! A number is a sign or none, then either a decimal numeral with an
//! exponent or none, or one of the words `inf`, `infinity` and `nan` in any
//! mix of upper and lower case. A decimal numeral has digits before a
//! point, after it, or both, the point itself being needed only for digits
//! after it; an exponent is the letter `e`, a sign or none, and digits.
use crate::text::is_decimal_digit;
use vstd::prelude::*;

verus! {

/// Whether `c` is a plus or a minus sign.
pub open spec fn is_sign(c: char) -> bool {
    c == '+' || c == '-'
}

/// `c` in lower case where it is one of the letters `A` to `Z`, else `c`.
pub open spec fn lowered(c: char) -> char {
    if 0x41 <= c as u32 <= 0x5A {
        ((c as u32 + 0x20) as u8) as char
    } else {
        c
    }
}

/// Whether `s` is `word` but for the case of its letters. `word` is in
/// lower case.
pub open spec fn is_word(s: Seq<char>, word: Seq<char>) -> bool {
    &&& s.len() == word.len()
    &&& forall|i: int| 0 <= i < s.len() ==> lowered(#[trigger] s[i]) == word[i]
}

/// The index after the digits that begin at `from`; `from` itself where
/// none begins there.
pub open spec fn digits_end(s: Seq<char>, from: int) -> int
    decreases s.len() - from,
{
    if 0 <= from < s.len() && is_decimal_digit(s[from]) {
        digits_end(s, from + 1)
    } else {
        from
    }
}

/// Whether what follows the letter `e`, from `from` to the end of `s`, is
/// an exponent: a sign or none, then at least one digit and nothing else.
pub open spec fn writes_exponent(s: Seq<char>, from: int) -> bool {
    let start = if 0 <= from < s.len() && is_sign(s[from]) {
        from + 1
    } else {
        from
    };
    start < digits_end(s, start) && digits_end(s, start) == s.len()
}

/// Whether `s` from `from` to its end is a decimal numeral with an exponent
/// or none.
pub open spec fn writes_decimal(s: Seq<char>, from: int) -> bool {
    let whole_end = digits_end(s, from);
    let places_start = if 0 <= whole_end < s.len() && s[whole_end] == '.' {
        whole_end + 1
    } else {
        whole_end
    };
    let places_end = digits_end(s, places_start);
    &&& (whole_end - from) + (places_end - places_start) > 0
    &&& {
        ||| places_end == s.len()
        ||| 0 <= places_end < s.len() && (s[places_end] == 'e' || s[places_end] == 'E')
            && writes_exponent(s, places_end + 1)
    }
}

/// Whether `s` writes a real number.
pub open spec fn writes_real(s: Seq<char>) -> bool {
    let from: int = if s.len() > 0 && is_sign(s[0]) {
        1
    } else {
        0
    };
    ||| writes_decimal(s, from)
    ||| is_word(s.skip(from), seq!['i', 'n', 'f'])
    ||| is_word(s.skip(from), seq!['i', 'n', 'f', 'i', 'n', 'i', 't', 'y'])
    ||| is_word(s.skip(from), seq!['n', 'a', 'n'])
}

fn is_digit(c: char) -> (b: bool)
    ensures
        b == is_decimal_digit(c),
{
    let u: u32 = c as u32;
    0x30 <= u && u <= 0x39
}

fn lower(c: char) -> (l: char)
    ensures
        l == lowered(c),
{
    let u: u32 = c as u32;
    if 0x41 <= u && u <= 0x5A {
        ((u + 0x20) as u8) as char
    } else {
        c
    }
}

fn skip_digits(text: &[char], from: usize) -> (end: usize)
    requires
        from <= text@.len(),
    ensures
        end == digits_end(text@, from as int),
        from <= end <= text@.len(),
{
    let mut end: usize = from;
    while end < text.len() && is_digit(text[end])
        invariant
            from <= end <= text@.len(),
            digits_end(text@, from as int) == digits_end(text@, end as int),
        decreases text@.len() - end,
    {
        end += 1;
    }
    end
}

fn reads_word(text: &[char], from: usize, word: &[char]) -> (b: bool)
    requires
        from <= text@.len(),
    ensures
        b == is_word(text@.skip(from as int), word@),
{
    if text.len() - from != word.len() {
        return false;
    }
    let mut i: usize = 0;
    while i < word.len()
        invariant
            from <= text@.len(),
            from + word@.len() == text@.len() <= usize::MAX,
            i <= word@.len(),
            forall|k: int| 0 <= k < i ==> lowered(#[trigger] text@.skip(from as int)[k]) == word@[k],
        decreases word@.len() - i,
    {
        if lower(text[from + i]) != word[i] {
            proof {
                assert(text@.skip(from as int)[i as int] == text@[from + i]);
            }
            return false;
        }
        proof {
            assert(text@.skip(from as int)[i as int] == text@[from + i]);
        }
        i += 1;
    }
    true
}

/// Whether `text` writes a real number.
pub fn is_real(text: &[char]) -> (b: bool)
    ensures
        b == writes_real(text@),
{
    let from: usize = if text.len() > 0 && (text[0] == '+' || text[0] == '-') {
        1
    } else {
        0
    };
    let inf: [char; 3] = ['i', 'n', 'f'];
    let infinity: [char; 8] = ['i', 'n', 'f', 'i', 'n', 'i', 't', 'y'];
    let nan: [char; 3] = ['n', 'a', 'n'];
    if reads_word(text, from, inf.as_slice()) || reads_word(text, from, infinity.as_slice())
        || reads_word(text, from, nan.as_slice()) {
        return true;
    }
    let whole_end = skip_digits(text, from);
    let places_start: usize = if whole_end < text.len() && text[whole_end] == '.' {
        whole_end + 1
    } else {
        whole_end
    };
    let places_end = skip_digits(text, places_start);
    if (whole_end - from) + (places_end - places_start) == 0 {
        return false;
    }
    if places_end == text.len() {
        return true;
    }
    if text[places_end] != 'e' && text[places_end] != 'E' {
        return false;
    }
    let sign_at: usize = places_end + 1;
    let start: usize = if sign_at < text.len() && (text[sign_at] == '+' || text[sign_at] == '-') {
        sign_at + 1
    } else {
        sign_at
    };
    let end = skip_digits(text, start);
    start < end && end == text.len()
}

} // verus!
