//! Literals: what the text of an `Int`, `Float` or `Bool` token denotes.
//!
//! ```text
//! int      ::= sign? digit+
//! float    ::= sign? ( decimal | "inf" | "infinity" | "nan" )
//! decimal  ::= ( digit+ | digit+ "." digit* | digit* "." digit+ ) exponent?
//! exponent ::= ( "e" | "E" ) sign? digit+
//! bool     ::= "true" | "false"
//! sign     ::= "+" | "-"
//! digit    ::= "0" | ... | "9"
//! ```
//!
//! An integer must fit in 32 bits. The three words of `float` may be written
//! in any mix of cases; those of `bool` may not. A decimal literal is kept as
//! its numeral: this library computes with no floating-point numbers.

use vstd::prelude::*;

verus! {

/// Whether `c` is one of the ten decimal digits.
pub open spec fn is_digit(c: char) -> bool {
    '0' <= c <= '9'
}

/// The number that a decimal digit stands for.
pub open spec fn digit_value(c: char) -> nat
    recommends
        is_digit(c),
{
    (c as int - '0' as int) as nat
}

/// Whether every character of `s` is a decimal digit.
pub open spec fn all_digits(s: Seq<char>) -> bool {
    forall|i: int| 0 <= i < s.len() ==> is_digit(#[trigger] s[i])
}

/// The number that a sequence of decimal digits denotes; 0 for the empty one.
pub open spec fn decimal_value(digits: Seq<char>) -> nat
    recommends
        all_digits(digits),
    decreases digits.len(),
{
    if digits.len() == 0 {
        0
    } else {
        10 * decimal_value(digits.drop_last()) + digit_value(digits.last())
    }
}

/// Whether `s` starts with `+` or `-`.
pub open spec fn has_sign(s: Seq<char>) -> bool {
    s.len() > 0 && (s[0] == '+' || s[0] == '-')
}

/// `s` without its leading sign, if it has one.
pub open spec fn unsigned_part(s: Seq<char>) -> Seq<char> {
    if has_sign(s) {
        s.drop_first()
    } else {
        s
    }
}

/// The integer that the numeral `s` denotes: an optional sign followed by one
/// or more decimal digits. `None` where `s` has another form.
pub open spec fn int_value(s: Seq<char>) -> Option<int> {
    let digits = unsigned_part(s);
    if digits.len() > 0 && all_digits(digits) {
        Some(
            if s[0] == '-' {
                -(decimal_value(digits) as int)
            } else {
                decimal_value(digits) as int
            },
        )
    } else {
        None
    }
}

/// The 32-bit signed integer that the numeral `s` denotes. `None` where `s` is
/// no integer numeral or denotes an integer outside of the 32-bit range.
pub open spec fn i32_value(s: Seq<char>) -> Option<i32> {
    match int_value(s) {
        Some(value) => if i32::MIN <= value <= i32::MAX {
            Some(value as i32)
        } else {
            None
        },
        None => None,
    }
}

/// The boolean that the word `s` denotes: `true` or `false`, spelled exactly.
pub open spec fn bool_value(s: Seq<char>) -> Option<bool> {
    if s == seq!['t', 'r', 'u', 'e'] {
        Some(true)
    } else if s == seq!['f', 'a', 'l', 's', 'e'] {
        Some(false)
    } else {
        None
    }
}

/// The number of decimal digits that stand in a row in `s` from index `from` on.
pub open spec fn digit_run(s: Seq<char>, from: int) -> nat
    decreases s.len() - from,
{
    if 0 <= from < s.len() && is_digit(s[from]) {
        1 + digit_run(s, from + 1)
    } else {
        0
    }
}

/// Whether `s` spells a word in any mix of cases, the word given in lower
/// case and in upper case.
pub open spec fn spells(s: Seq<char>, lower: Seq<char>, upper: Seq<char>) -> bool {
    s.len() == lower.len() && forall|i: int|
        0 <= i < s.len() ==> #[trigger] s[i] == lower[i] || s[i] == upper[i]
}

/// Whether `s` holds, from index `at` to its end, an exponent: `e` or `E`, an
/// optional sign, and one or more digits.
pub open spec fn is_exponent(s: Seq<char>, at: int) -> bool {
    let signed = at + 1 < s.len() && (s[at + 1] == '+' || s[at + 1] == '-');
    let digits = if signed {
        at + 2
    } else {
        at + 1
    };
    &&& 0 <= at < s.len()
    &&& s[at] == 'e' || s[at] == 'E'
    &&& digit_run(s, digits) > 0
    &&& digits + digit_run(s, digits) == s.len()
}

/// Whether `s` holds, from index `start` to its end, a decimal number: digits
/// with at most one point among them, before it or after it or both, and
/// after them an optional exponent.
pub open spec fn is_decimal(s: Seq<char>, start: int) -> bool {
    let whole = digit_run(s, start);
    let point = start + whole;
    let pointed = point < s.len() && s[point] == '.';
    let fraction = if pointed {
        digit_run(s, point + 1)
    } else {
        0
    };
    let end = if pointed {
        point + 1 + fraction
    } else {
        point
    };
    &&& whole + fraction > 0
    &&& end == s.len() || is_exponent(s, end)
}

/// Whether `s` is a floating-point numeral: an optional sign, followed by a
/// decimal number or by one of the words `inf`, `infinity` and `nan` in any
/// mix of cases.
pub open spec fn is_float_numeral(s: Seq<char>) -> bool {
    let body = unsigned_part(s);
    let start: int = if has_sign(s) {
        1
    } else {
        0
    };
    ||| spells(body, seq!['i', 'n', 'f'], seq!['I', 'N', 'F'])
    ||| spells(body, seq!['n', 'a', 'n'], seq!['N', 'A', 'N'])
    ||| spells(
        body,
        seq!['i', 'n', 'f', 'i', 'n', 'i', 't', 'y'],
        seq!['I', 'N', 'F', 'I', 'N', 'I', 'T', 'Y'],
    )
    ||| is_decimal(s, start)
}

/// The decimal digit that stands for a number below ten.
pub open spec fn digit_char(d: nat) -> char
    recommends
        d < 10,
{
    ('0' as nat + d) as char
}

/// The decimal numeral of a natural number, without leading zeros.
pub open spec fn nat_text(n: nat) -> Seq<char>
    decreases n,
{
    if n < 10 {
        seq![digit_char(n)]
    } else {
        nat_text(n / 10).push(digit_char(n % 10))
    }
}

/// The decimal numeral of an integer: `-` in front of a negative one.
pub open spec fn int_text(value: int) -> Seq<char> {
    if value < 0 {
        seq!['-'] + nat_text((-value) as nat)
    } else {
        nat_text(value as nat)
    }
}

/// The word for a boolean.
pub open spec fn bool_text(value: bool) -> Seq<char> {
    if value {
        seq!['t', 'r', 'u', 'e']
    } else {
        seq!['f', 'a', 'l', 's', 'e']
    }
}

/// The numeral of a natural number is made of digits, one at least, and
/// denotes that number.
pub proof fn lemma_nat_text(n: nat)
    ensures
        nat_text(n).len() > 0,
        all_digits(nat_text(n)),
        decimal_value(nat_text(n)) == n,
    decreases n,
{
    if n < 10 {
        assert(nat_text(n).drop_last() =~= Seq::<char>::empty());
        assert(decimal_value(nat_text(n).drop_last()) == 0);
    } else {
        lemma_nat_text(n / 10);
        lemma_decimal_value_push(nat_text(n / 10), digit_char(n % 10));
    }
}

/// Reading the numeral of an integer gives the integer back.
pub proof fn lemma_int_text(value: int)
    ensures
        int_value(int_text(value)) == Some(value),
{
    if value < 0 {
        let digits = nat_text((-value) as nat);
        lemma_nat_text((-value) as nat);
        assert(int_text(value).drop_first() =~= digits);
    } else {
        lemma_nat_text(value as nat);
    }
}

/// Reading the word for a boolean gives the boolean back.
pub proof fn lemma_bool_text(value: bool)
    ensures
        bool_value(bool_text(value)) == Some(value),
{
    assert(bool_text(false).len() == 5);
    assert(bool_text(true).len() == 4);
}

/// The value of a prefix of a digit sequence is at most the value of the whole.
pub proof fn lemma_decimal_value_prefix(digits: Seq<char>, k: int)
    requires
        0 <= k <= digits.len(),
    ensures
        decimal_value(digits.take(k)) <= decimal_value(digits),
    decreases digits.len(),
{
    if k < digits.len() {
        lemma_decimal_value_prefix(digits.drop_last(), k);
        assert(digits.drop_last().take(k) =~= digits.take(k));
    } else {
        assert(digits.take(k) =~= digits);
    }
}

/// Appending a digit multiplies the value by ten and adds the digit.
pub proof fn lemma_decimal_value_push(digits: Seq<char>, c: char)
    ensures
        decimal_value(digits.push(c)) == 10 * decimal_value(digits) + digit_value(c),
{
    assert(digits.push(c).drop_last() =~= digits);
}

/// The characters of `text`, in order.
pub fn characters(text: &str) -> (chars: Vec<char>)
    ensures
        chars@ == text@,
{
    let mut chars: Vec<char> = Vec::new();
    for c in it: text.chars()
        invariant
            it.seq() == text@,
            chars@ == text@.take(it.index() as int),
    {
        chars.push(c);
        assert(text@.take(it.index() + 1) =~= text@.take(it.index() as int).push(c));
    }
    assert(text@.take(text@.len() as int) =~= text@);
    chars
}

/// Reads the word `true` or `false`.
pub fn parse_bool(text: &str) -> (value: Option<bool>)
    ensures
        value == bool_value(text@),
{
    let chars = characters(text);
    if chars.len() == 4 && chars[0] == 't' && chars[1] == 'r' && chars[2] == 'u' && chars[3]
        == 'e' {
        assert(text@ =~= seq!['t', 'r', 'u', 'e']);
        Some(true)
    } else if chars.len() == 5 && chars[0] == 'f' && chars[1] == 'a' && chars[2] == 'l'
        && chars[3] == 's' && chars[4] == 'e' {
        assert(text@ =~= seq!['f', 'a', 'l', 's', 'e']);
        Some(false)
    } else {
        proof {
            let yes = seq!['t', 'r', 'u', 'e'];
            let no = seq!['f', 'a', 'l', 's', 'e'];
            assert(yes.len() == 4 && yes[0] == 't' && yes[1] == 'r' && yes[2] == 'u' && yes[3]
                == 'e');
            assert(no.len() == 5 && no[0] == 'f' && no[1] == 'a' && no[2] == 'l' && no[3] == 's'
                && no[4] == 'e');
        }
        None
    }
}

/// Reads a 32-bit signed integer in decimal notation: an optional sign, then
/// one or more digits.
pub fn parse_i32(text: &str) -> (value: Option<i32>)
    ensures
        value == i32_value(text@),
{
    let chars = characters(text);
    let count = chars.len();
    if count == 0 {
        return None;
    }
    let negative = chars[0] == '-';
    let start: usize = if chars[0] == '-' || chars[0] == '+' {
        1
    } else {
        0
    };
    if start == count {
        return None;
    }
    let ghost digits = unsigned_part(text@);
    assert(digits =~= text@.skip(start as int));
    let mut magnitude: i64 = 0;
    let mut i: usize = start;
    while i < count
        invariant
            start <= i <= count,
            count == chars.len(),
            chars@ == text@,
            digits == text@.skip(start as int),
            digits == unsigned_part(text@),
            all_digits(digits.take(i - start)),
            magnitude == decimal_value(digits.take(i - start)),
            0 <= magnitude <= 2147483648,
        decreases count - i,
    {
        let c = chars[i];
        if c < '0' || c > '9' {
            assert(!is_digit(digits[i - start]));
            return None;
        }
        proof {
            assert(digits[i - start] == c);
            assert(digits.take(i + 1 - start) =~= digits.take(i - start).push(c));
            lemma_decimal_value_push(digits.take(i - start), c);
        }
        magnitude = magnitude * 10 + (c as i64 - 48);
        if magnitude > 2147483648 {
            proof {
                lemma_decimal_value_prefix(digits, i + 1 - start);
            }
            return None;
        }
        i += 1;
    }
    assert(digits.take(count - start) =~= digits);
    if negative {
        Some((-magnitude) as i32)
    } else if magnitude <= 2147483647 {
        Some(magnitude as i32)
    } else {
        None
    }
}

/// The index just behind the digits that stand in a row from index `from` on.
fn digits_end(chars: &Vec<char>, from: usize) -> (end: usize)
    requires
        from <= chars.len(),
    ensures
        end == from + digit_run(chars@, from as int),
        end <= chars.len(),
{
    let mut end: usize = from;
    while end < chars.len() && '0' <= chars[end] && chars[end] <= '9'
        invariant
            from <= end <= chars.len(),
            digit_run(chars@, from as int) == (end - from) + digit_run(chars@, end as int),
        decreases chars.len() - end,
    {
        end += 1;
    }
    end
}

/// Whether the characters from index `start` on spell a word in any mix of
/// cases, the word given in lower case and in upper case.
fn spells_word(chars: &Vec<char>, start: usize, lower: &[char], upper: &[char]) -> (same: bool)
    requires
        start <= chars.len(),
        lower.len() == upper.len(),
    ensures
        same == spells(chars@.skip(start as int), lower@, upper@),
{
    if chars.len() - start != lower.len() {
        return false;
    }
    let ghost body = chars@.skip(start as int);
    let mut i: usize = 0;
    while i < lower.len()
        invariant
            i <= lower.len(),
            lower.len() == upper.len(),
            start + lower.len() == chars.len(),
            body == chars@.skip(start as int),
            forall|k: int| 0 <= k < i ==> #[trigger] body[k] == lower@[k] || body[k] == upper@[k],
        decreases lower.len() - i,
    {
        let c = chars[start + i];
        if c != lower[i] && c != upper[i] {
            assert(body[i as int] == c);
            return false;
        }
        i += 1;
    }
    true
}

/// Whether `text` is a floating-point numeral.
pub fn is_float(text: &str) -> (valid: bool)
    ensures
        valid == is_float_numeral(text@),
{
    let chars = characters(text);
    let count = chars.len();
    let start: usize = if count > 0 && (chars[0] == '-' || chars[0] == '+') {
        1
    } else {
        0
    };
    assert(unsigned_part(text@) =~= chars@.skip(start as int));
    if spells_word(&chars, start, &['i', 'n', 'f'], &['I', 'N', 'F']) || spells_word(
        &chars,
        start,
        &['n', 'a', 'n'],
        &['N', 'A', 'N'],
    ) || spells_word(
        &chars,
        start,
        &['i', 'n', 'f', 'i', 'n', 'i', 't', 'y'],
        &['I', 'N', 'F', 'I', 'N', 'I', 'T', 'Y'],
    ) {
        return true;
    }
    let point = digits_end(&chars, start);
    let pointed = point < count && chars[point] == '.';
    let end = if pointed {
        digits_end(&chars, point + 1)
    } else {
        point
    };
    if end - start == (if pointed { 1 } else { 0 }) {
        return false;
    }
    if end == count {
        return true;
    }
    if chars[end] != 'e' && chars[end] != 'E' {
        return false;
    }
    let digits: usize = if end + 1 < count && (chars[end + 1] == '+' || chars[end + 1] == '-') {
        end + 2
    } else {
        end + 1
    };
    let last = digits_end(&chars, digits);
    last > digits && last == count
}

} // verus!
