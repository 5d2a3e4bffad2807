//! Numeric literals: what kind of number a string spells.

use vstd::prelude::*;

use crate::js_string::JsString;
use crate::utf16;
use crate::whitespace;

verus! {

/// What a string spells as a number.
#[derive(Debug)]
pub enum NumericLiteral {
    /// No number.
    NotANumber,
    /// Zero, which a string of nothing but white space spells.
    Zero,
    /// Positive infinity.
    Infinity,
    /// Negative infinity.
    NegativeInfinity,
    /// An integer in the notation of base 2, 8 or 16.
    Integer(u32),
    /// The digits, first one first, of an integer in the notation of base 2, 8 or 16 that is too
    /// large for a `u32`.
    Digits { base: u32, digits: Vec<u32> },
    /// A text that may be a number in decimal notation.
    Decimal(String),
}

/// The kind of number that a text spells, as a mathematical value.
pub ghost enum Literal {
    NotANumber,
    Zero,
    Infinity,
    NegativeInfinity,
    Integer(int),
    Digits { base: int, digits: Seq<int> },
    Decimal(Seq<char>),
}

impl View for NumericLiteral {
    type V = Literal;

    open spec fn view(&self) -> Literal {
        match *self {
            NumericLiteral::NotANumber => Literal::NotANumber,
            NumericLiteral::Zero => Literal::Zero,
            NumericLiteral::Infinity => Literal::Infinity,
            NumericLiteral::NegativeInfinity => Literal::NegativeInfinity,
            NumericLiteral::Integer(value) => Literal::Integer(value as int),
            NumericLiteral::Digits { base, digits } => Literal::Digits {
                base: base as int,
                digits: digits@.map_values(|digit: u32| digit as int),
            },
            NumericLiteral::Decimal(text) => Literal::Decimal(text@),
        }
    }
}

/// The value of a letter or digit by itself, from 0 to 35; 36 for any other character.
pub open spec fn digit_rank(c: char) -> int {
    let value = c as int;
    if '0' as int <= value <= '9' as int {
        value - '0' as int
    } else if 'a' as int <= value <= 'z' as int {
        value - 'a' as int + 10
    } else if 'A' as int <= value <= 'Z' as int {
        value - 'A' as int + 10
    } else {
        36
    }
}

/// Whether every character is a digit in notation of base `base`.
pub open spec fn all_digits(text: Seq<char>, base: int) -> bool {
    forall|i: int| 0 <= i < text.len() ==> digit_rank(#[trigger] text[i]) < base
}

/// The values of the digits.
pub open spec fn digit_values(text: Seq<char>) -> Seq<int> {
    text.map_values(|c: char| digit_rank(c))
}

/// The integer with these digits in notation of base `base`.
pub open spec fn digits_value(digits: Seq<int>, base: int) -> int
    decreases digits.len(),
{
    if digits.len() == 0 {
        0
    } else {
        digits_value(digits.drop_last(), base) * base + digits.last()
    }
}

/// The base that a text announces by its first two characters.
pub open spec fn announced_base(text: Seq<char>) -> Option<int> {
    if text.len() < 2 || text[0] != '0' {
        None
    } else if text[1] == 'b' || text[1] == 'B' {
        Some(2)
    } else if text[1] == 'o' || text[1] == 'O' {
        Some(8)
    } else if text[1] == 'x' || text[1] == 'X' {
        Some(16)
    } else {
        None
    }
}

/// What follows the announcement of a base: one or more digits, and no sign.
pub open spec fn radix_literal(text: Seq<char>, base: int) -> Literal {
    if text.len() > 0 && all_digits(text, base) {
        let value = digits_value(digit_values(text), base);
        if value <= u32::MAX {
            Literal::Integer(value)
        } else {
            Literal::Digits { base, digits: digit_values(text) }
        }
    } else {
        Literal::NotANumber
    }
}

/// Whether `text` starts, after a sign if it has one, like the word "infinity" in upper or lower
/// case.
pub open spec fn resembles_infinity(text: Seq<char>) -> bool {
    let start: int = if text.len() > 0 && (text[0] == '+' || text[0] == '-') {
        1
    } else {
        0
    };
    start < text.len() && (text[start] == 'i' || text[start] == 'I')
}

/// What a text with nothing trimmable at its ends spells.
pub open spec fn trimmed_literal(text: Seq<char>) -> Literal {
    if text == ""@ {
        Literal::Zero
    } else if text == "-Infinity"@ {
        Literal::NegativeInfinity
    } else if text == "Infinity"@ || text == "+Infinity"@ {
        Literal::Infinity
    } else {
        match announced_base(text) {
            Some(base) => radix_literal(text.skip(2), base),
            // No further variants of "infinity" are numbers.
            None => if resembles_infinity(text) {
                Literal::NotANumber
            } else {
                Literal::Decimal(text)
            },
        }
    }
}

/// What a text spells.
pub open spec fn text_literal(text: Seq<char>) -> Literal {
    trimmed_literal(whitespace::trim_text(text))
}

/// What a string spells.
pub open spec fn literal(units: Seq<u16>) -> Literal {
    if utf16::well_formed(units) {
        text_literal(utf16::text_of(utf16::decode(units)))
    } else {
        Literal::NotANumber
    }
}

/// The value of a letter or digit by itself, from 0 to 35; 36 for any other character.
fn rank_of(c: char) -> (rank: u32)
    ensures
        rank == digit_rank(c),
{
    if '0' <= c && c <= '9' {
        c as u32 - 0x30
    } else if 'a' <= c && c <= 'z' {
        c as u32 - 0x61 + 10
    } else if 'A' <= c && c <= 'Z' {
        c as u32 - 0x41 + 10
    } else {
        36
    }
}

/// The characters of a text.
fn collect_chars(text: &str) -> (chars: Vec<char>)
    ensures
        chars@ == text@,
{
    let mut chars: Vec<char> = Vec::new();
    for c in iter: text.chars()
        invariant
            iter.seq() == text@,
            chars@ == text@.take(iter.index()),
    {
        chars.push(c);
        assert(chars@ =~= text@.take(iter.index() + 1));
    }
    assert(text@.take(text@.len() as int) =~= text@);
    chars
}

/// The text of the characters from `start` up to but not including `end`.
fn text_between(chars: &Vec<char>, start: usize, end: usize) -> (text: String)
    requires
        start <= end <= chars@.len(),
    ensures
        text@ == chars@.subrange(start as int, end as int),
{
    let mut text = String::new();
    assert(chars@.subrange(start as int, start as int) =~= seq![]);
    for i in start..end
        invariant
            start <= i <= end <= chars@.len(),
            text@ == chars@.subrange(start as int, i as int),
    {
        text.push(chars[i]);
        assert(text@ =~= chars@.subrange(start as int, i + 1));
    }
    text
}

/// The bounds of what trimming the characters leaves.
fn trim_bounds(chars: &Vec<char>) -> (bounds: (usize, usize))
    ensures
        bounds.0 <= bounds.1 <= chars@.len(),
        chars@.subrange(bounds.0 as int, bounds.1 as int) == whitespace::trim_text(chars@),
{
    let len = chars.len();
    let mut start: usize = 0;
    let ghost space = whitespace::char_space();
    while start < len && whitespace::is_trimmable_whitespace(chars[start])
        invariant
            start <= len == chars@.len(),
            space == whitespace::char_space(),
            whitespace::all_space(chars@.take(start as int), space),
        ensures
            start <= len,
            whitespace::all_space(chars@.take(start as int), space),
            start < len ==> !space(chars@[start as int]),
        decreases len - start,
    {
        proof {
            let longer = chars@.take(start + 1);
            assert forall|i: int| 0 <= i < longer.len() implies space(#[trigger] longer[i]) by {
                if i < start {
                    assert(longer[i] == chars@.take(start as int)[i]);
                }
            }
        }
        start += 1;
    }
    let ghost front = chars@.skip(start as int);
    proof {
        whitespace::lemma_trim_start_at(chars@, space, start as int);
        assert(front.skip(len - start) =~= seq![]);
    }
    let mut end = len;
    while end > start && whitespace::is_trimmable_whitespace(chars[end - 1])
        invariant
            start <= end <= len == chars@.len(),
            front == chars@.skip(start as int),
            space == whitespace::char_space(),
            whitespace::all_space(front.skip(end - start), space),
        ensures
            start <= end <= len,
            whitespace::all_space(front.skip(end - start), space),
            end > start ==> !space(front[end - start - 1]),
        decreases end,
    {
        proof {
            let longer = front.skip(end - 1 - start);
            assert forall|i: int| 0 <= i < longer.len() implies space(#[trigger] longer[i]) by {
                if i > 0 {
                    assert(longer[i] == front.skip(end - start)[i - 1]);
                }
            }
        }
        end -= 1;
    }
    proof {
        whitespace::lemma_trim_end_at(front, space, end - start);
        assert(front.take(end - start) =~= chars@.subrange(start as int, end as int));
    }
    (start, end)
}

/// The values of the characters from `start` on as digits of base `base`, or [`None`] if one of
/// them is no such digit.
fn read_digits(chars: &Vec<char>, start: usize, end: usize, base: u32) -> (digits: Option<Vec<u32>>)
    requires
        start <= end <= chars@.len(),
        base <= 36,
    ensures
        digits is Some <==> all_digits(chars@.subrange(start as int, end as int), base as int),
        digits matches Some(values) ==> values@.map_values(|digit: u32| digit as int)
            == digit_values(chars@.subrange(start as int, end as int)),
{
    let ghost text = chars@.subrange(start as int, end as int);
    let mut digits: Vec<u32> = Vec::new();
    for i in start..end
        invariant
            start <= i <= end <= chars@.len(),
            text == chars@.subrange(start as int, end as int),
            digits@.len() == i - start,
            forall|j: int|
                0 <= j < i - start ==> digit_rank(#[trigger] text[j]) < base && digits@[j]
                    == digit_rank(text[j]),
    {
        let rank = rank_of(chars[i]);
        assert(text[i - start] == chars@[i as int]);
        if rank >= base {
            return None;
        }
        digits.push(rank);
    }
    assert(digits@.map_values(|digit: u32| digit as int) =~= digit_values(text));
    Some(digits)
}

/// The integer with these digits in notation of base `base`, or [`None`] if it does not fit.
fn small_value(digits: &Vec<u32>, base: u32) -> (value: Option<u32>)
    requires
        1 <= base <= 36,
        forall|i: int| 0 <= i < digits@.len() ==> #[trigger] digits@[i] < base,
    ensures
        ({
            let total = digits_value(
                digits@.map_values(|digit: u32| digit as int),
                base as int,
            );
            &&& value is Some <==> total <= u32::MAX
            &&& value matches Some(found) ==> found == total
        }),
{
    let ghost all = digits@.map_values(|digit: u32| digit as int);
    let mut value: u32 = 0;
    assert(all.take(0) =~= seq![]);
    for i in 0..digits.len()
        invariant
            1 <= base <= 36,
            all == digits@.map_values(|digit: u32| digit as int),
            forall|j: int| 0 <= j < digits@.len() ==> #[trigger] digits@[j] < base,
            value == digits_value(all.take(i as int), base as int),
    {
        proof {
            assert(value as u64 * base as u64 <= 0xFFFF_FFFF * 36) by (nonlinear_arith)
                requires
                    value <= 0xFFFF_FFFF,
                    base <= 36,
            ;
            assert(all.take(i + 1).drop_last() =~= all.take(i as int));
            assert(all.take(i + 1).last() == digits@[i as int]);
        }
        let longer: u64 = value as u64 * base as u64 + digits[i] as u64;
        if longer > 0xFFFF_FFFF {
            proof {
                lemma_digits_value_grows(all, i + 1, base as int);
            }
            return None;
        }
        value = longer as u32;
    }
    assert(all.take(all.len() as int) =~= all);
    Some(value)
}

/// More digits never make a smaller integer.
proof fn lemma_digits_value_grows(digits: Seq<int>, n: int, base: int)
    requires
        0 <= n <= digits.len(),
        base >= 1,
        forall|i: int| 0 <= i < digits.len() ==> 0 <= #[trigger] digits[i],
    ensures
        0 <= digits_value(digits.take(n), base) <= digits_value(digits, base),
    decreases digits.len(),
{
    if digits.len() == 0 {
        assert(digits.take(n) =~= digits);
    } else {
        let shorter = digits.drop_last();
        if n == digits.len() {
            assert(digits.take(n) =~= digits);
            lemma_digits_value_grows(shorter, n - 1, base);
            assert(shorter.take(n - 1) =~= shorter);
        } else {
            lemma_digits_value_grows(shorter, n, base);
            assert(shorter.take(n) =~= digits.take(n));
        }
        let prefix = digits_value(shorter, base);
        assert(prefix <= prefix * base) by (nonlinear_arith)
            requires
                0 <= prefix,
                base >= 1,
        ;
    }
}

/// What the characters from `start` up to `end`, which follow the announcement of a base, spell.
fn read_radix(chars: &Vec<char>, start: usize, end: usize, base: u32) -> (found: NumericLiteral)
    requires
        start <= end <= chars@.len(),
        2 <= base <= 36,
    ensures
        found@ == radix_literal(chars@.subrange(start as int, end as int), base as int),
{
    let ghost text = chars@.subrange(start as int, end as int);
    if start == end {
        return NumericLiteral::NotANumber;
    }
    let digits = match read_digits(chars, start, end, base) {
        Some(digits) => digits,
        None => {
            return NumericLiteral::NotANumber;
        },
    };
    proof {
        let values = digits@.map_values(|digit: u32| digit as int);
        assert forall|i: int| 0 <= i < digits@.len() implies #[trigger] digits@[i] < base by {
            assert(values[i] == digit_rank(text[i]));
        }
    }
    match small_value(&digits, base) {
        Some(value) => NumericLiteral::Integer(value),
        None => NumericLiteral::Digits { base, digits },
    }
}

/// What a text spells as a number.
pub fn classify(text: &str) -> (found: NumericLiteral)
    ensures
        found@ == text_literal(text@),
{
    let chars = collect_chars(text);
    let (start, end) = trim_bounds(&chars);
    let trimmed = text_between(&chars, start, end);
    if trimmed == "".to_owned() {
        return NumericLiteral::Zero;
    }
    if trimmed == "-Infinity".to_owned() {
        return NumericLiteral::NegativeInfinity;
    }
    if trimmed == "Infinity".to_owned() || trimmed == "+Infinity".to_owned() {
        return NumericLiteral::Infinity;
    }
    proof {
        reveal_strlit("");
        if trimmed@.len() == 0 {
            assert(trimmed@ =~= ""@);
        }
    }
    let first = chars[start];
    if first == '0' && end - start >= 2 {
        let second = chars[start + 1];
        let base: u32 = if second == 'b' || second == 'B' {
            2
        } else if second == 'o' || second == 'O' {
            8
        } else if second == 'x' || second == 'X' {
            16
        } else {
            0
        };
        if base != 0 {
            assert(trimmed@.skip(2) =~= chars@.subrange(start + 2, end as int));
            return read_radix(&chars, start + 2, end, base);
        }
    }
    let letter = if (first == '+' || first == '-') && end - start >= 2 {
        chars[start + 1]
    } else {
        first
    };
    if letter == 'i' || letter == 'I' {
        NumericLiteral::NotANumber
    } else {
        NumericLiteral::Decimal(trimmed)
    }
}

impl JsString {
    /// What the string spells as a number, the first part of the abstract operation
    /// `StringToNumber ( str )`: everything but the value of a long or a decimal notation.
    ///
    /// More information:
    /// - [ECMAScript reference][spec]
    ///
    /// [spec]: https://tc39.es/ecma262/#sec-stringtonumber
    pub fn to_numeric_literal(&self) -> (found: NumericLiteral)
        ensures
            found@ == literal(self@),
    {
        match self.to_std_string() {
            Ok(text) => classify(text.as_str()),
            Err(_) => NumericLiteral::NotANumber,
        }
    }
}

/// What follows the announcement of a base is a number only if it is made of digits: with a sign, a
/// point or anything else in it, or with nothing at all, the text spells no number.
pub proof fn lemma_radix_needs_digits(text: Seq<char>, base: int)
    requires
        0 <= base <= 36,
    ensures
        radix_literal(text, base) is NotANumber <==> text.len() == 0 || exists|i: int|
            0 <= i < text.len() && digit_rank(#[trigger] text[i]) >= base,
        text.contains('+') || text.contains('-') ==> radix_literal(text, base) is NotANumber,
{
    assert(digit_rank('+') == 36 && digit_rank('-') == 36);
    if text.contains('+') || text.contains('-') {
        let i = choose|i: int| 0 <= i < text.len() && (#[trigger] text[i] == '+' || text[i] == '-');
        assert(digit_rank(text[i]) == 36);
    }
}

/// A text that starts like "infinity", in any case and with any sign, is an infinity only if it is
/// spelled `Infinity`, `+Infinity` or `-Infinity`, and spells no number otherwise.
pub proof fn lemma_infinities(text: Seq<char>)
    ensures
        trimmed_literal(text) is Infinity <==> text == "Infinity"@ || text == "+Infinity"@,
        trimmed_literal(text) is NegativeInfinity <==> text == "-Infinity"@,
        resembles_infinity(text) && !(trimmed_literal(text) is Infinity) && !(trimmed_literal(
            text,
        ) is NegativeInfinity) ==> trimmed_literal(text) is NotANumber,
        trimmed_literal(text) matches Literal::Decimal(spelled) ==> spelled == text
            && !resembles_infinity(text),
{
    reveal_strlit("");
    reveal_strlit("Infinity");
    reveal_strlit("+Infinity");
    reveal_strlit("-Infinity");
}

/// What is trimmable at the ends of a string makes no difference to the number that it spells.
pub proof fn lemma_literal_of_trimmed(units: Seq<u16>)
    ensures
        literal(whitespace::trim(units)) == literal(units),
{
    whitespace::lemma_trimmed_text(units);
    whitespace::lemma_trimmed_text(whitespace::trim(units));
    whitespace::lemma_trim_idempotent(units);
}

} // verus!
