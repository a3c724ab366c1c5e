//! Literal values.

use crate::lexer::{
    all_digits, decimal_valid, digits_value, find_decimal_point, fraction_digits, integer_value,
    is_digit_char, lemma_digits_value_push, sign_length, unsigned_part, whole_digits,
};
use crate::parser::VarType;
use crate::text::{chars_of, push_char};
use vstd::prelude::*;

verus! {

/// A signed integer literal.
#[derive(Debug, Clone, PartialEq)]
pub struct NodeValueInt {
    pub value: i64,
    pub var_type: VarType,
}

/// An unsigned integer literal.
#[derive(Debug, Clone, PartialEq)]
pub struct NodeValueUInt {
    pub value: u64,
    pub var_type: VarType,
}

/// A decimal literal, kept as the text that wrote it.
#[derive(Debug, Clone, PartialEq)]
pub struct NodeValueFloat {
    pub value: String,
    pub var_type: VarType,
}

/// A string literal, quotes included.
#[derive(Debug, Clone, PartialEq)]
pub struct NodeValueString {
    pub value: String,
    pub var_type: VarType,
}

/// The character of a digit below ten.
pub open spec fn digit_char(d: nat) -> char {
    if d == 0 {
        '0'
    } else if d == 1 {
        '1'
    } else if d == 2 {
        '2'
    } else if d == 3 {
        '3'
    } else if d == 4 {
        '4'
    } else if d == 5 {
        '5'
    } else if d == 6 {
        '6'
    } else if d == 7 {
        '7'
    } else if d == 8 {
        '8'
    } else {
        '9'
    }
}

/// A natural number in base ten, without leading zeros.
pub open spec fn decimal_text(n: nat) -> Seq<char>
    decreases n,
{
    if n < 10 {
        seq![digit_char(n)]
    } else {
        decimal_text(n / 10).push(digit_char(n % 10))
    }
}

/// An integer in base ten, with a minus sign where it is negative.
pub open spec fn integer_text(n: int) -> Seq<char> {
    if n < 0 {
        seq!['-'] + decimal_text((-n) as nat)
    } else {
        decimal_text(n as nat)
    }
}

/// The digits without the zeros they start with, but for the last digit.
pub open spec fn without_leading_zeros(s: Seq<char>) -> Seq<char>
    decreases s.len(),
{
    if s.len() > 1 && s[0] == '0' {
        without_leading_zeros(s.skip(1))
    } else {
        s
    }
}

/// The digits without the zeros they end with, but for the first digit.
pub open spec fn without_trailing_zeros(s: Seq<char>) -> Seq<char>
    decreases s.len(),
{
    if s.len() > 1 && s.last() == '0' {
        without_trailing_zeros(s.drop_last())
    } else {
        s
    }
}

/// The digits, or one zero where there are none.
pub open spec fn digits_or_zero(s: Seq<char>) -> Seq<char> {
    if s.len() == 0 {
        seq!['0']
    } else {
        s
    }
}

/// A decimal literal in canonical form: the minus sign if it has one, the
/// digits before the dot without leading zeros, the dot, and the digits
/// after it without trailing zeros, with at least one digit on either side.
pub open spec fn canonical_decimal(s: Seq<char>) -> Seq<char> {
    let sign = if s.len() > 0 && s[0] == '-' {
        seq!['-']
    } else {
        Seq::empty()
    };
    sign + without_leading_zeros(digits_or_zero(whole_digits(s))) + seq!['.']
        + without_trailing_zeros(digits_or_zero(fraction_digits(s)))
}

/// The C text of a decimal literal: its canonical form where the text
/// writes a decimal number, the text itself otherwise.
pub open spec fn float_text(s: Seq<char>) -> Seq<char> {
    if decimal_valid(s) {
        canonical_decimal(s)
    } else {
        s
    }
}

/// The character of the digit `d`.
fn char_of_digit(d: u64) -> (c: char)
    requires
        d < 10,
    ensures
        c == digit_char(d as nat),
{
    if d == 0 {
        '0'
    } else if d == 1 {
        '1'
    } else if d == 2 {
        '2'
    } else if d == 3 {
        '3'
    } else if d == 4 {
        '4'
    } else if d == 5 {
        '5'
    } else if d == 6 {
        '6'
    } else if d == 7 {
        '7'
    } else if d == 8 {
        '8'
    } else {
        '9'
    }
}

/// Appends `n` in base ten to `out`.
fn push_decimal(out: &mut String, n: u64)
    ensures
        final(out)@ == old(out)@ + decimal_text(n as nat),
    decreases n,
{
    if n >= 10 {
        push_decimal(out, n / 10);
    }
    push_char(out, char_of_digit(n % 10));
    assert(final(out)@ =~= old(out)@ + decimal_text(n as nat));
}

impl NodeValueInt {
    /// A literal of the given value and type.
    pub fn new(value: i64, var_type: VarType) -> (r: Self)
        ensures
            r.value == value,
            r.var_type == var_type,
    {
        NodeValueInt { value: value, var_type: var_type }
    }

    /// The value in base ten.
    pub fn to_c(&self) -> (r: String)
        ensures
            r@ == integer_text(self.value as int),
    {
        let mut out: String = String::new();
        if self.value < 0 {
            push_char(&mut out, '-');
            let magnitude: u64 = if self.value == i64::MIN {
                9_223_372_036_854_775_808
            } else {
                (0 - self.value) as u64
            };
            push_decimal(&mut out, magnitude);
            assert(out@ =~= integer_text(self.value as int));
        } else {
            push_decimal(&mut out, self.value as u64);
            assert(out@ =~= integer_text(self.value as int));
        }
        out
    }
}

impl NodeValueUInt {
    /// A literal of the given value and type.
    pub fn new(value: u64, var_type: VarType) -> (r: Self)
        ensures
            r.value == value,
            r.var_type == var_type,
    {
        NodeValueUInt { value: value, var_type: var_type }
    }

    /// The value in base ten.
    pub fn to_c(&self) -> (r: String)
        ensures
            r@ == integer_text(self.value as int),
    {
        let mut out: String = String::new();
        push_decimal(&mut out, self.value);
        assert(out@ =~= integer_text(self.value as int));
        out
    }
}

impl NodeValueFloat {
    /// A literal of the given text and type.
    pub fn new(value: String, var_type: VarType) -> (r: Self)
        ensures
            r.value == value,
            r.var_type == var_type,
    {
        NodeValueFloat { value: value, var_type: var_type }
    }

    /// The literal in canonical form, see `float_text`.
    pub fn to_c(&self) -> (r: String)
        ensures
            r@ == float_text(self.value@),
    {
        let v = chars_of(self.value.as_str());
        let dot = match find_decimal_point(&v) {
            Some(dot) => dot,
            None => {
                return self.value.clone();
            },
        };
        let start: usize = if v[0] == '-' {
            1
        } else {
            0
        };
        let ghost text = v@;
        assert(start == sign_length(text));
        let ghost whole = whole_digits(text);
        let ghost fraction = fraction_digits(text);
        assert(unsigned_part(text) =~= text.skip(start as int));
        assert(whole =~= text.subrange(start as int, dot as int));
        assert(fraction =~= text.subrange(dot + 1, text.len() as int));
        let mut out: String = String::new();
        if start == 1 {
            push_char(&mut out, '-');
        }
        let ghost sign = out@;
        if dot == start {
            push_char(&mut out, '0');
        } else {
            let mut i: usize = start;
            while i + 1 < dot && v[i] == '0'
                invariant
                    start <= i < dot <= v.len(),
                    text == v@,
                    whole == text.subrange(start as int, dot as int),
                    without_leading_zeros(whole) == without_leading_zeros(
                        text.subrange(i as int, dot as int),
                    ),
                decreases dot - i,
            {
                assert(text.subrange(i as int, dot as int).skip(1) =~= text.subrange(
                    i + 1,
                    dot as int,
                ));
                i = i + 1;
            }
            let first: usize = i;
            assert(without_leading_zeros(whole) == text.subrange(first as int, dot as int));
            while i < dot
                invariant
                    first <= i <= dot <= v.len(),
                    text == v@,
                    out@ == sign + text.subrange(first as int, i as int),
                decreases dot - i,
            {
                push_char(&mut out, v[i]);
                i = i + 1;
                assert(out@ =~= sign + text.subrange(first as int, i as int));
            }
        }
        assert(out@ =~= sign + without_leading_zeros(digits_or_zero(whole)));
        push_char(&mut out, '.');
        let ghost head = out@;
        if dot + 1 == v.len() {
            push_char(&mut out, '0');
        } else {
            let mut j: usize = v.len();
            while j > dot + 2 && v[j - 1] == '0'
                invariant
                    dot + 1 < j <= v.len(),
                    text == v@,
                    fraction == text.subrange(dot + 1, text.len() as int),
                    without_trailing_zeros(fraction) == without_trailing_zeros(
                        text.subrange(dot + 1, j as int),
                    ),
                decreases j,
            {
                assert(text.subrange(dot + 1, j as int).drop_last() =~= text.subrange(
                    dot + 1,
                    j - 1,
                ));
                j = j - 1;
            }
            assert(without_trailing_zeros(fraction) == text.subrange(dot + 1, j as int));
            let mut i: usize = dot + 1;
            while i < j
                invariant
                    dot + 1 <= i <= j <= v.len(),
                    text == v@,
                    out@ == head + text.subrange(dot + 1, i as int),
                decreases j - i,
            {
                push_char(&mut out, v[i]);
                i = i + 1;
                assert(out@ =~= head + text.subrange(dot + 1, i as int));
            }
        }
        assert(out@ =~= canonical_decimal(text));
        out
    }
}

impl NodeValueString {
    /// A literal of the given text and type.
    pub fn new(value: String, var_type: VarType) -> (r: Self)
        ensures
            r.value == value,
            r.var_type == var_type,
    {
        NodeValueString { value: value, var_type: var_type }
    }

    /// The text of the literal, unchanged.
    pub fn to_c(&self) -> (r: String)
        ensures
            r@ == self.value@,
    {
        self.value.clone()
    }
}

/// The text of a natural number is made of digits, and these digits write
/// that number.
pub proof fn lemma_decimal_text_value(n: nat)
    ensures
        decimal_text(n).len() > 0,
        all_digits(decimal_text(n)),
        digits_value(decimal_text(n)) == n,
    decreases n,
{
    if n < 10 {
        let text = decimal_text(n);
        assert(text.drop_last() =~= Seq::<char>::empty());
        assert(digits_value(text.drop_last()) == 0);
        assert(text.last() == digit_char(n));
    } else {
        lemma_decimal_text_value(n / 10);
        let before = decimal_text(n / 10);
        let text = before.push(digit_char(n % 10));
        lemma_digits_value_push(before, digit_char(n % 10));
        assert forall|i: int| 0 <= i < text.len() implies is_digit_char(#[trigger] text[i]) by {
            if i < before.len() {
                assert(text[i] == before[i]);
            }
        }
    }
}

/// The text of an integer, read as an integer literal, writes that integer.
pub proof fn lemma_integer_text_value(n: int)
    ensures
        integer_value(integer_text(n)) == Some(n),
{
    if n < 0 {
        let digits = decimal_text((-n) as nat);
        lemma_decimal_text_value((-n) as nat);
        assert(integer_text(n).skip(1) =~= digits);
    } else {
        lemma_decimal_text_value(n as nat);
        assert(is_digit_char(decimal_text(n as nat)[0]));
    }
}

/// A zero before a run of digits does not change the number they write.
pub proof fn lemma_zero_before_digits(digits: Seq<char>)
    ensures
        digits_value(seq!['0'] + digits) == digits_value(digits),
    decreases digits.len(),
{
    let all = seq!['0'] + digits;
    if digits.len() == 0 {
        assert(all.drop_last() =~= Seq::<char>::empty());
        assert(digits_value(all.drop_last()) == 0);
    } else {
        assert(all.drop_last() =~= seq!['0'] + digits.drop_last());
        lemma_zero_before_digits(digits.drop_last());
    }
}

/// Digits without their leading zeros write the same number.
pub proof fn lemma_without_leading_zeros_value(digits: Seq<char>)
    ensures
        digits_value(without_leading_zeros(digits)) == digits_value(digits),
    decreases digits.len(),
{
    if digits.len() > 1 && digits[0] == '0' {
        assert(digits =~= seq!['0'] + digits.skip(1));
        lemma_zero_before_digits(digits.skip(1));
        lemma_without_leading_zeros_value(digits.skip(1));
    }
}

} // verus!
