//! The tokenizer: source text to a flat sequence of tokens.

use crate::error::{CompileError, Failure, Place};
use crate::parser::VarType;
use crate::text::{chars_of, push_char, same_text};
use vstd::prelude::*;

verus! {

/// The reserved words of the language.
#[derive(Debug, Copy, Clone, PartialEq, Eq, Structural)]
pub enum Keyword {
    Auto,
    /// The keyword `none`, the type of nothing.
    Void,
    I8,
    I16,
    I32,
    I64,
    U8,
    U16,
    U32,
    U64,
    F32,
    F64,
    Str,
    If,
    Elif,
    Else,
    For,
    To,
    While,
    End,
    Fn,
    Return,
}

/// One lexical unit. A decimal literal keeps its text: the variant tells its width.
#[derive(Debug, Clone, PartialEq)]
pub enum Token {
    Int8(i8),
    Int16(i16),
    Int32(i32),
    Int64(i64),
    UInt8(u8),
    UInt16(u16),
    UInt32(u32),
    UInt64(u64),
    Float32(String),
    Float64(String),
    String(String),
    Plus,
    Minus,
    Mul,
    Div,
    Mod,
    FloorDiv,
    Exp,
    LPar,
    RPar,
    Eq,
    EqEq,
    NotEq,
    Lt,
    Gt,
    LtEq,
    GtEq,
    PlusEq,
    MinusEq,
    MulEq,
    DivEq,
    ModEq,
    Colon,
    /// The arrow `->` before a return type.
    Return,
    NewLine,
    And,
    Or,
    Not,
    Keyword(Keyword),
    Identifier(String),
}

/// What a token is, with each text as a sequence of characters.
pub enum TokenView {
    Int8(i8),
    Int16(i16),
    Int32(i32),
    Int64(i64),
    UInt8(u8),
    UInt16(u16),
    UInt32(u32),
    UInt64(u64),
    Float32(Seq<char>),
    Float64(Seq<char>),
    String(Seq<char>),
    Plus,
    Minus,
    Mul,
    Div,
    Mod,
    FloorDiv,
    Exp,
    LPar,
    RPar,
    Eq,
    EqEq,
    NotEq,
    Lt,
    Gt,
    LtEq,
    GtEq,
    PlusEq,
    MinusEq,
    MulEq,
    DivEq,
    ModEq,
    Colon,
    Return,
    NewLine,
    And,
    Or,
    Not,
    Keyword(Keyword),
    Identifier(Seq<char>),
}

impl View for Token {
    type V = TokenView;

    open spec fn view(&self) -> TokenView {
        match *self {
            Token::Int8(v) => TokenView::Int8(v),
            Token::Int16(v) => TokenView::Int16(v),
            Token::Int32(v) => TokenView::Int32(v),
            Token::Int64(v) => TokenView::Int64(v),
            Token::UInt8(v) => TokenView::UInt8(v),
            Token::UInt16(v) => TokenView::UInt16(v),
            Token::UInt32(v) => TokenView::UInt32(v),
            Token::UInt64(v) => TokenView::UInt64(v),
            Token::Float32(s) => TokenView::Float32(s@),
            Token::Float64(s) => TokenView::Float64(s@),
            Token::String(s) => TokenView::String(s@),
            Token::Plus => TokenView::Plus,
            Token::Minus => TokenView::Minus,
            Token::Mul => TokenView::Mul,
            Token::Div => TokenView::Div,
            Token::Mod => TokenView::Mod,
            Token::FloorDiv => TokenView::FloorDiv,
            Token::Exp => TokenView::Exp,
            Token::LPar => TokenView::LPar,
            Token::RPar => TokenView::RPar,
            Token::Eq => TokenView::Eq,
            Token::EqEq => TokenView::EqEq,
            Token::NotEq => TokenView::NotEq,
            Token::Lt => TokenView::Lt,
            Token::Gt => TokenView::Gt,
            Token::LtEq => TokenView::LtEq,
            Token::GtEq => TokenView::GtEq,
            Token::PlusEq => TokenView::PlusEq,
            Token::MinusEq => TokenView::MinusEq,
            Token::MulEq => TokenView::MulEq,
            Token::DivEq => TokenView::DivEq,
            Token::ModEq => TokenView::ModEq,
            Token::Colon => TokenView::Colon,
            Token::Return => TokenView::Return,
            Token::NewLine => TokenView::NewLine,
            Token::And => TokenView::And,
            Token::Or => TokenView::Or,
            Token::Not => TokenView::Not,
            Token::Keyword(k) => TokenView::Keyword(k),
            Token::Identifier(s) => TokenView::Identifier(s@),
        }
    }
}

/// The views of a run of tokens, in order.
pub open spec fn token_views(tokens: Seq<Token>) -> Seq<TokenView> {
    Seq::new(tokens.len(), |i: int| tokens[i]@)
}

/// A copy of `token`.
pub fn copy_token(token: &Token) -> (r: Token)
    ensures
        r@ == token@,
{
    match token {
        Token::Int8(v) => Token::Int8(*v),
        Token::Int16(v) => Token::Int16(*v),
        Token::Int32(v) => Token::Int32(*v),
        Token::Int64(v) => Token::Int64(*v),
        Token::UInt8(v) => Token::UInt8(*v),
        Token::UInt16(v) => Token::UInt16(*v),
        Token::UInt32(v) => Token::UInt32(*v),
        Token::UInt64(v) => Token::UInt64(*v),
        Token::Float32(s) => Token::Float32(s.clone()),
        Token::Float64(s) => Token::Float64(s.clone()),
        Token::String(s) => Token::String(s.clone()),
        Token::Plus => Token::Plus,
        Token::Minus => Token::Minus,
        Token::Mul => Token::Mul,
        Token::Div => Token::Div,
        Token::Mod => Token::Mod,
        Token::FloorDiv => Token::FloorDiv,
        Token::Exp => Token::Exp,
        Token::LPar => Token::LPar,
        Token::RPar => Token::RPar,
        Token::Eq => Token::Eq,
        Token::EqEq => Token::EqEq,
        Token::NotEq => Token::NotEq,
        Token::Lt => Token::Lt,
        Token::Gt => Token::Gt,
        Token::LtEq => Token::LtEq,
        Token::GtEq => Token::GtEq,
        Token::PlusEq => Token::PlusEq,
        Token::MinusEq => Token::MinusEq,
        Token::MulEq => Token::MulEq,
        Token::DivEq => Token::DivEq,
        Token::ModEq => Token::ModEq,
        Token::Colon => Token::Colon,
        Token::Return => Token::Return,
        Token::NewLine => Token::NewLine,
        Token::And => Token::And,
        Token::Or => Token::Or,
        Token::Not => Token::Not,
        Token::Keyword(k) => Token::Keyword(*k),
        Token::Identifier(s) => Token::Identifier(s.clone()),
    }
}

/// Whether `c` is one of the ten decimal digits.
pub open spec fn is_digit_char(c: char) -> bool {
    '0' <= c && c <= '9'
}

/// Whether every character of `s` is a decimal digit.
pub open spec fn all_digits(s: Seq<char>) -> bool {
    forall|i: int| 0 <= i < s.len() ==> is_digit_char(#[trigger] s[i])
}

/// Whether `s` is made of digits and minus signs alone, and is not a lone minus sign.
pub open spec fn looks_integer(s: Seq<char>) -> bool {
    &&& !(s.len() == 1 && s[0] == '-')
    &&& forall|i: int| 0 <= i < s.len() ==> is_digit_char(#[trigger] s[i]) || s[i] == '-'
}

/// Whether `s` is made of digits, minus signs and dots alone, with at least one dot.
pub open spec fn looks_decimal(s: Seq<char>) -> bool {
    &&& forall|i: int|
        0 <= i < s.len() ==> is_digit_char(#[trigger] s[i]) || s[i] == '-' || s[i] == '.'
    &&& exists|i: int| 0 <= i < s.len() && #[trigger] s[i] == '.'
}

/// The number that a run of digits writes in base ten.
pub open spec fn digits_value(s: Seq<char>) -> nat
    decreases s.len(),
{
    if s.len() == 0 {
        0
    } else {
        digits_value(s.drop_last()) * 10 + ((s.last() as int - '0' as int) as nat)
    }
}

/// The number that an integer literal writes: digits, with one minus sign
/// before them at most. `None` for any other text.
pub open spec fn integer_value(s: Seq<char>) -> Option<int> {
    if s.len() > 0 && s[0] == '-' {
        if s.len() > 1 && all_digits(s.skip(1)) {
            Some(-(digits_value(s.skip(1)) as int))
        } else {
            None
        }
    } else if s.len() > 0 && all_digits(s) {
        Some(digits_value(s) as int)
    } else {
        None
    }
}

/// The narrowest type that holds `n`: a signed one for a negative number,
/// an unsigned one for any other.
pub open spec fn classify(n: int) -> VarType {
    if n < 0 {
        if n >= -128 {
            VarType::I8
        } else if n >= -32_768 {
            VarType::I16
        } else if n >= -2_147_483_648 {
            VarType::I32
        } else {
            VarType::I64
        }
    } else {
        if n <= 255 {
            VarType::U8
        } else if n <= 65_535 {
            VarType::U16
        } else if n <= 4_294_967_295 {
            VarType::U32
        } else {
            VarType::U64
        }
    }
}

/// Whether a literal of value `n` can be held at all.
pub open spec fn integer_in_range(n: int) -> bool {
    i64::MIN <= n && n <= u64::MAX
}

/// The token of an integer literal of value `n`.
pub open spec fn integer_token(n: int) -> TokenView {
    match classify(n) {
        VarType::I8 => TokenView::Int8(n as i8),
        VarType::I16 => TokenView::Int16(n as i16),
        VarType::I32 => TokenView::Int32(n as i32),
        VarType::I64 => TokenView::Int64(n as i64),
        VarType::U8 => TokenView::UInt8(n as u8),
        VarType::U16 => TokenView::UInt16(n as u16),
        VarType::U32 => TokenView::UInt32(n as u32),
        _ => TokenView::UInt64(n as u64),
    }
}

/// Whether `s` looks like an integer literal.
pub fn is_digit(s: &str) -> (r: bool)
    ensures
        r == looks_integer(s@),
{
    let v = chars_of(s);
    if v.len() == 1 && v[0] == '-' {
        return false;
    }
    let mut i: usize = 0;
    while i < v.len()
        invariant
            i <= v.len(),
            v@ == s@,
            forall|j: int| 0 <= j < i ==> is_digit_char(#[trigger] v@[j]) || v@[j] == '-',
        decreases v.len() - i,
    {
        let c = v[i];
        if !(('0' <= c && c <= '9') || c == '-') {
            return false;
        }
        i = i + 1;
    }
    true
}

/// Whether `s` looks like a decimal literal.
pub fn is_float(s: &str) -> (r: bool)
    ensures
        r == looks_decimal(s@),
{
    let v = chars_of(s);
    let mut has_dot: bool = false;
    let mut i: usize = 0;
    while i < v.len()
        invariant
            i <= v.len(),
            v@ == s@,
            forall|j: int|
                0 <= j < i ==> is_digit_char(#[trigger] v@[j]) || v@[j] == '-' || v@[j] == '.',
            has_dot == (exists|j: int| 0 <= j < i && #[trigger] v@[j] == '.'),
        decreases v.len() - i,
    {
        let c = v[i];
        if c == '.' {
            has_dot = true;
        } else if !(('0' <= c && c <= '9') || c == '-') {
            return false;
        }
        i = i + 1;
    }
    has_dot
}

/// Reading one more digit multiplies by ten and adds the digit.
pub proof fn lemma_digits_value_push(s: Seq<char>, c: char)
    ensures
        digits_value(s.push(c)) == digits_value(s) * 10 + ((c as int - '0' as int) as nat),
{
    assert(s.push(c).drop_last() =~= s);
}

/// A run of digits is worth at least as much as any of its beginnings.
pub proof fn lemma_digits_value_prefix(s: Seq<char>, k: int)
    requires
        0 <= k <= s.len(),
    ensures
        digits_value(s.subrange(0, k)) <= digits_value(s),
    decreases s.len(),
{
    if k == s.len() {
        assert(s.subrange(0, k) =~= s);
    } else {
        lemma_digits_value_prefix(s.drop_last(), k);
        assert(s.drop_last().subrange(0, k) =~= s.subrange(0, k));
    }
}

/// The value of the digits of `v` from `start` on, where they are all digits
/// and the value fits; `None` otherwise.
fn parse_digits(v: &Vec<char>, start: usize) -> (r: Option<u64>)
    requires
        start <= v.len(),
    ensures
        match r {
            Some(n) => all_digits(v@.skip(start as int)) && n == digits_value(
                v@.skip(start as int),
            ),
            None => !all_digits(v@.skip(start as int)) || digits_value(v@.skip(start as int))
                > u64::MAX,
        },
{
    let ghost tail = v@.skip(start as int);
    let mut i: usize = start;
    while i < v.len()
        invariant
            start <= i <= v.len(),
            tail == v@.skip(start as int),
            forall|j: int| 0 <= j < i - start ==> is_digit_char(#[trigger] tail[j]),
        decreases v.len() - i,
    {
        let c = v[i];
        if !('0' <= c && c <= '9') {
            assert(tail[i - start] == c);
            return None;
        }
        assert(tail[i - start] == c);
        i = i + 1;
    }
    let mut acc: u64 = 0;
    i = start;
    while i < v.len()
        invariant
            start <= i <= v.len(),
            tail == v@.skip(start as int),
            all_digits(tail),
            acc == digits_value(tail.subrange(0, i - start)),
        decreases v.len() - i,
    {
        let c = v[i];
        assert(tail[i - start] == c);
        let d: u64 = (c as u32 - '0' as u32) as u64;
        proof {
            lemma_digits_value_push(tail.subrange(0, i - start), c);
            assert(tail.subrange(0, i - start).push(c) =~= tail.subrange(0, i - start + 1));
            lemma_digits_value_prefix(tail, i - start + 1);
        }
        if acc > (u64::MAX - d) / 10 {
            return None;
        }
        acc = acc * 10 + d;
        i = i + 1;
    }
    assert(tail.subrange(0, i - start) =~= tail);
    Some(acc)
}

/// The token of the integer literal `s`, or a lex error where `s` writes no
/// number that can be held.
pub fn to_digit(s: &str) -> (r: Result<Token, CompileError>)
    ensures
        match integer_value(s@) {
            Some(n) if integer_in_range(n) => r.is_ok() && r.unwrap()@ == integer_token(n),
            _ => r.is_err() && r.unwrap_err() == CompileError::Lex,
        },
{
    let v = chars_of(s);
    if v.len() == 0 {
        return Err(CompileError::Lex);
    }
    if v[0] == '-' {
        match parse_digits(&v, 1) {
            None => Err(CompileError::Lex),
            Some(m) => {
                if v.len() == 1 || m > 9_223_372_036_854_775_808 {
                    Err(CompileError::Lex)
                } else if m == 0 {
                    Ok(Token::UInt8(0))
                } else if m <= 128 {
                    Ok(Token::Int8((0 - (m as i64)) as i8))
                } else if m <= 32_768 {
                    Ok(Token::Int16((0 - (m as i64)) as i16))
                } else if m <= 2_147_483_648 {
                    Ok(Token::Int32((0 - (m as i64)) as i32))
                } else if m == 9_223_372_036_854_775_808 {
                    Ok(Token::Int64(i64::MIN))
                } else {
                    Ok(Token::Int64(0 - (m as i64)))
                }
            },
        }
    } else {
        assert(v@.skip(0) =~= v@);
        match parse_digits(&v, 0) {
            None => Err(CompileError::Lex),
            Some(m) => {
                if m <= 255 {
                    Ok(Token::UInt8(m as u8))
                } else if m <= 65_535 {
                    Ok(Token::UInt16(m as u16))
                } else if m <= 4_294_967_295 {
                    Ok(Token::UInt32(m as u32))
                } else {
                    Ok(Token::UInt64(m))
                }
            },
        }
    }
}

/// Every number that can be held has a type that holds it, signed exactly
/// where the number is negative, and no narrower type of that signedness
/// holds it.
pub proof fn lemma_classify_narrowest(n: int, t: VarType)
    requires
        integer_in_range(n),
    ensures
        type_holds(classify(n), n),
        is_signed(classify(n)) == (n < 0),
        is_unsigned(classify(n)) == (n >= 0),
        type_holds(t, n) && is_signed(t) == is_signed(classify(n)) && is_unsigned(t)
            == is_unsigned(classify(n)) ==> bit_width(classify(n)) <= bit_width(t),
{
}

/// Whether `t` is one of the four signed integer types.
pub open spec fn is_signed(t: VarType) -> bool {
    t == VarType::I8 || t == VarType::I16 || t == VarType::I32 || t == VarType::I64
}

/// Whether `t` is one of the four unsigned integer types.
pub open spec fn is_unsigned(t: VarType) -> bool {
    t == VarType::U8 || t == VarType::U16 || t == VarType::U32 || t == VarType::U64
}

/// The number of bits of an integer type; 0 for any other type.
pub open spec fn bit_width(t: VarType) -> nat {
    match t {
        VarType::I8 | VarType::U8 => 8,
        VarType::I16 | VarType::U16 => 16,
        VarType::I32 | VarType::U32 => 32,
        VarType::I64 | VarType::U64 => 64,
        _ => 0,
    }
}

/// Whether the integer type `t` can hold `n`.
pub open spec fn type_holds(t: VarType, n: int) -> bool {
    match t {
        VarType::I8 => i8::MIN <= n && n <= i8::MAX,
        VarType::I16 => i16::MIN <= n && n <= i16::MAX,
        VarType::I32 => i32::MIN <= n && n <= i32::MAX,
        VarType::I64 => i64::MIN <= n && n <= i64::MAX,
        VarType::U8 => 0 <= n && n <= u8::MAX,
        VarType::U16 => 0 <= n && n <= u16::MAX,
        VarType::U32 => 0 <= n && n <= u32::MAX,
        VarType::U64 => 0 <= n && n <= u64::MAX,
        _ => false,
    }
}

/// The greatest whole number that a single-precision literal may reach:
/// 3.40282347 times ten to the 38th.
pub open spec fn single_limit() -> nat {
    340_282_347_000_000_000_000_000_000_000_000_000_000
}

/// The length of the minus sign that the text starts with: 1 or 0.
pub open spec fn sign_length(s: Seq<char>) -> int {
    if s.len() > 0 && s[0] == '-' {
        1
    } else {
        0
    }
}

/// The text without its leading minus sign, if it has one.
pub open spec fn unsigned_part(s: Seq<char>) -> Seq<char> {
    if s.len() > 0 && s[0] == '-' {
        s.skip(1)
    } else {
        s
    }
}

/// The place of the first `c` in `s`; the length of `s` where it has none.
pub open spec fn first_index(s: Seq<char>, c: char) -> int
    decreases s.len(),
{
    if s.len() == 0 || s[0] == c {
        0
    } else {
        1 + first_index(s.skip(1), c)
    }
}

/// The place of the first dot of `s`; the length of `s` where it has none.
pub open spec fn dot_index(s: Seq<char>) -> int {
    first_index(s, '.')
}

/// The digits before the dot of a decimal literal.
pub open spec fn whole_digits(s: Seq<char>) -> Seq<char> {
    let body = unsigned_part(s);
    body.subrange(0, dot_index(body))
}

/// The digits after the dot of a decimal literal.
pub open spec fn fraction_digits(s: Seq<char>) -> Seq<char> {
    let body = unsigned_part(s);
    if dot_index(body) < body.len() {
        body.subrange(dot_index(body) + 1, body.len() as int)
    } else {
        Seq::empty()
    }
}

/// Whether `s` writes a decimal number: digits around one dot, at least one
/// digit in all, with one minus sign before them at most.
pub open spec fn decimal_valid(s: Seq<char>) -> bool {
    let body = unsigned_part(s);
    &&& dot_index(body) < body.len()
    &&& all_digits(whole_digits(s))
    &&& all_digits(fraction_digits(s))
    &&& whole_digits(s).len() + fraction_digits(s).len() > 0
}

/// Whether every character of `s` is the digit zero.
pub open spec fn all_zeros(s: Seq<char>) -> bool {
    forall|i: int| 0 <= i < s.len() ==> #[trigger] s[i] == '0'
}

/// Whether the number that the decimal literal `s` writes lies within the
/// single-precision limit, on either side of zero.
pub open spec fn fits_single(s: Seq<char>) -> bool {
    let whole = digits_value(whole_digits(s));
    whole < single_limit() || (whole == single_limit() && all_zeros(fraction_digits(s)))
}

/// The token of the decimal literal `s`: it keeps the text, and is single
/// precision exactly where the number fits.
pub open spec fn decimal_token(s: Seq<char>) -> TokenView {
    if fits_single(s) {
        TokenView::Float32(s)
    } else {
        TokenView::Float64(s)
    }
}

/// The first `c` is where a `c` stands with none before it.
pub proof fn lemma_first_index(s: Seq<char>, c: char, d: int)
    requires
        0 <= d <= s.len(),
        forall|j: int| 0 <= j < d ==> #[trigger] s[j] != c,
        d < s.len() ==> s[d] == c,
    ensures
        first_index(s, c) == d,
    decreases d,
{
    if d > 0 {
        let t = s.skip(1);
        assert forall|j: int| 0 <= j < d - 1 implies #[trigger] t[j] != c by {
            assert(t[j] == s[j + 1]);
        }
        lemma_first_index(t, c, d - 1);
    }
}

/// The place of the dot of the decimal literal that the characters write;
/// `None` where they write no decimal number.
pub fn find_decimal_point(v: &Vec<char>) -> (r: Option<usize>)
    ensures
        match r {
            Some(dot) => decimal_valid(v@) && sign_length(v@) <= dot < v.len() && dot
                == sign_length(v@) + dot_index(unsigned_part(v@)),
            None => !decimal_valid(v@),
        },
{
    let start: usize = if v.len() > 0 && v[0] == '-' {
        1
    } else {
        0
    };
    let ghost body = unsigned_part(v@);
    assert(body =~= v@.skip(start as int));
    let mut i: usize = start;
    while i < v.len() && '0' <= v[i] && v[i] <= '9'
        invariant
            start <= i <= v.len(),
            body == v@.skip(start as int),
            forall|j: int| 0 <= j < i - start ==> is_digit_char(#[trigger] body[j]),
        decreases v.len() - i,
    {
        assert(body[i - start] == v@[i as int]);
        i = i + 1;
    }
    let dot: usize = i;
    if dot >= v.len() {
        proof {
            lemma_first_index(body, '.', body.len() as int);
        }
        return None;
    }
    if v[dot] != '.' {
        proof {
            if dot_index(body) < body.len() {
                let k = dot_index(body);
                lemma_first_index_found(body, '.');
                assert(k > dot - start);
                assert(whole_digits(v@)[dot - start] == body[dot - start]);
                assert(body[dot - start] == v@[dot as int]);
                assert(!is_digit_char(whole_digits(v@)[dot - start]));
            }
        }
        return None;
    }
    proof {
        assert(body[dot - start] == '.');
        lemma_first_index(body, '.', dot - start);
    }
    let ghost fraction = fraction_digits(v@);
    assert(fraction =~= v@.skip(dot + 1));
    i = dot + 1;
    while i < v.len()
        invariant
            dot < i <= v.len(),
            fraction == v@.skip(dot + 1),
            fraction == fraction_digits(v@),
            forall|j: int| 0 <= j < i - dot - 1 ==> is_digit_char(#[trigger] fraction[j]),
        decreases v.len() - i,
    {
        let c = v[i];
        assert(fraction[i - dot - 1] == c);
        if !('0' <= c && c <= '9') {
            assert(!is_digit_char(fraction_digits(v@)[i - dot - 1]));
            return None;
        }
        i = i + 1;
    }
    if dot == start && dot + 1 == v.len() {
        return None;
    }
    assert(whole_digits(v@) =~= body.subrange(0, dot - start));
    Some(dot)
}

/// The token of the decimal literal `s`, or a lex error where `s` writes no
/// decimal number.
pub fn to_float(s: &str) -> (r: Result<Token, CompileError>)
    ensures
        decimal_valid(s@) ==> r.is_ok() && r.unwrap()@ == decimal_token(s@),
        !decimal_valid(s@) ==> r.is_err() && r.unwrap_err() == CompileError::Lex,
{
    let limit: u128 = 340_282_347_000_000_000_000_000_000_000_000_000_000;
    let v = chars_of(s);
    let dot = match find_decimal_point(&v) {
        Some(dot) => dot,
        None => {
            return Err(CompileError::Lex);
        },
    };
    let start: usize = if v[0] == '-' {
        1
    } else {
        0
    };
    let ghost whole = whole_digits(s@);
    let ghost fraction = fraction_digits(s@);
    assert(unsigned_part(s@) =~= v@.skip(start as int));
    assert(whole =~= v@.subrange(start as int, dot as int));
    assert(fraction =~= v@.subrange(dot + 1, v.len() as int));
    let mut i: usize = start;
    let mut acc: u128 = 0;
    let mut big: bool = false;
    while i < dot
        invariant
            start <= i <= dot < v.len(),
            limit == single_limit(),
            whole == v@.subrange(start as int, dot as int),
            all_digits(whole),
            !big ==> acc == digits_value(whole.subrange(0, i - start)) && acc <= limit,
            big ==> digits_value(whole.subrange(0, i - start)) > limit,
        decreases dot - i,
    {
        let c = v[i];
        assert(whole[i - start] == c);
        let d: u128 = (c as u32 - '0' as u32) as u128;
        proof {
            lemma_digits_value_push(whole.subrange(0, i - start), c);
            assert(whole.subrange(0, i - start).push(c) =~= whole.subrange(0, i - start + 1));
        }
        if !big {
            if acc > limit / 10 {
                big = true;
            } else {
                acc = acc * 10 + d;
                if acc > limit {
                    big = true;
                }
            }
        }
        i = i + 1;
    }
    assert(whole.subrange(0, i - start) =~= whole);
    let mut nonzero: bool = false;
    i = dot + 1;
    while i < v.len()
        invariant
            dot < i <= v.len(),
            fraction == v@.subrange(dot + 1, v.len() as int),
            nonzero == (exists|j: int| 0 <= j < i - dot - 1 && #[trigger] fraction[j] != '0'),
        decreases v.len() - i,
    {
        assert(fraction[i - dot - 1] == v@[i as int]);
        if v[i] != '0' {
            nonzero = true;
        }
        i = i + 1;
    }
    if !big && (acc < limit || !nonzero) {
        Ok(Token::Float32(s.to_owned()))
    } else {
        Ok(Token::Float64(s.to_owned()))
    }
}

/// Where a text has a `c`, its first `c` is a `c`, and none stands before it.
pub proof fn lemma_first_index_found(s: Seq<char>, c: char)
    ensures
        0 <= first_index(s, c) <= s.len(),
        first_index(s, c) < s.len() ==> s[first_index(s, c)] == c,
        forall|j: int| 0 <= j < first_index(s, c) ==> #[trigger] s[j] != c,
    decreases s.len(),
{
    if s.len() == 0 || s[0] == c {
    } else {
        let t = s.skip(1);
        lemma_first_index_found(t, c);
        assert forall|j: int| 0 <= j < first_index(s, c) implies #[trigger] s[j] != c by {
            if j > 0 {
                assert(s[j] == t[j - 1]);
            }
        }
    }
}

/// The keyword that `s` spells, if it spells one.
pub open spec fn keyword_of(s: Seq<char>) -> Option<Keyword> {
    if s == "auto"@ {
        Some(Keyword::Auto)
    } else if s == "none"@ {
        Some(Keyword::Void)
    } else if s == "i8"@ {
        Some(Keyword::I8)
    } else if s == "i16"@ {
        Some(Keyword::I16)
    } else if s == "i32"@ {
        Some(Keyword::I32)
    } else if s == "i64"@ {
        Some(Keyword::I64)
    } else if s == "u8"@ {
        Some(Keyword::U8)
    } else if s == "u16"@ {
        Some(Keyword::U16)
    } else if s == "u32"@ {
        Some(Keyword::U32)
    } else if s == "u64"@ {
        Some(Keyword::U64)
    } else if s == "f32"@ {
        Some(Keyword::F32)
    } else if s == "f64"@ {
        Some(Keyword::F64)
    } else if s == "str"@ {
        Some(Keyword::Str)
    } else if s == "if"@ {
        Some(Keyword::If)
    } else if s == "elif"@ {
        Some(Keyword::Elif)
    } else if s == "else"@ {
        Some(Keyword::Else)
    } else if s == "for"@ {
        Some(Keyword::For)
    } else if s == "to"@ {
        Some(Keyword::To)
    } else if s == "while"@ {
        Some(Keyword::While)
    } else if s == "end"@ {
        Some(Keyword::End)
    } else if s == "fn"@ {
        Some(Keyword::Fn)
    } else if s == "return"@ {
        Some(Keyword::Return)
    } else {
        None
    }
}

/// The keyword that `s` spells, if it spells one.
fn find_keyword(s: &str) -> (r: Option<Keyword>)
    ensures
        r == keyword_of(s@),
{
    if same_text(s, "auto") {
        Some(Keyword::Auto)
    } else if same_text(s, "none") {
        Some(Keyword::Void)
    } else if same_text(s, "i8") {
        Some(Keyword::I8)
    } else if same_text(s, "i16") {
        Some(Keyword::I16)
    } else if same_text(s, "i32") {
        Some(Keyword::I32)
    } else if same_text(s, "i64") {
        Some(Keyword::I64)
    } else if same_text(s, "u8") {
        Some(Keyword::U8)
    } else if same_text(s, "u16") {
        Some(Keyword::U16)
    } else if same_text(s, "u32") {
        Some(Keyword::U32)
    } else if same_text(s, "u64") {
        Some(Keyword::U64)
    } else if same_text(s, "f32") {
        Some(Keyword::F32)
    } else if same_text(s, "f64") {
        Some(Keyword::F64)
    } else if same_text(s, "str") {
        Some(Keyword::Str)
    } else if same_text(s, "if") {
        Some(Keyword::If)
    } else if same_text(s, "elif") {
        Some(Keyword::Elif)
    } else if same_text(s, "else") {
        Some(Keyword::Else)
    } else if same_text(s, "for") {
        Some(Keyword::For)
    } else if same_text(s, "to") {
        Some(Keyword::To)
    } else if same_text(s, "while") {
        Some(Keyword::While)
    } else if same_text(s, "end") {
        Some(Keyword::End)
    } else if same_text(s, "fn") {
        Some(Keyword::Fn)
    } else if same_text(s, "return") {
        Some(Keyword::Return)
    } else {
        None
    }
}

/// Whether `c` may stand in an identifier: an ASCII letter, a digit, a
/// minus sign or an underscore.
pub open spec fn is_identifier_char(c: char) -> bool {
    ('a' <= c && c <= 'z') || ('A' <= c && c <= 'Z') || ('0' <= c && c <= '9') || c == '-' || c
        == '_'
}

/// Whether `s` can name something: one character or more, each of which
/// may stand in an identifier.
pub open spec fn is_identifier_text(s: Seq<char>) -> bool {
    s.len() > 0 && forall|i: int| 0 <= i < s.len() ==> is_identifier_char(#[trigger] s[i])
}

/// The token of a lexeme that is no number, string or keyword: an operator
/// or a punctuation mark where `s` spells one, else an identifier where `s`
/// can be one. `None` for any other text.
pub open spec fn symbol_token(s: Seq<char>) -> Option<TokenView> {
    if s == "+"@ {
        Some(TokenView::Plus)
    } else if s == "-"@ {
        Some(TokenView::Minus)
    } else if s == "*"@ {
        Some(TokenView::Mul)
    } else if s == "/"@ {
        Some(TokenView::Div)
    } else if s == "%"@ {
        Some(TokenView::Mod)
    } else if s == "//"@ {
        Some(TokenView::FloorDiv)
    } else if s == "**"@ {
        Some(TokenView::Exp)
    } else if s == "("@ {
        Some(TokenView::LPar)
    } else if s == ")"@ {
        Some(TokenView::RPar)
    } else if s == "="@ {
        Some(TokenView::Eq)
    } else if s == "=="@ {
        Some(TokenView::EqEq)
    } else if s == "!="@ {
        Some(TokenView::NotEq)
    } else if s == "<"@ {
        Some(TokenView::Lt)
    } else if s == ">"@ {
        Some(TokenView::Gt)
    } else if s == "<="@ {
        Some(TokenView::LtEq)
    } else if s == ">="@ {
        Some(TokenView::GtEq)
    } else if s == "+="@ {
        Some(TokenView::PlusEq)
    } else if s == "-="@ {
        Some(TokenView::MinusEq)
    } else if s == "*="@ {
        Some(TokenView::MulEq)
    } else if s == "/="@ {
        Some(TokenView::DivEq)
    } else if s == "%="@ {
        Some(TokenView::ModEq)
    } else if s == ":"@ {
        Some(TokenView::Colon)
    } else if s == "->"@ {
        Some(TokenView::Return)
    } else if s == "&&"@ {
        Some(TokenView::And)
    } else if s == "||"@ {
        Some(TokenView::Or)
    } else if s == "!"@ {
        Some(TokenView::Not)
    } else if s == "and"@ {
        Some(TokenView::And)
    } else if s == "or"@ {
        Some(TokenView::Or)
    } else if s == "not"@ {
        Some(TokenView::Not)
    } else if is_identifier_text(s) {
        Some(TokenView::Identifier(s))
    } else {
        None
    }
}

/// Whether `s` can name something.
fn is_identifier(s: &str) -> (r: bool)
    ensures
        r == is_identifier_text(s@),
{
    let v = chars_of(s);
    if v.len() == 0 {
        return false;
    }
    let mut i: usize = 0;
    while i < v.len()
        invariant
            i <= v.len(),
            v@ == s@,
            forall|j: int| 0 <= j < i ==> is_identifier_char(#[trigger] v@[j]),
        decreases v.len() - i,
    {
        let c = v[i];
        if !(('a' <= c && c <= 'z') || ('A' <= c && c <= 'Z') || ('0' <= c && c <= '9') || c == '-'
            || c == '_') {
            return false;
        }
        i = i + 1;
    }
    true
}

/// The operator, punctuation mark or identifier that `s` spells, if it
/// spells one.
fn find_symbol(s: &str) -> (r: Option<Token>)
    ensures
        match symbol_token(s@) {
            Some(t) => r.is_some() && r.unwrap()@ == t,
            None => r.is_none(),
        },
{
    if same_text(s, "+") {
        Some(Token::Plus)
    } else if same_text(s, "-") {
        Some(Token::Minus)
    } else if same_text(s, "*") {
        Some(Token::Mul)
    } else if same_text(s, "/") {
        Some(Token::Div)
    } else if same_text(s, "%") {
        Some(Token::Mod)
    } else if same_text(s, "//") {
        Some(Token::FloorDiv)
    } else if same_text(s, "**") {
        Some(Token::Exp)
    } else if same_text(s, "(") {
        Some(Token::LPar)
    } else if same_text(s, ")") {
        Some(Token::RPar)
    } else if same_text(s, "=") {
        Some(Token::Eq)
    } else if same_text(s, "==") {
        Some(Token::EqEq)
    } else if same_text(s, "!=") {
        Some(Token::NotEq)
    } else if same_text(s, "<") {
        Some(Token::Lt)
    } else if same_text(s, ">") {
        Some(Token::Gt)
    } else if same_text(s, "<=") {
        Some(Token::LtEq)
    } else if same_text(s, ">=") {
        Some(Token::GtEq)
    } else if same_text(s, "+=") {
        Some(Token::PlusEq)
    } else if same_text(s, "-=") {
        Some(Token::MinusEq)
    } else if same_text(s, "*=") {
        Some(Token::MulEq)
    } else if same_text(s, "/=") {
        Some(Token::DivEq)
    } else if same_text(s, "%=") {
        Some(Token::ModEq)
    } else if same_text(s, ":") {
        Some(Token::Colon)
    } else if same_text(s, "->") {
        Some(Token::Return)
    } else if same_text(s, "&&") {
        Some(Token::And)
    } else if same_text(s, "||") {
        Some(Token::Or)
    } else if same_text(s, "!") {
        Some(Token::Not)
    } else if same_text(s, "and") {
        Some(Token::And)
    } else if same_text(s, "or") {
        Some(Token::Or)
    } else if same_text(s, "not") {
        Some(Token::Not)
    } else if is_identifier(s) {
        Some(Token::Identifier(s.to_owned()))
    } else {
        None
    }
}

/// The token of one lexeme. A lexeme that looks like a number must write
/// one; a lexeme between two double quotes is a string, quotes included;
/// any other lexeme must spell a keyword, an operator, a punctuation mark
/// or an identifier.
pub open spec fn lexeme_token(s: Seq<char>) -> Result<TokenView, CompileError> {
    if looks_integer(s) {
        match integer_value(s) {
            Some(n) if integer_in_range(n) => Ok(integer_token(n)),
            _ => Err(CompileError::Lex),
        }
    } else if looks_decimal(s) {
        if decimal_valid(s) {
            Ok(decimal_token(s))
        } else {
            Err(CompileError::Lex)
        }
    } else if s.len() >= 2 && s.first() == '"' && s.last() == '"' {
        Ok(TokenView::String(s))
    } else {
        match keyword_of(s) {
            Some(k) => Ok(TokenView::Keyword(k)),
            None => match symbol_token(s) {
                Some(t) => Ok(t),
                None => Err(CompileError::Lex),
            },
        }
    }
}

/// The token of one lexeme, or a lex error where the lexeme looks like a
/// number and writes none, or spells nothing that the language knows.
pub fn token_from_lexeme(s: &str) -> (r: Result<Token, CompileError>)
    ensures
        match lexeme_token(s@) {
            Ok(t) => r.is_ok() && r.unwrap()@ == t,
            Err(e) => r.is_err() && r.unwrap_err() == e,
        },
{
    if is_digit(s) {
        return to_digit(s);
    }
    if is_float(s) {
        return to_float(s);
    }
    let v = chars_of(s);
    if v.len() >= 2 && v[0] == '"' && v[v.len() - 1] == '"' {
        return Ok(Token::String(s.to_owned()));
    }
    match find_keyword(s) {
        Some(k) => Ok(Token::Keyword(k)),
        None => match find_symbol(s) {
            Some(t) => Ok(t),
            None => Err(CompileError::Lex),
        },
    }
}

/// A run of tokens before what follows it, where what follows did not fail.
pub open spec fn tokens_then(
    head: Seq<TokenView>,
    rest: Result<Seq<TokenView>, CompileError>,
) -> Result<Seq<TokenView>, CompileError> {
    match rest {
        Ok(tokens) => Ok(head + tokens),
        Err(e) => Err(e),
    }
}

/// The tokens of the lexemes of one line, in order. An empty lexeme gives
/// nothing; a lexeme that starts with `#` ends the line; the first lexeme
/// that is no token fails the line.
pub open spec fn line_tokens(lexemes: Seq<Seq<char>>) -> Result<Seq<TokenView>, CompileError>
    decreases lexemes.len(),
{
    if lexemes.len() == 0 {
        Ok(Seq::empty())
    } else if lexemes[0].len() == 0 {
        line_tokens(lexemes.skip(1))
    } else if lexemes[0][0] == '#' {
        Ok(Seq::empty())
    } else {
        match lexeme_token(lexemes[0]) {
            Ok(t) => tokens_then(seq![t], line_tokens(lexemes.skip(1))),
            Err(e) => Err(e),
        }
    }
}

/// The tokens of the lexemes of one line, or the error of the first lexeme
/// that is no token.
pub fn tokens_from_lexemes(lexemes: &Vec<String>) -> (r: Result<Vec<Token>, CompileError>)
    ensures
        match line_tokens(lexemes.deep_view()) {
            Ok(tokens) => r.is_ok() && token_views(r.unwrap()@) == tokens,
            Err(e) => r.is_err() && r.unwrap_err() == e,
        },
{
    let ghost all = lexemes.deep_view();
    let mut result: Vec<Token> = Vec::new();
    let mut i: usize = 0;
    assert(all.skip(0) =~= all);
    assert(token_views(result@) =~= Seq::<TokenView>::empty());
    assert(tokens_then(Seq::empty(), line_tokens(all)) == line_tokens(all)) by {
        match line_tokens(all) {
            Ok(tokens) => {
                assert(Seq::<TokenView>::empty() + tokens =~= tokens);
            },
            Err(_) => {},
        }
    }
    while i < lexemes.len()
        invariant
            i <= lexemes.len(),
            all == lexemes.deep_view(),
            line_tokens(all) == tokens_then(token_views(result@), line_tokens(all.skip(i as int))),
        decreases lexemes.len() - i,
    {
        let lexeme: &str = lexemes[i].as_str();
        let ghost rest = all.skip(i as int);
        assert(rest[0] == lexeme@);
        assert(rest.skip(1) =~= all.skip(i + 1));
        let v = chars_of(lexeme);
        if v.len() == 0 {
            i = i + 1;
            continue ;
        }
        if v[0] == '#' {
            assert(token_views(result@) + Seq::<TokenView>::empty() =~= token_views(result@));
            return Ok(result);
        }
        match token_from_lexeme(lexeme) {
            Err(e) => {
                return Err(e);
            },
            Ok(t) => {
                let ghost before = token_views(result@);
                result.push(t);
                proof {
                    assert(token_views(result@) =~= before + seq![t@]);
                    match line_tokens(all.skip(i + 1)) {
                        Ok(tokens) => {
                            assert(before + (seq![t@] + tokens) =~= (before + seq![t@]) + tokens);
                        },
                        Err(_) => {},
                    }
                }
            },
        }
        i = i + 1;
    }
    assert(token_views(result@) + Seq::<TokenView>::empty() =~= token_views(result@));
    Ok(result)
}

/// The lines of a text: the pieces between its line feeds, one more than
/// it has line feeds.
pub open spec fn split_lines(s: Seq<char>) -> Seq<Seq<char>>
    decreases s.len(),
{
    let k = first_index(s, '\n');
    if 0 <= k < s.len() {
        seq![s.subrange(0, k)] + split_lines(s.skip(k + 1))
    } else {
        seq![s]
    }
}

/// The lines of `src`, in order.
pub fn lines_of(src: &str) -> (r: Vec<String>)
    ensures
        r.deep_view() == split_lines(src@),
{
    let v = chars_of(src);
    let mut result: Vec<String> = Vec::new();
    let mut pos: usize = 0;
    assert(v@.skip(0) =~= v@);
    assert(result.deep_view() =~= Seq::<Seq<char>>::empty());
    assert(Seq::<Seq<char>>::empty() + split_lines(v@) =~= split_lines(v@));
    loop
        invariant_except_break
            split_lines(v@) == result.deep_view() + split_lines(v@.skip(pos as int)),
        invariant
            pos <= v.len(),
            v@ == src@,
        ensures
            result.deep_view() == split_lines(v@),
        decreases v.len() - pos,
    {
        let ghost rest = v@.skip(pos as int);
        let mut line: String = String::new();
        let mut j: usize = pos;
        while j < v.len() && v[j] != '\n'
            invariant
                pos <= j <= v.len(),
                rest == v@.skip(pos as int),
                line@ == rest.subrange(0, j - pos),
                forall|k: int| 0 <= k < j - pos ==> #[trigger] rest[k] != '\n',
            decreases v.len() - j,
        {
            push_char(&mut line, v[j]);
            assert(rest[j - pos] == v@[j as int]);
            j = j + 1;
            assert(line@ =~= rest.subrange(0, j - pos));
        }
        proof {
            if j < v.len() {
                assert(rest[j - pos] == '\n');
            }
            lemma_first_index(rest, '\n', j - pos);
        }
        let ghost before = result.deep_view();
        result.push(line);
        assert(result.deep_view() =~= before + seq![line@]);
        if j >= v.len() {
            assert(rest.subrange(0, j - pos) =~= rest);
            break ;
        }
        proof {
            assert(rest.skip(j - pos + 1) =~= v@.skip(j + 1));
            assert(before + (seq![line@] + split_lines(v@.skip(j + 1))) =~= (before + seq![line@])
                + split_lines(v@.skip(j + 1)));
        }
        pos = j + 1;
    }
    result
}

/// The pattern that cuts a line into lexemes: a comment to the end of the
/// line, a quoted string, the two-character operators, the one-character
/// operators, numbers with a minus sign or none, words, the punctuation
/// marks, and last any single character that is neither a blank nor a
/// comma, tried in this order. Blanks and commas between lexemes belong to
/// no lexeme.
pub const LEXEME_PATTERN: &'static str =
    "(#.*)|(\".+\")|(\\*\\*)|(//)|(->)|(&&)|(\\|\\|)|([=!<>\\+\\-\\*/%]=)|([!&\\*])|(-?\\d+(\\.\\d*)*)|([a-zA-Z0-9\\-_]+)|[\\(\\):=\\+\\-\\*/<>%]|[^\\s,]";

/// The characters of the pattern that cuts a line into lexemes.
pub open spec fn lexeme_pattern() -> Seq<char> {
    LEXEME_PATTERN@
}

/// What the regular expression `pattern` finds in `text`: the matches that
/// do not overlap, from left to right; `None` where `pattern` is no regular
/// expression.
pub uninterp spec fn regex_matches(pattern: Seq<char>, text: Seq<char>) -> Option<Seq<Seq<char>>>;

/// Compiles `pattern` with `regex::Regex::new` and walks `text` with
/// `Regex::find_iter`, which yields the successive non-overlapping matches.
/// The contract names what comes back and claims nothing more of it: the text
/// of each match in order, or `None` where the pattern was refused.
#[verifier::external_body]
fn find_matches(pattern: &str, text: &str) -> (r: Option<Vec<String>>)
    ensures
        match r {
            Some(found) => regex_matches(pattern@, text@) == Some(found.deep_view()),
            None => regex_matches(pattern@, text@).is_none(),
        },
{
    match regex::Regex::new(pattern) {
        Ok(re) => Some(re.find_iter(text).map(|m| m.as_str().to_string()).collect()),
        Err(_) => None,
    }
}

/// The tokens of one line: those of the lexemes that the pattern cuts it
/// into.
pub open spec fn one_line_tokens(line: Seq<char>) -> Result<Seq<TokenView>, CompileError> {
    match regex_matches(lexeme_pattern(), line) {
        None => Err(CompileError::Lex),
        Some(lexemes) => line_tokens(lexemes),
    }
}

/// The tokens of a run of lines: those of each line, then an end-of-line
/// token, line after line.
pub open spec fn lines_tokens(lines: Seq<Seq<char>>) -> Result<Seq<TokenView>, CompileError>
    decreases lines.len(),
{
    if lines.len() == 0 {
        Ok(Seq::empty())
    } else {
        match one_line_tokens(lines[0]) {
            Err(e) => Err(e),
            Ok(tokens) => tokens_then(tokens.push(TokenView::NewLine), lines_tokens(lines.skip(1))),
        }
    }
}

/// The first line that cannot be tokenized; the number of lines where
/// every line can.
pub open spec fn first_bad_line(lines: Seq<Seq<char>>) -> int
    decreases lines.len(),
{
    if lines.len() == 0 || one_line_tokens(lines[0]).is_err() {
        0
    } else {
        1 + first_bad_line(lines.skip(1))
    }
}

/// The tokens of a source text.
pub open spec fn source_tokens(src: Seq<char>) -> Result<Seq<TokenView>, CompileError> {
    lines_tokens(split_lines(src))
}

/// Tokenizes a source text line by line. Every line, an empty one too, ends
/// in an end-of-line token. The first lexeme that is no token fails the whole
/// text with a lex error and the place of its line.
pub fn lexer(src_code: &str) -> (r: Result<Vec<Token>, Failure>)
    ensures
        match source_tokens(src_code@) {
            Ok(tokens) => r.is_ok() && token_views(r.unwrap()@) == tokens,
            Err(e) => r.is_err() && r.unwrap_err().error == e && r.unwrap_err().place
                == Place::Line(first_bad_line(split_lines(src_code@)) as usize),
        },
{
    let lines = lines_of(src_code);
    let ghost all = lines.deep_view();
    let mut result: Vec<Token> = Vec::new();
    let mut i: usize = 0;
    assert(all.skip(0) =~= all);
    assert(token_views(result@) =~= Seq::<TokenView>::empty());
    assert(tokens_then(Seq::empty(), lines_tokens(all)) == lines_tokens(all)) by {
        match lines_tokens(all) {
            Ok(tokens) => {
                assert(Seq::<TokenView>::empty() + tokens =~= tokens);
            },
            Err(_) => {},
        }
    }
    while i < lines.len()
        invariant
            i <= lines.len(),
            all == lines.deep_view(),
            all == split_lines(src_code@),
            lines_tokens(all) == tokens_then(token_views(result@), lines_tokens(all.skip(i as int))),
            first_bad_line(all) == i + first_bad_line(all.skip(i as int)),
        decreases lines.len() - i,
    {
        let ghost rest = all.skip(i as int);
        assert(rest[0] == lines@[i as int]@);
        assert(rest.skip(1) =~= all.skip(i + 1));
        let found = find_matches(LEXEME_PATTERN, lines[i].as_str());
        let lexemes = match found {
            Some(lexemes) => lexemes,
            None => {
                return Err(Failure { error: CompileError::Lex, place: Place::Line(i) });
            },
        };
        match tokens_from_lexemes(&lexemes) {
            Err(e) => {
                return Err(Failure { error: e, place: Place::Line(i) });
            },
            Ok(mut tokens) => {
                let ghost before = token_views(result@);
                let ghost line = token_views(tokens@);
                result.append(&mut tokens);
                result.push(Token::NewLine);
                proof {
                    assert(token_views(result@) =~= before + line.push(TokenView::NewLine));
                    match lines_tokens(all.skip(i + 1)) {
                        Ok(more) => {
                            assert(before + (line.push(TokenView::NewLine) + more) =~= (before
                                + line.push(TokenView::NewLine)) + more);
                        },
                        Err(_) => {},
                    }
                }
            },
        }
        i = i + 1;
    }
    assert(token_views(result@) + Seq::<TokenView>::empty() =~= token_views(result@));
    Ok(result)
}

impl Token {
    /// The name of an identifier token; `None` for any other token.
    pub fn identifier(&self) -> (r: Option<String>)
        ensures
            match self@ {
                TokenView::Identifier(name) => r.is_some() && r.unwrap()@ == name,
                _ => r.is_none(),
            },
    {
        match self {
            Token::Identifier(name) => Some(name.clone()),
            _ => None,
        }
    }

    /// The keyword of a keyword token; `None` for any other token.
    pub fn keyword(&self) -> (r: Option<Keyword>)
        ensures
            match self@ {
                TokenView::Keyword(k) => r == Some(k),
                _ => r.is_none(),
            },
    {
        match self {
            Token::Keyword(k) => Some(*k),
            _ => None,
        }
    }
}

/// The number of end-of-line tokens among the tokens.
pub open spec fn new_line_count(tokens: Seq<TokenView>) -> nat
    decreases tokens.len(),
{
    if tokens.len() == 0 {
        0
    } else if tokens.last() == TokenView::NewLine {
        new_line_count(tokens.drop_last()) + 1
    } else {
        new_line_count(tokens.drop_last())
    }
}

/// End-of-line tokens are counted piece by piece.
pub proof fn lemma_new_line_count_concat(a: Seq<TokenView>, b: Seq<TokenView>)
    ensures
        new_line_count(a + b) == new_line_count(a) + new_line_count(b),
    decreases b.len(),
{
    if b.len() == 0 {
        assert(a + b =~= a);
    } else {
        assert((a + b).drop_last() =~= a + b.drop_last());
        lemma_new_line_count_concat(a, b.drop_last());
    }
}

/// The lexemes of a line give no end-of-line token.
pub proof fn lemma_line_tokens_hold_no_new_line(lexemes: Seq<Seq<char>>)
    ensures
        match line_tokens(lexemes) {
            Ok(tokens) => new_line_count(tokens) == 0,
            Err(_) => true,
        },
    decreases lexemes.len(),
{
    if lexemes.len() == 0 {
    } else if lexemes[0].len() == 0 {
        lemma_line_tokens_hold_no_new_line(lexemes.skip(1));
    } else if lexemes[0][0] == '#' {
    } else {
        lemma_line_tokens_hold_no_new_line(lexemes.skip(1));
        match (lexeme_token(lexemes[0]), line_tokens(lexemes.skip(1))) {
            (Ok(t), Ok(rest)) => {
                assert(t != TokenView::NewLine);
                assert(seq![t].drop_last() =~= Seq::<TokenView>::empty());
                assert(new_line_count(Seq::<TokenView>::empty()) == 0);
                assert(seq![t].last() == t);
                assert(new_line_count(seq![t]) == 0);
                lemma_new_line_count_concat(seq![t], rest);
            },
            _ => {},
        }
    }
}

/// Every line of a text, an empty one too, gives exactly one end-of-line
/// token: the tokens of a run of lines hold as many of them as there are
/// lines.
pub proof fn lemma_one_new_line_for_each_line(lines: Seq<Seq<char>>)
    ensures
        match lines_tokens(lines) {
            Ok(tokens) => new_line_count(tokens) == lines.len(),
            Err(_) => true,
        },
    decreases lines.len(),
{
    if lines.len() > 0 {
        lemma_one_new_line_for_each_line(lines.skip(1));
        match regex_matches(lexeme_pattern(), lines[0]) {
            None => {},
            Some(lexemes) => {
                lemma_line_tokens_hold_no_new_line(lexemes);
                match (line_tokens(lexemes), lines_tokens(lines.skip(1))) {
                    (Ok(tokens), Ok(rest)) => {
                        let line = tokens.push(TokenView::NewLine);
                        assert(line.drop_last() =~= tokens);
                        lemma_new_line_count_concat(line, rest);
                    },
                    _ => {},
                }
            },
        }
    }
}

} // verus!
