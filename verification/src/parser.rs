//! Types of values and operators, the table of bound names, and the cutting
//! of a token sequence into statements.

use crate::error::{CompileError, Failure, Place};
use crate::lexer::{copy_token, token_views, Keyword, Token, TokenView};
use crate::nodes::{Ast, Node};
use crate::nodes::binary_expression::node_asts;
use crate::syntax::{build, build_statements, statement_count, statements_after};
use vstd::prelude::*;
use vstd::std_specs::convert::FromSpecImpl;

verus! {

/// The type of a value or of a name.
#[derive(Debug, PartialEq, Clone, Copy, Hash, Eq, Structural)]
pub enum VarType {
    I8,
    I16,
    I32,
    I64,
    U8,
    U16,
    U32,
    U64,
    F32,
    F64,
    Str,
    /// The type that is still to be inferred from a value.
    Auto,
    /// The type of nothing.
    Void,
}

/// The type that a type keyword names; `Void` for every other keyword.
pub open spec fn keyword_type(keyword: Keyword) -> VarType {
    match keyword {
        Keyword::I8 => VarType::I8,
        Keyword::I16 => VarType::I16,
        Keyword::I32 => VarType::I32,
        Keyword::I64 => VarType::I64,
        Keyword::U8 => VarType::U8,
        Keyword::U16 => VarType::U16,
        Keyword::U32 => VarType::U32,
        Keyword::U64 => VarType::U64,
        Keyword::F32 => VarType::F32,
        Keyword::F64 => VarType::F64,
        Keyword::Str => VarType::Str,
        Keyword::Auto => VarType::Auto,
        _ => VarType::Void,
    }
}

impl From<Keyword> for VarType {
    fn from(keyword: Keyword) -> (r: VarType)
        ensures
            r == keyword_type(keyword),
    {
        match keyword {
            Keyword::I8 => VarType::I8,
            Keyword::I16 => VarType::I16,
            Keyword::I32 => VarType::I32,
            Keyword::I64 => VarType::I64,
            Keyword::U8 => VarType::U8,
            Keyword::U16 => VarType::U16,
            Keyword::U32 => VarType::U32,
            Keyword::U64 => VarType::U64,
            Keyword::F32 => VarType::F32,
            Keyword::F64 => VarType::F64,
            Keyword::Str => VarType::Str,
            Keyword::Auto => VarType::Auto,
            _ => VarType::Void,
        }
    }
}

impl FromSpecImpl<Keyword> for VarType {
    open spec fn obeys_from_spec() -> bool {
        true
    }

    open spec fn from_spec(keyword: Keyword) -> VarType {
        keyword_type(keyword)
    }
}

impl VarType {
    /// The place of a type in the promotion order: the greater wins.
    pub open spec fn rank(self) -> nat {
        match self {
            VarType::Auto => 0,
            VarType::Str => 1,
            VarType::Void => 2,
            VarType::I8 => 3,
            VarType::U8 => 4,
            VarType::I16 => 5,
            VarType::U16 => 6,
            VarType::I32 => 7,
            VarType::U32 => 8,
            VarType::F32 => 9,
            VarType::I64 => 10,
            VarType::U64 => 11,
            VarType::F64 => 12,
        }
    }

    /// The C keyword of a type, with the blank that follows it; `Auto` has none.
    pub open spec fn c_keyword(self) -> Option<Seq<char>> {
        match self {
            VarType::I8 => Some("char "@),
            VarType::I16 => Some("int "@),
            VarType::I32 => Some("long "@),
            VarType::I64 => Some("long long "@),
            VarType::U8 => Some("unsigned char "@),
            VarType::U16 => Some("unsigned int "@),
            VarType::U32 => Some("unsigned long "@),
            VarType::U64 => Some("unsigned long long "@),
            VarType::F32 => Some("float "@),
            VarType::F64 => Some("double "@),
            VarType::Str => Some("str "@),
            VarType::Void => Some("void "@),
            VarType::Auto => None,
        }
    }

    /// The `printf` conversion of a type; `Auto` and `Void` have none.
    pub open spec fn c_format(self) -> Option<Seq<char>> {
        match self {
            VarType::I8 => Some("%hd"@),
            VarType::I16 => Some("%d"@),
            VarType::I32 => Some("%ld"@),
            VarType::I64 => Some("%lld"@),
            VarType::U8 => Some("%hu"@),
            VarType::U16 => Some("%u"@),
            VarType::U32 => Some("%lu"@),
            VarType::U64 => Some("%llu"@),
            VarType::F32 => Some("%f"@),
            VarType::F64 => Some("%lf"@),
            VarType::Str => Some("%s"@),
            _ => None,
        }
    }

    /// The C text of a type's zero value; `Auto` and `Void` have none.
    pub open spec fn c_zero(self) -> Option<Seq<char>> {
        match self {
            VarType::I8 => Some("0"@),
            VarType::I16 => Some("0"@),
            VarType::I32 => Some("0"@),
            VarType::I64 => Some("0"@),
            VarType::U8 => Some("0"@),
            VarType::U16 => Some("0"@),
            VarType::U32 => Some("0"@),
            VarType::U64 => Some("0"@),
            VarType::F32 => Some("0.0f"@),
            VarType::F64 => Some("0.0"@),
            VarType::Str => Some("\"\""@),
            _ => None,
        }
    }

    /// The type of nothing.
    pub fn new() -> (r: Self)
        ensures
            r == VarType::Void,
    {
        VarType::Void
    }

    /// The C keyword of the type, or a render error for `Auto`.
    pub fn to_c(&self) -> (r: Result<String, CompileError>)
        ensures
            match self.c_keyword() {
                Some(text) => r.is_ok() && r.unwrap()@ == text,
                None => r == Err::<String, CompileError>(CompileError::Render),
            },
    {
        match *self {
            VarType::I8 => Ok("char ".to_owned()),
            VarType::I16 => Ok("int ".to_owned()),
            VarType::I32 => Ok("long ".to_owned()),
            VarType::I64 => Ok("long long ".to_owned()),
            VarType::U8 => Ok("unsigned char ".to_owned()),
            VarType::U16 => Ok("unsigned int ".to_owned()),
            VarType::U32 => Ok("unsigned long ".to_owned()),
            VarType::U64 => Ok("unsigned long long ".to_owned()),
            VarType::F32 => Ok("float ".to_owned()),
            VarType::F64 => Ok("double ".to_owned()),
            VarType::Str => Ok("str ".to_owned()),
            VarType::Void => Ok("void ".to_owned()),
            VarType::Auto => Err(CompileError::Render),
        }
    }

    /// The `printf` conversion of the type, or a render error where it has none.
    pub fn to_c_printf(&self) -> (r: Result<String, CompileError>)
        ensures
            match self.c_format() {
                Some(text) => r.is_ok() && r.unwrap()@ == text,
                None => r == Err::<String, CompileError>(CompileError::Render),
            },
    {
        match *self {
            VarType::I8 => Ok("%hd".to_owned()),
            VarType::I16 => Ok("%d".to_owned()),
            VarType::I32 => Ok("%ld".to_owned()),
            VarType::I64 => Ok("%lld".to_owned()),
            VarType::U8 => Ok("%hu".to_owned()),
            VarType::U16 => Ok("%u".to_owned()),
            VarType::U32 => Ok("%lu".to_owned()),
            VarType::U64 => Ok("%llu".to_owned()),
            VarType::F32 => Ok("%f".to_owned()),
            VarType::F64 => Ok("%lf".to_owned()),
            VarType::Str => Ok("%s".to_owned()),
            _ => Err(CompileError::Render),
        }
    }

    /// The C text of the type's zero value, or a render error where it has none.
    pub fn to_c_default_value(&self) -> (r: Result<String, CompileError>)
        ensures
            match self.c_zero() {
                Some(text) => r.is_ok() && r.unwrap()@ == text,
                None => r == Err::<String, CompileError>(CompileError::Render),
            },
    {
        match *self {
            VarType::I8 => Ok("0".to_owned()),
            VarType::I16 => Ok("0".to_owned()),
            VarType::I32 => Ok("0".to_owned()),
            VarType::I64 => Ok("0".to_owned()),
            VarType::U8 => Ok("0".to_owned()),
            VarType::U16 => Ok("0".to_owned()),
            VarType::U32 => Ok("0".to_owned()),
            VarType::U64 => Ok("0".to_owned()),
            VarType::F32 => Ok("0.0f".to_owned()),
            VarType::F64 => Ok("0.0".to_owned()),
            VarType::Str => Ok("\"\"".to_owned()),
            _ => Err(CompileError::Render),
        }
    }
}

/// The greater of two types in the promotion order.
pub open spec fn promote(a: VarType, b: VarType) -> VarType {
    if a.rank() > b.rank() {
        a
    } else {
        b
    }
}

/// The rank of a type as a machine number.
fn rank_of(t: VarType) -> (r: u8)
    ensures
        r == t.rank(),
{
    match t {
        VarType::Auto => 0,
        VarType::Str => 1,
        VarType::Void => 2,
        VarType::I8 => 3,
        VarType::U8 => 4,
        VarType::I16 => 5,
        VarType::U16 => 6,
        VarType::I32 => 7,
        VarType::U32 => 8,
        VarType::F32 => 9,
        VarType::I64 => 10,
        VarType::U64 => 11,
        VarType::F64 => 12,
    }
}

/// The greater of two types in the promotion order.
pub fn greater_var_type(type1: &VarType, type2: &VarType) -> (r: VarType)
    ensures
        r == promote(*type1, *type2),
{
    if rank_of(*type1) > rank_of(*type2) {
        *type1
    } else {
        *type2
    }
}

/// No two types share a rank.
pub proof fn lemma_rank_injective(a: VarType, b: VarType)
    ensures
        a.rank() == b.rank() ==> a == b,
{
}

/// Promoting a type with itself gives that type.
pub proof fn lemma_promote_idempotent(t: VarType)
    ensures
        promote(t, t) == t,
{
}

/// The order of the two types does not matter to their promotion.
pub proof fn lemma_promote_commutative(a: VarType, b: VarType)
    ensures
        promote(a, b) == promote(b, a),
{
}

/// Promotion gives one of its arguments, and one that neither outranks.
pub proof fn lemma_promote_is_upper_bound(a: VarType, b: VarType)
    ensures
        promote(a, b) == a || promote(a, b) == b,
        promote(a, b).rank() >= a.rank(),
        promote(a, b).rank() >= b.rank(),
{
}

/// A binary or unary operator.
#[derive(Debug, Clone, Copy, PartialEq, Eq, Structural)]
pub enum OperatorType {
    Plus,
    Minus,
    Mul,
    Div,
    Mod,
    FloorDiv,
    Exp,
    Eq,
    EqEq,
    NEq,
    Lt,
    Gt,
    LtEq,
    GtEq,
    PlusEq,
    MinusEq,
    MulEq,
    DivEq,
    ModEq,
    And,
    Or,
    Not,
    /// No operator: what a token that is no operator stands for.
    Absent,
}

/// The operator that a token stands for; `Absent` for a token that is none.
pub open spec fn token_operator(token: TokenView) -> OperatorType {
    match token {
        TokenView::Plus => OperatorType::Plus,
        TokenView::Minus => OperatorType::Minus,
        TokenView::Mul => OperatorType::Mul,
        TokenView::Div => OperatorType::Div,
        TokenView::Mod => OperatorType::Mod,
        TokenView::FloorDiv => OperatorType::FloorDiv,
        TokenView::Exp => OperatorType::Exp,
        TokenView::Eq => OperatorType::Eq,
        TokenView::EqEq => OperatorType::EqEq,
        TokenView::NotEq => OperatorType::NEq,
        TokenView::Lt => OperatorType::Lt,
        TokenView::Gt => OperatorType::Gt,
        TokenView::LtEq => OperatorType::LtEq,
        TokenView::GtEq => OperatorType::GtEq,
        TokenView::PlusEq => OperatorType::PlusEq,
        TokenView::MinusEq => OperatorType::MinusEq,
        TokenView::MulEq => OperatorType::MulEq,
        TokenView::DivEq => OperatorType::DivEq,
        TokenView::ModEq => OperatorType::ModEq,
        TokenView::And => OperatorType::And,
        TokenView::Or => OperatorType::Or,
        TokenView::Not => OperatorType::Not,
        _ => OperatorType::Absent,
    }
}

impl<'a> From<&'a Token> for OperatorType {
    fn from(token: &'a Token) -> (r: OperatorType)
        ensures
            r == token_operator(token@),
    {
        match token {
            Token::Plus => OperatorType::Plus,
            Token::Minus => OperatorType::Minus,
            Token::Mul => OperatorType::Mul,
            Token::Div => OperatorType::Div,
            Token::Mod => OperatorType::Mod,
            Token::FloorDiv => OperatorType::FloorDiv,
            Token::Exp => OperatorType::Exp,
            Token::Eq => OperatorType::Eq,
            Token::EqEq => OperatorType::EqEq,
            Token::NotEq => OperatorType::NEq,
            Token::Lt => OperatorType::Lt,
            Token::Gt => OperatorType::Gt,
            Token::LtEq => OperatorType::LtEq,
            Token::GtEq => OperatorType::GtEq,
            Token::PlusEq => OperatorType::PlusEq,
            Token::MinusEq => OperatorType::MinusEq,
            Token::MulEq => OperatorType::MulEq,
            Token::DivEq => OperatorType::DivEq,
            Token::ModEq => OperatorType::ModEq,
            Token::And => OperatorType::And,
            Token::Or => OperatorType::Or,
            Token::Not => OperatorType::Not,
            _ => OperatorType::Absent,
        }
    }
}

impl<'a> FromSpecImpl<&'a Token> for OperatorType {
    open spec fn obeys_from_spec() -> bool {
        true
    }

    open spec fn from_spec(token: &'a Token) -> OperatorType {
        token_operator(token@)
    }
}

impl OperatorType {
    /// The C text of an operator. A binary operator is followed by a blank.
    /// Floor division and exponentiation have no C operator and give no text.
    pub open spec fn c_text(self) -> Seq<char> {
        match self {
            OperatorType::Plus => "+ "@,
            OperatorType::Minus => "- "@,
            OperatorType::Mul => "* "@,
            OperatorType::Div => "/ "@,
            OperatorType::Mod => "% "@,
            OperatorType::Eq => "= "@,
            OperatorType::EqEq => "== "@,
            OperatorType::NEq => "!= "@,
            OperatorType::Lt => "< "@,
            OperatorType::Gt => "> "@,
            OperatorType::LtEq => "<= "@,
            OperatorType::GtEq => ">= "@,
            OperatorType::PlusEq => "+= "@,
            OperatorType::MinusEq => "-= "@,
            OperatorType::MulEq => "*= "@,
            OperatorType::DivEq => "/= "@,
            OperatorType::ModEq => "%= "@,
            OperatorType::And => "&& "@,
            OperatorType::Or => "|| "@,
            OperatorType::Not => "!"@,
            _ => ""@,
        }
    }

    /// No operator.
    pub fn new() -> (r: Self)
        ensures
            r == OperatorType::Absent,
    {
        OperatorType::Absent
    }

    /// The C text of the operator.
    pub fn to_c(&self) -> (r: String)
        ensures
            r@ == self.c_text(),
    {
        match *self {
            OperatorType::Plus => "+ ".to_owned(),
            OperatorType::Minus => "- ".to_owned(),
            OperatorType::Mul => "* ".to_owned(),
            OperatorType::Div => "/ ".to_owned(),
            OperatorType::Mod => "% ".to_owned(),
            OperatorType::Eq => "= ".to_owned(),
            OperatorType::EqEq => "== ".to_owned(),
            OperatorType::NEq => "!= ".to_owned(),
            OperatorType::Lt => "< ".to_owned(),
            OperatorType::Gt => "> ".to_owned(),
            OperatorType::LtEq => "<= ".to_owned(),
            OperatorType::GtEq => ">= ".to_owned(),
            OperatorType::PlusEq => "+= ".to_owned(),
            OperatorType::MinusEq => "-= ".to_owned(),
            OperatorType::MulEq => "*= ".to_owned(),
            OperatorType::DivEq => "/= ".to_owned(),
            OperatorType::ModEq => "%= ".to_owned(),
            OperatorType::And => "&& ".to_owned(),
            OperatorType::Or => "|| ".to_owned(),
            OperatorType::Not => "!".to_owned(),
            _ => "".to_owned(),
        }
    }
}

/// The names bound so far in one compilation, each with its type.
#[derive(Debug, Clone)]
pub struct Variables {
    entries: Vec<(String, VarType)>,
}

/// The bindings that a list of entries makes: a later entry of a name
/// replaces an earlier one.
pub open spec fn bindings_of(entries: Seq<(String, VarType)>) -> Map<Seq<char>, VarType>
    decreases entries.len(),
{
    if entries.len() == 0 {
        Map::empty()
    } else {
        bindings_of(entries.drop_last()).insert(entries.last().0@, entries.last().1)
    }
}

impl View for Variables {
    type V = Map<Seq<char>, VarType>;

    closed spec fn view(&self) -> Map<Seq<char>, VarType> {
        bindings_of(self.entries@)
    }
}

impl Variables {
    /// A table without bindings.
    pub fn new() -> (r: Self)
        ensures
            r@ == Map::<Seq<char>, VarType>::empty(),
    {
        Variables { entries: Vec::new() }
    }
}

/// Binds `string` to `var_type`, in place of any earlier binding of it.
pub fn variables_insert(variables: &mut Variables, string: &String, var_type: &VarType)
    ensures
        final(variables)@ == old(variables)@.insert(string@, *var_type),
{
    variables.entries.push((string.clone(), *var_type));
    assert(variables.entries@.drop_last() =~= old(variables).entries@);
}

/// The type that `string` is bound to, or a type error where it is not bound.
pub fn variables_get(variables: &Variables, string: &String) -> (r: Result<VarType, CompileError>)
    ensures
        variables@.contains_key(string@) ==> r == Ok::<VarType, CompileError>(
            variables@[string@],
        ),
        !variables@.contains_key(string@) ==> r == Err::<VarType, CompileError>(
            CompileError::Type,
        ),
{
    let mut i: usize = variables.entries.len();
    assert(variables.entries@.subrange(0, i as int) =~= variables.entries@);
    while i > 0
        invariant
            i <= variables.entries.len(),
            variables@.contains_key(string@) == bindings_of(
                variables.entries@.subrange(0, i as int),
            ).contains_key(string@),
            variables@.contains_key(string@) ==> variables@[string@] == bindings_of(
                variables.entries@.subrange(0, i as int),
            )[string@],
        decreases i,
    {
        let ghost prefix = variables.entries@.subrange(0, i as int);
        assert(prefix.drop_last() =~= variables.entries@.subrange(0, i - 1));
        assert(prefix.last() == variables.entries@[i - 1]);
        i = i - 1;
        if variables.entries[i].0 == *string {
            return Ok(variables.entries[i].1);
        }
    }
    Err(CompileError::Type)
}

/// Whether a token opens a block that an `end` closes.
pub open spec fn opens_block(token: TokenView) -> bool {
    token == TokenView::Keyword(Keyword::If) || token == TokenView::Keyword(Keyword::While)
        || token == TokenView::Keyword(Keyword::For) || token == TokenView::Keyword(Keyword::Fn)
}

/// Whether a token closes a block.
pub open spec fn closes_block(token: TokenView) -> bool {
    token == TokenView::Keyword(Keyword::End)
}

/// The number of open blocks after `token`, where `depth` were open before it.
pub open spec fn depth_after(depth: int, token: TokenView) -> int {
    if opens_block(token) {
        depth + 1
    } else if closes_block(token) {
        depth - 1
    } else {
        depth
    }
}

/// A statement before the statements that follow it, where those did not fail.
pub open spec fn statement_then(
    head: Seq<TokenView>,
    rest: Result<Seq<Seq<TokenView>>, CompileError>,
) -> Result<Seq<Seq<TokenView>>, CompileError> {
    match rest {
        Ok(statements) => Ok(seq![head] + statements),
        Err(e) => Err(e),
    }
}

/// The statements of the tokens from `i` on, where `depth` blocks are open
/// and `current` holds the tokens of the statement under way.
///
/// An end-of-line token met while no block is open closes the statement
/// under way and is dropped; a statement without tokens is dropped too.
/// Every other token joins the statement under way. An `end` met while no
/// block is open, and a block still open where the tokens end, are
/// segmentation errors.
pub open spec fn segment_from(
    tokens: Seq<TokenView>,
    i: int,
    depth: int,
    current: Seq<TokenView>,
) -> Result<Seq<Seq<TokenView>>, CompileError>
    decreases tokens.len() - i,
{
    if i < 0 || i >= tokens.len() {
        if depth > 0 {
            Err(CompileError::Segmentation)
        } else if current.len() > 0 {
            Ok(seq![current])
        } else {
            Ok(Seq::empty())
        }
    } else if closes_block(tokens[i]) && depth <= 0 {
        Err(CompileError::Segmentation)
    } else if tokens[i] == TokenView::NewLine && depth <= 0 {
        if current.len() > 0 {
            statement_then(current, segment_from(tokens, i + 1, 0, Seq::empty()))
        } else {
            segment_from(tokens, i + 1, 0, Seq::empty())
        }
    } else {
        segment_from(tokens, i + 1, depth_after(depth, tokens[i]), current.push(tokens[i]))
    }
}

/// The statements of a token sequence: one for each line outside a block,
/// one for each block from its opening keyword to its `end`.
pub open spec fn segment(tokens: Seq<TokenView>) -> Result<Seq<Seq<TokenView>>, CompileError> {
    segment_from(tokens, 0, 0, Seq::empty())
}

/// The views of a list of statements.
pub open spec fn statement_views(statements: Seq<Vec<Token>>) -> Seq<Seq<TokenView>> {
    Seq::new(statements.len(), |i: int| token_views(statements[i]@))
}

/// Whether a token opens a block.
fn is_block_opener(token: &Token) -> (r: bool)
    ensures
        r == opens_block(token@),
{
    match token {
        Token::Keyword(Keyword::If) => true,
        Token::Keyword(Keyword::While) => true,
        Token::Keyword(Keyword::For) => true,
        Token::Keyword(Keyword::Fn) => true,
        _ => false,
    }
}

/// Whether a token is the keyword `end`.
fn is_block_end(token: &Token) -> (r: bool)
    ensures
        r == closes_block(token@),
{
    match token {
        Token::Keyword(Keyword::End) => true,
        _ => false,
    }
}

/// Whether a token is the end-of-line token.
fn is_new_line(token: &Token) -> (r: bool)
    ensures
        r == (token@ == TokenView::NewLine),
{
    match token {
        Token::NewLine => true,
        _ => false,
    }
}

/// The place where cutting the tokens from `i` on fails, where `depth`
/// blocks are open: the `end` that closes no block, or the end of the
/// tokens where a block is left open.
pub open spec fn segment_fault(tokens: Seq<TokenView>, i: int, depth: int) -> int
    decreases tokens.len() - i,
{
    if i < 0 || i >= tokens.len() {
        tokens.len() as int
    } else if closes_block(tokens[i]) && depth <= 0 {
        i
    } else if tokens[i] == TokenView::NewLine && depth <= 0 {
        segment_fault(tokens, i + 1, 0)
    } else {
        segment_fault(tokens, i + 1, depth_after(depth, tokens[i]))
    }
}

/// Cuts a token sequence into statements. A line outside any block is one
/// statement; a block is one statement from its opening keyword to its
/// `end`, whatever the number of lines. An `end` without an opener and a
/// block that is never closed give a segmentation error, with the place of
/// that `end`, or the end of the tokens.
pub fn split_tokens(tokens: Vec<Token>) -> (r: Result<Vec<Vec<Token>>, Failure>)
    ensures
        match segment(token_views(tokens@)) {
            Ok(statements) => r.is_ok() && statement_views(r.unwrap()@) == statements,
            Err(e) => r.is_err() && r.unwrap_err().error == e && r.unwrap_err().place
                == Place::Token(segment_fault(token_views(tokens@), 0, 0) as usize),
        },
{
    split_token_slice(&tokens)
}

/// Cuts a token sequence into statements, as `split_tokens` does, and
/// leaves the sequence to its owner.
pub fn split_token_slice(tokens: &Vec<Token>) -> (r: Result<Vec<Vec<Token>>, Failure>)
    ensures
        match segment(token_views(tokens@)) {
            Ok(statements) => r.is_ok() && statement_views(r.unwrap()@) == statements,
            Err(e) => r.is_err() && r.unwrap_err().error == e && r.unwrap_err().place
                == Place::Token(segment_fault(token_views(tokens@), 0, 0) as usize),
        },
{
    let ghost all = token_views(tokens@);
    let mut result: Vec<Vec<Token>> = Vec::new();
    let mut current: Vec<Token> = Vec::new();
    let mut depth: usize = 0;
    let mut i: usize = 0;
    let ghost mut done: Seq<Seq<TokenView>> = Seq::empty();
    proof {
        assert(token_views(current@) =~= Seq::<TokenView>::empty());
        assert(statement_views(result@) =~= done);
        lemma_statements_then(done, segment_from(all, 0, 0, Seq::empty()));
    }
    while i < tokens.len()
        invariant
            i <= tokens.len(),
            depth <= i,
            all == token_views(tokens@),
            statement_views(result@) == done,
            segment(all) == statements_then(
                done,
                segment_from(all, i as int, depth as int, token_views(current@)),
            ),
            segment_fault(all, 0, 0) == segment_fault(all, i as int, depth as int),
        decreases tokens.len() - i,
    {
        let token = &tokens[i];
        assert(all[i as int] == token@);
        if is_block_end(token) && depth == 0 {
            return Err(Failure { error: CompileError::Segmentation, place: Place::Token(i) });
        }
        if is_new_line(token) && depth == 0 {
            if current.len() > 0 {
                let ghost closed = token_views(current@);
                proof {
                    lemma_statements_then_push(
                        done,
                        closed,
                        segment_from(all, i + 1, 0, Seq::empty()),
                    );
                    assert(statement_views(result@.push(current)) =~= done.push(closed));
                    done = done.push(closed);
                }
                result.push(current);
                current = Vec::new();
            }
            assert(token_views(current@) =~= Seq::<TokenView>::empty());
        } else {
            if is_block_opener(token) {
                depth = depth + 1;
            } else if is_block_end(token) {
                depth = depth - 1;
            }
            let ghost before = token_views(current@);
            current.push(copy_token(token));
            assert(token_views(current@) =~= before.push(token@));
        }
        i = i + 1;
    }
    if depth > 0 {
        return Err(Failure { error: CompileError::Segmentation, place: Place::Token(i) });
    }
    if current.len() > 0 {
        let ghost closed = token_views(current@);
        proof {
            assert(statement_views(result@.push(current)) =~= done.push(closed));
            assert(done + seq![closed] =~= done.push(closed));
        }
        result.push(current);
    } else {
        assert(done + Seq::<Seq<TokenView>>::empty() =~= done);
    }
    Ok(result)
}

/// Statements already cut before the statements that follow them, where
/// those did not fail.
pub open spec fn statements_then(
    done: Seq<Seq<TokenView>>,
    rest: Result<Seq<Seq<TokenView>>, CompileError>,
) -> Result<Seq<Seq<TokenView>>, CompileError> {
    match rest {
        Ok(statements) => Ok(done + statements),
        Err(e) => Err(e),
    }
}

/// Nothing cut so far leaves what follows as it is.
proof fn lemma_statements_then(
    done: Seq<Seq<TokenView>>,
    rest: Result<Seq<Seq<TokenView>>, CompileError>,
)
    requires
        done.len() == 0,
    ensures
        statements_then(done, rest) == rest,
{
    match rest {
        Ok(statements) => {
            assert(done + statements =~= statements);
        },
        Err(_) => {},
    }
}

/// Closing one more statement moves it from what follows to what is cut.
proof fn lemma_statements_then_push(
    done: Seq<Seq<TokenView>>,
    closed: Seq<TokenView>,
    rest: Result<Seq<Seq<TokenView>>, CompileError>,
)
    ensures
        statements_then(done, statement_then(closed, rest)) == statements_then(
            done.push(closed),
            rest,
        ),
{
    match rest {
        Ok(statements) => {
            assert(done + (seq![closed] + statements) =~= done.push(closed) + statements);
        },
        Err(_) => {},
    }
}

/// The number of open blocks after the first `k` tokens.
pub open spec fn depth_of(tokens: Seq<TokenView>, k: int) -> int
    decreases k,
{
    if k <= 0 {
        0
    } else {
        depth_after(depth_of(tokens, k - 1), tokens[k - 1])
    }
}

/// Whether the tokens are one block: they start with an opening keyword,
/// and the block that it opens is closed by the last token and not before.
pub open spec fn is_block(tokens: Seq<TokenView>) -> bool {
    &&& tokens.len() > 0
    &&& opens_block(tokens[0])
    &&& depth_of(tokens, tokens.len() as int) == 0
    &&& forall|k: int| 0 < k < tokens.len() ==> depth_of(tokens, k) > 0
}

/// Inside a block nothing is cut: from any place in it on, the block comes
/// out as one statement, whether an end-of-line token follows it or the
/// tokens end with it.
proof fn lemma_segment_inside_block(block: Seq<TokenView>, tail: Seq<TokenView>, i: int)
    requires
        is_block(block),
        0 <= i <= block.len(),
        tail.len() == 0 || tail == seq![TokenView::NewLine],
    ensures
        segment_from(block + tail, i, depth_of(block, i), block.subrange(0, i)) == Ok::<
            Seq<Seq<TokenView>>,
            CompileError,
        >(seq![block]),
    decreases block.len() - i,
{
    let line = block + tail;
    if i == block.len() {
        assert(block.subrange(0, i) =~= block);
        if tail.len() > 0 {
            assert(line[i] == TokenView::NewLine);
            assert(segment_from(line, i + 1, 0, Seq::empty()) == Ok::<
                Seq<Seq<TokenView>>,
                CompileError,
            >(Seq::empty()));
            assert(seq![block] + Seq::<Seq<TokenView>>::empty() =~= seq![block]);
        }
    } else {
        assert(line[i] == block[i]);
        lemma_segment_inside_block(block, tail, i + 1);
        assert(block.subrange(0, i).push(block[i]) =~= block.subrange(0, i + 1));
        if i == 0 {
            assert(depth_of(block, 0) == 0);
        } else {
            assert(depth_of(block, i) > 0);
        }
    }
}

/// A block on its own, of any depth of nesting, is cut into exactly one
/// statement, which holds all its tokens from the opening keyword to the
/// closing `end`, whether or not an end-of-line token follows the block.
pub proof fn lemma_segment_block(block: Seq<TokenView>)
    requires
        is_block(block),
    ensures
        segment(block.push(TokenView::NewLine)) == Ok::<Seq<Seq<TokenView>>, CompileError>(
            seq![block],
        ),
        segment(block) == Ok::<Seq<Seq<TokenView>>, CompileError>(seq![block]),
{
    lemma_segment_inside_block(block, seq![TokenView::NewLine], 0);
    lemma_segment_inside_block(block, Seq::empty(), 0);
    assert(block.subrange(0, 0) =~= Seq::<TokenView>::empty());
    assert(block + seq![TokenView::NewLine] =~= block.push(TokenView::NewLine));
    assert(block + Seq::<TokenView>::empty() =~= block);
}

/// No statement is empty, and none is longer than the tokens it is cut from.
pub proof fn lemma_segment_from_bounds(
    tokens: Seq<TokenView>,
    i: int,
    depth: int,
    current: Seq<TokenView>,
)
    requires
        0 <= i <= tokens.len(),
    ensures
        match segment_from(tokens, i, depth, current) {
            Ok(statements) => forall|j: int|
                0 <= j < statements.len() ==> 0 < (#[trigger] statements[j]).len()
                    <= current.len() + tokens.len() - i,
            Err(_) => true,
        },
    decreases tokens.len() - i,
{
    if i >= tokens.len() {
    } else if closes_block(tokens[i]) && depth <= 0 {
    } else if tokens[i] == TokenView::NewLine && depth <= 0 {
        lemma_segment_from_bounds(tokens, i + 1, 0, Seq::empty());
    } else {
        lemma_segment_from_bounds(
            tokens,
            i + 1,
            depth_after(depth, tokens[i]),
            current.push(tokens[i]),
        );
    }
}

/// No statement of a token sequence is empty, and none is longer than the
/// sequence.
pub proof fn lemma_segment_bounds(tokens: Seq<TokenView>)
    ensures
        match segment(tokens) {
            Ok(statements) => forall|j: int|
                0 <= j < statements.len() ==> 0 < (#[trigger] statements[j]).len()
                    <= tokens.len(),
            Err(_) => true,
        },
{
    lemma_segment_from_bounds(tokens, 0, 0, Seq::empty());
}

/// The first statement from the `k`th on that fails to build, each
/// statement built with the bindings that the one before it left; the
/// number of statements where none fails.
pub open spec fn first_bad_statement(
    body: Seq<TokenView>,
    k: int,
    vars: Map<Seq<char>, VarType>,
) -> int
    decreases statement_count(body) - k,
{
    match segment(body) {
        Err(_) => k,
        Ok(statements) => if k < 0 || k >= statements.len() {
            k
        } else {
            let first = build(statements[k], vars);
            if first.result.is_err() {
                k
            } else {
                first_bad_statement(body, k + 1, first.vars)
            }
        },
    }
}

/// The place where building a whole token sequence fails: the token at
/// which it cannot be cut into statements, else the first statement that
/// fails to build.
pub open spec fn parse_fault(tokens: Seq<TokenView>, vars: Map<Seq<char>, VarType>) -> Place {
    match segment(tokens) {
        Err(_) => Place::Token(segment_fault(tokens, 0, 0) as usize),
        Ok(_) => Place::Statement(first_bad_statement(tokens, 0, vars) as usize),
    }
}

/// Builds the syntax tree of a whole token sequence: cuts it into
/// statements and builds the node of each in turn, each with the bindings
/// that the ones before it left in `variables`. The first statement that
/// fails ends the run with its error and its place.
pub fn parse(tokens: Vec<Token>, variables: &mut Variables) -> (r: Result<Vec<Node>, Failure>)
    ensures
        final(variables)@ == build_statements(token_views(tokens@), 0, old(variables)@).vars,
        match build_statements(token_views(tokens@), 0, old(variables)@).result {
            Ok(trees) => r.is_ok() && node_asts(r.unwrap()@) == trees,
            Err(e) => r.is_err() && r.unwrap_err().error == e && r.unwrap_err().place
                == parse_fault(token_views(tokens@), old(variables)@),
        },
{
    let ghost body = token_views(tokens@);
    let ghost first = variables@;
    let token_blocks = match split_token_slice(&tokens) {
        Ok(blocks) => blocks,
        Err(e) => {
            return Err(e);
        },
    };
    let mut result: Vec<Node> = Vec::new();
    let mut k: usize = 0;
    proof {
        assert(node_asts(result@) =~= Seq::<Ast>::empty());
        match build_statements(body, 0, first).result {
            Ok(trees) => {
                assert(Seq::<Ast>::empty() + trees =~= trees);
            },
            Err(_) => {},
        }
    }
    while k < token_blocks.len()
        invariant
            k <= token_blocks.len(),
            body == token_views(tokens@),
            first == old(variables)@,
            segment(body) == Ok::<Seq<Seq<TokenView>>, CompileError>(
                statement_views(token_blocks@),
            ),
            build_statements(body, 0, first) == statements_after(
                node_asts(result@),
                build_statements(body, k as int, variables@),
            ),
            first_bad_statement(body, 0, first) == first_bad_statement(body, k as int, variables@),
        decreases token_blocks.len() - k,
    {
        proof {
            assert(statement_views(token_blocks@)[k as int] == token_views(
                token_blocks@[k as int]@,
            ));
        }
        match Node::build(&token_blocks[k], variables) {
            Err(e) => {
                return Err(Failure { error: e, place: Place::Statement(k) });
            },
            Ok(node) => {
                let ghost done = node_asts(result@);
                result.push(node);
                proof {
                    assert(node_asts(result@) =~= done.push(node@));
                    match build_statements(body, k + 1, variables@).result {
                        Ok(rest) => {
                            assert(done + (seq![node@] + rest) =~= done.push(node@) + rest);
                        },
                        Err(_) => {},
                    }
                }
            },
        }
        k = k + 1;
    }
    proof {
        assert(node_asts(result@) + Seq::<Ast>::empty() =~= node_asts(result@));
    }
    Ok(result)
}

} // verus!
