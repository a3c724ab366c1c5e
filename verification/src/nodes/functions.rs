//! Function definitions and calls, and the rewriting of `print`.

use crate::error::CompileError;
use crate::lexer::{token_views, Keyword, Token, TokenView};
use crate::parser::{variables_get, variables_insert, Variables, VarType};
use crate::syntax::{
    build_call, build_function, copy_range, done, leaves, lemma_leaves_prefix, no_parameters,
    parameters_from, signature_of, Parameters, Signature,
};
use crate::text::{chars_of, push_char, same_text};
use super::{
    arguments_to_c, ast_of, asts_of, body_to_c, build_body, built, calls_of, lemma_asts_of_index,
    print_arguments, render, render_parameters, render_reads, rendered, texts_of, then_text, Ast,
    Node,
};
use super::values::NodeValueString;
use super::variables::NodeVariableCall;
use vstd::prelude::*;
use vstd::string::StringExecFns;

verus! {

/// A function with its parameters, return type and body.
#[derive(Debug, PartialEq)]
pub struct NodeFunctionDefinition {
    pub name: String,
    pub arg_names: Vec<String>,
    pub arg_types: Vec<VarType>,
    pub return_type: VarType,
    pub body: Vec<Box<Node>>,
}

/// A call of a function by name.
#[derive(Debug, PartialEq)]
pub struct NodeFunctionCall {
    pub name: String,
    pub args: Vec<Box<Node>>,
}

/// Whether `c` may stand in the name of a placeholder: an ASCII letter, a
/// digit or an underscore.
pub open spec fn is_word_char(c: char) -> bool {
    ('a' <= c && c <= 'z') || ('A' <= c && c <= 'Z') || ('0' <= c && c <= '9') || c == '_'
}

/// Where the run of name characters that starts at `i` ends.
pub open spec fn word_run(s: Seq<char>, i: int) -> int
    decreases s.len() - i,
{
    if 0 <= i < s.len() && is_word_char(s[i]) {
        word_run(s, i + 1)
    } else {
        i
    }
}

/// Where the placeholder that opens at `i` ends, just past its closing
/// brace, if one opens there: an opening brace with no backslash before it,
/// a name of one character or more, and a closing brace.
pub open spec fn placeholder_end(s: Seq<char>, i: int) -> Option<int> {
    let j = word_run(s, i + 1);
    if 0 <= i < s.len() && s[i] == '{' && (i == 0 || s[i - 1] != '\\') && j > i + 1 && j < s.len()
        && s[j] == '}' {
        Some(j + 1)
    } else {
        None
    }
}

/// The text from `i` on with each placeholder replaced by the `printf`
/// conversion of the type that its name is bound to; `None` where a name is
/// not bound or its type has no conversion.
pub open spec fn format_text(s: Seq<char>, vars: Map<Seq<char>, VarType>, i: int) -> Option<
    Seq<char>,
>
    decreases s.len() - i,
{
    if i < 0 || i >= s.len() {
        Some(Seq::empty())
    } else {
        match placeholder_end(s, i) {
            Some(e) => {
                let name = s.subrange(i + 1, e - 1);
                if vars.contains_key(name) {
                    match (vars[name].c_format(), format_text(s, vars, e)) {
                        (Some(f), Some(rest)) => Some(f + rest),
                        _ => None,
                    }
                } else {
                    None
                }
            },
            None => match format_text(s, vars, i + 1) {
                Some(rest) => Some(seq![s[i]] + rest),
                None => None,
            },
        }
    }
}

/// The names of the placeholders of the text from `i` on, from left to right.
pub open spec fn placeholder_names(s: Seq<char>, i: int) -> Seq<Seq<char>>
    decreases s.len() - i,
{
    if i < 0 || i >= s.len() {
        Seq::empty()
    } else {
        match placeholder_end(s, i) {
            Some(e) => seq![s.subrange(i + 1, e - 1)] + placeholder_names(s, e),
            None => placeholder_names(s, i + 1),
        }
    }
}

impl View for NodeFunctionDefinition {
    type V = Ast;

    open spec fn view(&self) -> Ast {
        ast_of(Node::FunctionDefinition(*self))
    }
}

impl View for NodeFunctionCall {
    type V = Ast;

    open spec fn view(&self) -> Ast {
        ast_of(Node::FunctionCall(*self))
    }
}

/// Whether `c` may stand in the name of a placeholder.
fn word_char(c: char) -> (r: bool)
    ensures
        r == is_word_char(c),
{
    ('a' <= c && c <= 'z') || ('A' <= c && c <= 'Z') || ('0' <= c && c <= '9') || c == '_'
}

/// The arguments of the `printf` call that a `print` of `string` becomes:
/// the format text, in which the conversion of its type stands for each
/// placeholder, then a read of each placeholder's name, from left to right.
/// A placeholder whose name is not bound, or whose type has no conversion,
/// gives a render error.
pub fn format_printf(string: &String, variables: &Variables) -> (r: Result<
    Vec<Box<Node>>,
    CompileError,
>)
    ensures
        match print_arguments(string@, variables@) {
            Some(list) => r.is_ok() && asts_of(r.unwrap()@) == list,
            None => r.is_err() && r.unwrap_err() == CompileError::Render,
        },
{
    let v = chars_of(string.as_str());
    let ghost s = string@;
    let ghost vars = variables@;
    let mut format: String = String::new();
    let mut reads: Vec<Box<Node>> = Vec::new();
    let ghost mut names: Seq<Seq<char>> = Seq::empty();
    let mut i: usize = 0;
    proof {
        match format_text(s, vars, 0) {
            Some(t) => {
                assert(Seq::<char>::empty() + t =~= t);
            },
            None => {},
        }
        assert(names + placeholder_names(s, 0) =~= placeholder_names(s, 0));
        assert(asts_of(reads@) =~= calls_of(names));
    }
    while i < v.len()
        invariant
            i <= v.len(),
            v@ == s,
            s == string@,
            vars == variables@,
            format_text(s, vars, 0) == then_text(Some(format@), format_text(s, vars, i as int)),
            placeholder_names(s, 0) == names + placeholder_names(s, i as int),
            asts_of(reads@) == calls_of(names),
        decreases v.len() - i,
    {
        let mut found: bool = false;
        let mut j: usize = i + 1;
        let mut name: String = String::new();
        if v[i] == '{' && (i == 0 || v[i - 1] != '\\') {
            while j < v.len() && word_char(v[j])
                invariant
                    i < j <= v.len(),
                    v@ == s,
                    word_run(s, i + 1) == word_run(s, j as int),
                    name@ == s.subrange(i + 1, j as int),
                decreases v.len() - j,
            {
                push_char(&mut name, v[j]);
                j = j + 1;
                assert(name@ =~= s.subrange(i + 1, j as int));
            }
            found = j > i + 1 && j < v.len() && v[j] == '}';
        }
        assert(found == placeholder_end(s, i as int).is_some());
        if found {
            assert(placeholder_end(s, i as int) == Some(j + 1));
            assert(name@ == s.subrange(i + 1, j + 1 - 1));
            let var_type = match variables_get(variables, &name) {
                Ok(t) => t,
                Err(_) => {
                    return Err(CompileError::Render);
                },
            };
            let conversion = match var_type.to_c_printf() {
                Ok(t) => t,
                Err(e) => {
                    return Err(e);
                },
            };
            proof {
                match format_text(s, vars, j + 1) {
                    Some(rest) => {
                        assert(format@ + (conversion@ + rest) =~= (format@ + conversion@) + rest);
                    },
                    None => {},
                }
                assert(names + (seq![name@] + placeholder_names(s, j + 1)) =~= names.push(name@)
                    + placeholder_names(s, j + 1));
                assert(calls_of(names).push(Ast::VariableCall(name@)) =~= calls_of(
                    names.push(name@),
                ));
                names = names.push(name@);
            }
            format.append(conversion.as_str());
            let ghost before = reads@;
            let ghost text = name@;
            reads.push(Box::new(Node::VariableCall(NodeVariableCall { name: name })));
            proof {
                assert(reads@.drop_last() =~= before);
                assert(ast_of(*reads@.last()) == Ast::VariableCall(text));
            }
            i = j + 1;
        } else {
            proof {
                match format_text(s, vars, i + 1) {
                    Some(rest) => {
                        assert(format@ + (seq![s[i as int]] + rest) =~= format@.push(s[i as int])
                            + rest);
                    },
                    None => {},
                }
            }
            push_char(&mut format, v[i]);
            i = i + 1;
        }
    }
    proof {
        assert(format@ + Seq::<char>::empty() =~= format@);
        assert(names + Seq::<Seq<char>>::empty() =~= names);
    }
    let ghost before = reads@;
    let first: Box<Node> = Box::new(Node::ValueString(NodeValueString::new(format, VarType::Str)));
    reads.insert(0, first);
    proof {
        lemma_asts_of_index(before);
        lemma_asts_of_index(reads@);
        let expected = seq![Ast::Str(format@, VarType::Str)] + calls_of(names);
        assert forall|k: int| 0 <= k < reads@.len() implies asts_of(reads@)[k] == expected[k] by {
            if k > 0 {
                assert(reads@[k] == before[k - 1]);
                assert(asts_of(before)[k - 1] == ast_of(*before[k - 1]));
            }
        }
        assert(asts_of(reads@) =~= expected);
    }
    Ok(reads)
}

/// Writes out the arguments of a rewritten `print`, with a comma and a
/// blank between two.
pub fn reads_to_c(list: &Vec<Box<Node>>) -> (r: String)
    ensures
        r@ == render_reads(asts_of(list@)),
{
    let ghost all = asts_of(list@);
    let mut out: String = String::new();
    let mut i: usize = 0;
    proof {
        lemma_asts_of_index(list@);
        assert(all.subrange(0, 0) =~= Seq::<Ast>::empty());
    }
    while i < list.len()
        invariant
            i <= list.len(),
            all == asts_of(list@),
            all.len() == list@.len(),
            render_reads(all.subrange(0, i as int)) == out@,
        decreases list.len() - i,
    {
        proof {
            lemma_asts_of_index(list@);
            let next = all.subrange(0, i + 1);
            assert(next.drop_last() =~= all.subrange(0, i as int));
            assert(next.last() == ast_of(*list@[i as int]));
        }
        let text: String = match &*list[i] {
            Node::ValueString(v) => v.value.clone(),
            Node::VariableCall(v) => v.name.clone(),
            _ => String::new(),
        };
        if i > 0 {
            out.append(", ");
            out.append(text.as_str());
        } else {
            out.append(text.as_str());
            assert(out@ =~= text@);
        }
        i = i + 1;
    }
    assert(all.subrange(0, i as int) =~= all);
    out
}

/// A parameter list of which a beginning cannot be written out cannot be
/// written out.
pub proof fn lemma_render_parameters_prefix(names: Seq<Seq<char>>, types: Seq<VarType>, k: int)
    requires
        names.len() == types.len(),
        0 <= k <= names.len(),
        render_parameters(names.subrange(0, k), types.subrange(0, k)).is_none(),
    ensures
        render_parameters(names, types).is_none(),
    decreases names.len(),
{
    if k == names.len() {
        assert(names.subrange(0, k) =~= names);
        assert(types.subrange(0, k) =~= types);
    } else {
        assert(names.drop_last().subrange(0, k) =~= names.subrange(0, k));
        assert(types.drop_last().subrange(0, k) =~= types.subrange(0, k));
        lemma_render_parameters_prefix(names.drop_last(), types.drop_last(), k);
    }
}

impl NodeFunctionDefinition {
    /// Writes out the return type, the name, the parameters and the body
    /// between braces. A definition with as many names as types is needed.
    pub fn to_c(&self, variables: &Variables) -> (r: Result<String, CompileError>)
        ensures
            rendered(r, render(self@, variables@)),
        decreases self,
    {
        let ghost names = texts_of(self.arg_names@);
        let ghost types = self.arg_types@;
        let mut out = match self.return_type.to_c() {
            Ok(keyword) => keyword,
            Err(e) => {
                return Err(e);
            },
        };
        if self.arg_names.len() != self.arg_types.len() {
            return Err(CompileError::Render);
        }
        let mut parameters: String = String::new();
        let mut i: usize = 0;
        assert(names.subrange(0, 0) =~= Seq::<Seq<char>>::empty());
        assert(types.subrange(0, 0) =~= Seq::<VarType>::empty());
        while i < self.arg_names.len()
            invariant
                i <= self.arg_names.len(),
                self.arg_names.len() == self.arg_types.len(),
                names == texts_of(self.arg_names@),
                types == self.arg_types@,
                render_parameters(names.subrange(0, i as int), types.subrange(0, i as int))
                    == Some(parameters@),
            decreases self.arg_names.len() - i,
        {
            proof {
                let n = names.subrange(0, i + 1);
                let t = types.subrange(0, i + 1);
                assert(n.drop_last() =~= names.subrange(0, i as int));
                assert(t.drop_last() =~= types.subrange(0, i as int));
                assert(n.last() == self.arg_names@[i as int]@);
                assert(t.last() == self.arg_types@[i as int]);
            }
            let keyword = match self.arg_types[i].to_c() {
                Ok(text) => text,
                Err(e) => {
                    proof {
                        lemma_render_parameters_prefix(names, types, i + 1);
                    }
                    return Err(e);
                },
            };
            if i > 0 {
                parameters.append(", ");
                parameters.append(keyword.as_str());
                parameters.append(self.arg_names[i].as_str());
            } else {
                parameters.append(keyword.as_str());
                parameters.append(self.arg_names[i].as_str());
                assert(parameters@ =~= keyword@ + self.arg_names@[i as int]@);
            }
            i = i + 1;
        }
        assert(names.subrange(0, i as int) =~= names);
        assert(types.subrange(0, i as int) =~= types);
        let body = match body_to_c(&self.body, variables) {
            Ok(text) => text,
            Err(e) => {
                return Err(e);
            },
        };
        out.append(self.name.as_str());
        out.append("(");
        out.append(parameters.as_str());
        out.append("){\n");
        out.append(body.as_str());
        out.append("}\n");
        Ok(out)
    }
}

impl NodeFunctionCall {
    /// Writes out the name and the arguments in parentheses. A call of
    /// `print` with one string literal becomes a call of `printf`, see
    /// `format_printf`; a `print` of anything else gives a render error.
    pub fn to_c(&self, variables: &Variables) -> (r: Result<String, CompileError>)
        ensures
            rendered(r, render(self@, variables@)),
        decreases self,
    {
        proof {
            lemma_asts_of_index(self.args@);
        }
        if same_text(self.name.as_str(), "print") {
            if self.args.len() != 1 {
                return Err(CompileError::Render);
            }
            match &*self.args[0] {
                Node::ValueString(text) => {
                    let list = match format_printf(&text.value, variables) {
                        Ok(list) => list,
                        Err(e) => {
                            return Err(e);
                        },
                    };
                    let arguments = reads_to_c(&list);
                    let mut out: String = "printf(".to_owned();
                    out.append(arguments.as_str());
                    out.append(")");
                    Ok(out)
                },
                _ => Err(CompileError::Render),
            }
        } else {
            let arguments = match arguments_to_c(&self.args, variables) {
                Ok(text) => text,
                Err(e) => {
                    return Err(e);
                },
            };
            let mut out: String = self.name.clone();
            out.append("(");
            out.append(arguments.as_str());
            out.append(")");
            Ok(out)
        }
    }
}

/// The node of an argument of a call: a literal or a name. Any other token
/// is a parse error.
pub fn get_call(token: &Token) -> (r: Result<Node, CompileError>)
    ensures
        match super::leaf_ast(token@) {
            Some(ast) => r.is_ok() && r.unwrap()@ == ast,
            None => r.is_err() && r.unwrap_err() == CompileError::Parse,
        },
{
    Node::from_token(token)
}

impl NodeFunctionCall {
    /// Builds a call from a name, an opening parenthesis, the arguments
    /// and a closing parenthesis. Each argument is one literal or name;
    /// tokens of any other shape are a parse error.
    pub fn new(tokens: &Vec<Token>) -> (r: Result<Self, CompileError>)
        ensures
            match build_call(token_views(tokens@)) {
                Ok(ast) => r.is_ok() && r.unwrap()@ == ast,
                Err(e) => r.is_err() && r.unwrap_err() == e,
            },
    {
        let ghost views = token_views(tokens@);
        if tokens.len() < 3 {
            return Err(CompileError::Parse);
        }
        let name = match tokens[0].identifier() {
            Some(name) => name,
            None => {
                return Err(CompileError::Parse);
            },
        };
        let opened = match &tokens[1] {
            Token::LPar => true,
            _ => false,
        };
        let closed = match &tokens[tokens.len() - 1] {
            Token::RPar => true,
            _ => false,
        };
        if !opened || !closed {
            return Err(CompileError::Parse);
        }
        let ghost inner = views.subrange(2, tokens.len() - 1);
        let mut args: Vec<Box<Node>> = Vec::new();
        let mut i: usize = 2;
        assert(inner.subrange(0, 0) =~= Seq::<TokenView>::empty());
        assert(asts_of(args@) =~= Seq::<Ast>::empty());
        while i < tokens.len() - 1
            invariant
                2 <= i <= tokens.len() - 1,
                views == token_views(tokens@),
                inner == views.subrange(2, tokens.len() - 1),
                leaves(inner.subrange(0, i - 2)) == Some(asts_of(args@)),
            decreases tokens.len() - i,
        {
            proof {
                let next = inner.subrange(0, i - 2 + 1);
                assert(next.drop_last() =~= inner.subrange(0, i - 2));
                assert(next.last() == tokens@[i as int]@);
            }
            match get_call(&tokens[i]) {
                Ok(node) => {
                    let ghost before = args@;
                    args.push(Box::new(node));
                    assert(args@.drop_last() =~= before);
                },
                Err(e) => {
                    proof {
                        lemma_leaves_prefix(inner, i - 2 + 1);
                    }
                    return Err(e);
                },
            }
            i = i + 1;
        }
        assert(inner.subrange(0, i - 2) =~= inner);
        Ok(NodeFunctionCall { name: name, args: args })
    }
}

/// The head of a function definition as it is read.
#[derive(Debug)]
pub struct FunctionHead {
    pub name: String,
    pub arg_names: Vec<String>,
    pub arg_types: Vec<VarType>,
    pub return_type: VarType,
    /// The place just past the closing parenthesis of the parameters.
    pub next: usize,
    /// The place of the first token of the body.
    pub body_start: usize,
}

impl View for FunctionHead {
    type V = Signature;

    open spec fn view(&self) -> Signature {
        Signature {
            name: self.name@,
            parameters: Parameters {
                names: texts_of(self.arg_names@),
                types: self.arg_types@,
                next: self.next as int,
            },
            return_type: self.return_type,
            body_start: self.body_start as int,
        }
    }
}

/// Reads the head of a function definition and binds each parameter to
/// its type. A head that is not well formed is a parse error.
pub fn read_signature(tokens: &Vec<Token>, variables: &mut Variables) -> (r: Result<
    FunctionHead,
    CompileError,
>)
    ensures
        final(variables)@ == signature_of(token_views(tokens@), old(variables)@).vars,
        match signature_of(token_views(tokens@), old(variables)@).result {
            Ok(s) => r.is_ok() && r.unwrap()@ == s && 3 < s.parameters.next <= tokens.len()
                && s.body_start <= tokens.len() + 1,
            Err(e) => r.is_err() && r.unwrap_err() == e,
        },
{
    let ghost views = token_views(tokens@);
    let ghost first = variables@;
    if tokens.len() < 3 {
        return Err(CompileError::Parse);
    }
    let name = match tokens[1].identifier() {
        Some(name) => name,
        None => {
            return Err(CompileError::Parse);
        },
    };
    let opened = match &tokens[2] {
        Token::LPar => true,
        _ => false,
    };
    if !opened {
        return Err(CompileError::Parse);
    }
    let mut arg_names: Vec<String> = Vec::new();
    let mut arg_types: Vec<VarType> = Vec::new();
    let mut i: usize = 3;
    assert(texts_of(arg_names@) =~= Seq::<Seq<char>>::empty());
    let mut closed: bool = false;
    while i < tokens.len() && !closed
        invariant
            3 <= i <= tokens.len(),
            views == token_views(tokens@),
            first == old(variables)@,
            views.len() >= 3,
            views[1] == TokenView::Identifier(name@),
            views[2] == TokenView::LPar,
            !closed ==> parameters_from(views, 3, no_parameters(), first) == parameters_from(
                views,
                i as int,
                Parameters { names: texts_of(arg_names@), types: arg_types@, next: 3 },
                variables@,
            ),
            closed ==> i < tokens.len() && parameters_from(views, 3, no_parameters(), first)
                == done(
                Parameters { names: texts_of(arg_names@), types: arg_types@, next: i + 1 },
                variables@,
            ),
        decreases tokens.len() - i, if closed { 0int } else { 1int },
    {
        assert(views[i as int] == tokens@[i as int]@);
        let at_end = match &tokens[i] {
            Token::RPar => true,
            _ => false,
        };
        if at_end {
            closed = true;
        } else {
            if tokens.len() - i <= 2 {
                return Err(CompileError::Parse);
            }
            assert(views[i + 1] == tokens@[i + 1]@);
            assert(views[i + 2] == tokens@[i + 2]@);
            let parameter = match tokens[i].identifier() {
                Some(name) => name,
                None => {
                    return Err(CompileError::Parse);
                },
            };
            let separated = match &tokens[i + 1] {
                Token::Colon => true,
                _ => false,
            };
            if !separated {
                return Err(CompileError::Parse);
            }
            let keyword = match tokens[i + 2].keyword() {
                Some(k) => k,
                None => {
                    return Err(CompileError::Parse);
                },
            };
            let var_type = VarType::from(keyword);
            if var_type == VarType::Void || var_type == VarType::Auto {
                return Err(CompileError::Parse);
            }
            variables_insert(variables, &parameter, &var_type);
            let ghost names_before = texts_of(arg_names@);
            arg_names.push(parameter);
            arg_types.push(var_type);
            assert(texts_of(arg_names@) =~= names_before.push(parameter@));
            i = i + 3;
        }
    }
    if !closed {
        return Err(CompileError::Parse);
    }
    let next: usize = i + 1;
    if tokens.len() - next <= 1 {
        return Err(CompileError::Parse);
    }
    assert(views[next as int] == tokens@[next as int]@);
    assert(views[next + 1] == tokens@[next + 1]@);
    let arrow = match &tokens[next] {
        Token::Return => true,
        _ => false,
    };
    if !arrow {
        return Err(CompileError::Parse);
    }
    let keyword = match tokens[next + 1].keyword() {
        Some(k) => k,
        None => {
            return Err(CompileError::Parse);
        },
    };
    let return_type = VarType::from(keyword);
    let nothing = match keyword {
        Keyword::Void => true,
        _ => false,
    };
    if (return_type == VarType::Void && !nothing) || return_type == VarType::Auto {
        return Err(CompileError::Parse);
    }
    let mut body_start: usize = next + 2;
    if next + 2 < tokens.len() {
        assert(views[next + 2] == tokens@[next + 2]@);
        let colon = match &tokens[next + 2] {
            Token::Colon => true,
            _ => false,
        };
        if colon {
            body_start = next + 3;
        }
    }
    Ok(
        FunctionHead {
            name: name,
            arg_names: arg_names,
            arg_types: arg_types,
            return_type: return_type,
            next: next,
            body_start: body_start,
        },
    )
}

/// Builds a function definition: its head, and its body up to the `end`
/// that is the last token. Each parameter is bound to its type before the
/// body is built.
pub fn generate_function(tokens: &Vec<Token>, variables: &mut Variables) -> (r: Result<
    Node,
    CompileError,
>)
    ensures
        built(r, final(variables)@, build_function(token_views(tokens@), old(variables)@)),
    decreases tokens.len(), 4int,
{
    let head = match read_signature(tokens, variables) {
        Ok(head) => head,
        Err(e) => {
            return Err(e);
        },
    };
    let ends = match &tokens[tokens.len() - 1] {
        Token::Keyword(Keyword::End) => true,
        _ => false,
    };
    if !ends || head.body_start > tokens.len() - 1 {
        return Err(CompileError::Parse);
    }
    let inner = copy_range(tokens, head.body_start, tokens.len() - 1);
    let body = match build_body(&inner, variables) {
        Ok(nodes) => nodes,
        Err(e) => {
            return Err(e);
        },
    };
    Ok(
        Node::FunctionDefinition(
            NodeFunctionDefinition {
                name: head.name,
                arg_names: head.arg_names,
                arg_types: head.arg_types,
                return_type: head.return_type,
                body: body,
            },
        ),
    )
}

} // verus!
