//! Recursive-descent parser for the C subset.
//!
//! Every parsing routine that succeeds consumes at least one token, so the
//! parser always terminates; a successful parse has consumed the whole input.
use vstd::prelude::*;
use crate::ast::{ASTKind, ASTNode, BinaryOp, Parameter, Type, UnaryOp};
use crate::lexer::{LexError, Lexer, Token, TokenView, lex, LexStep, pos_line, pos_col, failure_message};
use crate::text::{push_str, push_char, debug_str, debug_char, i64_to_text, decimal, usize_to_text};
use crate::grammar::{
    declarator_s, declarator_tail_s, is_type_token, params_s, pointers_s, type_s, compound_s, declarations_s, statements_s,
    declaration_s, statement_s, external_s, function_definition_s, unit_s, parse_s, lemma_type_eq_view, expression_s, assign_s, binary_s, binary_rest_s, operand_s, op_at, unary_s, postfix_s, calls_s, arguments_s, primary_s, if_s, while_s, return_s, expression_statement_s, optional_expression_s, error, after, value,
    advance_s, apply_v, ast_v, asts_v, expect_s, msr, params_v, token_debug, token_tag, type_v, AstV, DeclV, ErrV, PState, ParamV,
    Parsed, TypeV,
};

verus! {

enum DeclaratorType {
    Direct,
    Pointer(Box<DeclaratorType>),
    Function(Vec<Parameter>),
}

/// A syntax error, or a lexical error met while parsing.
#[derive(Debug)]
pub struct ParseError {
    pub message: String,
    pub line: usize,
    pub column: usize,
}

impl ParseError {
    /// `Parse error at line <line>, column <column>: <message>`.
    pub fn to_text(&self) -> (r: String)
        ensures
            r@ == "Parse error at line "@ + decimal(self.line as nat) + ", column "@ + decimal(self.column as nat) + ": "@
                + self.message@,
    {
        let mut s = String::new();
        push_str(&mut s, "Parse error at line ");
        let l = usize_to_text(self.line);
        push_str(&mut s, l.as_str());
        push_str(&mut s, ", column ");
        let c = usize_to_text(self.column);
        push_str(&mut s, c.as_str());
        push_str(&mut s, ": ");
        push_str(&mut s, self.message.as_str());
        s
    }
}

impl From<LexError> for ParseError {
    fn from(error: LexError) -> (r: ParseError)
        ensures
            r.message == error.message,
            r.line == error.line,
            r.column == error.column,
    {
        ParseError { message: error.message, line: error.line, column: error.column }
    }
}

impl vstd::std_specs::convert::FromSpecImpl<LexError> for ParseError {
    open spec fn obeys_from_spec() -> bool {
        true
    }

    open spec fn from_spec(error: LexError) -> ParseError {
        ParseError { message: error.message, line: error.line, column: error.column }
    }
}

fn tag(t: &Token) -> (r: u8)
    ensures
        r == token_tag(t@),
{
    match t {
        Token::Char => 0,
        Token::Else => 1,
        Token::If => 2,
        Token::Int => 3,
        Token::Long => 4,
        Token::Return => 5,
        Token::Void => 6,
        Token::While => 7,
        Token::Eq => 8,
        Token::And => 9,
        Token::Or => 10,
        Token::Plus => 11,
        Token::Minus => 12,
        Token::Multiply => 13,
        Token::Divide => 14,
        Token::Less => 15,
        Token::Assign => 16,
        Token::Address => 17,
        Token::Not => 18,
        Token::Semicolon => 19,
        Token::Colon => 20,
        Token::LeftBrace => 21,
        Token::RightBrace => 22,
        Token::Comma => 23,
        Token::LeftParen => 24,
        Token::RightParen => 25,
        Token::Identifier(_) => 26,
        Token::Integer(_) => 27,
        Token::Character(_) => 28,
        Token::String(_) => 29,
        Token::Eof => 30,
    }
}

/// Appends what `Debug` prints for a token (`Semicolon`, `Identifier("x")`).
fn write_token_debug(out: &mut String, t: &Token)
    ensures
        final(out)@ == old(out)@ + token_debug(t@),
{
    let ghost start = out@;
    match t {
        Token::Char => push_str(out, "Char"),
        Token::Else => push_str(out, "Else"),
        Token::If => push_str(out, "If"),
        Token::Int => push_str(out, "Int"),
        Token::Long => push_str(out, "Long"),
        Token::Return => push_str(out, "Return"),
        Token::Void => push_str(out, "Void"),
        Token::While => push_str(out, "While"),
        Token::Eq => push_str(out, "Eq"),
        Token::And => push_str(out, "And"),
        Token::Or => push_str(out, "Or"),
        Token::Plus => push_str(out, "Plus"),
        Token::Minus => push_str(out, "Minus"),
        Token::Multiply => push_str(out, "Multiply"),
        Token::Divide => push_str(out, "Divide"),
        Token::Less => push_str(out, "Less"),
        Token::Assign => push_str(out, "Assign"),
        Token::Address => push_str(out, "Address"),
        Token::Not => push_str(out, "Not"),
        Token::Semicolon => push_str(out, "Semicolon"),
        Token::Colon => push_str(out, "Colon"),
        Token::LeftBrace => push_str(out, "LeftBrace"),
        Token::RightBrace => push_str(out, "RightBrace"),
        Token::Comma => push_str(out, "Comma"),
        Token::LeftParen => push_str(out, "LeftParen"),
        Token::RightParen => push_str(out, "RightParen"),
        Token::Identifier(s) => {
            push_str(out, "Identifier(");
            let d = debug_str(s.as_str());
            push_str(out, d.as_str());
            push_char(out, ')');
        },
        Token::Integer(n) => {
            push_str(out, "Integer(");
            let d = i64_to_text(*n);
            push_str(out, d.as_str());
            push_char(out, ')');
        },
        Token::Character(c) => {
            push_str(out, "Character(");
            let d = debug_char(*c);
            push_str(out, d.as_str());
            push_char(out, ')');
        },
        Token::String(s) => {
            push_str(out, "String(");
            let d = debug_str(s.as_str());
            push_str(out, d.as_str());
            push_char(out, ')');
        },
        Token::Eof => push_str(out, "Eof"),
    }
}

/// How a declarator shapes the declared type, as a view.
spec fn decl_v(d: DeclaratorType) -> DeclV
    decreases d,
{
    match d {
        DeclaratorType::Direct => DeclV::Direct,
        DeclaratorType::Pointer(inner) => DeclV::Pointer(Box::new(decl_v(*inner))),
        DeclaratorType::Function(params) => DeclV::Function(params_v(params@)),
    }
}

/// An error as a view.
pub open spec fn err_v(e: ParseError) -> ErrV {
    ErrV { message: e.message@, line: e.line as nat, column: e.column as nat }
}

/// A parsed tree and the state after it agree with a production's outcome.
pub open spec fn node_outcome(r: Result<ASTNode, ParseError>, s: PState, p: Parsed<AstV>) -> bool {
    match p {
        Parsed::Done(v, t) => r is Ok && ast_v(r->Ok_0) == v && s == t,
        Parsed::Failed(e) => r is Err && err_v(r->Err_0) == e,
    }
}

pub open spec fn nodes_outcome(r: Result<Vec<ASTNode>, ParseError>, s: PState, p: Parsed<Seq<AstV>>) -> bool {
    match p {
        Parsed::Done(v, t) => r is Ok && asts_v(r->Ok_0@) == v && s == t,
        Parsed::Failed(e) => r is Err && err_v(r->Err_0) == e,
    }
}

pub open spec fn type_outcome(r: Result<Type, ParseError>, s: PState, p: Parsed<TypeV>) -> bool {
    match p {
        Parsed::Done(v, t) => r is Ok && type_v(r->Ok_0) == v && s == t,
        Parsed::Failed(e) => r is Err && err_v(r->Err_0) == e,
    }
}

pub open spec fn params_outcome(r: Result<Vec<Parameter>, ParseError>, s: PState, p: Parsed<Seq<ParamV>>) -> bool {
    match p {
        Parsed::Done(v, t) => r is Ok && params_v(r->Ok_0@) == v && s == t,
        Parsed::Failed(e) => r is Err && err_v(r->Err_0) == e,
    }
}

spec fn declarator_outcome(r: Result<(String, DeclaratorType), ParseError>, s: PState, p: Parsed<(Seq<char>, DeclV)>) -> bool {
    match p {
        Parsed::Done(v, t) => r is Ok && (r->Ok_0.0@, decl_v(r->Ok_0.1)) == v && s == t,
        Parsed::Failed(e) => r is Err && err_v(r->Err_0) == e,
    }
}

pub open spec fn step_outcome(r: Result<(), ParseError>, s: PState, p: Parsed<()>) -> bool {
    match p {
        Parsed::Done(_, t) => r is Ok && s == t,
        Parsed::Failed(e) => r is Err && err_v(r->Err_0) == e,
    }
}

pub struct Parser {
    lexer: Lexer,
    current_token: Token,
    line: usize,
    column: usize,
}

impl Parser {
    /// The lexer is well formed, and the current token is `Eof` only once the
    /// whole text has been read.
    pub closed spec fn wf(&self) -> bool {
        &&& self.lexer.wf()
        &&& (self.current_token is Eof ==> self.lexer.position() == self.lexer.source().len())
        &&& self.line == 1
        &&& self.column == 1
    }

    /// Where the parser stands.
    pub closed spec fn state(&self) -> PState {
        PState { src: self.lexer.source(), pos: self.lexer.position(), cur: self.current_token@ }
    }

    /// The source text being parsed.
    pub closed spec fn source(&self) -> Seq<char> {
        self.lexer.source()
    }

    /// The token under the cursor.
    pub closed spec fn current(&self) -> TokenView {
        self.current_token@
    }

    /// Whether the whole text has been read.
    pub closed spec fn at_end(&self) -> bool {
        self.current_token is Eof
    }

    /// Tokens left: twice the unread characters, plus one for a current
    /// token that is not `Eof`.
    pub closed spec fn measure(&self) -> nat {
        msr(self.state())
    }

    /// Reads the first token. Fails exactly when the first token of the text
    /// is a lexical error, which it reports.
    pub fn new(lexer: Lexer) -> (r: Result<Self, ParseError>)
        requires
            lexer.wf(),
        ensures
            match lex(lexer.source(), lexer.position()) {
                LexStep::Produced(t, e) => r is Ok && r->Ok_0.wf() && r->Ok_0.source()
                    == lexer.source() && r->Ok_0.current() == t && r->Ok_0.state() == (PState { src: lexer.source(), pos: e, cur: t }),
                LexStep::Failed(f, at) => r is Err && r->Err_0.line == pos_line(
                    lexer.source(),
                    at,
                ) && r->Err_0.column == pos_col(lexer.source(), at) && r->Err_0.message@
                    == failure_message(f),
            },
    {
        let mut lexer = lexer;
        let current_token = match lexer.next_token() {
            Ok(t) => t,
            Err(e) => return Err(ParseError::from(e)),
        };
        Ok(Parser { lexer, current_token, line: 1, column: 1 })
    }

    fn advance(&mut self) -> (r: Result<(), ParseError>)
        requires
            old(self).wf(),
        ensures
            final(self).wf(),
            final(self).source() == old(self).source(),
            final(self).measure() <= old(self).measure(),
            r is Ok && !old(self).at_end() ==> final(self).measure() < old(self).measure(),
            step_outcome(r, final(self).state(), advance_s(old(self).state())),
    {
        proof {
            self.lexer.lemma_wf();
            if self.current_token is Eof {
                assert(crate::lexer::skip_trivia(self.lexer.source(), self.lexer.position())
                    == Ok::<nat, nat>(self.lexer.position()));
            }
        }
        let next = self.lexer.next_token();
        proof {
            self.lexer.lemma_wf();
        }
        match next {
            Ok(t) => {
                self.current_token = t;
                Ok(())
            },
            Err(e) => Err(ParseError::from(e)),
        }
    }

    fn error_here(&self, message: String) -> (e: ParseError)
        requires
            self.wf(),
        ensures
            err_v(e) == (ErrV { message: message@, line: 1, column: 1 }),
    {
        ParseError { message, line: self.line, column: self.column }
    }

    fn expect(&mut self, expected: Token) -> (r: Result<(), ParseError>)
        requires
            old(self).wf(),
            !(expected is Eof),
        ensures
            final(self).wf(),
            final(self).source() == old(self).source(),
            final(self).measure() <= old(self).measure(),
            r is Ok ==> final(self).measure() < old(self).measure(),
            r is Ok ==> token_tag(old(self).current_token@) == token_tag(expected@),
            step_outcome(r, final(self).state(), expect_s(old(self).state(), expected@)),
    {
        if tag(&self.current_token) == tag(&expected) {
            self.advance()
        } else {
            let mut message = String::new();
            push_str(&mut message, "Expected ");
            write_token_debug(&mut message, &expected);
            push_str(&mut message, ", found ");
            write_token_debug(&mut message, &self.current_token);
            proof {
                assert(message@ =~= "Expected "@ + token_debug(expected@) + ", found "@ + token_debug(self.current_token@));
            }
            Err(self.error_here(message))
        }
    }

    fn match_token(&self, token: &Token) -> (r: bool)
        ensures
            r == (token_tag(self.current_token@) == token_tag(token@)),
    {
        tag(&self.current_token) == tag(token)
    }

    /// Parses the whole text into a translation unit. On success every token
    /// has been consumed.
    pub fn parse(&mut self) -> (r: Result<ASTNode, ParseError>)
        requires
            old(self).wf(),
        ensures
            final(self).wf(),
            final(self).source() == old(self).source(),
            node_outcome(r, final(self).state(), parse_s(old(self).state())),
            r is Ok ==> r->Ok_0.kind is TranslationUnit && final(self).at_end(),
        decreases old(self).measure(), 100nat,
    {
        self.parse_translation_unit()
    }

    #[verifier::rlimit(30)]
    fn parse_translation_unit(&mut self) -> (r: Result<ASTNode, ParseError>)
        requires
            old(self).wf(),
        ensures
            final(self).wf(),
            final(self).source() == old(self).source(),
            final(self).measure() <= old(self).measure(),
            node_outcome(r, final(self).state(), unit_s(old(self).state(), Seq::empty())),
            r is Ok ==> r->Ok_0.kind is TranslationUnit && final(self).at_end(),
        decreases old(self).measure(), 90nat,
    {
        let mut declarations: Vec<ASTNode> = Vec::new();
        let ghost m0 = self.measure();
        let ghost s0 = self.state();
        proof {
            assert(asts_v(declarations@) =~= Seq::<AstV>::empty());
        }
        while !self.match_token(&Token::Eof)
            invariant
                self.wf(),
                self.source() == old(self).source(),
                self.measure() <= m0,
                m0 == old(self).measure(),
                s0 == old(self).state(),
                unit_s(s0, Seq::empty()) == unit_s(self.state(), asts_v(declarations@)),
            decreases self.measure(),
        {
            let ghost st = self.state();
            let ghost prev = declarations@;
            let ghost acc = asts_v(declarations@);
            let d = self.parse_external_declaration()?;
            let ghost dv = ast_v(d);
            declarations.push(d);
            proof {
                assert(declarations@.drop_last() =~= prev);
                assert(asts_v(declarations@) == acc.push(dv));
                assert(unit_s(st, acc) == unit_s(self.state(), asts_v(declarations@)));
            }
        }
        Ok(ASTNode::new(ASTKind::TranslationUnit(declarations)))
    }

    fn parse_external_declaration(&mut self) -> (r: Result<ASTNode, ParseError>)
        requires
            old(self).wf(),
        ensures
            final(self).wf(),
            final(self).source() == old(self).source(),
            final(self).measure() <= old(self).measure(),
            r is Ok ==> final(self).measure() < old(self).measure(),
            node_outcome(r, final(self).state(), external_s(old(self).state())),
        decreases old(self).measure(), 80nat,
    {
        let type_spec = self.parse_type_specifier()?;
        let declarator_info = self.parse_declarator_info()?;
        if self.match_token(&Token::LeftBrace) {
            self.parse_function_definition_with_info(type_spec, declarator_info)
        } else {
            self.expect(Token::Semicolon)?;
            let (name, declarator) = declarator_info;
            Ok(ASTNode::new(ASTKind::Declaration {
                var_type: apply_declarator_to_type(declarator, type_spec),
                name,
            }))
        }
    }

    fn parse_function_definition_with_info(
        &mut self,
        ret_type: Type,
        declarator_info: (String, DeclaratorType),
    ) -> (r: Result<ASTNode, ParseError>)
        requires
            old(self).wf(),
        ensures
            final(self).wf(),
            final(self).source() == old(self).source(),
            final(self).measure() <= old(self).measure(),
            r is Ok ==> final(self).measure() < old(self).measure(),
            node_outcome(
                r,
                final(self).state(),
                function_definition_s(old(self).state(), type_v(ret_type), declarator_info.0@, decl_v(declarator_info.1)),
            ),
        decreases old(self).measure(), 70nat,
    {
        let (name, declarator) = declarator_info;
        let copied = ret_type.clone();
        proof {
            lemma_type_eq_view(copied, ret_type);
        }
        let function_type = apply_declarator_to_type(declarator, copied);
        let params = match function_type {
            Type::Function { ret_type: _, params } => params,
            _ => {
                return Err(self.error_here("Expected function type".to_string()));
            },
        };
        let body = self.parse_compound_statement()?;
        Ok(ASTNode::new(ASTKind::FunctionDefinition { ret_type, name, params, body: Box::new(body) }))
    }

    fn parse_type_specifier(&mut self) -> (r: Result<Type, ParseError>)
        requires
            old(self).wf(),
        ensures
            final(self).wf(),
            final(self).source() == old(self).source(),
            final(self).measure() <= old(self).measure(),
            r is Ok ==> final(self).measure() < old(self).measure(),
            type_outcome(r, final(self).state(), type_s(old(self).state())),
    {
        let ghost s0 = self.state();
        let mut base_type = match &self.current_token {
            Token::Void => Type::Void,
            Token::Char => Type::Char,
            Token::Int => Type::Int,
            Token::Long => Type::Long,
            _ => {
                let mut message = String::new();
                push_str(&mut message, "Expected type specifier, found ");
                write_token_debug(&mut message, &self.current_token);
                return Err(self.error_here(message));
            },
        };
        self.advance()?;
        let ghost m1 = self.measure();
        let ghost s1 = self.state();
        proof {
            assert(type_s(s0) == pointers_s(s1, type_v(base_type)));
        }
        while self.match_token(&Token::Multiply)
            invariant
                self.wf(),
                self.source() == old(self).source(),
                self.measure() <= m1,
                m1 < old(self).measure(),
                s0 == old(self).state(),
                type_s(s0) == pointers_s(self.state(), type_v(base_type)),
            decreases self.measure(),
        {
            let ghost before = self.state();
            let ghost t0 = type_v(base_type);
            self.advance()?;
            base_type = Type::Pointer(Box::new(base_type));
            proof {
                assert(pointers_s(before, t0) == pointers_s(self.state(), type_v(base_type)));
            }
        }
        Ok(base_type)
    }

    fn parse_declarator_info(&mut self) -> (r: Result<(String, DeclaratorType), ParseError>)
        requires
            old(self).wf(),
        ensures
            final(self).wf(),
            final(self).source() == old(self).source(),
            final(self).measure() <= old(self).measure(),
            r is Ok ==> final(self).measure() < old(self).measure(),
            declarator_outcome(r, final(self).state(), declarator_s(old(self).state())),
        decreases old(self).measure(), 45nat,
    {
        self.parse_declarator_info_impl()
    }

    fn parse_declarator_info_impl(&mut self) -> (r: Result<(String, DeclaratorType), ParseError>)
        requires
            old(self).wf(),
        ensures
            final(self).wf(),
            final(self).source() == old(self).source(),
            final(self).measure() <= old(self).measure(),
            r is Ok ==> final(self).measure() < old(self).measure(),
            declarator_outcome(r, final(self).state(), declarator_s(old(self).state())),
        decreases old(self).measure(), 44nat,
    {
        let ghost s0 = self.state();
        if self.match_token(&Token::LeftParen) {
            self.advance()?;
            let ghost s1 = self.state();
            if self.match_token(&Token::RightParen) {
                self.advance()?;
                let ghost s2 = self.state();
                let inner = self.parse_declarator_info_impl();
                proof {
                    assert(declarator_s(s0) == declarator_tail_s(s2, s0, Seq::<ParamV>::empty()));
                }
                let (name, _inner) = inner?;
                let r = (name, DeclaratorType::Function(Vec::new()));
                proof {
                    assert(decl_v(r.1) == DeclV::Function(Seq::<ParamV>::empty()));
                }
                Ok(r)
            } else if self.is_type_specifier() {
                let params = self.parse_parameter_list()?;
                self.expect(Token::RightParen)?;
                let ghost s3 = self.state();
                let inner = self.parse_declarator_info_impl();
                proof {
                    assert(declarator_s(s0) == declarator_tail_s(s3, s0, params_v(params@)));
                }
                let (name, _inner) = inner?;
                Ok((name, DeclaratorType::Function(params)))
            } else {
                let (name, inner) = self.parse_declarator_info_impl()?;
                self.expect(Token::RightParen)?;
                Ok((name, inner))
            }
        } else if let Token::Identifier(name) = &self.current_token {
            let name = name.clone();
            self.advance()?;
            if self.match_token(&Token::LeftParen) {
                self.advance()?;
                if self.match_token(&Token::RightParen) {
                    self.advance()?;
                    let r = (name, DeclaratorType::Function(Vec::new()));
                    proof {
                        assert(decl_v(r.1) == DeclV::Function(Seq::<ParamV>::empty()));
                    }
                    Ok(r)
                } else {
                    let params = self.parse_parameter_list()?;
                    self.expect(Token::RightParen)?;
                    Ok((name, DeclaratorType::Function(params)))
                }
            } else {
                Ok((name, DeclaratorType::Direct))
            }
        } else {
            let mut message = String::new();
            push_str(&mut message, "Expected declarator, found ");
            write_token_debug(&mut message, &self.current_token);
            Err(self.error_here(message))
        }
    }

    fn is_type_specifier(&self) -> (r: bool)
        ensures
            r == (self.current_token is Void || self.current_token is Char
                || self.current_token is Int || self.current_token is Long),
            r == is_type_token(self.state().cur),
    {
        matches!(self.current_token, Token::Void | Token::Char | Token::Int | Token::Long)
    }

    fn parse_parameter_list(&mut self) -> (r: Result<Vec<Parameter>, ParseError>)
        requires
            old(self).wf(),
        ensures
            final(self).wf(),
            final(self).source() == old(self).source(),
            final(self).measure() <= old(self).measure(),
            r is Ok ==> final(self).measure() < old(self).measure(),
            params_outcome(r, final(self).state(), params_s(old(self).state(), Seq::empty())),
        decreases old(self).measure(), 43nat,
    {
        let mut params: Vec<Parameter> = Vec::new();
        let ghost m0 = self.measure();
        let ghost s0 = self.state();
        loop
            invariant_except_break
                self.wf(),
                self.source() == old(self).source(),
                self.measure() <= m0,
                m0 == old(self).measure(),
                params.len() > 0 ==> self.measure() < m0,
                params_s(s0, Seq::empty()) == params_s(self.state(), params_v(params@)),
                s0 == old(self).state(),
            ensures
                self.wf(),
                self.source() == old(self).source(),
                self.measure() < m0,
                params_s(s0, Seq::empty()) == Parsed::Done(params_v(params@), self.state()),
            decreases self.measure(),
        {
            let ghost st = self.state();
            let param_type = self.parse_type_specifier()?;
            let (param_name, declarator_type) = self.parse_declarator_info()?;
            let ghost d = declarator_type;
            let param = Parameter {
                name: param_name,
                param_type: apply_declarator_to_type(declarator_type, param_type),
            };
            let ghost pv = params_v(params@);
            let ghost before = params@;
            let ghost entry = ParamV { ty: type_v(param.param_type), name: param.name@ };
            params.push(param);
            proof {
                assert(params@.drop_last() =~= before);
                assert(params_v(params@) == pv.push(entry));
            }
            if self.match_token(&Token::Comma) {
                self.advance()?;
            } else {
                break;
            }
        }
        Ok(params)
    }

    fn parse_compound_statement(&mut self) -> (r: Result<ASTNode, ParseError>)
        requires
            old(self).wf(),
        ensures
            final(self).wf(),
            final(self).source() == old(self).source(),
            final(self).measure() <= old(self).measure(),
            r is Ok ==> final(self).measure() < old(self).measure(),
            node_outcome(r, final(self).state(), compound_s(old(self).state())),
        decreases old(self).measure(), 50nat,
    {
        let ghost s0 = self.state();
        self.expect(Token::LeftBrace)?;
        let ghost m1 = self.measure();
        let ghost s1 = self.state();
        let mut declarations: Vec<ASTNode> = Vec::new();
        while self.is_type_specifier()
            invariant
                self.wf(),
                self.source() == old(self).source(),
                self.measure() <= m1,
                m1 < old(self).measure(),
                declarations_s(s1, Seq::empty()) == declarations_s(self.state(), asts_v(declarations@)),
                s0 == old(self).state(),
                expect_s(s0, TokenView::LeftBrace) == Parsed::<()>::Done((), s1),
                msr(s1) < msr(s0),
            decreases self.measure(),
        {
            let ghost st = self.state();
            let d = self.parse_declaration()?;
            let ghost before = declarations@;
            let ghost dv = ast_v(d);
            declarations.push(d);
            proof {
                assert(declarations@.drop_last() =~= before);
                assert(asts_v(declarations@) == asts_v(before).push(dv));
            }
        }
        let ghost s2 = self.state();
        proof {
            assert(declarations_s(s1, Seq::empty()) == Parsed::Done(asts_v(declarations@), s2));
        }
        let statements = self.parse_statement_list()?;
        proof {
            assert(statements_s(s2, Seq::empty()) == Parsed::Done(asts_v(statements@), self.state()));
        }
        self.expect(Token::RightBrace)?;
        let r = ASTNode::new(ASTKind::CompoundStatement { declarations, statements });
        Ok(r)
    }

    /// Statements up to a closing brace or the end of the text.
    fn parse_statement_list(&mut self) -> (r: Result<Vec<ASTNode>, ParseError>)
        requires
            old(self).wf(),
        ensures
            final(self).wf(),
            final(self).source() == old(self).source(),
            final(self).measure() <= old(self).measure(),
            nodes_outcome(r, final(self).state(), statements_s(old(self).state(), Seq::empty())),
        decreases old(self).measure(), 65nat,
    {
        let ghost s2 = self.state();
        let ghost m2 = self.measure();
        let mut statements: Vec<ASTNode> = Vec::new();
        while !self.match_token(&Token::RightBrace) && !self.match_token(&Token::Eof)
            invariant
                self.wf(),
                self.source() == old(self).source(),
                self.measure() <= m2,
                m2 == old(self).measure(),
                s2 == old(self).state(),
                statements_s(s2, Seq::empty()) == statements_s(self.state(), asts_v(statements@)),
            decreases self.measure(),
        {
            let ghost st = self.state();
            let x = self.parse_statement()?;
            let ghost before = statements@;
            let ghost xv = ast_v(x);
            statements.push(x);
            proof {
                assert(statements@.drop_last() =~= before);
                assert(asts_v(statements@) == asts_v(before).push(xv));
                assert(statements_s(st, asts_v(before)) == statements_s(self.state(), asts_v(statements@)));
            }
        }
        proof {
            assert(statements_s(s2, Seq::empty()) == Parsed::Done(asts_v(statements@), self.state()));
        }
        Ok(statements)
    }

    fn parse_declaration(&mut self) -> (r: Result<ASTNode, ParseError>)
        requires
            old(self).wf(),
        ensures
            final(self).wf(),
            final(self).source() == old(self).source(),
            final(self).measure() <= old(self).measure(),
            r is Ok ==> final(self).measure() < old(self).measure(),
            node_outcome(r, final(self).state(), declaration_s(old(self).state())),
        decreases old(self).measure(), 40nat,
    {
        let type_spec = self.parse_type_specifier()?;
        let (name, declarator_type) = self.parse_declarator_info()?;
        self.expect(Token::Semicolon)?;
        Ok(ASTNode::new(ASTKind::Declaration {
            var_type: apply_declarator_to_type(declarator_type, type_spec),
            name,
        }))
    }

    fn parse_statement(&mut self) -> (r: Result<ASTNode, ParseError>)
        requires
            old(self).wf(),
        ensures
            final(self).wf(),
            final(self).source() == old(self).source(),
            final(self).measure() <= old(self).measure(),
            r is Ok ==> final(self).measure() < old(self).measure(),
            node_outcome(r, final(self).state(), statement_s(old(self).state())),
        decreases old(self).measure(), 60nat,
    {
        match &self.current_token {
            Token::If => self.parse_if_statement(),
            Token::While => self.parse_while_statement(),
            Token::Return => self.parse_return_statement(),
            Token::LeftBrace => self.parse_compound_statement(),
            _ => self.parse_expression_statement(),
        }
    }

    fn parse_if_statement(&mut self) -> (r: Result<ASTNode, ParseError>)
        requires
            old(self).wf(),
        ensures
            final(self).wf(),
            final(self).source() == old(self).source(),
            final(self).measure() <= old(self).measure(),
            r is Ok ==> final(self).measure() < old(self).measure(),
            node_outcome(r, final(self).state(), if_s(old(self).state())),
        decreases old(self).measure(), 55nat,
    {
        self.expect(Token::If)?;
        self.expect(Token::LeftParen)?;
        let condition = self.parse_expression()?;
        self.expect(Token::RightParen)?;
        let then_stmt = self.parse_statement()?;
        let else_stmt = if self.match_token(&Token::Else) {
            self.advance()?;
            Some(Box::new(self.parse_statement()?))
        } else {
            None
        };
        Ok(ASTNode::new(ASTKind::IfStatement {
            condition: Box::new(condition),
            then_stmt: Box::new(then_stmt),
            else_stmt,
        }))
    }

    fn parse_while_statement(&mut self) -> (r: Result<ASTNode, ParseError>)
        requires
            old(self).wf(),
        ensures
            final(self).wf(),
            final(self).source() == old(self).source(),
            final(self).measure() <= old(self).measure(),
            r is Ok ==> final(self).measure() < old(self).measure(),
            node_outcome(r, final(self).state(), while_s(old(self).state())),
        decreases old(self).measure(), 55nat,
    {
        self.expect(Token::While)?;
        self.expect(Token::LeftParen)?;
        let condition = self.parse_expression()?;
        self.expect(Token::RightParen)?;
        let body = self.parse_statement()?;
        Ok(ASTNode::new(ASTKind::WhileStatement { condition: Box::new(condition), body: Box::new(body) }))
    }

    fn parse_return_statement(&mut self) -> (r: Result<ASTNode, ParseError>)
        requires
            old(self).wf(),
        ensures
            final(self).wf(),
            final(self).source() == old(self).source(),
            final(self).measure() <= old(self).measure(),
            r is Ok ==> final(self).measure() < old(self).measure(),
            node_outcome(r, final(self).state(), return_s(old(self).state())),
        decreases old(self).measure(), 55nat,
    {
        self.expect(Token::Return)?;
        let ghost s1 = self.state();
        let expr = if self.match_token(&Token::Semicolon) {
            None
        } else {
            Some(Box::new(self.parse_expression()?))
        };
        self.expect(Token::Semicolon)?;
        let r = ASTNode::new(ASTKind::ReturnStatement(expr));
        proof {
            assert(optional_expression_s(s1) matches Parsed::Done(x, t) && t == self.state());
        }
        Ok(r)
    }

    fn parse_expression_statement(&mut self) -> (r: Result<ASTNode, ParseError>)
        requires
            old(self).wf(),
        ensures
            final(self).wf(),
            final(self).source() == old(self).source(),
            final(self).measure() <= old(self).measure(),
            r is Ok ==> final(self).measure() < old(self).measure(),
            node_outcome(r, final(self).state(), expression_statement_s(old(self).state())),
        decreases old(self).measure(), 55nat,
    {
        let expr = if self.match_token(&Token::Semicolon) {
            None
        } else {
            Some(Box::new(self.parse_expression()?))
        };
        self.expect(Token::Semicolon)?;
        Ok(ASTNode::new(ASTKind::ExpressionStatement(expr)))
    }

    fn parse_expression(&mut self) -> (r: Result<ASTNode, ParseError>)
        requires
            old(self).wf(),
        ensures
            final(self).wf(),
            final(self).source() == old(self).source(),
            final(self).measure() <= old(self).measure(),
            r is Ok ==> final(self).measure() < old(self).measure(),
            node_outcome(r, final(self).state(), expression_s(old(self).state())),
        decreases old(self).measure(), 30nat,
    {
        self.parse_assignment_expression()
    }

    fn parse_assignment_expression(&mut self) -> (r: Result<ASTNode, ParseError>)
        requires
            old(self).wf(),
        ensures
            final(self).wf(),
            final(self).source() == old(self).source(),
            final(self).measure() <= old(self).measure(),
            r is Ok ==> final(self).measure() < old(self).measure(),
            node_outcome(r, final(self).state(), assign_s(old(self).state())),
        decreases old(self).measure(), 29nat,
    {
        let left = self.parse_logical_or_expression()?;
        if self.match_token(&Token::Assign) {
            self.advance()?;
            let right = self.parse_assignment_expression()?;
            Ok(ASTNode::new(ASTKind::BinaryExpression {
                op: BinaryOp::Assign,
                left: Box::new(left),
                right: Box::new(right),
            }))
        } else {
            Ok(left)
        }
    }

    fn parse_logical_or_expression(&mut self) -> (r: Result<ASTNode, ParseError>)
        requires
            old(self).wf(),
        ensures
            final(self).wf(),
            final(self).source() == old(self).source(),
            final(self).measure() <= old(self).measure(),
            r is Ok ==> final(self).measure() < old(self).measure(),
            node_outcome(r, final(self).state(), binary_s(0, old(self).state())),
        decreases old(self).measure(), 28nat,
    {
        let ghost s0 = self.state();
        let mut left = self.parse_logical_and_expression()?;
        let ghost m1 = self.measure();
        proof {
            assert(binary_s(0, s0) == binary_rest_s(0, self.state(), ast_v(left)));
        }
        while self.match_token(&Token::Or)
            invariant
                self.wf(),
                self.source() == old(self).source(),
                self.measure() <= m1,
                m1 < old(self).measure(),
                s0 == old(self).state(),
                binary_s(0, s0) == binary_rest_s(0, self.state(), ast_v(left)),
            decreases self.measure(),
        {
            let ghost st = self.state();
            let ghost lv = ast_v(left);
            let op = BinaryOp::Or;
            proof {
                assert(op_at(0, st.cur) == Some(op));
            }
            self.advance()?;
            let ghost s1 = self.state();
            proof {
                assert(advance_s(st) == Parsed::Done((), s1));
                assert(msr(s1) < msr(st));
                assert(operand_s(0, s1) == binary_s(1, s1));
            }
            let right = self.parse_logical_and_expression()?;
            let ghost s2 = self.state();
            left = ASTNode::new(ASTKind::BinaryExpression {
                op,
                left: Box::new(left),
                right: Box::new(right),
            });
            proof {
                assert(msr(s2) < msr(st));
                assert(ast_v(left) == AstV::BinaryExpression(op, Box::new(lv), Box::new(ast_v(right))));
                assert(binary_rest_s(0, st, lv) == binary_rest_s(0, s2, ast_v(left)));
            }
        }
        proof {
            assert(op_at(0, self.state().cur) is None);
        }
        Ok(left)
    }

    fn parse_logical_and_expression(&mut self) -> (r: Result<ASTNode, ParseError>)
        requires
            old(self).wf(),
        ensures
            final(self).wf(),
            final(self).source() == old(self).source(),
            final(self).measure() <= old(self).measure(),
            r is Ok ==> final(self).measure() < old(self).measure(),
            node_outcome(r, final(self).state(), binary_s(1, old(self).state())),
        decreases old(self).measure(), 27nat,
    {
        let ghost s0 = self.state();
        let mut left = self.parse_equality_expression()?;
        let ghost m1 = self.measure();
        proof {
            assert(binary_s(1, s0) == binary_rest_s(1, self.state(), ast_v(left)));
        }
        while self.match_token(&Token::And)
            invariant
                self.wf(),
                self.source() == old(self).source(),
                self.measure() <= m1,
                m1 < old(self).measure(),
                s0 == old(self).state(),
                binary_s(1, s0) == binary_rest_s(1, self.state(), ast_v(left)),
            decreases self.measure(),
        {
            let ghost st = self.state();
            let ghost lv = ast_v(left);
            let op = BinaryOp::And;
            proof {
                assert(op_at(1, st.cur) == Some(op));
            }
            self.advance()?;
            let ghost s1 = self.state();
            proof {
                assert(advance_s(st) == Parsed::Done((), s1));
                assert(msr(s1) < msr(st));
                assert(operand_s(1, s1) == binary_s(2, s1));
            }
            let right = self.parse_equality_expression()?;
            let ghost s2 = self.state();
            left = ASTNode::new(ASTKind::BinaryExpression {
                op,
                left: Box::new(left),
                right: Box::new(right),
            });
            proof {
                assert(msr(s2) < msr(st));
                assert(ast_v(left) == AstV::BinaryExpression(op, Box::new(lv), Box::new(ast_v(right))));
                assert(binary_rest_s(1, st, lv) == binary_rest_s(1, s2, ast_v(left)));
            }
        }
        proof {
            assert(op_at(1, self.state().cur) is None);
        }
        Ok(left)
    }

    fn parse_equality_expression(&mut self) -> (r: Result<ASTNode, ParseError>)
        requires
            old(self).wf(),
        ensures
            final(self).wf(),
            final(self).source() == old(self).source(),
            final(self).measure() <= old(self).measure(),
            r is Ok ==> final(self).measure() < old(self).measure(),
            node_outcome(r, final(self).state(), binary_s(2, old(self).state())),
        decreases old(self).measure(), 26nat,
    {
        let ghost s0 = self.state();
        let mut left = self.parse_relational_expression()?;
        let ghost m1 = self.measure();
        proof {
            assert(binary_s(2, s0) == binary_rest_s(2, self.state(), ast_v(left)));
        }
        while self.match_token(&Token::Eq)
            invariant
                self.wf(),
                self.source() == old(self).source(),
                self.measure() <= m1,
                m1 < old(self).measure(),
                s0 == old(self).state(),
                binary_s(2, s0) == binary_rest_s(2, self.state(), ast_v(left)),
            decreases self.measure(),
        {
            let ghost st = self.state();
            let ghost lv = ast_v(left);
            let op = BinaryOp::Eq;
            proof {
                assert(op_at(2, st.cur) == Some(op));
            }
            self.advance()?;
            let ghost s1 = self.state();
            proof {
                assert(advance_s(st) == Parsed::Done((), s1));
                assert(msr(s1) < msr(st));
                assert(operand_s(2, s1) == binary_s(3, s1));
            }
            let right = self.parse_relational_expression()?;
            let ghost s2 = self.state();
            left = ASTNode::new(ASTKind::BinaryExpression {
                op,
                left: Box::new(left),
                right: Box::new(right),
            });
            proof {
                assert(msr(s2) < msr(st));
                assert(ast_v(left) == AstV::BinaryExpression(op, Box::new(lv), Box::new(ast_v(right))));
                assert(binary_rest_s(2, st, lv) == binary_rest_s(2, s2, ast_v(left)));
            }
        }
        proof {
            assert(op_at(2, self.state().cur) is None);
        }
        Ok(left)
    }

    fn parse_relational_expression(&mut self) -> (r: Result<ASTNode, ParseError>)
        requires
            old(self).wf(),
        ensures
            final(self).wf(),
            final(self).source() == old(self).source(),
            final(self).measure() <= old(self).measure(),
            r is Ok ==> final(self).measure() < old(self).measure(),
            node_outcome(r, final(self).state(), binary_s(3, old(self).state())),
        decreases old(self).measure(), 25nat,
    {
        let ghost s0 = self.state();
        let mut left = self.parse_additive_expression()?;
        let ghost m1 = self.measure();
        proof {
            assert(binary_s(3, s0) == binary_rest_s(3, self.state(), ast_v(left)));
        }
        while self.match_token(&Token::Less)
            invariant
                self.wf(),
                self.source() == old(self).source(),
                self.measure() <= m1,
                m1 < old(self).measure(),
                s0 == old(self).state(),
                binary_s(3, s0) == binary_rest_s(3, self.state(), ast_v(left)),
            decreases self.measure(),
        {
            let ghost st = self.state();
            let ghost lv = ast_v(left);
            let op = BinaryOp::Less;
            proof {
                assert(op_at(3, st.cur) == Some(op));
            }
            self.advance()?;
            let ghost s1 = self.state();
            proof {
                assert(advance_s(st) == Parsed::Done((), s1));
                assert(msr(s1) < msr(st));
                assert(operand_s(3, s1) == binary_s(4, s1));
            }
            let right = self.parse_additive_expression()?;
            let ghost s2 = self.state();
            left = ASTNode::new(ASTKind::BinaryExpression {
                op,
                left: Box::new(left),
                right: Box::new(right),
            });
            proof {
                assert(msr(s2) < msr(st));
                assert(ast_v(left) == AstV::BinaryExpression(op, Box::new(lv), Box::new(ast_v(right))));
                assert(binary_rest_s(3, st, lv) == binary_rest_s(3, s2, ast_v(left)));
            }
        }
        proof {
            assert(op_at(3, self.state().cur) is None);
        }
        Ok(left)
    }

    fn parse_additive_expression(&mut self) -> (r: Result<ASTNode, ParseError>)
        requires
            old(self).wf(),
        ensures
            final(self).wf(),
            final(self).source() == old(self).source(),
            final(self).measure() <= old(self).measure(),
            r is Ok ==> final(self).measure() < old(self).measure(),
            node_outcome(r, final(self).state(), binary_s(4, old(self).state())),
        decreases old(self).measure(), 24nat,
    {
        let ghost s0 = self.state();
        let mut left = self.parse_multiplicative_expression()?;
        let ghost m1 = self.measure();
        proof {
            assert(binary_s(4, s0) == binary_rest_s(4, self.state(), ast_v(left)));
        }
        while self.match_token(&Token::Plus) || self.match_token(&Token::Minus)
            invariant
                self.wf(),
                self.source() == old(self).source(),
                self.measure() <= m1,
                m1 < old(self).measure(),
                s0 == old(self).state(),
                binary_s(4, s0) == binary_rest_s(4, self.state(), ast_v(left)),
            decreases self.measure(),
        {
            let ghost st = self.state();
            let ghost lv = ast_v(left);
            let op = if self.match_token(&Token::Plus) {
                BinaryOp::Add
            } else {
                BinaryOp::Sub
            };
            proof {
                assert(op_at(4, st.cur) == Some(op));
            }
            self.advance()?;
            let ghost s1 = self.state();
            proof {
                assert(advance_s(st) == Parsed::Done((), s1));
                assert(msr(s1) < msr(st));
                assert(operand_s(4, s1) == binary_s(5, s1));
            }
            let right = self.parse_multiplicative_expression()?;
            let ghost s2 = self.state();
            left = ASTNode::new(ASTKind::BinaryExpression {
                op,
                left: Box::new(left),
                right: Box::new(right),
            });
            proof {
                assert(msr(s2) < msr(st));
                assert(ast_v(left) == AstV::BinaryExpression(op, Box::new(lv), Box::new(ast_v(right))));
                assert(binary_rest_s(4, st, lv) == binary_rest_s(4, s2, ast_v(left)));
            }
        }
        proof {
            assert(op_at(4, self.state().cur) is None);
        }
        Ok(left)
    }

    fn parse_multiplicative_expression(&mut self) -> (r: Result<ASTNode, ParseError>)
        requires
            old(self).wf(),
        ensures
            final(self).wf(),
            final(self).source() == old(self).source(),
            final(self).measure() <= old(self).measure(),
            r is Ok ==> final(self).measure() < old(self).measure(),
            node_outcome(r, final(self).state(), binary_s(5, old(self).state())),
        decreases old(self).measure(), 23nat,
    {
        let ghost s0 = self.state();
        let mut left = self.parse_unary_expression()?;
        let ghost m1 = self.measure();
        proof {
            assert(binary_s(5, s0) == binary_rest_s(5, self.state(), ast_v(left)));
        }
        while self.match_token(&Token::Multiply) || self.match_token(&Token::Divide)
            invariant
                self.wf(),
                self.source() == old(self).source(),
                self.measure() <= m1,
                m1 < old(self).measure(),
                s0 == old(self).state(),
                binary_s(5, s0) == binary_rest_s(5, self.state(), ast_v(left)),
            decreases self.measure(),
        {
            let ghost st = self.state();
            let ghost lv = ast_v(left);
            let op = if self.match_token(&Token::Multiply) {
                BinaryOp::Mul
            } else {
                BinaryOp::Div
            };
            proof {
                assert(op_at(5, st.cur) == Some(op));
            }
            self.advance()?;
            let ghost s1 = self.state();
            proof {
                assert(advance_s(st) == Parsed::Done((), s1));
                assert(msr(s1) < msr(st));
                assert(operand_s(5, s1) == unary_s(s1));
            }
            let right = self.parse_unary_expression()?;
            let ghost s2 = self.state();
            left = ASTNode::new(ASTKind::BinaryExpression {
                op,
                left: Box::new(left),
                right: Box::new(right),
            });
            proof {
                assert(msr(s2) < msr(st));
                assert(ast_v(left) == AstV::BinaryExpression(op, Box::new(lv), Box::new(ast_v(right))));
                assert(binary_rest_s(5, st, lv) == binary_rest_s(5, s2, ast_v(left)));
            }
        }
        proof {
            assert(op_at(5, self.state().cur) is None);
        }
        Ok(left)
    }

    fn parse_unary_expression(&mut self) -> (r: Result<ASTNode, ParseError>)
        requires
            old(self).wf(),
        ensures
            final(self).wf(),
            final(self).source() == old(self).source(),
            final(self).measure() <= old(self).measure(),
            r is Ok ==> final(self).measure() < old(self).measure(),
            node_outcome(r, final(self).state(), unary_s(old(self).state())),
        decreases old(self).measure(), 22nat,
    {
        let op = match &self.current_token {
            Token::Address => UnaryOp::Address,
            Token::Multiply => UnaryOp::Deref,
            Token::Plus => UnaryOp::Plus,
            Token::Minus => UnaryOp::Minus,
            Token::Not => UnaryOp::Not,
            _ => {
                return self.parse_postfix_expression();
            },
        };
        self.advance()?;
        let operand = self.parse_unary_expression()?;
        Ok(ASTNode::new(ASTKind::UnaryExpression { op, operand: Box::new(operand) }))
    }

    fn parse_postfix_expression(&mut self) -> (r: Result<ASTNode, ParseError>)
        requires
            old(self).wf(),
        ensures
            final(self).wf(),
            final(self).source() == old(self).source(),
            final(self).measure() <= old(self).measure(),
            r is Ok ==> final(self).measure() < old(self).measure(),
            node_outcome(r, final(self).state(), postfix_s(old(self).state())),
        decreases old(self).measure(), 21nat,
    {
        let ghost s0 = self.state();
        let mut expr = self.parse_primary_expression()?;
        let ghost m1 = self.measure();
        proof {
            assert(postfix_s(s0) == calls_s(self.state(), ast_v(expr)));
        }
        while self.match_token(&Token::LeftParen)
            invariant
                self.wf(),
                self.source() == old(self).source(),
                self.measure() <= m1,
                m1 < old(self).measure(),
                s0 == old(self).state(),
                postfix_s(s0) == calls_s(self.state(), ast_v(expr)),
            decreases self.measure(),
        {
            let ghost st = self.state();
            let ghost ev = ast_v(expr);
            self.advance()?;
            let ghost s1 = self.state();
            let args = if self.match_token(&Token::RightParen) {
                let empty: Vec<ASTNode> = Vec::new();
                proof {
                    assert(asts_v(empty@) == Seq::<AstV>::empty());
                }
                empty
            } else {
                self.parse_argument_expression_list()?
            };
            self.expect(Token::RightParen)?;
            expr = ASTNode::new(ASTKind::FunctionCall { function: Box::new(expr), args });
            proof {
                assert(calls_s(st, ev) == calls_s(self.state(), ast_v(expr)));
            }
        }
        Ok(expr)
    }

    fn parse_argument_expression_list(&mut self) -> (r: Result<Vec<ASTNode>, ParseError>)
        requires
            old(self).wf(),
        ensures
            final(self).wf(),
            final(self).source() == old(self).source(),
            final(self).measure() <= old(self).measure(),
            r is Ok ==> final(self).measure() < old(self).measure(),
            nodes_outcome(r, final(self).state(), arguments_s(old(self).state(), Seq::empty())),
        decreases old(self).measure(), 35nat,
    {
        let mut args: Vec<ASTNode> = Vec::new();
        let ghost m0 = self.measure();
        let ghost s0 = self.state();
        loop
            invariant_except_break
                self.wf(),
                self.source() == old(self).source(),
                self.measure() <= m0,
                m0 == old(self).measure(),
                args.len() > 0 ==> self.measure() < m0,
                s0 == old(self).state(),
                arguments_s(s0, Seq::empty()) == arguments_s(self.state(), asts_v(args@)),
            ensures
                self.wf(),
                self.source() == old(self).source(),
                self.measure() < m0,
                arguments_s(s0, Seq::empty()) == Parsed::Done(asts_v(args@), self.state()),
            decreases self.measure(),
        {
            let a = self.parse_assignment_expression()?;
            let ghost before = args@;
            let ghost av = ast_v(a);
            args.push(a);
            proof {
                assert(args@.drop_last() =~= before);
                assert(asts_v(args@) == asts_v(before).push(av));
            }
            if self.match_token(&Token::Comma) {
                self.advance()?;
            } else {
                break;
            }
        }
        Ok(args)
    }

    fn parse_primary_expression(&mut self) -> (r: Result<ASTNode, ParseError>)
        requires
            old(self).wf(),
        ensures
            final(self).wf(),
            final(self).source() == old(self).source(),
            final(self).measure() <= old(self).measure(),
            r is Ok ==> final(self).measure() < old(self).measure(),
            node_outcome(r, final(self).state(), primary_s(old(self).state())),
        decreases old(self).measure(), 20nat,
    {
        let kind = match &self.current_token {
            Token::Identifier(name) => ASTKind::Identifier(name.clone()),
            Token::Integer(value) => ASTKind::IntegerLiteral(*value),
            Token::Character(ch) => ASTKind::CharacterLiteral(*ch),
            Token::String(s) => ASTKind::StringLiteral(s.clone()),
            Token::LeftParen => {
                self.advance()?;
                let expr = self.parse_expression()?;
                self.expect(Token::RightParen)?;
                return Ok(ASTNode::new(ASTKind::ParenExpression(Box::new(expr))));
            },
            _ => {
                let mut message = String::new();
                push_str(&mut message, "Unexpected token in expression: ");
                write_token_debug(&mut message, &self.current_token);
                return Err(self.error_here(message));
            },
        };
        self.advance()?;
        Ok(ASTNode::new(kind))
    }
}

fn apply_declarator_to_type(declarator: DeclaratorType, base_type: Type) -> (r: Type)
    ensures
        type_v(r) == apply_v(decl_v(declarator), type_v(base_type)),
    decreases declarator,
{
    match declarator {
        DeclaratorType::Direct => base_type,
        DeclaratorType::Pointer(inner) => Type::Pointer(
            Box::new(apply_declarator_to_type(*inner, base_type)),
        ),
        DeclaratorType::Function(params) => Type::Function { ret_type: Box::new(base_type), params },
    }
}

} // verus!
