//! The grammar of the C subset as mathematical functions: an abstract view
//! of syntax trees and types, and the result of parsing from a position of
//! the token stream (the lexer's `lex` gives the tokens). Each function
//! mirrors one production of the recursive-descent parser.
use vstd::prelude::*;
use crate::ast::{type_height, params_height, node_height, nodes_height, type_eq, params_eq, ASTKind, ASTNode, BinaryOp, Parameter, Type, UnaryOp};
use crate::lexer::{failure_message, lex, pos_col, pos_line, LexStep, TokenView};
use crate::text::{debug_char_quoted, debug_quoted, signed_decimal};

verus! {

// ---------------------------------------------------------------------------
// Abstract syntax.
// ---------------------------------------------------------------------------

/// A type, with sequences in place of vectors.
pub enum TypeV {
    Void,
    Bool,
    Char,
    Int,
    Long,
    Pointer(Box<TypeV>),
    Function(Box<TypeV>, Seq<ParamV>),
}

/// A parameter: its type and name.
pub struct ParamV {
    pub ty: TypeV,
    pub name: Seq<char>,
}

/// A syntax tree, with sequences in place of vectors and strings.
pub enum AstV {
    TranslationUnit(Seq<AstV>),
    FunctionDefinition(TypeV, Seq<char>, Seq<ParamV>, Box<AstV>),
    Declaration(TypeV, Seq<char>),
    ExpressionStatement(Option<Box<AstV>>),
    CompoundStatement(Seq<AstV>, Seq<AstV>),
    IfStatement(Box<AstV>, Box<AstV>, Option<Box<AstV>>),
    WhileStatement(Box<AstV>, Box<AstV>),
    ReturnStatement(Option<Box<AstV>>),
    Identifier(Seq<char>),
    IntegerLiteral(i64),
    CharacterLiteral(char),
    StringLiteral(Seq<char>),
    BinaryExpression(BinaryOp, Box<AstV>, Box<AstV>),
    UnaryExpression(UnaryOp, Box<AstV>),
    FunctionCall(Box<AstV>, Seq<AstV>),
    ParenExpression(Box<AstV>),
}

/// How a declarator shapes the declared type.
pub enum DeclV {
    Direct,
    Pointer(Box<DeclV>),
    Function(Seq<ParamV>),
}

pub open spec fn type_v(t: Type) -> TypeV
    decreases type_height(t),
{
    match t {
        Type::Void => TypeV::Void,
        Type::Bool => TypeV::Bool,
        Type::Char => TypeV::Char,
        Type::Int => TypeV::Int,
        Type::Long => TypeV::Long,
        Type::Pointer(inner) => TypeV::Pointer(Box::new(type_v(*inner))),
        Type::Function { ret_type, params } => TypeV::Function(Box::new(type_v(*ret_type)), params_v(params@)),
    }
}

pub open spec fn params_v(p: Seq<Parameter>) -> Seq<ParamV>
    decreases params_height(p),
{
    if p.len() == 0 {
        Seq::empty()
    } else {
        params_v(p.drop_last()).push(ParamV { ty: type_v(p.last().param_type), name: p.last().name@ })
    }
}

/// Structurally equal types have the same view.
pub proof fn lemma_type_eq_view(a: Type, b: Type)
    requires
        type_eq(a, b),
    ensures
        type_v(a) == type_v(b),
    decreases type_height(a), 0int,
{
    match a {
        Type::Pointer(x) => {
            if let Type::Pointer(y) = b {
                lemma_type_eq_view(*x, *y);
            }
        },
        Type::Function { ret_type: r1, params: p1 } => {
            if let Type::Function { ret_type: r2, params: p2 } = b {
                lemma_type_eq_view(*r1, *r2);
                lemma_params_eq_view(p1@, p2@);
            }
        },
        _ => {},
    }
}

/// Pairwise equal parameter lists have the same view.
pub proof fn lemma_params_eq_view(p: Seq<Parameter>, q: Seq<Parameter>)
    requires
        params_eq(p, q),
    ensures
        params_v(p) == params_v(q),
    decreases params_height(p), 1int,
{
    if p.len() > 0 {
        lemma_params_eq_view(p.drop_last(), q.drop_last());
        lemma_type_eq_view(p.last().param_type, q.last().param_type);
    }
}

/// Types with the same view are structurally equal.
pub proof fn lemma_view_type_eq(a: Type, b: Type)
    requires
        type_v(a) == type_v(b),
    ensures
        type_eq(a, b),
    decreases type_height(a), 0int,
{
    match a {
        Type::Pointer(x) => {
            if let Type::Pointer(y) = b {
                lemma_view_type_eq(*x, *y);
            }
        },
        Type::Function { ret_type: r1, params: p1 } => {
            if let Type::Function { ret_type: r2, params: p2 } = b {
                lemma_view_type_eq(*r1, *r2);
                lemma_view_params_eq(p1@, p2@);
            }
        },
        _ => {},
    }
}

/// A parameter list's view has one entry per parameter.
pub proof fn lemma_params_v_len(p: Seq<Parameter>)
    ensures
        params_v(p).len() == p.len(),
    decreases p.len(),
{
    if p.len() > 0 {
        lemma_params_v_len(p.drop_last());
    }
}

/// Parameter lists with the same view are pairwise equal.
pub proof fn lemma_view_params_eq(p: Seq<Parameter>, q: Seq<Parameter>)
    requires
        params_v(p) == params_v(q),
    ensures
        params_eq(p, q),
    decreases params_height(p), 1int,
{
    lemma_params_v_len(p);
    lemma_params_v_len(q);
    if p.len() > 0 {
        lemma_params_v_len(p.drop_last());
        lemma_params_v_len(q.drop_last());
        assert(params_v(p).drop_last() == params_v(p.drop_last()));
        assert(params_v(q).drop_last() == params_v(q.drop_last()));
        assert(params_v(p).last() == params_v(q).last());
        assert(params_v(p).last() == ParamV { ty: type_v(p.last().param_type), name: p.last().name@ });
        assert(params_v(q).last() == ParamV { ty: type_v(q.last().param_type), name: q.last().name@ });
        assert(type_v(p.last().param_type) == type_v(q.last().param_type));
        lemma_view_params_eq(p.drop_last(), q.drop_last());
        lemma_view_type_eq(p.last().param_type, q.last().param_type);
    }
}

pub open spec fn ast_v(n: ASTNode) -> AstV
    decreases n,
{
    match n.kind {
        ASTKind::TranslationUnit(v) => AstV::TranslationUnit(asts_v(v@)),
        ASTKind::FunctionDefinition { ret_type, name, params, body } => AstV::FunctionDefinition(
            type_v(ret_type),
            name@,
            params_v(params@),
            Box::new(ast_v(*body)),
        ),
        ASTKind::Declaration { var_type, name } => AstV::Declaration(type_v(var_type), name@),
        ASTKind::ExpressionStatement(e) => AstV::ExpressionStatement(
            match e {
                Some(b) => Some(Box::new(ast_v(*b))),
                None => None,
            },
        ),
        ASTKind::CompoundStatement { declarations, statements } => AstV::CompoundStatement(
            asts_v(declarations@),
            asts_v(statements@),
        ),
        ASTKind::IfStatement { condition, then_stmt, else_stmt } => AstV::IfStatement(
            Box::new(ast_v(*condition)),
            Box::new(ast_v(*then_stmt)),
            match else_stmt {
                Some(b) => Some(Box::new(ast_v(*b))),
                None => None,
            },
        ),
        ASTKind::WhileStatement { condition, body } => AstV::WhileStatement(
            Box::new(ast_v(*condition)),
            Box::new(ast_v(*body)),
        ),
        ASTKind::ReturnStatement(e) => AstV::ReturnStatement(
            match e {
                Some(b) => Some(Box::new(ast_v(*b))),
                None => None,
            },
        ),
        ASTKind::Identifier(name) => AstV::Identifier(name@),
        ASTKind::IntegerLiteral(v) => AstV::IntegerLiteral(v),
        ASTKind::CharacterLiteral(c) => AstV::CharacterLiteral(c),
        ASTKind::StringLiteral(s) => AstV::StringLiteral(s@),
        ASTKind::BinaryExpression { op, left, right } => AstV::BinaryExpression(
            op,
            Box::new(ast_v(*left)),
            Box::new(ast_v(*right)),
        ),
        ASTKind::UnaryExpression { op, operand } => AstV::UnaryExpression(op, Box::new(ast_v(*operand))),
        ASTKind::FunctionCall { function, args } => AstV::FunctionCall(Box::new(ast_v(*function)), asts_v(args@)),
        ASTKind::ParenExpression(e) => AstV::ParenExpression(Box::new(ast_v(*e))),
    }
}

pub open spec fn asts_v(v: Seq<ASTNode>) -> Seq<AstV>
    decreases v,
{
    if v.len() == 0 {
        Seq::empty()
    } else {
        asts_v(v.drop_last()).push(ast_v(v.last()))
    }
}

/// The type a declarator gives to a base type.
pub open spec fn apply_v(d: DeclV, base: TypeV) -> TypeV
    decreases d,
{
    match d {
        DeclV::Direct => base,
        DeclV::Pointer(inner) => TypeV::Pointer(Box::new(apply_v(*inner, base))),
        DeclV::Function(params) => TypeV::Function(Box::new(base), params),
    }
}

// ---------------------------------------------------------------------------
// Parsing states and outcomes.
// ---------------------------------------------------------------------------

/// Where the parser stands: the text, the position after the current token,
/// and the current token.
pub struct PState {
    pub src: Seq<char>,
    pub pos: nat,
    pub cur: TokenView,
}

/// An error: message, line and column.
pub struct ErrV {
    pub message: Seq<char>,
    pub line: nat,
    pub column: nat,
}

/// A production's outcome: what it built and where the parser then stands,
/// or the error it stopped on.
pub enum Parsed<T> {
    Done(T, PState),
    Failed(ErrV),
}

/// Tokens left: twice the unread characters, plus one for a current token
/// that is not the end.
pub open spec fn msr(s: PState) -> nat {
    let m = (s.src.len() - s.pos) * 2 + if s.cur is Eof {
        0int
    } else {
        1int
    };
    if m < 0 {
        0
    } else {
        m as nat
    }
}

/// The production went on from a state with fewer tokens left.
pub open spec fn shrinks<T>(p: Parsed<T>, s: PState) -> bool {
    match p {
        Parsed::Done(_, t) => msr(t) < msr(s),
        Parsed::Failed(_) => true,
    }
}

/// Never the outcome of a run of the parser: a production that did not
/// consume any token where it must have.
pub open spec fn stalled<T>() -> Parsed<T> {
    Parsed::Failed(ErrV { message: Seq::empty(), line: 0, column: 0 })
}

/// A syntax error; the parser reports it at line 1, column 1.
pub open spec fn syntax_error<T>(message: Seq<char>) -> Parsed<T> {
    Parsed::Failed(ErrV { message, line: 1, column: 1 })
}

/// The variant of a token, ignoring what it carries.
pub open spec fn token_tag(t: TokenView) -> nat {
    match t {
        TokenView::Char => 0,
        TokenView::Else => 1,
        TokenView::If => 2,
        TokenView::Int => 3,
        TokenView::Long => 4,
        TokenView::Return => 5,
        TokenView::Void => 6,
        TokenView::While => 7,
        TokenView::Eq => 8,
        TokenView::And => 9,
        TokenView::Or => 10,
        TokenView::Plus => 11,
        TokenView::Minus => 12,
        TokenView::Multiply => 13,
        TokenView::Divide => 14,
        TokenView::Less => 15,
        TokenView::Assign => 16,
        TokenView::Address => 17,
        TokenView::Not => 18,
        TokenView::Semicolon => 19,
        TokenView::Colon => 20,
        TokenView::LeftBrace => 21,
        TokenView::RightBrace => 22,
        TokenView::Comma => 23,
        TokenView::LeftParen => 24,
        TokenView::RightParen => 25,
        TokenView::Identifier(_) => 26,
        TokenView::Integer(_) => 27,
        TokenView::Character(_) => 28,
        TokenView::Str(_) => 29,
        TokenView::Eof => 30,
    }
}

/// The text `Debug` writes for a token.
pub open spec fn token_debug(t: TokenView) -> Seq<char> {
    match t {
        TokenView::Char => "Char"@,
        TokenView::Else => "Else"@,
        TokenView::If => "If"@,
        TokenView::Int => "Int"@,
        TokenView::Long => "Long"@,
        TokenView::Return => "Return"@,
        TokenView::Void => "Void"@,
        TokenView::While => "While"@,
        TokenView::Eq => "Eq"@,
        TokenView::And => "And"@,
        TokenView::Or => "Or"@,
        TokenView::Plus => "Plus"@,
        TokenView::Minus => "Minus"@,
        TokenView::Multiply => "Multiply"@,
        TokenView::Divide => "Divide"@,
        TokenView::Less => "Less"@,
        TokenView::Assign => "Assign"@,
        TokenView::Address => "Address"@,
        TokenView::Not => "Not"@,
        TokenView::Semicolon => "Semicolon"@,
        TokenView::Colon => "Colon"@,
        TokenView::LeftBrace => "LeftBrace"@,
        TokenView::RightBrace => "RightBrace"@,
        TokenView::Comma => "Comma"@,
        TokenView::LeftParen => "LeftParen"@,
        TokenView::RightParen => "RightParen"@,
        TokenView::Identifier(s) => "Identifier("@ + debug_quoted(s) + seq![')'],
        TokenView::Integer(n) => "Integer("@ + signed_decimal(n as int) + seq![')'],
        TokenView::Character(c) => "Character("@ + debug_char_quoted(c) + seq![')'],
        TokenView::Str(s) => "String("@ + debug_quoted(s) + seq![')'],
        TokenView::Eof => "Eof"@,
    }
}

/// Reads the next token.
pub open spec fn advance_s(s: PState) -> Parsed<()> {
    match lex(s.src, s.pos) {
        LexStep::Produced(t, e) => Parsed::Done((), PState { src: s.src, pos: e, cur: t }),
        LexStep::Failed(f, at) => Parsed::Failed(
            ErrV { message: failure_message(f), line: pos_line(s.src, at), column: pos_col(s.src, at) },
        ),
    }
}

/// The current token must be of the expected kind; it is consumed.
pub open spec fn expect_s(s: PState, expected: TokenView) -> Parsed<()> {
    if token_tag(s.cur) == token_tag(expected) {
        advance_s(s)
    } else {
        syntax_error("Expected "@ + token_debug(expected) + ", found "@ + token_debug(s.cur))
    }
}

/// The state after a successful step.
pub open spec fn after<T>(p: Parsed<T>) -> PState {
    match p {
        Parsed::Done(_, t) => t,
        Parsed::Failed(_) => PState { src: Seq::empty(), pos: 0, cur: TokenView::Eof },
    }
}

pub open spec fn value<T>(p: Parsed<T>) -> T
    recommends
        p is Done,
{
    match p {
        Parsed::Done(v, _) => v,
        Parsed::Failed(_) => arbitrary(),
    }
}

pub open spec fn error<T>(p: Parsed<T>) -> ErrV {
    match p {
        Parsed::Done(_, _) => ErrV { message: Seq::empty(), line: 0, column: 0 },
        Parsed::Failed(e) => e,
    }
}

// ---------------------------------------------------------------------------
// Types and declarators.
// ---------------------------------------------------------------------------

/// `*` after a base type, any number of times.
pub open spec fn pointers_s(s: PState, base: TypeV) -> Parsed<TypeV>
    decreases msr(s), 0int,
{
    if token_tag(s.cur) == token_tag(TokenView::Multiply) {
        let a = advance_s(s);
        if a is Failed {
            Parsed::Failed(error(a))
        } else if !shrinks(a, s) {
            stalled()
        } else {
            pointers_s(after(a), TypeV::Pointer(Box::new(base)))
        }
    } else {
        Parsed::Done(base, s)
    }
}

/// A type specifier: `void`, `char`, `int` or `long`, then pointers.
pub open spec fn type_s(s: PState) -> Parsed<TypeV>
    decreases msr(s), 1int,
{
    let base = match s.cur {
        TokenView::Void => Some(TypeV::Void),
        TokenView::Char => Some(TypeV::Char),
        TokenView::Int => Some(TypeV::Int),
        TokenView::Long => Some(TypeV::Long),
        _ => None,
    };
    match base {
        None => syntax_error("Expected type specifier, found "@ + token_debug(s.cur)),
        Some(b) => {
            let a = advance_s(s);
            if a is Failed {
                Parsed::Failed(error(a))
            } else if !shrinks(a, s) {
                stalled()
            } else {
                pointers_s(after(a), b)
            }
        },
    }
}

pub open spec fn is_type_token(t: TokenView) -> bool {
    t is Void || t is Char || t is Int || t is Long
}

/// A parameter list: parameters separated by commas.
pub open spec fn params_s(s: PState, acc: Seq<ParamV>) -> Parsed<Seq<ParamV>>
    decreases msr(s), 43int, 0int,
{
    let t = type_s(s);
    if t is Failed {
        Parsed::Failed(error(t))
    } else if !shrinks(t, s) {
        stalled()
    } else {
        let d = declarator_s(after(t));
        if d is Failed {
            Parsed::Failed(error(d))
        } else if !shrinks(d, s) {
            stalled()
        } else {
            let (name, decl) = value(d);
            let acc2 = acc.push(ParamV { ty: apply_v(decl, value(t)), name });
            let s2 = after(d);
            if token_tag(s2.cur) == token_tag(TokenView::Comma) {
                let a = advance_s(s2);
                if a is Failed {
                    Parsed::Failed(error(a))
                } else if !shrinks(a, s) {
                    stalled()
                } else {
                    params_s(after(a), acc2)
                }
            } else {
                Parsed::Done(acc2, s2)
            }
        }
    }
}

/// `)` then the rest of a declarator, whose name is kept.
pub open spec fn declarator_tail_s(s: PState, origin: PState, params: Seq<ParamV>) -> Parsed<(Seq<char>, DeclV)>
    decreases msr(origin), 44int, 0int,
{
    if !(msr(s) < msr(origin)) {
        stalled()
    } else {
        let inner = declarator_s(s);
        match inner {
            Parsed::Done((name, _), t) => Parsed::Done((name, DeclV::Function(params)), t),
            Parsed::Failed(e) => Parsed::Failed(e),
        }
    }
}

/// A declarator: a name, optionally followed by a parameter list; or a
/// parenthesised declarator or parameter list.
pub open spec fn declarator_s(s: PState) -> Parsed<(Seq<char>, DeclV)>
    decreases msr(s), 44int, 1int,
{
    if token_tag(s.cur) == token_tag(TokenView::LeftParen) {
        let a = advance_s(s);
        if a is Failed {
            Parsed::Failed(error(a))
        } else if !shrinks(a, s) {
            stalled()
        } else {
            let s1 = after(a);
            if token_tag(s1.cur) == token_tag(TokenView::RightParen) {
                let b = advance_s(s1);
                if b is Failed {
                    Parsed::Failed(error(b))
                } else {
                    declarator_tail_s(after(b), s, Seq::empty())
                }
            } else if is_type_token(s1.cur) {
                let p = params_s(s1, Seq::empty());
                if p is Failed {
                    Parsed::Failed(error(p))
                } else {
                    let e = expect_s(after(p), TokenView::RightParen);
                    if e is Failed {
                        Parsed::Failed(error(e))
                    } else {
                        declarator_tail_s(after(e), s, value(p))
                    }
                }
            } else {
                let inner = declarator_s(s1);
                if inner is Failed {
                    Parsed::Failed(error(inner))
                } else {
                    let e = expect_s(after(inner), TokenView::RightParen);
                    if e is Failed {
                        Parsed::Failed(error(e))
                    } else {
                        Parsed::Done(value(inner), after(e))
                    }
                }
            }
        }
    } else if s.cur is Identifier {
        let name = s.cur->Identifier_0;
        let a = advance_s(s);
        if a is Failed {
            Parsed::Failed(error(a))
        } else if !shrinks(a, s) {
            stalled()
        } else {
            let s1 = after(a);
            if token_tag(s1.cur) == token_tag(TokenView::LeftParen) {
                let b = advance_s(s1);
                if b is Failed {
                    Parsed::Failed(error(b))
                } else {
                    let s2 = after(b);
                    if token_tag(s2.cur) == token_tag(TokenView::RightParen) {
                        let c = advance_s(s2);
                        if c is Failed {
                            Parsed::Failed(error(c))
                        } else {
                            Parsed::Done((name, DeclV::Function(Seq::empty())), after(c))
                        }
                    } else if !(msr(s2) < msr(s)) {
                        stalled()
                    } else {
                        let p = params_s(s2, Seq::empty());
                        if p is Failed {
                            Parsed::Failed(error(p))
                        } else {
                            let e = expect_s(after(p), TokenView::RightParen);
                            if e is Failed {
                                Parsed::Failed(error(e))
                            } else {
                                Parsed::Done((name, DeclV::Function(value(p))), after(e))
                            }
                        }
                    }
                }
            } else {
                Parsed::Done((name, DeclV::Direct), s1)
            }
        }
    } else {
        syntax_error("Expected declarator, found "@ + token_debug(s.cur))
    }
}

// ---------------------------------------------------------------------------
// Expressions.
// ---------------------------------------------------------------------------

/// The rank of a binary precedence level: 0 is `||`, then `&&`, `==`, `<`,
/// `+ -`, and 5 is `* /`.
pub open spec fn level_rank(level: nat) -> int {
    if level >= 5 {
        23
    } else {
        28 - level
    }
}

/// The operator a token stands for at a precedence level.
pub open spec fn op_at(level: nat, t: TokenView) -> Option<BinaryOp> {
    if level == 0 {
        if t is Or { Some(BinaryOp::Or) } else { None }
    } else if level == 1 {
        if t is And { Some(BinaryOp::And) } else { None }
    } else if level == 2 {
        if t is Eq { Some(BinaryOp::Eq) } else { None }
    } else if level == 3 {
        if t is Less { Some(BinaryOp::Less) } else { None }
    } else if level == 4 {
        if t is Plus {
            Some(BinaryOp::Add)
        } else if t is Minus {
            Some(BinaryOp::Sub)
        } else {
            None
        }
    } else {
        if t is Multiply {
            Some(BinaryOp::Mul)
        } else if t is Divide {
            Some(BinaryOp::Div)
        } else {
            None
        }
    }
}

/// An expression.
pub open spec fn expression_s(s: PState) -> Parsed<AstV>
    decreases msr(s), 30int, 0int,
{
    assign_s(s)
}

/// An assignment (right-associative) or an `||` expression.
pub open spec fn assign_s(s: PState) -> Parsed<AstV>
    decreases msr(s), 29int, 0int,
{
    let l = binary_s(0, s);
    if l is Failed {
        Parsed::Failed(error(l))
    } else if token_tag(after(l).cur) == token_tag(TokenView::Assign) {
        let a = advance_s(after(l));
        if a is Failed {
            Parsed::Failed(error(a))
        } else if !shrinks(a, s) {
            stalled()
        } else {
            let r = assign_s(after(a));
            match r {
                Parsed::Done(rv, t) => Parsed::Done(AstV::BinaryExpression(BinaryOp::Assign, Box::new(value(l)), Box::new(rv)), t),
                Parsed::Failed(e) => Parsed::Failed(e),
            }
        }
    } else {
        l
    }
}

/// The operands of a precedence level: the next level, or unary
/// expressions below `* /`.
pub open spec fn operand_s(level: nat, s: PState) -> Parsed<AstV>
    decreases msr(s), level_rank(level), 0int,
{
    if level >= 5 {
        unary_s(s)
    } else {
        binary_s(level + 1, s)
    }
}

/// Operands of a precedence level joined left to right by its operators.
pub open spec fn binary_s(level: nat, s: PState) -> Parsed<AstV>
    decreases msr(s), level_rank(level), 1int,
{
    let l = operand_s(level, s);
    if l is Failed {
        Parsed::Failed(error(l))
    } else if !shrinks(l, s) {
        stalled()
    } else {
        binary_rest_s(level, after(l), value(l))
    }
}

/// The operators and operands of a precedence level after its first operand.
pub open spec fn binary_rest_s(level: nat, s: PState, left: AstV) -> Parsed<AstV>
    decreases msr(s), level_rank(level), 2int,
{
    match op_at(level, s.cur) {
        None => Parsed::Done(left, s),
        Some(op) => {
            let a = advance_s(s);
            if a is Failed {
                Parsed::Failed(error(a))
            } else if !shrinks(a, s) {
                stalled()
            } else {
                let r = operand_s(level, after(a));
                if r is Failed {
                    Parsed::Failed(error(r))
                } else if !shrinks(r, s) {
                    stalled()
                } else {
                    binary_rest_s(level, after(r), AstV::BinaryExpression(op, Box::new(left), Box::new(value(r))))
                }
            }
        },
    }
}

/// The infix operator a token spells: `+` addition, `-` subtraction, `*`
/// multiplication, `/` division, `<` less-than, `==` equality, `&&`
/// conjunction, `||` disjunction.
pub open spec fn spelled_operator(t: TokenView) -> Option<BinaryOp> {
    match t {
        TokenView::Plus => Some(BinaryOp::Add),
        TokenView::Minus => Some(BinaryOp::Sub),
        TokenView::Multiply => Some(BinaryOp::Mul),
        TokenView::Divide => Some(BinaryOp::Div),
        TokenView::Less => Some(BinaryOp::Less),
        TokenView::Eq => Some(BinaryOp::Eq),
        TokenView::And => Some(BinaryOp::And),
        TokenView::Or => Some(BinaryOp::Or),
        _ => None,
    }
}

/// The precedence levels an infix operator is parsed at: `||` loosest,
/// then `&&`, `==`, `<`, `+ -`, and `* /` tightest.
pub open spec fn parsed_at(op: BinaryOp, level: nat) -> bool {
    match op {
        BinaryOp::Or => level == 0,
        BinaryOp::And => level == 1,
        BinaryOp::Eq => level == 2,
        BinaryOp::Less => level == 3,
        BinaryOp::Add | BinaryOp::Sub => level == 4,
        BinaryOp::Mul | BinaryOp::Div => level >= 5,
        BinaryOp::Assign => false,
    }
}

/// At each precedence level the grammar joins operands exactly with the
/// tokens that spell an operator of that level, and a token stands for the
/// operator it spells: `-` for subtraction, `+` for addition, and so on.
pub proof fn lemma_operator_tokens(level: nat, t: TokenView)
    ensures
        op_at(level, t) matches Some(op) ==> spelled_operator(t) == Some(op) && parsed_at(op, level),
        forall|op: BinaryOp| spelled_operator(t) == Some(op) && #[trigger] parsed_at(op, level) ==> op_at(level, t) == Some(op),
{
}

/// An operand, an operator token of a level and a second operand, followed
/// by no further operator of that level, parse to the binary expression of
/// the operator the token spells, with the two operands in order.
pub proof fn lemma_operator_joins(level: nat, s: PState, left: AstV)
    requires
        op_at(level, s.cur) is Some,
        advance_s(s) is Done,
        shrinks(advance_s(s), s),
        operand_s(level, after(advance_s(s))) is Done,
        shrinks(operand_s(level, after(advance_s(s))), s),
        op_at(level, after(operand_s(level, after(advance_s(s)))).cur) is None,
    ensures
        binary_rest_s(level, s, left) == Parsed::Done(
            AstV::BinaryExpression(
                spelled_operator(s.cur)->0,
                Box::new(left),
                Box::new(value(operand_s(level, after(advance_s(s))))),
            ),
            after(operand_s(level, after(advance_s(s)))),
        ),
{
    lemma_operator_tokens(level, s.cur);
    let r = operand_s(level, after(advance_s(s)));
    let joined = AstV::BinaryExpression(spelled_operator(s.cur)->0, Box::new(left), Box::new(value(r)));
    assert(binary_rest_s(level, after(r), joined) == Parsed::Done(joined, after(r)));
}

/// Operators of one level group to the left: `a op1 b op2 c`, with no
/// further operator of the level after `c`, parses to `(a op1 b) op2 c`,
/// each operator being the one its token spells.
pub proof fn lemma_operators_group_left(level: nat, s: PState, left: AstV)
    requires
        op_at(level, s.cur) is Some,
        advance_s(s) is Done,
        shrinks(advance_s(s), s),
        operand_s(level, after(advance_s(s))) is Done,
        shrinks(operand_s(level, after(advance_s(s))), s),
        op_at(level, after(operand_s(level, after(advance_s(s)))).cur) is Some,
        ({
            let s2 = after(operand_s(level, after(advance_s(s))));
            &&& advance_s(s2) is Done
            &&& shrinks(advance_s(s2), s2)
            &&& operand_s(level, after(advance_s(s2))) is Done
            &&& shrinks(operand_s(level, after(advance_s(s2))), s2)
            &&& op_at(level, after(operand_s(level, after(advance_s(s2)))).cur) is None
        }),
    ensures
        ({
            let r1 = operand_s(level, after(advance_s(s)));
            let s2 = after(r1);
            let r2 = operand_s(level, after(advance_s(s2)));
            binary_rest_s(level, s, left) == Parsed::Done(
                AstV::BinaryExpression(
                    spelled_operator(s2.cur)->0,
                    Box::new(AstV::BinaryExpression(spelled_operator(s.cur)->0, Box::new(left), Box::new(value(r1)))),
                    Box::new(value(r2)),
                ),
                after(r2),
            )
        }),
{
    lemma_operator_tokens(level, s.cur);
    let r1 = operand_s(level, after(advance_s(s)));
    let s2 = after(r1);
    let joined = AstV::BinaryExpression(spelled_operator(s.cur)->0, Box::new(left), Box::new(value(r1)));
    lemma_operator_joins(level, s2, joined);
    assert(binary_rest_s(level, s, left) == binary_rest_s(level, s2, joined));
}

/// The operator a token stands for in front of an operand.
pub open spec fn unary_op_of(t: TokenView) -> Option<UnaryOp> {
    match t {
        TokenView::Address => Some(UnaryOp::Address),
        TokenView::Multiply => Some(UnaryOp::Deref),
        TokenView::Plus => Some(UnaryOp::Plus),
        TokenView::Minus => Some(UnaryOp::Minus),
        TokenView::Not => Some(UnaryOp::Not),
        _ => None,
    }
}

/// The signs read the same in front of an operand as between two: a token
/// that spells subtraction is a prefix minus, one that spells addition a
/// prefix plus, and one that spells multiplication a dereference; `&` takes
/// an address and `!` negates; no other token is a prefix operator.
pub proof fn lemma_prefix_tokens(t: TokenView)
    ensures
        unary_op_of(t) == Some(UnaryOp::Minus) <==> spelled_operator(t) == Some(BinaryOp::Sub),
        unary_op_of(t) == Some(UnaryOp::Plus) <==> spelled_operator(t) == Some(BinaryOp::Add),
        unary_op_of(t) == Some(UnaryOp::Deref) <==> spelled_operator(t) == Some(BinaryOp::Mul),
        unary_op_of(t) == Some(UnaryOp::Address) <==> t is Address,
        unary_op_of(t) == Some(UnaryOp::Not) <==> t is Not,
        unary_op_of(t) is Some ==> t is Minus || t is Plus || t is Multiply || t is Address || t is Not,
{
}

/// Prefix operators, then a postfix expression.
pub open spec fn unary_s(s: PState) -> Parsed<AstV>
    decreases msr(s), 22int, 0int,
{
    match unary_op_of(s.cur) {
        None => postfix_s(s),
        Some(op) => {
            let a = advance_s(s);
            if a is Failed {
                Parsed::Failed(error(a))
            } else if !shrinks(a, s) {
                stalled()
            } else {
                let r = unary_s(after(a));
                match r {
                    Parsed::Done(rv, t) => Parsed::Done(AstV::UnaryExpression(op, Box::new(rv)), t),
                    Parsed::Failed(e) => Parsed::Failed(e),
                }
            }
        },
    }
}

/// A primary expression followed by calls.
pub open spec fn postfix_s(s: PState) -> Parsed<AstV>
    decreases msr(s), 21int, 0int,
{
    let p = primary_s(s);
    if p is Failed {
        Parsed::Failed(error(p))
    } else if !shrinks(p, s) {
        stalled()
    } else {
        calls_s(after(p), value(p))
    }
}

/// Calls `( arguments )` applied to an expression, any number of times.
pub open spec fn calls_s(s: PState, callee: AstV) -> Parsed<AstV>
    decreases msr(s), 21int, 1int,
{
    if token_tag(s.cur) == token_tag(TokenView::LeftParen) {
        let a = advance_s(s);
        if a is Failed {
            Parsed::Failed(error(a))
        } else if !shrinks(a, s) {
            stalled()
        } else {
            let s1 = after(a);
            let args = if token_tag(s1.cur) == token_tag(TokenView::RightParen) {
                Parsed::Done(Seq::empty(), s1)
            } else {
                arguments_s(s1, Seq::empty())
            };
            if args is Failed {
                Parsed::Failed(error(args))
            } else {
                let e = expect_s(after(args), TokenView::RightParen);
                if e is Failed {
                    Parsed::Failed(error(e))
                } else if !shrinks(e, s) {
                    stalled()
                } else {
                    calls_s(after(e), AstV::FunctionCall(Box::new(callee), value(args)))
                }
            }
        }
    } else {
        Parsed::Done(callee, s)
    }
}

/// Arguments: assignment expressions separated by commas.
pub open spec fn arguments_s(s: PState, acc: Seq<AstV>) -> Parsed<Seq<AstV>>
    decreases msr(s), 35int, 0int,
{
    let a = assign_s(s);
    if a is Failed {
        Parsed::Failed(error(a))
    } else {
        let acc2 = acc.push(value(a));
        let s1 = after(a);
        if token_tag(s1.cur) == token_tag(TokenView::Comma) {
            let b = advance_s(s1);
            if b is Failed {
                Parsed::Failed(error(b))
            } else if !shrinks(b, s) {
                stalled()
            } else {
                arguments_s(after(b), acc2)
            }
        } else {
            Parsed::Done(acc2, s1)
        }
    }
}

/// A name, a literal, or a parenthesised expression.
pub open spec fn primary_s(s: PState) -> Parsed<AstV>
    decreases msr(s), 20int, 0int,
{
    let leaf = match s.cur {
        TokenView::Identifier(n) => Some(AstV::Identifier(n)),
        TokenView::Integer(v) => Some(AstV::IntegerLiteral(v)),
        TokenView::Character(c) => Some(AstV::CharacterLiteral(c)),
        TokenView::Str(v) => Some(AstV::StringLiteral(v)),
        _ => None,
    };
    match leaf {
        Some(x) => match advance_s(s) {
            Parsed::Done(_, t) => Parsed::Done(x, t),
            Parsed::Failed(e) => Parsed::Failed(e),
        },
        None => if token_tag(s.cur) == token_tag(TokenView::LeftParen) {
            let a = advance_s(s);
            if a is Failed {
                Parsed::Failed(error(a))
            } else if !shrinks(a, s) {
                stalled()
            } else {
                let e = expression_s(after(a));
                if e is Failed {
                    Parsed::Failed(error(e))
                } else {
                    let c = expect_s(after(e), TokenView::RightParen);
                    if c is Failed {
                        Parsed::Failed(error(c))
                    } else {
                        Parsed::Done(AstV::ParenExpression(Box::new(value(e))), after(c))
                    }
                }
            }
        } else {
            syntax_error("Unexpected token in expression: "@ + token_debug(s.cur))
        },
    }
}

// ---------------------------------------------------------------------------
// Declarations and statements.
// ---------------------------------------------------------------------------

/// A declaration: type, declarator, `;`.
pub open spec fn declaration_s(s: PState) -> Parsed<AstV> {
    let t = type_s(s);
    if t is Failed {
        Parsed::Failed(error(t))
    } else {
        let d = declarator_s(after(t));
        if d is Failed {
            Parsed::Failed(error(d))
        } else {
            let e = expect_s(after(d), TokenView::Semicolon);
            if e is Failed {
                Parsed::Failed(error(e))
            } else {
                let (name, decl) = value(d);
                Parsed::Done(AstV::Declaration(apply_v(decl, value(t)), name), after(e))
            }
        }
    }
}

/// The declarations at the start of a block.
pub open spec fn declarations_s(s: PState, acc: Seq<AstV>) -> Parsed<Seq<AstV>>
    decreases msr(s),
{
    if is_type_token(s.cur) {
        let d = declaration_s(s);
        if d is Failed {
            Parsed::Failed(error(d))
        } else if !shrinks(d, s) {
            stalled()
        } else {
            declarations_s(after(d), acc.push(value(d)))
        }
    } else {
        Parsed::Done(acc, s)
    }
}

/// Statements up to `}` or the end of the text.
pub open spec fn statements_s(s: PState, acc: Seq<AstV>) -> Parsed<Seq<AstV>>
    decreases msr(s), 61int,
{
    if token_tag(s.cur) == token_tag(TokenView::RightBrace) || s.cur is Eof {
        Parsed::Done(acc, s)
    } else {
        let st = statement_s(s);
        if st is Failed {
            Parsed::Failed(error(st))
        } else if !shrinks(st, s) {
            stalled()
        } else {
            statements_s(after(st), acc.push(value(st)))
        }
    }
}

/// `{`, declarations, statements, `}`.
pub open spec fn compound_s(s: PState) -> Parsed<AstV>
    decreases msr(s), 50int,
{
    let e = expect_s(s, TokenView::LeftBrace);
    if e is Failed {
        Parsed::Failed(error(e))
    } else {
        let d = declarations_s(after(e), Seq::empty());
        if d is Failed {
            Parsed::Failed(error(d))
        } else if !shrinks(d, s) {
            stalled()
        } else {
            let st = statements_s(after(d), Seq::empty());
            if st is Failed {
                Parsed::Failed(error(st))
            } else {
                let c = expect_s(after(st), TokenView::RightBrace);
                if c is Failed {
                    Parsed::Failed(error(c))
                } else {
                    Parsed::Done(AstV::CompoundStatement(value(d), value(st)), after(c))
                }
            }
        }
    }
}

/// A statement, chosen by its first token.
pub open spec fn statement_s(s: PState) -> Parsed<AstV>
    decreases msr(s), 60int,
{
    match s.cur {
        TokenView::If => if_s(s),
        TokenView::While => while_s(s),
        TokenView::Return => return_s(s),
        TokenView::LeftBrace => compound_s(s),
        _ => expression_statement_s(s),
    }
}

/// `if ( condition ) statement`, optionally `else statement`.
pub open spec fn if_s(s: PState) -> Parsed<AstV>
    decreases msr(s), 55int,
{
    let e1 = expect_s(s, TokenView::If);
    if e1 is Failed {
        Parsed::Failed(error(e1))
    } else {
        let e2 = expect_s(after(e1), TokenView::LeftParen);
        if e2 is Failed {
            Parsed::Failed(error(e2))
        } else {
            let c = expression_s(after(e2));
            if c is Failed {
                Parsed::Failed(error(c))
            } else {
                let e3 = expect_s(after(c), TokenView::RightParen);
                if e3 is Failed {
                    Parsed::Failed(error(e3))
                } else if !shrinks(e3, s) {
                    stalled()
                } else {
                    let t = statement_s(after(e3));
                    if t is Failed {
                        Parsed::Failed(error(t))
                    } else if token_tag(after(t).cur) == token_tag(TokenView::Else) {
                        let a = advance_s(after(t));
                        if a is Failed {
                            Parsed::Failed(error(a))
                        } else if !shrinks(a, s) {
                            stalled()
                        } else {
                            let f = statement_s(after(a));
                            match f {
                                Parsed::Done(fv, fs) => Parsed::Done(
                                    AstV::IfStatement(Box::new(value(c)), Box::new(value(t)), Some(Box::new(fv))),
                                    fs,
                                ),
                                Parsed::Failed(err) => Parsed::Failed(err),
                            }
                        }
                    } else {
                        Parsed::Done(AstV::IfStatement(Box::new(value(c)), Box::new(value(t)), None), after(t))
                    }
                }
            }
        }
    }
}

/// `while ( condition ) statement`.
pub open spec fn while_s(s: PState) -> Parsed<AstV>
    decreases msr(s), 55int,
{
    let e1 = expect_s(s, TokenView::While);
    if e1 is Failed {
        Parsed::Failed(error(e1))
    } else {
        let e2 = expect_s(after(e1), TokenView::LeftParen);
        if e2 is Failed {
            Parsed::Failed(error(e2))
        } else {
            let c = expression_s(after(e2));
            if c is Failed {
                Parsed::Failed(error(c))
            } else {
                let e3 = expect_s(after(c), TokenView::RightParen);
                if e3 is Failed {
                    Parsed::Failed(error(e3))
                } else if !shrinks(e3, s) {
                    stalled()
                } else {
                    let b = statement_s(after(e3));
                    match b {
                        Parsed::Done(bv, bs) => Parsed::Done(AstV::WhileStatement(Box::new(value(c)), Box::new(bv)), bs),
                        Parsed::Failed(err) => Parsed::Failed(err),
                    }
                }
            }
        }
    }
}

/// An optional expression, then `;`.
pub open spec fn optional_expression_s(s: PState) -> Parsed<Option<Box<AstV>>> {
    let x = if token_tag(s.cur) == token_tag(TokenView::Semicolon) {
        Parsed::Done(None, s)
    } else {
        match expression_s(s) {
            Parsed::Done(v, t) => Parsed::Done(Some(Box::new(v)), t),
            Parsed::Failed(e) => Parsed::Failed(e),
        }
    };
    if x is Failed {
        x
    } else {
        match expect_s(after(x), TokenView::Semicolon) {
            Parsed::Done(_, t) => Parsed::Done(value(x), t),
            Parsed::Failed(e) => Parsed::Failed(e),
        }
    }
}

/// `return`, an optional expression, `;`.
pub open spec fn return_s(s: PState) -> Parsed<AstV>
    decreases msr(s), 55int,
{
    let e = expect_s(s, TokenView::Return);
    if e is Failed {
        Parsed::Failed(error(e))
    } else {
        match optional_expression_s(after(e)) {
            Parsed::Done(x, t) => Parsed::Done(AstV::ReturnStatement(x), t),
            Parsed::Failed(err) => Parsed::Failed(err),
        }
    }
}

/// An optional expression, `;`.
pub open spec fn expression_statement_s(s: PState) -> Parsed<AstV>
    decreases msr(s), 55int,
{
    match optional_expression_s(s) {
        Parsed::Done(x, t) => Parsed::Done(AstV::ExpressionStatement(x), t),
        Parsed::Failed(err) => Parsed::Failed(err),
    }
}

// ---------------------------------------------------------------------------
// External declarations and the translation unit.
// ---------------------------------------------------------------------------

/// A function definition: the declared type must be a function type.
pub open spec fn function_definition_s(s: PState, ret: TypeV, name: Seq<char>, decl: DeclV) -> Parsed<AstV> {
    match apply_v(decl, ret) {
        TypeV::Function(_, params) => match compound_s(s) {
            Parsed::Done(body, t) => Parsed::Done(AstV::FunctionDefinition(ret, name, params, Box::new(body)), t),
            Parsed::Failed(e) => Parsed::Failed(e),
        },
        _ => syntax_error("Expected function type"@),
    }
}

/// A declaration or a function definition at the top level.
pub open spec fn external_s(s: PState) -> Parsed<AstV> {
    let t = type_s(s);
    if t is Failed {
        Parsed::Failed(error(t))
    } else {
        let d = declarator_s(after(t));
        if d is Failed {
            Parsed::Failed(error(d))
        } else {
            let (name, decl) = value(d);
            if token_tag(after(d).cur) == token_tag(TokenView::LeftBrace) {
                function_definition_s(after(d), value(t), name, decl)
            } else {
                let e = expect_s(after(d), TokenView::Semicolon);
                if e is Failed {
                    Parsed::Failed(error(e))
                } else {
                    Parsed::Done(AstV::Declaration(apply_v(decl, value(t)), name), after(e))
                }
            }
        }
    }
}

/// Top-level declarations up to the end of the text.
pub open spec fn unit_s(s: PState, acc: Seq<AstV>) -> Parsed<AstV>
    decreases msr(s),
{
    if s.cur is Eof {
        Parsed::Done(AstV::TranslationUnit(acc), s)
    } else {
        let x = external_s(s);
        if x is Failed {
            Parsed::Failed(error(x))
        } else if !shrinks(x, s) {
            stalled()
        } else {
            unit_s(after(x), acc.push(value(x)))
        }
    }
}

/// The whole text from a parser state.
pub open spec fn parse_s(s: PState) -> Parsed<AstV> {
    unit_s(s, Seq::empty())
}

} // verus!
