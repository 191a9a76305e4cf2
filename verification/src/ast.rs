//! The abstract syntax tree produced by the parser.
use vstd::prelude::*;
use crate::grammar::{AstV, ast_v, asts_v, lemma_type_eq_view, lemma_params_eq_view};
use crate::text::{push_str, i64_to_text, push_char, escape_debug, decimal, signed_decimal, debug_escaped, debug_char, debug_char_quoted, debug_quoted, debug_str};

verus! {

/// Types of the C subset.
#[derive(Debug, PartialEq)]
pub enum Type {
    Void,
    Bool,
    Char,
    Int,
    Long,
    Pointer(Box<Type>),
    Function { ret_type: Box<Type>, params: Vec<Parameter> },
}

/// A named, typed function parameter.
#[derive(Debug, PartialEq)]
pub struct Parameter {
    pub param_type: Type,
    pub name: String,
}

impl Type {
    pub fn is_void(&self) -> (r: bool)
        ensures
            r == (*self is Void),
    {
        matches!(self, Type::Void)
    }

    pub fn is_pointer(&self) -> (r: bool)
        ensures
            r == (*self is Pointer),
    {
        matches!(self, Type::Pointer(_))
    }

    pub fn is_function(&self) -> (r: bool)
        ensures
            r == (*self is Function),
    {
        matches!(self, Type::Function { .. })
    }

    /// Integer-like types: `int`, `long`, `char` and `bool`.
    pub fn is_number(&self) -> (r: bool)
        ensures
            r == self.spec_is_number(),
    {
        matches!(self, Type::Int | Type::Long | Type::Char | Type::Bool)
    }

    pub open spec fn spec_is_number(&self) -> bool {
        *self is Int || *self is Long || *self is Char || *self is Bool
    }

    pub fn is_bool(&self) -> (r: bool)
        ensures
            r == (*self is Bool),
    {
        matches!(self, Type::Bool)
    }

    /// The pointee of a pointer type.
    pub fn deref(&self) -> (r: Option<&Type>)
        ensures
            match *self {
                Type::Pointer(inner) => r == Some(&*inner),
                _ => r is None,
            },
    {
        if let Type::Pointer(inner) = self {
            Some(inner)
        } else {
            None
        }
    }

    /// Size in bytes on a 64-bit target.
    pub fn size(&self) -> (r: usize)
        ensures
            r == self.spec_size(),
    {
        match self {
            Type::Void => 0,
            Type::Bool => 1,
            Type::Char => 1,
            Type::Int => 4,
            Type::Long => 8,
            Type::Pointer(_) => 8,
            Type::Function { .. } => 8,
        }
    }

    pub open spec fn spec_size(&self) -> usize {
        match *self {
            Type::Void => 0,
            Type::Bool => 1,
            Type::Char => 1,
            Type::Int => 4,
            Type::Long => 8,
            Type::Pointer(_) => 8,
            Type::Function { .. } => 8,
        }
    }
}

impl Clone for Type {
    fn clone(&self) -> (r: Self)
        ensures
            type_eq(r, *self),
        decreases type_height(*self),
    {
        match self {
            Type::Void => Type::Void,
            Type::Bool => Type::Bool,
            Type::Char => Type::Char,
            Type::Int => Type::Int,
            Type::Long => Type::Long,
            Type::Pointer(inner) => Type::Pointer(Box::new(Type::clone(inner))),
            Type::Function { ret_type, params } => {
                let mut copied: Vec<Parameter> = Vec::new();
                let mut i: usize = 0;
                while i < params.len()
                    invariant
                        i <= params.len(),
                        *self == (Type::Function { ret_type: *ret_type, params: *params }),
                        params_eq(copied@, params@.subrange(0, i as int)),
                    decreases params.len() - i,
                {
                    proof {
                        lemma_param_height(params@, i as int);
                    }
                    let ghost prev = copied@;
                    copied.push(Parameter::clone(&params[i]));
                    i += 1;
                    proof {
                        assert(copied@.drop_last() =~= prev);
                        assert(params@.subrange(0, i as int).drop_last() =~= params@.subrange(0, i - 1));
                    }
                }
                proof {
                    assert(params@.subrange(0, i as int) =~= params@);
                }
                Type::Function { ret_type: Box::new(Type::clone(ret_type)), params: copied }
            },
        }
    }
}

impl Clone for Parameter {
    fn clone(&self) -> (r: Self)
        ensures
            r.name@ == self.name@,
            type_eq(r.param_type, self.param_type),
        decreases type_height(self.param_type) + 1,
    {
        Parameter { param_type: Type::clone(&self.param_type), name: self.name.clone() }
    }
}

/// A copy of a parameter list, pairwise equal to it.
pub fn copy_params(params: &Vec<Parameter>) -> (r: Vec<Parameter>)
    ensures
        params_eq(r@, params@),
{
    let mut copied: Vec<Parameter> = Vec::new();
    let mut i: usize = 0;
    while i < params.len()
        invariant
            i <= params.len(),
            params_eq(copied@, params@.subrange(0, i as int)),
        decreases params.len() - i,
    {
        let ghost prev = copied@;
        copied.push(params[i].clone());
        i += 1;
        proof {
            assert(copied@.drop_last() =~= prev);
            assert(params@.subrange(0, i as int).drop_last() =~= params@.subrange(0, i - 1));
        }
    }
    proof {
        assert(params@.subrange(0, i as int) =~= params@);
    }
    copied
}

/// Structural equality of types, parameter names included.
pub open spec fn type_eq(a: Type, b: Type) -> bool
    decreases type_height(a),
{
    match a {
        Type::Void => b is Void,
        Type::Bool => b is Bool,
        Type::Char => b is Char,
        Type::Int => b is Int,
        Type::Long => b is Long,
        Type::Pointer(x) => match b {
            Type::Pointer(y) => type_eq(*x, *y),
            _ => false,
        },
        Type::Function { ret_type: r1, params: p1 } => match b {
            Type::Function { ret_type: r2, params: p2 } => type_eq(*r1, *r2) && params_eq(p1@, p2@),
            _ => false,
        },
    }
}

/// Pairwise equal parameter lists.
pub open spec fn params_eq(p: Seq<Parameter>, q: Seq<Parameter>) -> bool
    decreases params_height(p),
{
    if p.len() != q.len() {
        false
    } else if p.len() == 0 {
        true
    } else {
        params_eq(p.drop_last(), q.drop_last()) && p.last().name@ == q.last().name@ && type_eq(
            p.last().param_type,
            q.last().param_type,
        )
    }
}

/// Decides [`type_eq`].
pub fn types_equal(a: &Type, b: &Type) -> (r: bool)
    ensures
        r == type_eq(*a, *b),
    decreases type_height(*a),
{
    match (a, b) {
        (Type::Void, Type::Void) => true,
        (Type::Bool, Type::Bool) => true,
        (Type::Char, Type::Char) => true,
        (Type::Int, Type::Int) => true,
        (Type::Long, Type::Long) => true,
        (Type::Pointer(x), Type::Pointer(y)) => types_equal(x, y),
        (Type::Function { ret_type: r1, params: p1 }, Type::Function { ret_type: r2, params: p2 }) => {
            proof {
                assert(type_eq(*a, *b) == (type_eq(**r1, **r2) && params_eq(p1@, p2@)));
            }
            if !types_equal(r1, r2) {
                return false;
            }
            if p1.len() != p2.len() {
                return false;
            }
            let mut i: usize = 0;
            while i < p1.len()
                invariant
                    i <= p1.len(),
                    p1.len() == p2.len(),
                    *a == (Type::Function { ret_type: *r1, params: *p1 }),
                    type_eq(*a, *b) == (type_eq(**r1, **r2) && params_eq(p1@, p2@)),
                    type_eq(**r1, **r2),
                    params_eq(p1@.subrange(0, i as int), p2@.subrange(0, i as int)),
                decreases p1.len() - i,
            {
                proof {
                    lemma_param_height(p1@, i as int);
                }
                let same = p1[i].name == p2[i].name && types_equal(&p1[i].param_type, &p2[i].param_type);
                proof {
                    assert(p1@.subrange(0, i + 1).drop_last() =~= p1@.subrange(0, i as int));
                    assert(p2@.subrange(0, i + 1).drop_last() =~= p2@.subrange(0, i as int));
                }
                if !same {
                    proof {
                        if params_eq(p1@, p2@) {
                            lemma_params_eq_prefix(p1@, p2@, i + 1);
                            assert(p1@.subrange(0, i + 1).last() == p1@[i as int]);
                            assert(p2@.subrange(0, i + 1).last() == p2@[i as int]);
                        }
                    }
                    return false;
                }
                i += 1;
            }
            proof {
                assert(p1@.subrange(0, i as int) =~= p1@);
                assert(p2@.subrange(0, i as int) =~= p2@);
            }
            true
        },
        _ => false,
    }
}

/// Equal lists have equal prefixes.
pub proof fn lemma_params_eq_prefix(p: Seq<Parameter>, q: Seq<Parameter>, k: int)
    requires
        params_eq(p, q),
        0 <= k <= p.len(),
    ensures
        params_eq(p.subrange(0, k), q.subrange(0, k)),
    decreases p.len(),
{
    if k < p.len() {
        assert(p.drop_last().subrange(0, k) =~= p.subrange(0, k));
        assert(q.drop_last().subrange(0, k) =~= q.subrange(0, k));
        lemma_params_eq_prefix(p.drop_last(), q.drop_last(), k);
    } else {
        assert(p.subrange(0, k) =~= p);
        assert(q.subrange(0, k) =~= q);
    }
}

/// Height of a type term, a measure for recursion over types.
pub open spec fn type_height(t: Type) -> nat
    decreases t,
{
    match t {
        Type::Pointer(b) => 1 + type_height(*b),
        Type::Function { ret_type, params } => 1 + type_height(*ret_type) + params_height(params@),
        _ => 0,
    }
}

pub open spec fn params_height(p: Seq<Parameter>) -> nat
    decreases p,
{
    if p.len() == 0 {
        0
    } else {
        1 + type_height(p.last().param_type) + params_height(p.drop_last())
    }
}

pub proof fn lemma_param_height(p: Seq<Parameter>, i: int)
    requires
        0 <= i < p.len(),
    ensures
        type_height(p[i].param_type) < params_height(p),
    decreases p.len(),
{
    if i < p.len() - 1 {
        lemma_param_height(p.drop_last(), i);
    }
}

/// The C spelling of a type: `*` before a pointer's target, and a function
/// type as its return type followed by its parameters in parentheses.
pub open spec fn type_text(t: Type) -> Seq<char>
    decreases type_height(t),
{
    match t {
        Type::Void => "void"@,
        Type::Bool => "bool"@,
        Type::Char => "char"@,
        Type::Int => "int"@,
        Type::Long => "long"@,
        Type::Pointer(inner) => seq!['*'] + type_text(*inner),
        Type::Function { ret_type, params } => type_text(*ret_type) + " ("@ + params_text(params@) + seq![')'],
    }
}

/// `<type> <name>` for each parameter, separated by `, `.
pub open spec fn params_text(p: Seq<Parameter>) -> Seq<char>
    decreases params_height(p),
{
    if p.len() == 0 {
        Seq::empty()
    } else if p.len() == 1 {
        type_text(p.last().param_type) + seq![' '] + p.last().name@
    } else {
        params_text(p.drop_last()) + ", "@ + type_text(p.last().param_type) + seq![' '] + p.last().name@
    }
}

/// `<type> <name>`.
pub open spec fn parameter_text(p: Parameter) -> Seq<char> {
    type_text(p.param_type) + seq![' '] + p.name@
}

/// Appends the C spelling of a type.
pub fn write_type(out: &mut String, t: &Type)
    ensures
        final(out)@ == old(out)@ + type_text(*t),
    decreases type_height(*t),
{
    match t {
        Type::Void => push_str(out, "void"),
        Type::Bool => push_str(out, "bool"),
        Type::Char => push_str(out, "char"),
        Type::Int => push_str(out, "int"),
        Type::Long => push_str(out, "long"),
        Type::Pointer(inner) => {
            push_char(out, '*');
            write_type(out, inner);
            proof {
                assert(out@ =~= old(out)@ + type_text(*t));
            }
        },
        Type::Function { ret_type, params } => {
            write_type(out, ret_type);
            push_str(out, " (");
            let ghost head = out@;
            let mut i: usize = 0;
            proof {
                assert(params@.subrange(0, 0) =~= Seq::<Parameter>::empty());
            }
            while i < params.len()
                invariant
                    i <= params.len(),
                    *t == (Type::Function { ret_type: *ret_type, params: *params }),
                    out@ == head + params_text(params@.subrange(0, i as int)),
                decreases params.len() - i,
            {
                let ghost sub = params@.subrange(0, i + 1);
                proof {
                    assert(sub.drop_last() =~= params@.subrange(0, i as int));
                    assert(sub.last() == params@[i as int]);
                    lemma_param_height(params@, i as int);
                }
                let ghost before = out@;
                if i > 0 {
                    push_str(out, ", ");
                }
                write_parameter(out, &params[i]);
                proof {
                    if i == 0 {
                        assert(sub.len() == 1);
                        assert(sub.last() == sub[0]);
                    }
                    assert(out@ =~= head + params_text(sub));
                }
                i += 1;
            }
            push_char(out, ')');
            proof {
                assert(params@.subrange(0, i as int) =~= params@);
                assert(out@ =~= old(out)@ + type_text(*t));
            }
        },
    }
}

/// Appends `<type> <name>`.
pub fn write_parameter(out: &mut String, p: &Parameter)
    ensures
        final(out)@ == old(out)@ + parameter_text(*p),
    decreases type_height(p.param_type) + 1,
{
    write_type(out, &p.param_type);
    push_char(out, ' ');
    push_str(out, p.name.as_str());
    proof {
        assert(out@ =~= old(out)@ + parameter_text(*p));
    }
}

impl Type {
    /// The C spelling of the type (`*int`, `long (int a, char b)`).
    pub fn to_text(&self) -> (r: String)
        ensures
            r@ == type_text(*self),
    {
        let mut s = String::new();
        write_type(&mut s, self);
        s
    }
}

} // verus!

verus! {

/// Prefix operators.
#[derive(Debug, Clone, Copy, PartialEq, Eq)]
pub enum UnaryOp {
    Address,
    Deref,
    Plus,
    Minus,
    Not,
}

/// Infix operators.
#[derive(Debug, Clone, Copy, PartialEq, Eq)]
pub enum BinaryOp {
    Assign,
    Or,
    And,
    Eq,
    Less,
    Add,
    Sub,
    Mul,
    Div,
}

impl UnaryOp {
    /// The operator as written in C source.
    pub fn symbol(&self) -> (r: &'static str)
        ensures
            r@ == self.spec_symbol(),
    {
        proof {
            reveal_strlit("&");
            reveal_strlit("*");
            reveal_strlit("+");
            reveal_strlit("-");
            reveal_strlit("!");
        }
        match self {
            UnaryOp::Address => "&",
            UnaryOp::Deref => "*",
            UnaryOp::Plus => "+",
            UnaryOp::Minus => "-",
            UnaryOp::Not => "!",
        }
    }

    pub open spec fn spec_symbol(&self) -> Seq<char> {
        match *self {
            UnaryOp::Address => seq!['&'],
            UnaryOp::Deref => seq!['*'],
            UnaryOp::Plus => seq!['+'],
            UnaryOp::Minus => seq!['-'],
            UnaryOp::Not => seq!['!'],
        }
    }

    pub open spec fn spec_name(&self) -> Seq<char> {
        match *self {
            UnaryOp::Address => "Address"@,
            UnaryOp::Deref => "Deref"@,
            UnaryOp::Plus => "Plus"@,
            UnaryOp::Minus => "Minus"@,
            UnaryOp::Not => "Not"@,
        }
    }

    /// The variant name, as `Debug` prints it.
    pub fn name(&self) -> (r: &'static str)
        ensures
            r@ == self.spec_name(),
    {
        match self {
            UnaryOp::Address => "Address",
            UnaryOp::Deref => "Deref",
            UnaryOp::Plus => "Plus",
            UnaryOp::Minus => "Minus",
            UnaryOp::Not => "Not",
        }
    }
}

impl BinaryOp {
    /// The operator as written in C source.
    pub fn symbol(&self) -> (r: &'static str)
        ensures
            r@ == self.spec_symbol(),
    {
        proof {
            reveal_strlit("=");
            reveal_strlit("||");
            reveal_strlit("&&");
            reveal_strlit("==");
            reveal_strlit("<");
            reveal_strlit("+");
            reveal_strlit("-");
            reveal_strlit("*");
            reveal_strlit("/");
        }
        match self {
            BinaryOp::Assign => "=",
            BinaryOp::Or => "||",
            BinaryOp::And => "&&",
            BinaryOp::Eq => "==",
            BinaryOp::Less => "<",
            BinaryOp::Add => "+",
            BinaryOp::Sub => "-",
            BinaryOp::Mul => "*",
            BinaryOp::Div => "/",
        }
    }

    pub open spec fn spec_symbol(&self) -> Seq<char> {
        match *self {
            BinaryOp::Assign => seq!['='],
            BinaryOp::Or => seq!['|', '|'],
            BinaryOp::And => seq!['&', '&'],
            BinaryOp::Eq => seq!['=', '='],
            BinaryOp::Less => seq!['<'],
            BinaryOp::Add => seq!['+'],
            BinaryOp::Sub => seq!['-'],
            BinaryOp::Mul => seq!['*'],
            BinaryOp::Div => seq!['/'],
        }
    }

    pub open spec fn spec_name(&self) -> Seq<char> {
        match *self {
            BinaryOp::Assign => "Assign"@,
            BinaryOp::Or => "Or"@,
            BinaryOp::And => "And"@,
            BinaryOp::Eq => "Eq"@,
            BinaryOp::Less => "Less"@,
            BinaryOp::Add => "Add"@,
            BinaryOp::Sub => "Sub"@,
            BinaryOp::Mul => "Mul"@,
            BinaryOp::Div => "Div"@,
        }
    }

    /// The variant name, as `Debug` prints it.
    pub fn name(&self) -> (r: &'static str)
        ensures
            r@ == self.spec_name(),
    {
        match self {
            BinaryOp::Assign => "Assign",
            BinaryOp::Or => "Or",
            BinaryOp::And => "And",
            BinaryOp::Eq => "Eq",
            BinaryOp::Less => "Less",
            BinaryOp::Add => "Add",
            BinaryOp::Sub => "Sub",
            BinaryOp::Mul => "Mul",
            BinaryOp::Div => "Div",
        }
    }
}

/// A node of the syntax tree.
#[derive(Debug, PartialEq)]
pub struct ASTNode {
    pub kind: ASTKind,
}

#[allow(inconsistent_fields)]
#[derive(Debug, PartialEq)]
pub enum ASTKind {
    TranslationUnit(Vec<ASTNode>),
    FunctionDefinition { ret_type: Type, name: String, params: Vec<Parameter>, body: Box<ASTNode> },
    Declaration { var_type: Type, name: String },
    ExpressionStatement(Option<Box<ASTNode>>),
    CompoundStatement { declarations: Vec<ASTNode>, statements: Vec<ASTNode> },
    IfStatement {
        condition: Box<ASTNode>,
        then_stmt: Box<ASTNode>,
        else_stmt: Option<Box<ASTNode>>,
    },
    WhileStatement { condition: Box<ASTNode>, body: Box<ASTNode> },
    ReturnStatement(Option<Box<ASTNode>>),
    Identifier(String),
    IntegerLiteral(i64),
    CharacterLiteral(char),
    StringLiteral(String),
    BinaryExpression { op: BinaryOp, left: Box<ASTNode>, right: Box<ASTNode> },
    UnaryExpression { op: UnaryOp, operand: Box<ASTNode> },
    FunctionCall { function: Box<ASTNode>, args: Vec<ASTNode> },
    ParenExpression(Box<ASTNode>),
}

impl ASTNode {
    pub fn new(kind: ASTKind) -> (r: Self)
        ensures
            r.kind == kind,
    {
        ASTNode { kind }
    }
}

/// Height of a syntax tree, the measure of recursion over trees.
pub open spec fn node_height(n: ASTNode) -> nat
    decreases n,
{
    match n.kind {
        ASTKind::TranslationUnit(v) => 1 + nodes_height(v@),
        ASTKind::FunctionDefinition { body, .. } => 1 + node_height(*body),
        ASTKind::ExpressionStatement(e) => match e {
            Some(b) => 1 + node_height(*b),
            None => 1,
        },
        ASTKind::CompoundStatement { declarations, statements } => 1 + nodes_height(declarations@)
            + nodes_height(statements@),
        ASTKind::IfStatement { condition, then_stmt, else_stmt } => 1 + node_height(*condition)
            + node_height(*then_stmt) + match else_stmt {
            Some(b) => node_height(*b),
            None => 0,
        },
        ASTKind::WhileStatement { condition, body } => 1 + node_height(*condition) + node_height(
            *body,
        ),
        ASTKind::ReturnStatement(e) => match e {
            Some(b) => 1 + node_height(*b),
            None => 1,
        },
        ASTKind::BinaryExpression { left, right, .. } => 1 + node_height(*left) + node_height(
            *right,
        ),
        ASTKind::UnaryExpression { operand, .. } => 1 + node_height(*operand),
        ASTKind::FunctionCall { function, args } => 1 + node_height(*function) + nodes_height(
            args@,
        ),
        ASTKind::ParenExpression(e) => 1 + node_height(*e),
        _ => 0,
    }
}

pub open spec fn nodes_height(v: Seq<ASTNode>) -> nat
    decreases v,
{
    if v.len() == 0 {
        0
    } else {
        1 + node_height(v.last()) + nodes_height(v.drop_last())
    }
}

pub proof fn lemma_nodes_height(v: Seq<ASTNode>, i: int)
    requires
        0 <= i < v.len(),
    ensures
        node_height(v[i]) < nodes_height(v),
    decreases v.len(),
{
    if i < v.len() - 1 {
        lemma_nodes_height(v.drop_last(), i);
    }
}

fn clone_nodes(v: &Vec<ASTNode>) -> (r: Vec<ASTNode>)
    ensures
        r.len() == v.len(),
        asts_v(r@) == asts_v(v@),
    decreases nodes_height(v@), 3nat,
{
    let mut out: Vec<ASTNode> = Vec::new();
    let mut i: usize = 0;
    while i < v.len()
        invariant
            i <= v.len(),
            out.len() == i,
            asts_v(out@) == asts_v(v@.subrange(0, i as int)),
        decreases v.len() - i,
    {
        proof {
            lemma_nodes_height(v@, i as int);
        }
        let ghost prev = out@;
        out.push(clone_node(&v[i]));
        i += 1;
        proof {
            assert(out@.drop_last() =~= prev);
            assert(v@.subrange(0, i as int).drop_last() =~= v@.subrange(0, i - 1));
        }
    }
    proof {
        assert(v@.subrange(0, i as int) =~= v@);
    }
    out
}

fn clone_boxed(b: &Box<ASTNode>) -> (r: Box<ASTNode>)
    ensures
        ast_v(*r) == ast_v(**b),
    decreases node_height(**b), 1nat,
{
    Box::new(clone_node(b))
}

fn clone_optional(o: &Option<Box<ASTNode>>) -> (r: Option<Box<ASTNode>>)
    ensures
        r is Some <==> o is Some,
        r is Some ==> ast_v(*r->0) == ast_v(*o->0),
    decreases match o {
        Some(b) => node_height(**b),
        None => 0,
    }, 2nat,
{
    match o {
        Some(b) => Some(clone_boxed(b)),
        None => None,
    }
}

fn clone_node(n: &ASTNode) -> (r: ASTNode)
    ensures
        ast_v(r) == ast_v(*n),
    decreases node_height(*n), 0nat,
{
    let kind = match &n.kind {
        ASTKind::TranslationUnit(v) => ASTKind::TranslationUnit(clone_nodes(v)),
        ASTKind::FunctionDefinition { ret_type, name, params, body } => {
            let mut ps: Vec<Parameter> = Vec::new();
            let mut i: usize = 0;
            while i < params.len()
                invariant
                    i <= params.len(),
                    params_eq(ps@, params@.subrange(0, i as int)),
                decreases params.len() - i,
            {
                let ghost prev = ps@;
                ps.push(params[i].clone());
                i += 1;
                proof {
                    assert(ps@.drop_last() =~= prev);
                    assert(params@.subrange(0, i as int).drop_last() =~= params@.subrange(0, i - 1));
                }
            }
            proof {
                assert(params@.subrange(0, i as int) =~= params@);
                lemma_params_eq_view(ps@, params@);
            }
            let rt = ret_type.clone();
            proof {
                lemma_type_eq_view(rt, *ret_type);
            }
            ASTKind::FunctionDefinition {
                ret_type: rt,
                name: name.clone(),
                params: ps,
                body: clone_boxed(body),
            }
        },
        ASTKind::Declaration { var_type, name } => {
            let vt = var_type.clone();
            proof {
                lemma_type_eq_view(vt, *var_type);
            }
            ASTKind::Declaration { var_type: vt, name: name.clone() }
        },
        ASTKind::ExpressionStatement(e) => ASTKind::ExpressionStatement(clone_optional(e)),
        ASTKind::CompoundStatement { declarations, statements } => ASTKind::CompoundStatement {
            declarations: clone_nodes(declarations),
            statements: clone_nodes(statements),
        },
        ASTKind::IfStatement { condition, then_stmt, else_stmt } => ASTKind::IfStatement {
            condition: clone_boxed(condition),
            then_stmt: clone_boxed(then_stmt),
            else_stmt: clone_optional(else_stmt),
        },
        ASTKind::WhileStatement { condition, body } => ASTKind::WhileStatement {
            condition: clone_boxed(condition),
            body: clone_boxed(body),
        },
        ASTKind::ReturnStatement(e) => ASTKind::ReturnStatement(clone_optional(e)),
        ASTKind::Identifier(s) => ASTKind::Identifier(s.clone()),
        ASTKind::IntegerLiteral(v) => ASTKind::IntegerLiteral(*v),
        ASTKind::CharacterLiteral(c) => ASTKind::CharacterLiteral(*c),
        ASTKind::StringLiteral(s) => ASTKind::StringLiteral(s.clone()),
        ASTKind::BinaryExpression { op, left, right } => ASTKind::BinaryExpression {
            op: *op,
            left: clone_boxed(left),
            right: clone_boxed(right),
        },
        ASTKind::UnaryExpression { op, operand } => ASTKind::UnaryExpression {
            op: *op,
            operand: clone_boxed(operand),
        },
        ASTKind::FunctionCall { function, args } => ASTKind::FunctionCall {
            function: clone_boxed(function),
            args: clone_nodes(args),
        },
        ASTKind::ParenExpression(e) => ASTKind::ParenExpression(clone_boxed(e)),
    };
    ASTNode { kind }
}

impl Clone for ASTNode {
    fn clone(&self) -> (r: Self)
        ensures
            ast_v(r) == ast_v(*self),
    {
        clone_node(self)
    }
}

/// Two spaces per level.
pub open spec fn indentation(indent: nat) -> Seq<char> {
    Seq::new(2 * indent, |i: int| ' ')
}

/// One line of the outline at the given depth.
pub open spec fn outline_line(indent: nat, text: Seq<char>) -> Seq<char> {
    indentation(indent) + text + seq!['\n']
}

/// The indented outline of a tree: a line naming each node, its parts under
/// headings two spaces further in, its children a level (or, under a
/// heading, two levels) deeper.
#[verifier::opaque]
pub open spec fn outline(n: ASTNode, indent: nat) -> Seq<char>
    decreases n,
{
    match n.kind {
        ASTKind::TranslationUnit(v) => outline_line(indent, "TranslationUnit"@) + outlines(v@, indent + 1),
        ASTKind::FunctionDefinition { ret_type, name, params, body } =>
            outline_line(indent, "FunctionDefinition: "@ + type_text(ret_type) + seq![' '] + name@)
                + outline_line(indent, "  Parameters:"@) + parameter_lines(params@, indent)
                + outline_line(indent, "  Body:"@) + outline(*body, indent + 2),
        ASTKind::Declaration { var_type, name } => outline_line(indent, "Declaration: "@ + type_text(var_type) + seq![' '] + name@),
        ASTKind::CompoundStatement { declarations, statements } => outline_line(indent, "CompoundStatement"@)
            + (if declarations@.len() > 0 {
                outline_line(indent, "  Declarations:"@) + outlines(declarations@, indent + 2)
            } else {
                Seq::empty()
            }) + (if statements@.len() > 0 {
                outline_line(indent, "  Statements:"@) + outlines(statements@, indent + 2)
            } else {
                Seq::empty()
            }),
        ASTKind::ExpressionStatement(e) => outline_line(indent, "ExpressionStatement"@) + match e {
            Some(b) => outline(*b, indent + 1),
            None => Seq::empty(),
        },
        ASTKind::IfStatement { condition, then_stmt, else_stmt } => outline_line(indent, "IfStatement"@)
            + outline_line(indent, "  Condition:"@) + outline(*condition, indent + 2)
            + outline_line(indent, "  Then:"@) + outline(*then_stmt, indent + 2) + match else_stmt {
            Some(b) => outline_line(indent, "  Else:"@) + outline(*b, indent + 2),
            None => Seq::empty(),
        },
        ASTKind::WhileStatement { condition, body } => outline_line(indent, "WhileStatement"@)
            + outline_line(indent, "  Condition:"@) + outline(*condition, indent + 2)
            + outline_line(indent, "  Body:"@) + outline(*body, indent + 2),
        ASTKind::ReturnStatement(e) => outline_line(indent, "ReturnStatement"@) + match e {
            Some(b) => outline(*b, indent + 1),
            None => Seq::empty(),
        },
        ASTKind::Identifier(name) => outline_line(indent, "Identifier: "@ + name@),
        ASTKind::IntegerLiteral(v) => outline_line(indent, "IntegerLiteral: "@ + signed_decimal(v as int)),
        ASTKind::CharacterLiteral(c) => outline_line(indent, "CharacterLiteral: '"@ + seq![c] + "'"@),
        ASTKind::StringLiteral(v) => outline_line(indent, "StringLiteral: \""@ + debug_escaped(v@) + "\""@),
        ASTKind::BinaryExpression { op, left, right } => outline_line(indent, "BinaryExpression: "@ + op.spec_name())
            + outline_line(indent, "  Left:"@) + outline(*left, indent + 2)
            + outline_line(indent, "  Right:"@) + outline(*right, indent + 2),
        ASTKind::UnaryExpression { op, operand } => outline_line(indent, "UnaryExpression: "@ + op.spec_name())
            + outline(*operand, indent + 1),
        ASTKind::FunctionCall { function, args } => outline_line(indent, "FunctionCall"@)
            + outline_line(indent, "  Function:"@) + outline(*function, indent + 2) + if args@.len() > 0 {
            outline_line(indent, "  Arguments:"@) + outlines(args@, indent + 2)
        } else {
            Seq::empty()
        },
        ASTKind::ParenExpression(e) => outline_line(indent, "ParenExpression"@) + outline(*e, indent + 1),
    }
}

/// The outlines of sibling nodes, in order.
pub open spec fn outlines(v: Seq<ASTNode>, indent: nat) -> Seq<char>
    decreases v,
{
    if v.len() == 0 {
        Seq::empty()
    } else {
        outlines(v.drop_last(), indent) + outline(v.last(), indent)
    }
}

/// A function's parameter lines, four spaces in from its own line.
pub open spec fn parameter_lines(p: Seq<Parameter>, indent: nat) -> Seq<char>
    decreases p.len(),
{
    if p.len() == 0 {
        Seq::empty()
    } else {
        parameter_lines(p.drop_last(), indent) + outline_line(indent, "    "@ + parameter_text(p.last()))
    }
}

fn push_indent(out: &mut String, indent: usize)
    ensures
        final(out)@ == old(out)@ + indentation(indent as nat),
{
    let mut i: usize = 0;
    proof {
        assert(out@ =~= old(out)@ + indentation(0));
    }
    while i < indent
        invariant
            i <= indent,
            out@ == old(out)@ + indentation(i as nat),
        decreases indent - i,
    {
        push_str(out, "  ");
        proof {
            reveal_strlit("  ");
            assert(out@ =~= old(out)@ + indentation((i + 1) as nat));
        }
        i += 1;
    }
}

fn line(out: &mut String, indent: usize, text: &str)
    ensures
        final(out)@ == old(out)@ + outline_line(indent as nat, text@),
{
    push_indent(out, indent);
    push_str(out, text);
    push_char(out, '\n');
    proof {
        assert(out@ =~= old(out)@ + outline_line(indent as nat, text@));
    }
}

fn display_children(out: &mut String, v: &Vec<ASTNode>, indent: usize)
    requires
        indent + 2 * nodes_height(v@) < usize::MAX - 2,
    ensures
        final(out)@ == old(out)@ + outlines(v@, indent as nat),
    decreases nodes_height(v@), 0nat,
{
    let mut i: usize = 0;
    proof {
        assert(v@.subrange(0, 0) =~= Seq::<ASTNode>::empty());
        assert(out@ =~= old(out)@ + outlines(v@.subrange(0, 0), indent as nat));
    }
    while i < v.len()
        invariant
            i <= v.len(),
            indent + 2 * nodes_height(v@) < usize::MAX - 2,
            out@ == old(out)@ + outlines(v@.subrange(0, i as int), indent as nat),
        decreases v.len() - i,
    {
        proof {
            lemma_nodes_height(v@, i as int);
            assert(v@.subrange(0, i + 1).drop_last() =~= v@.subrange(0, i as int));
            assert(v@.subrange(0, i + 1).last() == v@[i as int]);
        }
        display_node(out, &v[i], indent);
        proof {
            reveal(outline);
            assert(out@ =~= old(out)@ + outlines(v@.subrange(0, i + 1), indent as nat));
        }
        i += 1;
    }
    proof {
        assert(v@.subrange(0, i as int) =~= v@);
    }
}

/// Appends the indented outline of a tree (see [`outline`]).
pub fn display_node(out: &mut String, n: &ASTNode, indent: usize)
    requires
        indent + 2 * node_height(*n) < usize::MAX - 2,
    ensures
        final(out)@ == old(out)@ + outline(*n, indent as nat),
    decreases node_height(*n), 1nat,
{
    match &n.kind {
        ASTKind::Declaration { .. } | ASTKind::Identifier(..) | ASTKind::IntegerLiteral(..) | ASTKind::CharacterLiteral(..) | ASTKind::StringLiteral(..) => display_leaf(out, n, indent),
        ASTKind::FunctionDefinition { .. } => display_function(out, n, indent),
        ASTKind::TranslationUnit(..) | ASTKind::CompoundStatement { .. } | ASTKind::ExpressionStatement(..) | ASTKind::ReturnStatement(..) => display_statement(out, n, indent),
        ASTKind::IfStatement { .. } | ASTKind::WhileStatement { .. } => display_control(out, n, indent),
        ASTKind::BinaryExpression { .. } | ASTKind::UnaryExpression { .. } | ASTKind::FunctionCall { .. } | ASTKind::ParenExpression(..) => display_expression(out, n, indent),
    }
}

fn display_leaf(out: &mut String, n: &ASTNode, indent: usize)
    requires
        indent + 2 * node_height(*n) < usize::MAX - 2,
        n.kind is Declaration || n.kind is Identifier || n.kind is IntegerLiteral || n.kind is CharacterLiteral || n.kind is StringLiteral,
    ensures
        final(out)@ == old(out)@ + outline(*n, indent as nat),
    decreases node_height(*n), 0nat,
{
    let ghost start = out@;
    match &n.kind {
        ASTKind::Declaration { var_type, name } => {
            push_indent(out, indent);
            push_str(out, "Declaration: ");
            write_type(out, var_type);
            push_char(out, ' ');
            push_str(out, name.as_str());
            push_char(out, '\n');
            assert(out@ =~= start + outline(*n, indent as nat)) by {
                reveal(outline);
            }
        },
        ASTKind::Identifier(name) => {
            push_indent(out, indent);
            push_str(out, "Identifier: ");
            push_str(out, name.as_str());
            push_char(out, '\n');
            assert(out@ =~= start + outline(*n, indent as nat)) by {
                reveal(outline);
            }
        },
        ASTKind::IntegerLiteral(value) => {
            push_indent(out, indent);
            push_str(out, "IntegerLiteral: ");
            let v = i64_to_text(*value);
            push_str(out, v.as_str());
            push_char(out, '\n');
            assert(out@ =~= start + outline(*n, indent as nat)) by {
                reveal(outline);
            }
        },
        ASTKind::CharacterLiteral(value) => {
            push_indent(out, indent);
            push_str(out, "CharacterLiteral: '");
            push_char(out, *value);
            push_str(out, "'\n");
            proof {
                reveal_strlit("'\n");
                reveal_strlit("'");
            }
            assert(out@ =~= start + outline(*n, indent as nat)) by {
                reveal(outline);
            }
        },
        ASTKind::StringLiteral(value) => {
            push_indent(out, indent);
            push_str(out, "StringLiteral: \"");
            let escaped = escape_debug(value.as_str());
            push_str(out, escaped.as_str());
            push_str(out, "\"\n");
            proof {
                reveal_strlit("\"\n");
                reveal_strlit("\"");
            }
            assert(out@ =~= start + outline(*n, indent as nat)) by {
                reveal(outline);
            }
        },
        _ => {
            proof {
                assert(false);
            }
        },
    }
}

fn display_statement(out: &mut String, n: &ASTNode, indent: usize)
    requires
        indent + 2 * node_height(*n) < usize::MAX - 2,
        n.kind is TranslationUnit || n.kind is CompoundStatement || n.kind is ExpressionStatement || n.kind is ReturnStatement,
    ensures
        final(out)@ == old(out)@ + outline(*n, indent as nat),
    decreases node_height(*n), 0nat,
{
    let ghost start = out@;
    match &n.kind {
        ASTKind::TranslationUnit(nodes) => {
            line(out, indent, "TranslationUnit");
            display_children(out, nodes, indent + 1);
            assert(out@ =~= start + outline(*n, indent as nat)) by {
                reveal(outline);
            }
        },
        ASTKind::CompoundStatement { declarations, statements } => {
            line(out, indent, "CompoundStatement");
            let ghost mid0 = out@;
            if declarations.len() > 0 {
                line(out, indent, "  Declarations:");
                display_children(out, declarations, indent + 2);
            }
            let ghost mid1 = out@;
            if statements.len() > 0 {
                line(out, indent, "  Statements:");
                display_children(out, statements, indent + 2);
            }
            assert(out@ =~= start + outline(*n, indent as nat)) by {
                reveal(outline);
            }
        },
        ASTKind::ExpressionStatement(expr) => {
            line(out, indent, "ExpressionStatement");
            if let Some(e) = expr {
                display_node(out, e, indent + 1);
            }
            assert(out@ =~= start + outline(*n, indent as nat)) by {
                reveal(outline);
            }
        },
        ASTKind::ReturnStatement(expr) => {
            line(out, indent, "ReturnStatement");
            if let Some(e) = expr {
                display_node(out, e, indent + 1);
            }
            assert(out@ =~= start + outline(*n, indent as nat)) by {
                reveal(outline);
            }
        },
        _ => {
            proof {
                assert(false);
            }
        },
    }
}

fn display_function(out: &mut String, n: &ASTNode, indent: usize)
    requires
        indent + 2 * node_height(*n) < usize::MAX - 2,
        n.kind is FunctionDefinition,
    ensures
        final(out)@ == old(out)@ + outline(*n, indent as nat),
    decreases node_height(*n), 0nat,
{
    let ghost start = out@;
    match &n.kind {
        ASTKind::FunctionDefinition { ret_type, name, params, body } => {
            push_indent(out, indent);
            push_str(out, "FunctionDefinition: ");
            write_type(out, ret_type);
            push_char(out, ' ');
            push_str(out, name.as_str());
            push_char(out, '\n');
            proof {
                assert(out@ =~= start + outline_line(indent as nat, "FunctionDefinition: "@ + type_text(*ret_type) + seq![' '] + name@));
            }
            line(out, indent, "  Parameters:");
            let ghost head = out@;
            let mut i: usize = 0;
            proof {
                assert(params@.subrange(0, 0) =~= Seq::<Parameter>::empty());
                assert(out@ =~= head + parameter_lines(params@.subrange(0, 0), indent as nat));
            }
            while i < params.len()
                invariant
                    i <= params.len(),
                    out@ == head + parameter_lines(params@.subrange(0, i as int), indent as nat),
                decreases params.len() - i,
            {
                proof {
                    assert(params@.subrange(0, i + 1).drop_last() =~= params@.subrange(0, i as int));
                    assert(params@.subrange(0, i + 1).last() == params@[i as int]);
                }
                let ghost before = out@;
                push_indent(out, indent);
                push_str(out, "    ");
                write_parameter(out, &params[i]);
                push_char(out, '\n');
                proof {
                    assert(out@ =~= before + outline_line(indent as nat, "    "@ + parameter_text(params@[i as int])));
                    assert(out@ =~= head + parameter_lines(params@.subrange(0, i + 1), indent as nat));
                }
                i += 1;
            }
            proof {
                assert(params@.subrange(0, i as int) =~= params@);
            }
            line(out, indent, "  Body:");
            display_node(out, body, indent + 2);
            assert(out@ =~= start + outline(*n, indent as nat)) by {
                reveal(outline);
            }
        },
        _ => {
            proof {
                assert(false);
            }
        },
    }
}

fn display_control(out: &mut String, n: &ASTNode, indent: usize)
    requires
        indent + 2 * node_height(*n) < usize::MAX - 2,
        n.kind is IfStatement || n.kind is WhileStatement,
    ensures
        final(out)@ == old(out)@ + outline(*n, indent as nat),
    decreases node_height(*n), 0nat,
{
    let ghost start = out@;
    match &n.kind {
        ASTKind::IfStatement { condition, then_stmt, else_stmt } => {
            line(out, indent, "IfStatement");
            line(out, indent, "  Condition:");
            display_node(out, condition, indent + 2);
            line(out, indent, "  Then:");
            display_node(out, then_stmt, indent + 2);
            let ghost mid = out@;
            if let Some(e) = else_stmt {
                line(out, indent, "  Else:");
                display_node(out, e, indent + 2);
            }
            assert(out@ =~= start + outline(*n, indent as nat)) by {
                reveal(outline);
            }
        },
        ASTKind::WhileStatement { condition, body } => {
            line(out, indent, "WhileStatement");
            line(out, indent, "  Condition:");
            display_node(out, condition, indent + 2);
            line(out, indent, "  Body:");
            display_node(out, body, indent + 2);
            assert(out@ =~= start + outline(*n, indent as nat)) by {
                reveal(outline);
            }
        },
        _ => {
            proof {
                assert(false);
            }
        },
    }
}

#[verifier::rlimit(40)]
fn display_expression(out: &mut String, n: &ASTNode, indent: usize)
    requires
        indent + 2 * node_height(*n) < usize::MAX - 2,
        n.kind is BinaryExpression || n.kind is UnaryExpression || n.kind is FunctionCall || n.kind is ParenExpression,
    ensures
        final(out)@ == old(out)@ + outline(*n, indent as nat),
    decreases node_height(*n), 0nat,
{
    let ghost start = out@;
    match &n.kind {
        ASTKind::BinaryExpression { op, left, right } => {
            push_indent(out, indent);
            push_str(out, "BinaryExpression: ");
            push_str(out, op.name());
            push_char(out, '\n');
            line(out, indent, "  Left:");
            display_node(out, left, indent + 2);
            line(out, indent, "  Right:");
            display_node(out, right, indent + 2);
            assert(out@ =~= start + outline(*n, indent as nat)) by {
                reveal(outline);
            }
        },
        ASTKind::UnaryExpression { op, operand } => {
            push_indent(out, indent);
            push_str(out, "UnaryExpression: ");
            push_str(out, op.name());
            push_char(out, '\n');
            display_node(out, operand, indent + 1);
            assert(out@ =~= start + outline(*n, indent as nat)) by {
                reveal(outline);
            }
        },
        ASTKind::FunctionCall { function, args } => {
            line(out, indent, "FunctionCall");
            line(out, indent, "  Function:");
            display_node(out, function, indent + 2);
            let ghost mid = out@;
            if args.len() > 0 {
                line(out, indent, "  Arguments:");
                display_children(out, args, indent + 2);
            }
            assert(out@ =~= start + outline(*n, indent as nat)) by {
                reveal(outline);
            }
        },
        ASTKind::ParenExpression(expr) => {
            line(out, indent, "ParenExpression");
            display_node(out, expr, indent + 1);
            assert(out@ =~= start + outline(*n, indent as nat)) by {
                reveal(outline);
            }
        },
        _ => {
            proof {
                assert(false);
            }
        },
    }
}

proof fn lemma_nodes_height_prefix(v: Seq<ASTNode>, k: int)
    requires
        0 <= k <= v.len(),
    ensures
        nodes_height(v.subrange(0, k)) <= nodes_height(v),
    decreases v.len(),
{
    if k < v.len() {
        assert(v.drop_last().subrange(0, k) =~= v.subrange(0, k));
        lemma_nodes_height_prefix(v.drop_last(), k);
    } else {
        assert(v.subrange(0, k) =~= v);
    }
}

/// The height of a tree if it is at most `limit`.
fn height_within(n: &ASTNode, limit: usize) -> (r: Option<usize>)
    ensures
        r matches Some(h) ==> h == node_height(*n) && h <= limit,
        r is None ==> node_height(*n) > limit,
    decreases node_height(*n), 1nat,
{
    match &n.kind {
        ASTKind::TranslationUnit(v) => {
            if limit == 0 {
                return None;
            }
            let h = heights_within(v, limit - 1)?;
            Some(1 + h)
        },
        ASTKind::FunctionDefinition { body, .. } => {
            if limit == 0 {
                return None;
            }
            let h = height_within(body, limit - 1)?;
            Some(1 + h)
        },
        ASTKind::ExpressionStatement(e) | ASTKind::ReturnStatement(e) => {
            if limit == 0 {
                return None;
            }
            match e {
                Some(b) => {
                    let h = height_within(b, limit - 1)?;
                    Some(1 + h)
                },
                None => Some(1),
            }
        },
        ASTKind::CompoundStatement { declarations, statements } => {
            if limit == 0 {
                return None;
            }
            let a = heights_within(declarations, limit - 1)?;
            let b = heights_within(statements, limit - 1 - a)?;
            Some(1 + a + b)
        },
        ASTKind::IfStatement { condition, then_stmt, else_stmt } => {
            if limit == 0 {
                return None;
            }
            let a = height_within(condition, limit - 1)?;
            let b = height_within(then_stmt, limit - 1 - a)?;
            match else_stmt {
                Some(e) => {
                    let c = height_within(e, limit - 1 - a - b)?;
                    Some(1 + a + b + c)
                },
                None => Some(1 + a + b),
            }
        },
        ASTKind::WhileStatement { condition: x, body: y } | ASTKind::BinaryExpression { left: x, right: y, .. } => {
            if limit == 0 {
                return None;
            }
            let a = height_within(x, limit - 1)?;
            let b = height_within(y, limit - 1 - a)?;
            Some(1 + a + b)
        },
        ASTKind::UnaryExpression { operand: x, .. } | ASTKind::ParenExpression(x) => {
            if limit == 0 {
                return None;
            }
            let h = height_within(x, limit - 1)?;
            Some(1 + h)
        },
        ASTKind::FunctionCall { function, args } => {
            if limit == 0 {
                return None;
            }
            let a = height_within(function, limit - 1)?;
            let b = heights_within(args, limit - 1 - a)?;
            Some(1 + a + b)
        },
        _ => Some(0),
    }
}

/// The height of a list of trees if it is at most `limit`.
fn heights_within(v: &Vec<ASTNode>, limit: usize) -> (r: Option<usize>)
    ensures
        r matches Some(h) ==> h == nodes_height(v@) && h <= limit,
        r is None ==> nodes_height(v@) > limit,
    decreases nodes_height(v@), 0nat,
{
    let mut total: usize = 0;
    let mut i: usize = 0;
    proof {
        assert(v@.subrange(0, 0) =~= Seq::<ASTNode>::empty());
    }
    while i < v.len()
        invariant
            i <= v.len(),
            total == nodes_height(v@.subrange(0, i as int)),
            total <= limit,
        decreases v.len() - i,
    {
        proof {
            lemma_nodes_height(v@, i as int);
            assert(v@.subrange(0, i + 1).drop_last() =~= v@.subrange(0, i as int));
            assert(v@.subrange(0, i + 1).last() == v@[i as int]);
        }
        if total == limit {
            proof {
                lemma_nodes_height_prefix(v@, i + 1);
            }
            return None;
        }
        let h = match height_within(&v[i], limit - total - 1) {
            Some(h) => h,
            None => {
                proof {
                    lemma_nodes_height_prefix(v@, i + 1);
                }
                return None;
            },
        };
        total = total + 1 + h;
        i += 1;
    }
    proof {
        assert(v@.subrange(0, i as int) =~= v@);
    }
    Some(total)
}

impl ASTNode {
    /// The indented outline of the tree starting at the given depth.
    /// The height of the tree, when it is at most `limit`.
    pub fn height_up_to(&self, limit: usize) -> (r: Option<usize>)
        ensures
            r matches Some(h) ==> h == node_height(*self) && h <= limit,
            r is None ==> node_height(*self) > limit,
    {
        height_within(self, limit)
    }

    /// Whether the outline of the tree can be produced: twice its height
    /// stays below `usize::MAX - 2`.
    pub fn outline_fits(&self) -> (r: bool)
        ensures
            r == (2 * node_height(*self) < usize::MAX - 2),
    {
        height_within(self, (usize::MAX - 3) / 2).is_some()
    }

    pub fn display_with_indent(&self, indent: usize) -> (r: String)
        requires
            indent + 2 * node_height(*self) < usize::MAX - 2,
        ensures
            r@ == outline(*self, indent as nat),
    {
        let mut s = String::new();
        display_node(&mut s, self, indent);
        s
    }

    /// The indented outline of the whole tree.
    pub fn to_text(&self) -> (r: String)
        requires
            2 * node_height(*self) < usize::MAX - 2,
        ensures
            r@ == outline(*self, 0),
    {
        self.display_with_indent(0)
    }
}

} // verus!

verus! {

/// How `Debug` writes a type: the variant, with its fields.
pub open spec fn type_debug(t: Type) -> Seq<char>
    decreases type_height(t),
{
    match t {
        Type::Void => "Void"@,
        Type::Bool => "Bool"@,
        Type::Char => "Char"@,
        Type::Int => "Int"@,
        Type::Long => "Long"@,
        Type::Pointer(inner) => "Pointer("@ + type_debug(*inner) + ")"@,
        Type::Function { ret_type, params } => "Function { ret_type: "@ + type_debug(*ret_type) + ", params: ["@
            + params_debug(params@) + "] }"@,
    }
}

/// How `Debug` writes the parameters of a list, separated by `, `.
pub open spec fn params_debug(p: Seq<Parameter>) -> Seq<char>
    decreases params_height(p),
{
    if p.len() == 0 {
        Seq::empty()
    } else if p.len() == 1 {
        "Parameter { param_type: "@ + type_debug(p.last().param_type) + ", name: "@ + debug_quoted(p.last().name@) + " }"@
    } else {
        params_debug(p.drop_last()) + ", "@ + "Parameter { param_type: "@ + type_debug(p.last().param_type) + ", name: "@
            + debug_quoted(p.last().name@) + " }"@
    }
}

/// How `Debug` writes a node: `ASTNode { kind: <kind> }`.
pub open spec fn node_debug(n: ASTNode) -> Seq<char>
    decreases node_height(n), 1nat,
{
    "ASTNode { kind: "@ + kind_debug(n) + " }"@
}

/// How `Debug` writes nodes of a list, separated by `, `.
pub open spec fn nodes_debug(v: Seq<ASTNode>) -> Seq<char>
    decreases nodes_height(v), 2nat,
{
    if v.len() == 0 {
        Seq::empty()
    } else if v.len() == 1 {
        node_debug(v.last())
    } else {
        nodes_debug(v.drop_last()) + ", "@ + node_debug(v.last())
    }
}

/// How `Debug` writes an optional boxed node.
pub open spec fn option_debug(o: Option<Box<ASTNode>>) -> Seq<char>
    decreases match o {
        Some(b) => node_height(*b),
        None => 0,
    }, 3nat,
{
    match o {
        Some(b) => "Some("@ + node_debug(*b) + ")"@,
        None => "None"@,
    }
}

/// How `Debug` writes the kind of a node: the variant, with its fields.
pub open spec fn kind_debug(n: ASTNode) -> Seq<char>
    decreases node_height(n), 0nat,
{
    match n.kind {
        ASTKind::TranslationUnit(v) => "TranslationUnit(["@ + nodes_debug(v@) + "])"@,
        ASTKind::FunctionDefinition { ret_type, name, params, body } => "FunctionDefinition { ret_type: "@ + type_debug(ret_type)
            + ", name: "@ + debug_quoted(name@) + ", params: ["@ + params_debug(params@) + "], body: "@ + node_debug(*body) + " }"@,
        ASTKind::Declaration { var_type, name } => "Declaration { var_type: "@ + type_debug(var_type) + ", name: "@ + debug_quoted(name@)
            + " }"@,
        ASTKind::ExpressionStatement(e) => "ExpressionStatement("@ + option_debug(e) + ")"@,
        ASTKind::CompoundStatement { declarations, statements } => "CompoundStatement { declarations: ["@ + nodes_debug(declarations@)
            + "], statements: ["@ + nodes_debug(statements@) + "] }"@,
        ASTKind::IfStatement { condition, then_stmt, else_stmt } => "IfStatement { condition: "@ + node_debug(*condition)
            + ", then_stmt: "@ + node_debug(*then_stmt) + ", else_stmt: "@ + option_debug(else_stmt) + " }"@,
        ASTKind::WhileStatement { condition, body } => "WhileStatement { condition: "@ + node_debug(*condition) + ", body: "@
            + node_debug(*body) + " }"@,
        ASTKind::ReturnStatement(e) => "ReturnStatement("@ + option_debug(e) + ")"@,
        ASTKind::Identifier(s) => "Identifier("@ + debug_quoted(s@) + ")"@,
        ASTKind::IntegerLiteral(v) => "IntegerLiteral("@ + signed_decimal(v as int) + ")"@,
        ASTKind::CharacterLiteral(c) => "CharacterLiteral("@ + debug_char_quoted(c) + ")"@,
        ASTKind::StringLiteral(s) => "StringLiteral("@ + debug_quoted(s@) + ")"@,
        ASTKind::BinaryExpression { op, left, right } => "BinaryExpression { op: "@ + op.spec_name() + ", left: "@ + node_debug(*left)
            + ", right: "@ + node_debug(*right) + " }"@,
        ASTKind::UnaryExpression { op, operand } => "UnaryExpression { op: "@ + op.spec_name() + ", operand: "@ + node_debug(*operand)
            + " }"@,
        ASTKind::FunctionCall { function, args } => "FunctionCall { function: "@ + node_debug(*function) + ", args: ["@
            + nodes_debug(args@) + "] }"@,
        ASTKind::ParenExpression(e) => "ParenExpression("@ + node_debug(*e) + ")"@,
    }
}

/// Appends the `Debug` text of a type.
fn write_type_debug(out: &mut String, t: &Type)
    ensures
        final(out)@ == old(out)@ + type_debug(*t),
    decreases type_height(*t),
{
    match t {
        Type::Void => push_str(out, "Void"),
        Type::Bool => push_str(out, "Bool"),
        Type::Char => push_str(out, "Char"),
        Type::Int => push_str(out, "Int"),
        Type::Long => push_str(out, "Long"),
        Type::Pointer(inner) => {
            push_str(out, "Pointer(");
            write_type_debug(out, inner);
            push_str(out, ")");
            proof {
                assert(out@ =~= old(out)@ + type_debug(*t));
            }
        },
        Type::Function { ret_type, params } => {
            push_str(out, "Function { ret_type: ");
            write_type_debug(out, ret_type);
            push_str(out, ", params: [");
            let ghost head = out@;
            let mut i: usize = 0;
            proof {
                assert(params@.subrange(0, 0) =~= Seq::<Parameter>::empty());
            }
            while i < params.len()
                invariant
                    i <= params.len(),
                    *t == (Type::Function { ret_type: *ret_type, params: *params }),
                    out@ == head + params_debug(params@.subrange(0, i as int)),
                decreases params.len() - i,
            {
                let ghost sub = params@.subrange(0, i + 1);
                proof {
                    assert(sub.drop_last() =~= params@.subrange(0, i as int));
                    assert(sub.last() == params@[i as int]);
                    lemma_param_height(params@, i as int);
                }
                let ghost before = out@;
                if i > 0 {
                    push_str(out, ", ");
                }
                push_str(out, "Parameter { param_type: ");
                write_type_debug(out, &params[i].param_type);
                push_str(out, ", name: ");
                let d = debug_str(params[i].name.as_str());
                push_str(out, d.as_str());
                push_str(out, " }");
                i += 1;
                proof {
                    assert(out@ =~= head + params_debug(sub));
                }
            }
            proof {
                assert(params@.subrange(0, i as int) =~= params@);
            }
            push_str(out, "] }");
            proof {
                assert(out@ =~= old(out)@ + type_debug(*t));
            }
        },
    }
}

/// Appends the `Debug` text of a node.
fn write_node_debug(out: &mut String, n: &ASTNode)
    ensures
        final(out)@ == old(out)@ + node_debug(*n),
    decreases node_height(*n), 1nat,
{
    push_str(out, "ASTNode { kind: ");
    write_kind_debug(out, n);
    push_str(out, " }");
    proof {
        assert(out@ =~= old(out)@ + node_debug(*n));
    }
}

/// Appends the `Debug` text of the nodes of a list.
fn write_nodes_debug(out: &mut String, v: &Vec<ASTNode>)
    ensures
        final(out)@ == old(out)@ + nodes_debug(v@),
    decreases nodes_height(v@), 2nat,
{
    let ghost head = out@;
    let mut i: usize = 0;
    proof {
        assert(v@.subrange(0, 0) =~= Seq::<ASTNode>::empty());
    }
    while i < v.len()
        invariant
            i <= v.len(),
            out@ == head + nodes_debug(v@.subrange(0, i as int)),
        decreases v.len() - i,
    {
        let ghost sub = v@.subrange(0, i + 1);
        proof {
            assert(sub.drop_last() =~= v@.subrange(0, i as int));
            assert(sub.last() == v@[i as int]);
            lemma_nodes_height(v@, i as int);
        }
        if i > 0 {
            push_str(out, ", ");
        }
        write_node_debug(out, &v[i]);
        i += 1;
        proof {
            assert(out@ =~= head + nodes_debug(sub));
        }
    }
    proof {
        assert(v@.subrange(0, i as int) =~= v@);
    }
}

/// Appends the `Debug` text of an optional boxed node.
fn write_option_debug(out: &mut String, o: &Option<Box<ASTNode>>)
    ensures
        final(out)@ == old(out)@ + option_debug(*o),
    decreases match *o {
        Some(b) => node_height(*b),
        None => 0,
    }, 3nat,
{
    match o {
        Some(b) => {
            push_str(out, "Some(");
            write_node_debug(out, b);
            push_str(out, ")");
            proof {
                assert(out@ =~= old(out)@ + option_debug(*o));
            }
        },
        None => push_str(out, "None"),
    }
}

/// Appends the `Debug` text of a node's kind.
#[verifier::rlimit(40)]
fn write_kind_debug(out: &mut String, n: &ASTNode)
    ensures
        final(out)@ == old(out)@ + kind_debug(*n),
    decreases node_height(*n), 0nat,
{
    match &n.kind {
        ASTKind::TranslationUnit(v) => {
            push_str(out, "TranslationUnit([");
            write_nodes_debug(out, v);
            push_str(out, "])");
        },
        ASTKind::FunctionDefinition { ret_type, name, params, body } => {
            push_str(out, "FunctionDefinition { ret_type: ");
            write_type_debug(out, ret_type);
            push_str(out, ", name: ");
            let d = debug_str(name.as_str());
            push_str(out, d.as_str());
            push_str(out, ", params: [");
            let ghost head = out@;
            let mut i: usize = 0;
            proof {
                assert(params@.subrange(0, 0) =~= Seq::<Parameter>::empty());
            }
            while i < params.len()
                invariant
                    i <= params.len(),
                    out@ == head + params_debug(params@.subrange(0, i as int)),
                decreases params.len() - i,
            {
                let ghost sub = params@.subrange(0, i + 1);
                proof {
                    assert(sub.drop_last() =~= params@.subrange(0, i as int));
                    assert(sub.last() == params@[i as int]);
                }
                if i > 0 {
                    push_str(out, ", ");
                }
                push_str(out, "Parameter { param_type: ");
                write_type_debug(out, &params[i].param_type);
                push_str(out, ", name: ");
                let d = debug_str(params[i].name.as_str());
                push_str(out, d.as_str());
                push_str(out, " }");
                i += 1;
                proof {
                    assert(out@ =~= head + params_debug(sub));
                }
            }
            proof {
                assert(params@.subrange(0, i as int) =~= params@);
            }
            push_str(out, "], body: ");
            write_node_debug(out, body);
            push_str(out, " }");
        },
        ASTKind::Declaration { var_type, name } => {
            push_str(out, "Declaration { var_type: ");
            write_type_debug(out, var_type);
            push_str(out, ", name: ");
            let d = debug_str(name.as_str());
            push_str(out, d.as_str());
            push_str(out, " }");
        },
        ASTKind::ExpressionStatement(e) => {
            push_str(out, "ExpressionStatement(");
            write_option_debug(out, e);
            push_str(out, ")");
        },
        ASTKind::CompoundStatement { declarations, statements } => {
            push_str(out, "CompoundStatement { declarations: [");
            write_nodes_debug(out, declarations);
            push_str(out, "], statements: [");
            write_nodes_debug(out, statements);
            push_str(out, "] }");
        },
        ASTKind::IfStatement { condition, then_stmt, else_stmt } => {
            push_str(out, "IfStatement { condition: ");
            write_node_debug(out, condition);
            push_str(out, ", then_stmt: ");
            write_node_debug(out, then_stmt);
            push_str(out, ", else_stmt: ");
            write_option_debug(out, else_stmt);
            push_str(out, " }");
        },
        ASTKind::WhileStatement { condition, body } => {
            push_str(out, "WhileStatement { condition: ");
            write_node_debug(out, condition);
            push_str(out, ", body: ");
            write_node_debug(out, body);
            push_str(out, " }");
        },
        ASTKind::ReturnStatement(e) => {
            push_str(out, "ReturnStatement(");
            write_option_debug(out, e);
            push_str(out, ")");
        },
        ASTKind::Identifier(s) => {
            push_str(out, "Identifier(");
            let d = debug_str(s.as_str());
            push_str(out, d.as_str());
            push_str(out, ")");
        },
        ASTKind::IntegerLiteral(v) => {
            push_str(out, "IntegerLiteral(");
            let d = i64_to_text(*v);
            push_str(out, d.as_str());
            push_str(out, ")");
        },
        ASTKind::CharacterLiteral(c) => {
            push_str(out, "CharacterLiteral(");
            let d = debug_char(*c);
            push_str(out, d.as_str());
            push_str(out, ")");
        },
        ASTKind::StringLiteral(s) => {
            push_str(out, "StringLiteral(");
            let d = debug_str(s.as_str());
            push_str(out, d.as_str());
            push_str(out, ")");
        },
        ASTKind::BinaryExpression { op, left, right } => {
            push_str(out, "BinaryExpression { op: ");
            push_str(out, op.name());
            push_str(out, ", left: ");
            write_node_debug(out, left);
            push_str(out, ", right: ");
            write_node_debug(out, right);
            push_str(out, " }");
        },
        ASTKind::UnaryExpression { op, operand } => {
            push_str(out, "UnaryExpression { op: ");
            push_str(out, op.name());
            push_str(out, ", operand: ");
            write_node_debug(out, operand);
            push_str(out, " }");
        },
        ASTKind::FunctionCall { function, args } => {
            push_str(out, "FunctionCall { function: ");
            write_node_debug(out, function);
            push_str(out, ", args: [");
            write_nodes_debug(out, args);
            push_str(out, "] }");
        },
        ASTKind::ParenExpression(e) => {
            push_str(out, "ParenExpression(");
            write_node_debug(out, e);
            push_str(out, ")");
        },
    }
    proof {
        assert(out@ =~= old(out)@ + kind_debug(*n));
    }
}

/// The `Debug` text of a node's kind, as the derived `Debug` writes it.
pub fn kind_debug_text(node: &ASTNode) -> (r: String)
    ensures
        r@ == kind_debug(*node),
{
    let mut s = String::new();
    write_kind_debug(&mut s, node);
    s
}

} // verus!
