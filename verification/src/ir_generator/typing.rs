//! The typing rules that the IR generator enforces: the type of each
//! expression, or its rejection, from the symbols in scope alone; and what
//! statements, function definitions and whole translation units do to the
//! symbols in scope, or why they are rejected.
use vstd::prelude::*;
use crate::ast::{ASTKind, ASTNode, BinaryOp, Parameter, Type, UnaryOp, node_height, nodes_height};
use crate::grammar::{TypeV, type_v, params_v};
use crate::symbol::{SymV, lookup_v, declares};
use crate::ir_generator::domain::VariableType;

verus! {

/// Integer-like types: `int`, `long`, `char` and `bool`.
pub open spec fn number_v(t: TypeV) -> bool {
    t is Int || t is Long || t is Char || t is Bool
}

/// The type of a binary expression from its operand types, or `None` where
/// the operator does not accept them. Assignment is typed apart.
pub open spec fn binary_type_v(op: BinaryOp, l: TypeV, r: TypeV) -> Option<TypeV> {
    let num = number_v(l) && number_v(r);
    match op {
        BinaryOp::Add => if num {
            Some(TypeV::Long)
        } else if l is Pointer && number_v(r) {
            Some(l)
        } else if number_v(l) && r is Pointer {
            Some(r)
        } else {
            None
        },
        BinaryOp::Sub => if num {
            Some(TypeV::Long)
        } else if l is Pointer && number_v(r) {
            Some(l)
        } else if l == r {
            Some(TypeV::Long)
        } else {
            None
        },
        BinaryOp::Mul | BinaryOp::Div => if num {
            Some(TypeV::Long)
        } else {
            None
        },
        BinaryOp::And | BinaryOp::Or => if number_v(l) && number_v(r) {
            Some(TypeV::Bool)
        } else {
            None
        },
        BinaryOp::Eq => if num || l == r {
            Some(TypeV::Bool)
        } else {
            None
        },
        BinaryOp::Less => if num {
            Some(TypeV::Bool)
        } else {
            None
        },
        BinaryOp::Assign => if num {
            Some(TypeV::Long)
        } else if (l is Pointer && r is Pointer) || l == r {
            Some(l)
        } else {
            None
        },
    }
}

/// The type of a prefix expression from its operand type, or `None` where
/// the operator does not accept it.
pub open spec fn unary_type_v(op: UnaryOp, t: TypeV) -> Option<TypeV> {
    match op {
        UnaryOp::Plus | UnaryOp::Minus => if number_v(t) {
            Some(TypeV::Long)
        } else {
            None
        },
        UnaryOp::Not => if number_v(t) {
            Some(TypeV::Bool)
        } else {
            None
        },
        UnaryOp::Deref => match t {
            TypeV::Pointer(inner) => Some(*inner),
            _ => None,
        },
        UnaryOp::Address => Some(TypeV::Pointer(Box::new(t))),
    }
}

/// The type of an expression in the given scopes, or `None` where it is
/// rejected: an unknown name, a call of something that is not a function
/// named directly, an assignment to a function or to something that is
/// neither a name nor a dereference of a pointer, operand types an operator
/// does not accept, or a node that is no expression.
pub open spec fn expr_type(scopes: Seq<Seq<SymV>>, e: ASTNode) -> Option<TypeV>
    decreases node_height(e), 2int,
{
    match e.kind {
        ASTKind::Identifier(name) => match lookup_v(scopes, name@) {
            Some(s) => Some(s.ty),
            None => None,
        },
        ASTKind::IntegerLiteral(_) => Some(TypeV::Long),
        ASTKind::CharacterLiteral(_) => Some(TypeV::Long),
        ASTKind::StringLiteral(_) => Some(TypeV::Pointer(Box::new(TypeV::Char))),
        ASTKind::BinaryExpression { op, left, right } => binary_expr_type(scopes, op, *left, *right),
        ASTKind::UnaryExpression { op, operand } => unary_expr_type(scopes, op, *operand),
        ASTKind::FunctionCall { function, args } => match function.kind {
            ASTKind::Identifier(name) => match lookup_v(scopes, name@) {
                Some(s) => match s.ty {
                    TypeV::Function(ret, _) => if args_typed(scopes, args@) {
                        Some(*ret)
                    } else {
                        None
                    },
                    _ => None,
                },
                None => None,
            },
            _ => None,
        },
        ASTKind::ParenExpression(inner) => expr_type(scopes, *inner),
        _ => None,
    }
}

/// Every expression of a list has a type.
pub open spec fn args_typed(scopes: Seq<Seq<SymV>>, args: Seq<ASTNode>) -> bool
    decreases nodes_height(args), 0int,
{
    if args.len() == 0 {
        true
    } else {
        args_typed(scopes, args.drop_last()) && expr_type(scopes, args.last()) is Some
    }
}

/// The type of a binary expression.
pub open spec fn binary_expr_type(scopes: Seq<Seq<SymV>>, op: BinaryOp, left: ASTNode, right: ASTNode) -> Option<TypeV>
    decreases 1 + node_height(left) + node_height(right), 1int,
{
    match op {
        BinaryOp::Assign => assign_type(scopes, left, right),
        _ => match expr_type(scopes, left) {
            Some(l) => match expr_type(scopes, right) {
                Some(r) => binary_type_v(op, l, r),
                None => None,
            },
            None => None,
        },
    }
}

/// The type of an assignment: that of the value assigned, to a variable in
/// scope that is not a function, or through a pointer.
pub open spec fn assign_type(scopes: Seq<Seq<SymV>>, left: ASTNode, right: ASTNode) -> Option<TypeV>
    decreases 1 + node_height(left) + node_height(right), 0int,
{
    match left.kind {
        ASTKind::Identifier(name) => match lookup_v(scopes, name@) {
            Some(s) => if s.function {
                None
            } else {
                expr_type(scopes, right)
            },
            None => None,
        },
        ASTKind::UnaryExpression { op, operand } => if op is Deref {
            match expr_type(scopes, right) {
                Some(t) => match expr_type(scopes, *operand) {
                    Some(TypeV::Pointer(_)) => Some(t),
                    _ => None,
                },
                None => None,
            }
        } else {
            None
        },
        _ => None,
    }
}

/// The type of a prefix expression; `+` keeps its operand's type as it is.
pub open spec fn unary_expr_type(scopes: Seq<Seq<SymV>>, op: UnaryOp, operand: ASTNode) -> Option<TypeV>
    decreases 1 + node_height(operand), 1int,
{
    match expr_type(scopes, operand) {
        Some(t) => if op is Plus {
            Some(t)
        } else {
            unary_type_v(op, t)
        },
        None => None,
    }
}


/// What statements change: the symbols in scope, and the stack offset of the
/// last local variable or parameter.
pub struct EnvV {
    pub scopes: Seq<Seq<SymV>>,
    pub offset: int,
}

/// Declares a local variable in the innermost scope, at the stack slot eight
/// bytes below the last; rejected when the slots run out or when the
/// innermost scope already has the name.
pub open spec fn declare_local(env: EnvV, name: Seq<char>, t: TypeV) -> Option<EnvV> {
    if env.offset < i32::MIN + 8 {
        None
    } else if declares(env.scopes.last(), name) {
        None
    } else {
        Some(
            EnvV {
                scopes: env.scopes.update(
                    env.scopes.len() - 1,
                    env.scopes.last().push(SymV { name, ty: t, function: false }),
                ),
                offset: env.offset - 8,
            },
        )
    }
}

/// The leading declarations of a block, one after the other; anything but a
/// declaration is rejected.
pub open spec fn locals_env(env: EnvV, decls: Seq<ASTNode>) -> Option<EnvV>
    decreases decls.len(),
{
    if decls.len() == 0 {
        Some(env)
    } else {
        match locals_env(env, decls.drop_last()) {
            Some(e) => match decls.last().kind {
                ASTKind::Declaration { var_type, name } => declare_local(e, name@, type_v(var_type)),
                _ => None,
            },
            None => None,
        }
    }
}

/// What a statement does to the environment, or `None` where it is
/// rejected: a declaration is added to the innermost scope, a block opens a
/// scope for its own declarations and closes it at its end, and every
/// expression in a statement must have a type.
pub open spec fn stmt_env(env: EnvV, s: ASTNode) -> Option<EnvV>
    decreases node_height(s), 1int,
{
    match s.kind {
        ASTKind::Declaration { var_type, name } => declare_local(env, name@, type_v(var_type)),
        ASTKind::ExpressionStatement(e) => match e {
            Some(x) => if expr_type(env.scopes, *x) is Some {
                Some(env)
            } else {
                None
            },
            None => Some(env),
        },
        ASTKind::CompoundStatement { declarations, statements } => match locals_env(
            EnvV { scopes: env.scopes.push(Seq::empty()), offset: env.offset },
            declarations@,
        ) {
            Some(e1) => match stmts_env(e1, statements@) {
                Some(e2) => if e2.scopes.len() <= 1 {
                    None
                } else {
                    Some(EnvV { scopes: e2.scopes.drop_last(), offset: e2.offset })
                },
                None => None,
            },
            None => None,
        },
        ASTKind::IfStatement { condition, then_stmt, else_stmt } => if expr_type(env.scopes, *condition) is Some {
            match stmt_env(env, *then_stmt) {
                Some(e1) => match else_stmt {
                    Some(b) => stmt_env(e1, *b),
                    None => Some(e1),
                },
                None => None,
            }
        } else {
            None
        },
        ASTKind::WhileStatement { condition, body } => if expr_type(env.scopes, *condition) is Some {
            stmt_env(env, *body)
        } else {
            None
        },
        ASTKind::ReturnStatement(e) => match e {
            Some(x) => if expr_type(env.scopes, *x) is Some {
                Some(env)
            } else {
                None
            },
            None => Some(env),
        },
        _ => None,
    }
}

/// Statements one after the other.
pub open spec fn stmts_env(env: EnvV, stmts: Seq<ASTNode>) -> Option<EnvV>
    decreases nodes_height(stmts), 0int,
{
    if stmts.len() == 0 {
        Some(env)
    } else {
        match stmts_env(env, stmts.drop_last()) {
            Some(e) => stmt_env(e, stmts.last()),
            None => None,
        }
    }
}

/// Once a prefix of the declarations is rejected, all of them are.
pub proof fn lemma_locals_prefix(env: EnvV, decls: Seq<ASTNode>, k: int)
    requires
        0 <= k <= decls.len(),
        locals_env(env, decls.subrange(0, k)) is None,
    ensures
        locals_env(env, decls) is None,
    decreases decls.len(),
{
    if k < decls.len() {
        assert(decls.drop_last() =~= decls.subrange(0, decls.len() - 1));
        assert(decls.drop_last().subrange(0, k) =~= decls.subrange(0, k));
        lemma_locals_prefix(env, decls.drop_last(), k);
    } else {
        assert(decls.subrange(0, k) =~= decls);
    }
}

/// Once a prefix of the statements is rejected, all of them are.
pub proof fn lemma_stmts_prefix(env: EnvV, stmts: Seq<ASTNode>, k: int)
    requires
        0 <= k <= stmts.len(),
        stmts_env(env, stmts.subrange(0, k)) is None,
    ensures
        stmts_env(env, stmts) is None,
    decreases stmts.len(),
{
    if k < stmts.len() {
        assert(stmts.drop_last() =~= stmts.subrange(0, stmts.len() - 1));
        assert(stmts.drop_last().subrange(0, k) =~= stmts.subrange(0, k));
        lemma_stmts_prefix(env, stmts.drop_last(), k);
    } else {
        assert(stmts.subrange(0, k) =~= stmts);
    }
}


/// The parameters of a function, declared one after the other like local
/// variables.
pub open spec fn params_env(env: EnvV, params: Seq<Parameter>) -> Option<EnvV>
    decreases params.len(),
{
    if params.len() == 0 {
        Some(env)
    } else {
        match params_env(env, params.drop_last()) {
            Some(e) => declare_local(e, params.last().name@, type_v(params.last().param_type)),
            None => None,
        }
    }
}

/// What a function definition does to the environment, or `None` where it
/// is rejected: the function is declared in the innermost scope with its
/// function type (a name already declared there is rejected), and its body
/// is typed in a scope of its own that first holds the parameters, at stack
/// slots counted from zero. The stack offset is zero again afterwards.
pub open spec fn function_env(env: EnvV, def: ASTNode) -> Option<EnvV> {
    match def.kind {
        ASTKind::FunctionDefinition { ret_type, name, params, body } => if declares(env.scopes.last(), name@) {
            None
        } else {
            let f = SymV {
                name: name@,
                ty: TypeV::Function(Box::new(type_v(ret_type)), params_v(params@)),
                function: true,
            };
            let declared = env.scopes.update(env.scopes.len() - 1, env.scopes.last().push(f));
            function_body_env(EnvV { scopes: declared.push(Seq::empty()), offset: 0 }, params@, *body)
        },
        _ => None,
    }
}

/// The parameters and then the body of a function, in the scope opened for
/// them, which is closed at the end.
pub open spec fn function_body_env(env: EnvV, params: Seq<Parameter>, body: ASTNode) -> Option<EnvV> {
    match params_env(env, params) {
        Some(e1) => match stmt_env(e1, body) {
            Some(e2) => if e2.scopes.len() <= 1 {
                None
            } else {
                Some(EnvV { scopes: e2.scopes.drop_last(), offset: 0 })
            },
            None => None,
        },
        None => None,
    }
}

/// Once a prefix of the parameters is rejected, all of them are.
pub proof fn lemma_params_prefix(env: EnvV, params: Seq<Parameter>, k: int)
    requires
        0 <= k <= params.len(),
        params_env(env, params.subrange(0, k)) is None,
    ensures
        params_env(env, params) is None,
    decreases params.len(),
{
    if k < params.len() {
        assert(params.drop_last() =~= params.subrange(0, params.len() - 1));
        assert(params.drop_last().subrange(0, k) =~= params.subrange(0, k));
        lemma_params_prefix(env, params.drop_last(), k);
    } else {
        assert(params.subrange(0, k) =~= params);
    }
}


/// How a global variable of a type is stored, where it can be.
pub open spec fn variable_type_of(t: Type) -> Option<VariableType> {
    match t {
        Type::Char => Some(VariableType::Char),
        Type::Int => Some(VariableType::Int),
        Type::Long => Some(VariableType::Long),
        Type::Pointer(_) => Some(VariableType::Pointer),
        _ => None,
    }
}

/// Declares a global in the outermost scope; rejected when that scope
/// already has the name, or when the type is neither a function type (a
/// prototype) nor one a variable can be stored as.
pub open spec fn declare_global(env: EnvV, name: Seq<char>, t: Type) -> Option<EnvV> {
    if declares(env.scopes[0], name) {
        None
    } else if !(t is Function) && variable_type_of(t) is None {
        None
    } else {
        Some(
            EnvV {
                scopes: env.scopes.update(0, env.scopes[0].push(SymV { name, ty: type_v(t), function: false })),
                offset: env.offset,
            },
        )
    }
}

/// The top-level declarations, one after the other; other nodes are skipped.
pub open spec fn globals_env(env: EnvV, decls: Seq<ASTNode>) -> Option<EnvV>
    decreases decls.len(),
{
    if decls.len() == 0 {
        Some(env)
    } else {
        match globals_env(env, decls.drop_last()) {
            Some(e) => match decls.last().kind {
                ASTKind::Declaration { var_type, name } => declare_global(e, name@, var_type),
                _ => Some(e),
            },
            None => None,
        }
    }
}

/// The top-level function definitions, one after the other; other nodes are
/// skipped.
pub open spec fn functions_env(env: EnvV, decls: Seq<ASTNode>) -> Option<EnvV>
    decreases decls.len(),
{
    if decls.len() == 0 {
        Some(env)
    } else {
        match functions_env(env, decls.drop_last()) {
            Some(e) => if decls.last().kind is FunctionDefinition {
                function_env(e, decls.last())
            } else {
                Some(e)
            },
            None => None,
        }
    }
}

/// What a translation unit does to the environment, or `None` where it is
/// rejected: all its global declarations first, then its function
/// definitions in order, so that a function sees every global and the
/// functions defined before it, and itself.
pub open spec fn unit_env(env: EnvV, root: ASTNode) -> Option<EnvV> {
    match root.kind {
        ASTKind::TranslationUnit(decls) => match globals_env(env, decls@) {
            Some(e) => functions_env(e, decls@),
            None => None,
        },
        _ => None,
    }
}

/// The environment of a new generator: an empty global scope.
pub open spec fn initial_env() -> EnvV {
    EnvV { scopes: seq![Seq::empty()], offset: 0 }
}

/// Once a prefix of the global declarations is rejected, all of them are.
pub proof fn lemma_globals_prefix(env: EnvV, decls: Seq<ASTNode>, k: int)
    requires
        0 <= k <= decls.len(),
        globals_env(env, decls.subrange(0, k)) is None,
    ensures
        globals_env(env, decls) is None,
    decreases decls.len(),
{
    if k < decls.len() {
        assert(decls.drop_last() =~= decls.subrange(0, decls.len() - 1));
        assert(decls.drop_last().subrange(0, k) =~= decls.subrange(0, k));
        lemma_globals_prefix(env, decls.drop_last(), k);
    } else {
        assert(decls.subrange(0, k) =~= decls);
    }
}

/// Once a prefix of the function definitions is rejected, all of them are.
pub proof fn lemma_functions_prefix(env: EnvV, decls: Seq<ASTNode>, k: int)
    requires
        0 <= k <= decls.len(),
        functions_env(env, decls.subrange(0, k)) is None,
    ensures
        functions_env(env, decls) is None,
    decreases decls.len(),
{
    if k < decls.len() {
        assert(decls.drop_last() =~= decls.subrange(0, decls.len() - 1));
        assert(decls.drop_last().subrange(0, k) =~= decls.subrange(0, k));
        lemma_functions_prefix(env, decls.drop_last(), k);
    } else {
        assert(decls.subrange(0, k) =~= decls);
    }
}

/// Numbers, pointers and booleans are seen alike through the view.
pub proof fn lemma_view_kinds(t: Type)
    ensures
        t.spec_is_number() <==> number_v(type_v(t)),
        t is Pointer <==> type_v(t) is Pointer,
        t is Bool <==> type_v(t) is Bool,
{
}

} // verus!
