//! What the generator lowers statements and expressions to: for each form,
//! the blocks it emits, in terms of the blocks and values of its parts.
//! Fresh block ids and fresh registers are left open, and so is which
//! register holds a local variable or a parameter. Where the blocks of
//! the parts cannot be told apart from the blocks alone, a derivation
//! records where each part's blocks end and which value each part has.
use vstd::prelude::*;
use crate::ast::{ASTKind, ASTNode, BinaryOp, UnaryOp, node_height, nodes_height};
use crate::ir_generator::domain::{IRBinaryOp, IRBlock, IRNode, IRNodeKind, IRUnaryOp, IRValue, IRVariable};
use crate::virtual_register::VirtualRegister;

verus! {

/// The IR operator of a source arithmetic or comparison operator.
pub open spec fn ir_binary_op(op: BinaryOp) -> IRBinaryOp {
    match op {
        BinaryOp::Add => IRBinaryOp::Add,
        BinaryOp::Sub => IRBinaryOp::Sub,
        BinaryOp::Mul => IRBinaryOp::Mul,
        BinaryOp::Div => IRBinaryOp::Div,
        BinaryOp::Eq => IRBinaryOp::Eq,
        _ => IRBinaryOp::Less,
    }
}

/// The IR operator of a source prefix operator other than plus.
pub open spec fn ir_unary_op(op: UnaryOp) -> IRUnaryOp {
    match op {
        UnaryOp::Deref => IRUnaryOp::Deref,
        UnaryOp::Address => IRUnaryOp::Address,
        UnaryOp::Minus => IRUnaryOp::Neg,
        _ => IRUnaryOp::Not,
    }
}

/// A single block without nodes.
pub open spec fn one_empty_block(bs: Seq<IRBlock>) -> bool {
    bs.len() == 1 && bs[0].nodes@.len() == 0
}

/// The value an identifier reads: a register, or the global of that name.
pub open spec fn names_value(v: IRValue, name: Seq<char>) -> bool {
    match v {
        IRValue::Register(_) => true,
        IRValue::GlobalVariable(g) => g@ == name,
        _ => false,
    }
}

/// The variable an assignment to an identifier writes: a register, or the
/// global of that name.
pub open spec fn names_variable(x: IRVariable, name: Seq<char>) -> bool {
    match x {
        IRVariable::Register(_) => true,
        IRVariable::Global(g) => g@ == name,
    }
}

/// A block that scales `w` by eight into a fresh register `s`.
pub open spec fn scale_block(b: IRBlock, w: IRValue, s: VirtualRegister) -> bool {
    b.nodes@.len() == 1 && match b.nodes@[0].kind {
        IRNodeKind::BinaryOp { op, left, right, result, optional_result } => op == IRBinaryOp::Mul && left == w
            && right == IRValue::Immediate(8) && result == s && optional_result is None,
        _ => false,
    }
}

/// `b` scales `w` by eight into the register that `x` reads.
pub open spec fn scaled_into(b: IRBlock, w: IRValue, x: IRValue) -> bool {
    match x {
        IRValue::Register(s) => scale_block(b, w, s),
        _ => false,
    }
}

/// The operands of an arithmetic node: the operands' values as they are, or
/// with the one on the number side of a pointer sum or difference scaled by
/// eight in a block of its own, just before the node.
pub open spec fn arithmetic_operands(bs: Seq<IRBlock>, n: int, lv: IRValue, rv: IRValue, x: IRValue, y: IRValue) -> bool {
    ||| bs.len() == n + 1 && x == lv && y == rv
    ||| bs.len() == n + 2 && y == rv && scaled_into(bs[n], lv, x)
    ||| bs.len() == n + 2 && x == lv && scaled_into(bs[n], rv, y)
}

/// The last block holds one arithmetic or comparison node of `op`, whose
/// result register is the value `v`, on operands as [`arithmetic_operands`]
/// says.
pub open spec fn arithmetic_node(op: BinaryOp, bs: Seq<IRBlock>, n: int, lv: IRValue, rv: IRValue, v: IRValue) -> bool {
    bs.len() > 0 && bs.last().nodes@.len() == 1 && match bs.last().nodes@[0].kind {
        IRNodeKind::BinaryOp { op: o, left: x, right: y, result, .. } => o == ir_binary_op(op) && v == IRValue::Register(result)
            && arithmetic_operands(bs, n, lv, rv, x, y),
        _ => false,
    }
}

/// The last block holds one assignment of `v` to a variable named by `name`.
pub open spec fn assignment_node(bs: Seq<IRBlock>, name: Seq<char>, v: IRValue) -> bool {
    bs.len() > 0 && bs.last().nodes@.len() == 1 && match bs.last().nodes@[0].kind {
        IRNodeKind::Assign { variable, value } => value == v && names_variable(variable, name),
        _ => false,
    }
}

/// How an expression's blocks split into the blocks of its parts.
pub enum ExprLowering {
    /// No parts.
    Leaf,
    /// One part whose value is the expression's own.
    Wrap(Box<ExprLowering>),
    /// Two parts: the left one's derivation, the right one's, the number of
    /// blocks and the value of the left one, then of the right one.
    Pair(Box<ExprLowering>, Box<ExprLowering>, nat, IRValue, nat, IRValue),
    /// A list of parts: the number of blocks of each and their derivations.
    List(Seq<nat>, Seq<ExprLowering>),
}

/// The blocks of a logical operator after its left side's `ln` blocks: a
/// block branching on the left value (for `&&`, to the closing block when
/// it is true; for `||`, to the right side's first block when it is
/// false), a block setting the result to 0 (for `&&`) or 1 (for `||`) and
/// jumping to the closing block, the right side's `rn` blocks, a block
/// setting the result to the right value and masking it to its lowest bit,
/// and an empty closing block. The value is the result register.
pub open spec fn logical_blocks(op: BinaryOp, bs: Seq<IRBlock>, ln: int, lv: IRValue, rn: int, rv: IRValue, v: IRValue) -> bool {
    let n = bs.len() as int;
    let end = bs.last().id;
    &&& ln + rn + 4 == n
    &&& 0 < rn
    &&& bs.last().nodes@.len() == 0
    &&& match v {
        IRValue::Register(res) => {
            let set = |k: IRValue| IRNode { kind: IRNodeKind::Assign { variable: IRVariable::Register(res), value: k } };
            &&& bs[n - 2].nodes@ == seq![set(rv), IRNode { kind: IRNodeKind::BinaryOp {
                op: IRBinaryOp::BitAnd,
                left: IRValue::Register(res),
                right: IRValue::Immediate(1),
                result: res,
                optional_result: None,
            } }]
            &&& if op is And {
                &&& single_node(bs[ln], branch_kind(Some(lv), Some(end), None))
                &&& bs[ln + 1].nodes@ == seq![set(IRValue::Immediate(0)), IRNode { kind: branch_kind(None, Some(end), None) }]
            } else {
                &&& single_node(bs[ln], branch_kind(Some(lv), None, Some(bs[ln + 2].id)))
                &&& bs[ln + 1].nodes@ == seq![set(IRValue::Immediate(1)), IRNode { kind: branch_kind(None, Some(end), None) }]
            }
        },
        _ => false,
    }
}

/// `e` lowers to the blocks `bs` with value `v`, split as `d` says.
/// Literals give an empty block and their immediate; a string literal a
/// block with a no-op and its string; an identifier gives an empty block and
/// its register or global; a parenthesised expression is its inner
/// expression; an assignment to an identifier is its right side's blocks
/// and then a block with the assignment, its value the right value; an arithmetic or comparison
/// expression is its left side's blocks, its right side's, and the node of
/// [`arithmetic_node`]; a logical expression is its left side's blocks and
/// then as [`logical_blocks`] says. A prefix plus is its operand; another
/// prefix operator is its operand's blocks and a block with the operation
/// into a fresh register. A call is its arguments' blocks in order and a
/// block with a no-op and the call of the named function on the
/// arguments' values, one argument register each, into a fresh register.
/// An assignment through a pointer is its right side's blocks, its
/// pointer's blocks, and a block storing the right value at the pointer's
/// value; its value is the right value.
pub open spec fn lowered_by(e: ASTNode, d: ExprLowering, bs: Seq<IRBlock>, v: IRValue) -> bool
    decreases node_height(e), 0nat,
{
    match e.kind {
        ASTKind::IntegerLiteral(n) => one_empty_block(bs) && v == IRValue::Immediate(n),
        ASTKind::CharacterLiteral(c) => one_empty_block(bs) && v == IRValue::Immediate(c as i64),
        ASTKind::StringLiteral(text) => bs.len() == 1 && bs[0].nodes@ == seq![IRNode { kind: IRNodeKind::NoOp }]
            && match v {
            IRValue::StringLiteral { string, .. } => string.value@ == text@,
            _ => false,
        },
        ASTKind::Identifier(name) => one_empty_block(bs) && names_value(v, name@),
        ASTKind::ParenExpression(inner) => match d {
            ExprLowering::Wrap(d1) => lowered_by(*inner, *d1, bs, v),
            _ => false,
        },
        ASTKind::BinaryExpression { op, left, right } => match op {
            BinaryOp::Assign => match left.kind {
                ASTKind::Identifier(name) => match d {
                    ExprLowering::Wrap(d1) => bs.len() > 0 && lowered_by(*right, *d1, bs.drop_last(), v)
                        && assignment_node(bs, name@, v),
                    _ => false,
                },
                ASTKind::UnaryExpression { op: UnaryOp::Deref, operand } => match d {
                    ExprLowering::Pair(dr, dp, rn, rv, pn, pv) => {
                        proof {
                            assert(node_height(*operand) < node_height(*left));
                        }
                        &&& bs.len() == rn + pn + 1
                        &&& lowered_by(*right, *dr, bs.subrange(0, rn as int), rv)
                        &&& lowered_by(*operand, *dp, bs.subrange(rn as int, rn + pn as int), pv)
                        &&& single_node(bs.last(), IRNodeKind::AddressAssignment { address: pv, value: rv })
                        &&& v == rv
                    },
                    _ => false,
                },
                _ => true,
            },
            BinaryOp::And | BinaryOp::Or => match d {
                ExprLowering::Pair(dl, dr, ln, lv, rn, rv) => {
                    &&& logical_blocks(op, bs, ln as int, lv, rn as int, rv, v)
                    &&& lowered_by(*left, *dl, bs.subrange(0, ln as int), lv)
                    &&& lowered_by(*right, *dr, bs.subrange(ln + 2int, ln + 2int + rn), rv)
                },
                _ => false,
            },
            _ => match d {
                ExprLowering::Pair(dl, dr, ln, lv, rn, rv) => {
                    &&& ln + rn <= bs.len()
                    &&& lowered_by(*left, *dl, bs.subrange(0, ln as int), lv)
                    &&& lowered_by(*right, *dr, bs.subrange(ln as int, (ln + rn) as int), rv)
                    &&& arithmetic_node(op, bs, (ln + rn) as int, lv, rv, v)
                },
                _ => false,
            },
        },
        ASTKind::UnaryExpression { op, operand } => match d {
            ExprLowering::Wrap(d1) => match op {
                UnaryOp::Plus => lowered_by(*operand, *d1, bs, v),
                _ => bs.len() > 0 && bs.last().nodes@.len() == 1 && match bs.last().nodes@[0].kind {
                    IRNodeKind::UnaryOp { op: o, operand: ov, result } => o == ir_unary_op(op) && v == IRValue::Register(result)
                        && lowered_by(*operand, *d1, bs.drop_last(), ov),
                    _ => false,
                },
            },
            _ => false,
        },
        ASTKind::FunctionCall { function, args } => match d {
            ExprLowering::List(counts, ds) => bs.len() > 0 && bs.last().nodes@.len() == 2 && bs.last().nodes@[0].kind
                == IRNodeKind::NoOp && match bs.last().nodes@[1].kind {
                IRNodeKind::FunctionCall { name, arguments, argument_regs, result } => {
                    &&& argument_regs@.len() == arguments@.len()
                    &&& result is Some && v == IRValue::Register(result->0)
                    &&& match function.kind {
                        ASTKind::Identifier(f) => names_variable(name, f@),
                        _ => false,
                    }
                    &&& lowered_args_by(args@, counts, ds, arguments@, bs.drop_last())
                },
                _ => false,
            },
            _ => false,
        },
        _ => true,
    }
}

/// A list of expressions lowers to their blocks, one after the other, the
/// `i`-th taking `counts[i]` blocks, split as `ds[i]` says and with value
/// `values[i]`.
pub open spec fn lowered_args_by(
    args: Seq<ASTNode>,
    counts: Seq<nat>,
    ds: Seq<ExprLowering>,
    values: Seq<IRValue>,
    bs: Seq<IRBlock>,
) -> bool
    decreases nodes_height(args), 1nat,
{
    &&& counts.len() == args.len()
    &&& ds.len() == args.len()
    &&& values.len() == args.len()
    &&& if args.len() == 0 {
        bs.len() == 0
    } else {
        let k = bs.len() - counts.last();
        &&& 0 <= k
        &&& lowered_args_by(args.drop_last(), counts.drop_last(), ds.drop_last(), values.drop_last(), bs.subrange(0, k))
        &&& lowered_by(args.last(), ds.last(), bs.subrange(k, bs.len() as int), values.last())
    }
}

/// What an expression lowers to: its blocks `bs` and its value `v`, as
/// [`lowered_by`] says for some derivation.
pub open spec fn lowers_expr(e: ASTNode, bs: Seq<IRBlock>, v: IRValue) -> bool {
    exists|d: ExprLowering| #[trigger] lowered_by(e, d, bs, v)
}

/// How a statement's blocks split into the blocks of its parts.
pub enum StmtLowering {
    /// No statements inside.
    Leaf,
    /// The statements of a compound statement: the number of blocks of each
    /// and their derivations.
    Compound(Seq<nat>, Seq<StmtLowering>),
    /// A branch: the number of blocks of the condition and its value, the
    /// number of blocks of the then-statement, and the derivations of the
    /// then- and else-statements.
    Conditional(nat, IRValue, nat, Box<StmtLowering>, Box<StmtLowering>),
    /// A loop: the number of blocks of the condition and its value, and the
    /// derivation of the body.
    Loop(nat, IRValue, Box<StmtLowering>),
}

/// The block holds exactly one node, of kind `k`.
pub open spec fn single_node(b: IRBlock, k: IRNodeKind) -> bool {
    b.nodes@ == seq![IRNode { kind: k }]
}

/// A branch node of these parts.
pub open spec fn branch_kind(condition: Option<IRValue>, t: Option<usize>, f: Option<usize>) -> IRNodeKind {
    IRNodeKind::Branch { condition, true_branch: t, false_branch: f }
}

/// `s` lowers to the blocks `bs`, split as `d` says. A return emits its
/// expression's blocks and then a block holding only the return of its
/// value; an expression statement is its expression; a declaration is one
/// block with one declaration of a stored register; a compound statement is
/// a block of one declaration per declared variable followed by its
/// statements' blocks in order. A branch is its condition's blocks, a block
/// branching on the condition's value to the then-statement's first block
/// or else to the else-statement's (or, without one, to the closing block),
/// the then-statement's blocks, with an else-statement a block jumping to
/// the closing block and the else-statement's blocks, and an empty closing
/// block. A loop is its condition's blocks, a block that leaves for the
/// closing block when the condition's value is false, the body's blocks, a
/// block jumping back to the condition's first block, and an empty closing
/// block.
pub open spec fn lowered_stmt_by(s: ASTNode, d: StmtLowering, bs: Seq<IRBlock>) -> bool
    decreases node_height(s), 2nat,
{
    match s.kind {
        ASTKind::ReturnStatement(e) => match e {
            Some(x) => bs.len() > 0 && bs.last().nodes@.len() == 1 && match bs.last().nodes@[0].kind {
                IRNodeKind::Return { value: Some(ev) } => lowers_expr(*x, bs.drop_last(), ev),
                _ => false,
            },
            None => bs.len() == 1 && bs[0].nodes@ == seq![IRNode { kind: IRNodeKind::Return { value: None } }],
        },
        ASTKind::ExpressionStatement(e) => match e {
            Some(x) => exists|v: IRValue| #[trigger] lowers_expr(*x, bs, v),
            None => one_empty_block(bs),
        },
        ASTKind::Declaration { .. } => bs.len() == 1 && bs[0].nodes@.len() == 1 && match bs[0].nodes@[0].kind {
            IRNodeKind::VariableDeclaration { reg } => reg.stored,
            _ => false,
        },
        ASTKind::CompoundStatement { declarations, statements } => match d {
            StmtLowering::Compound(counts, ds) => {
                &&& bs.len() >= 1
                &&& bs[0].nodes@.len() == declarations@.len()
                &&& forall|n: int| 0 <= n < bs[0].nodes@.len() ==> (#[trigger] bs[0].nodes@[n]).kind is VariableDeclaration
                &&& lowered_stmts_by(statements@, counts, ds, bs.drop_first())
            },
            _ => false,
        },
        ASTKind::IfStatement { condition, then_stmt, else_stmt } => match d {
            StmtLowering::Conditional(c, cv, t, dt, de) => {
                let c = c as int;
                let t = t as int;
                let n = bs.len() as int;
                &&& c + t + 2 <= n
                &&& t > 0
                &&& lowers_expr(*condition, bs.subrange(0, c as int), cv)
                &&& lowered_stmt_by(*then_stmt, *dt, bs.subrange(c + 1, c + 1 + t))
                &&& bs.last().nodes@.len() == 0
                &&& match else_stmt {
                    Some(e) => {
                        &&& c + t + 3 < n
                        &&& single_node(bs[c as int], branch_kind(Some(cv), Some(bs[c + 1].id), Some(bs[c + 2 + t].id)))
                        &&& single_node(bs[c + 1 + t], branch_kind(None, Some(bs.last().id), None))
                        &&& lowered_stmt_by(*e, *de, bs.subrange(c + 2 + t, n - 1))
                    },
                    None => {
                        &&& n == c + t + 2
                        &&& single_node(bs[c as int], branch_kind(Some(cv), Some(bs[c + 1].id), Some(bs.last().id)))
                    },
                }
            },
            _ => false,
        },
        ASTKind::WhileStatement { condition, body } => match d {
            StmtLowering::Loop(c, cv, db) => {
                let c = c as int;
                let n = bs.len() as int;
                &&& 0 < c
                &&& c + 3 <= n
                &&& lowers_expr(*condition, bs.subrange(0, c as int), cv)
                &&& single_node(bs[c as int], branch_kind(Some(cv), None, Some(bs.last().id)))
                &&& lowered_stmt_by(*body, *db, bs.subrange(c + 1, n - 2))
                &&& single_node(bs[n - 2], branch_kind(None, Some(bs[0].id), None))
                &&& bs.last().nodes@.len() == 0
            },
            _ => false,
        },
        _ => true,
    }
}

/// A list of statements lowers to their blocks, one after the other, the
/// `i`-th taking `counts[i]` blocks and split as `ds[i]` says.
pub open spec fn lowered_stmts_by(ss: Seq<ASTNode>, counts: Seq<nat>, ds: Seq<StmtLowering>, bs: Seq<IRBlock>) -> bool
    decreases nodes_height(ss), 3nat,
{
    &&& counts.len() == ss.len()
    &&& ds.len() == ss.len()
    &&& if ss.len() == 0 {
        bs.len() == 0
    } else {
        let k = bs.len() - counts.last();
        &&& 0 <= k
        &&& lowered_stmts_by(ss.drop_last(), counts.drop_last(), ds.drop_last(), bs.subrange(0, k))
        &&& lowered_stmt_by(ss.last(), ds.last(), bs.subrange(k, bs.len() as int))
    }
}

/// What a statement lowers to, as [`lowered_stmt_by`] says for some
/// derivation.
pub open spec fn lowers_stmt(s: ASTNode, bs: Seq<IRBlock>) -> bool {
    exists|d: StmtLowering| #[trigger] lowered_stmt_by(s, d, bs)
}

/// The body of a function with `n` parameters: a block of two no-ops when
/// there are parameters, then the blocks of its statement.
pub open spec fn lowered_body(blocks: Seq<IRBlock>, n: nat, body: ASTNode) -> bool {
    if n > 0 {
        &&& blocks.len() >= 1
        &&& blocks[0].nodes@ == seq![IRNode { kind: IRNodeKind::NoOp }, IRNode { kind: IRNodeKind::NoOp }]
        &&& lowers_stmt(body, blocks.drop_first())
    } else {
        lowers_stmt(body, blocks)
    }
}

} // verus!
