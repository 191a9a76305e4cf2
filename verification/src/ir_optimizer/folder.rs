//! Constant folding: operations on immediates become assignments of their
//! result, temporaries that hold a constant disappear, and branches on a
//! constant condition become jumps.
use vstd::prelude::*;
use crate::ir_generator::domain::{
    body_wf, has_block, is_target, referenced, IRBinaryOp, IRBlock, IRFunction, IRModule, IRNode, IRNodeKind, IRUnaryOp, IRValue, IRVariable,
};
use crate::ir_optimizer::error::IROptimizerError;
use crate::virtual_register::VirtualRegister;

verus! {

/// A temporary register and the constant it is known to hold.
pub type FoldedRegister = (VirtualRegister, IRValue);

/// What a binary operator computes from two immediates, with two's-complement
/// wrap-around; `None` for a division by zero or `i64::MIN / -1`.
pub open spec fn binary_fold(op: IRBinaryOp, l: i64, r: i64) -> Option<i64> {
    match op {
        IRBinaryOp::Add => Some(l.wrapping_add(r)),
        IRBinaryOp::Sub => Some(l.wrapping_sub(r)),
        IRBinaryOp::Mul => Some(l.wrapping_mul(r)),
        IRBinaryOp::Div => l.checked_div(r),
        IRBinaryOp::Eq => Some(if l == r { 1 } else { 0 }),
        IRBinaryOp::Less => Some(if l < r { 1 } else { 0 }),
        IRBinaryOp::BitAnd => Some(l & r),
        IRBinaryOp::BitOr => Some(l | r),
    }
}

/// `k` times 2^64.
pub open spec fn word_multiple(k: int) -> int {
    k * 0x1_0000_0000_0000_0000
}

/// `v` is `x` reduced to 64 bits: they differ by a multiple of 2^64.
pub open spec fn wraps_to(v: i64, x: int) -> bool {
    exists|k: int| v == x + #[trigger] word_multiple(k)
}

/// `q` is the quotient of `l` by `r` rounded towards zero: the remainder
/// `l - q * r` is smaller than `r` in size and is zero or has the sign of
/// `l`.
pub open spec fn truncated_quotient(l: int, r: int, q: int) -> bool {
    let rem = l - q * r;
    &&& (if r > 0 { -r < rem < r } else { r < rem < -r })
    &&& (rem == 0 || (rem > 0) == (l > 0))
}

proof fn lemma_positive_division(x: int, d: int)
    requires
        x >= 0,
        d > 0,
    ensures
        0 <= x - (x / d) * d < d,
        0 <= x / d <= x,
{
    vstd::arithmetic::div_mod::lemma_fundamental_div_mod(x, d);
    vstd::arithmetic::div_mod::lemma_mod_pos_bound(x, d);
    vstd::arithmetic::div_mod::lemma_div_pos_is_pos(x, d);
    assert((x / d) * d == d * (x / d)) by (nonlinear_arith);
    let q = x / d;
    assert(q <= q * d) by (nonlinear_arith)
        requires
            q >= 0,
            d >= 1,
    ;
}

/// Folding two immediates computes, in 64-bit two's complement, what the
/// operator means on integers: the sum, the difference (left minus right)
/// and the product reduced to 64 bits; the quotient rounded towards zero,
/// with no result for a zero divisor or for `i64::MIN / -1`; 1 or 0 for
/// equality and for left less than right; the bitwise and and or.
#[verifier::spinoff_prover]
pub proof fn lemma_binary_fold_arithmetic(l: i64, r: i64)
    ensures
        binary_fold(IRBinaryOp::Add, l, r) matches Some(v) && wraps_to(v, l + r),
        binary_fold(IRBinaryOp::Sub, l, r) matches Some(v) && wraps_to(v, l - r),
        binary_fold(IRBinaryOp::Mul, l, r) matches Some(v) && wraps_to(v, l * r),
        r == 0 ==> binary_fold(IRBinaryOp::Div, l, r) is None,
        l == i64::MIN && r == -1 ==> binary_fold(IRBinaryOp::Div, l, r) is None,
        r != 0 && !(l == i64::MIN && r == -1) ==> (binary_fold(IRBinaryOp::Div, l, r) matches Some(q) && truncated_quotient(
            l as int,
            r as int,
            q as int,
        )),
        binary_fold(IRBinaryOp::Eq, l, r) matches Some(v) && (v == 1 || v == 0) && (v == 1 <==> l == r),
        binary_fold(IRBinaryOp::Less, l, r) matches Some(v) && (v == 1 || v == 0) && (v == 1 <==> l < r),
        binary_fold(IRBinaryOp::BitAnd, l, r) == Some(l & r),
        binary_fold(IRBinaryOp::BitOr, l, r) == Some(l | r),
{
    let m: int = 0x1_0000_0000_0000_0000;
    let s = l + r;
    if s > i64::MAX {
        assert(l.wrapping_add(r) == s + word_multiple(-1));
    } else if s < i64::MIN {
        assert(l.wrapping_add(r) == s + word_multiple(1));
    } else {
        assert(l.wrapping_add(r) == s + word_multiple(0));
    }
    let d = l - r;
    if d > i64::MAX {
        assert(l.wrapping_sub(r) == d + word_multiple(-1));
    } else if d < i64::MIN {
        assert(l.wrapping_sub(r) == d + word_multiple(1));
    } else {
        assert(l.wrapping_sub(r) == d + word_multiple(0));
    }
    let p = l * r;
    vstd::arithmetic::div_mod::lemma_fundamental_div_mod(p, m);
    vstd::arithmetic::div_mod::lemma_mod_bound(p, m);
    let c = p % m;
    assert(c == p + (-(p / m)) * m) by (nonlinear_arith)
        requires
            p == m * (p / m) + c,
    ;
    if c > i64::MAX {
        assert(l.wrapping_mul(r) == p + (-(p / m) - 1) * m) by (nonlinear_arith)
            requires
                c == p + (-(p / m)) * m,
                l.wrapping_mul(r) == c - m,
        ;
        assert(l.wrapping_mul(r) == p + word_multiple(-(p / m) - 1));
    } else {
        assert(l.wrapping_mul(r) == p + word_multiple(-(p / m)));
    }
    if l == i64::MIN && r == -1 {
        assert((l as int * -1) / (r as int * -1) == 0x8000_0000_0000_0000int);
    }
    if r != 0 && !(l == i64::MIN && r == -1) {
        let x = l as int;
        let y = r as int;
        if x == 0 {
            assert(binary_fold(IRBinaryOp::Div, l, r) == Some(0i64));
            assert(truncated_quotient(x, y, 0));
        } else if x > 0 && y > 0 {
            lemma_positive_division(x, y);
            assert(binary_fold(IRBinaryOp::Div, l, r) == Some((x / y) as i64));
            assert(truncated_quotient(x, y, x / y));
        } else if x < 0 && y < 0 {
            lemma_positive_division(-x, -y);
            let q = (-x) / (-y);
            assert(x * -1 == -x && y * -1 == -y);
            if x == i64::MIN {
                assert(q != -x) by {
                    if q == -x {
                        assert(-x - q * (-y) == -x - (-x) * (-y));
                        assert((-x) * (-y) >= (-x) * 2) by (nonlinear_arith)
                            requires
                                -y >= 2,
                                -x >= 0,
                        ;
                    }
                }
            }
            assert(binary_fold(IRBinaryOp::Div, l, r) == Some(q as i64));
            assert(x - q * y == -((-x) - q * (-y))) by (nonlinear_arith);
            assert(truncated_quotient(x, y, q));
        } else if x < 0 {
            lemma_positive_division(-x, y);
            let q = (-x) / y;
            assert(x * -1 == -x);
            assert(binary_fold(IRBinaryOp::Div, l, r) == Some((q * -1) as i64));
            assert(x - (-q) * y == -((-x) - q * y)) by (nonlinear_arith);
            assert(truncated_quotient(x, y, -q));
        } else {
            lemma_positive_division(x, -y);
            let q = x / (-y);
            assert(y * -1 == -y);
            assert(binary_fold(IRBinaryOp::Div, l, r) == Some((q * -1) as i64));
            assert(x - (-q) * y == x - q * (-y)) by (nonlinear_arith);
            assert(truncated_quotient(x, y, -q));
        }
    }
}

/// What a unary operator computes from an immediate; `None` when it cannot
/// be folded (addresses and dereferences).
pub open spec fn unary_fold(op: IRUnaryOp, v: i64) -> Option<i64> {
    match op {
        IRUnaryOp::Neg => Some(0i64.wrapping_sub(v)),
        IRUnaryOp::Not => Some(!v),
        _ => None,
    }
}

/// Folding an immediate computes the negation reduced to 64 bits and the
/// bitwise complement (which is minus the value, minus one); addresses and
/// dereferences do not fold.
pub proof fn lemma_unary_fold_arithmetic(v: i64)
    ensures
        unary_fold(IRUnaryOp::Neg, v) matches Some(x) && wraps_to(x, -v),
        unary_fold(IRUnaryOp::Not, v) matches Some(x) && x == -v - 1,
        unary_fold(IRUnaryOp::Address, v) is None,
        unary_fold(IRUnaryOp::Deref, v) is None,
{
    let m: int = 0x1_0000_0000_0000_0000;
    if -v > i64::MAX {
        assert(0i64.wrapping_sub(v) == -v + word_multiple(-1));
    } else {
        assert(0i64.wrapping_sub(v) == -v + word_multiple(0));
    }
    assert(!v == -v - 1) by (bit_vector);
}

/// Folds a binary operation: `None` unless both operands are immediates; an
/// error for a division by zero and for the one overflowing division.
pub fn fold_binary_op(op: &IRBinaryOp, left: &IRValue, right: &IRValue) -> (res: Result<Option<IRValue>, IROptimizerError>)
    ensures
        match (left.spec_immediate(), right.spec_immediate()) {
            (Some(l), Some(r)) => match binary_fold(*op, l, r) {
                Some(v) => res == Ok::<Option<IRValue>, IROptimizerError>(Some(IRValue::Immediate(v))),
                None => res is Err && (r == 0 ==> res->Err_0.message@ == "Division by zero"@) && (r != 0
                    ==> res->Err_0.message@ == "Division overflow"@),
            },
            _ => res == Ok::<Option<IRValue>, IROptimizerError>(None),
        },
{
    let l = match left.get_immediate() {
        Some(v) => v,
        None => {
            return Ok(None);
        },
    };
    let r = match right.get_immediate() {
        Some(v) => v,
        None => {
            return Ok(None);
        },
    };
    let v = match op {
        IRBinaryOp::Add => l.wrapping_add(r),
        IRBinaryOp::Sub => l.wrapping_sub(r),
        IRBinaryOp::Mul => l.wrapping_mul(r),
        IRBinaryOp::Div => {
            if r == 0 {
                return Err(IROptimizerError::new("Division by zero".to_string()));
            }
            match l.checked_div(r) {
                Some(q) => q,
                None => {
                    return Err(IROptimizerError::new("Division overflow".to_string()));
                },
            }
        },
        IRBinaryOp::Eq => if l == r {
            1
        } else {
            0
        },
        IRBinaryOp::Less => if l < r {
            1
        } else {
            0
        },
        IRBinaryOp::BitAnd => l & r,
        IRBinaryOp::BitOr => l | r,
    };
    Ok(Some(IRValue::Immediate(v)))
}

/// Folds a unary operation on an immediate (negation and bitwise not).
pub fn fold_unary_op(op: &IRUnaryOp, operand: &IRValue) -> (res: Result<Option<IRValue>, IROptimizerError>)
    ensures
        res == Ok::<Option<IRValue>, IROptimizerError>(
            match operand.spec_immediate() {
                Some(v) => match unary_fold(*op, v) {
                    Some(x) => Some(IRValue::Immediate(x)),
                    None => None,
                },
                None => None,
            },
        ),
{
    let v = match operand.get_immediate() {
        Some(v) => v,
        None => {
            return Ok(None);
        },
    };
    match op {
        IRUnaryOp::Neg => Ok(Some(IRValue::Immediate(0i64.wrapping_sub(v)))),
        IRUnaryOp::Not => Ok(Some(IRValue::Immediate(!v))),
        _ => Ok(None),
    }
}

/// The node that stores a folded constant into a register, and the entry
/// that records it when the register is a temporary.
pub open spec fn folded_assign(result: VirtualRegister, v: i64) -> (IRNodeKind, Option<FoldedRegister>) {
    (
        IRNodeKind::Assign { variable: IRVariable::Register(result), value: IRValue::Immediate(v) },
        if !result.stored {
            Some((result, IRValue::Immediate(v)))
        } else {
            None
        },
    )
}

/// What folding does to one node: its new kind, and the entry of a
/// temporary that now stands for a constant (the node then disappears);
/// `None` when folding the node fails.
pub open spec fn fold_node(k: IRNodeKind) -> Option<(IRNodeKind, Option<FoldedRegister>)> {
    match k {
        IRNodeKind::BinaryOp { op, left, right, result, .. } => match (
            left.spec_immediate(),
            right.spec_immediate(),
        ) {
            (Some(l), Some(r)) => match binary_fold(op, l, r) {
                Some(v) => Some(folded_assign(result, v)),
                None => None,
            },
            _ => Some((k, None)),
        },
        IRNodeKind::UnaryOp { op, operand, result } => match operand.spec_immediate() {
            Some(v) => match unary_fold(op, v) {
                Some(x) => Some(folded_assign(result, x)),
                None => Some((k, None)),
            },
            None => Some((k, None)),
        },
        IRNodeKind::Assign { variable, value } => match variable {
            IRVariable::Register(reg) => if !reg.stored && value.spec_is_constant() {
                Some((k, Some((reg, value))))
            } else {
                Some((k, None))
            },
            _ => Some((k, None)),
        },
        IRNodeKind::Branch { condition, true_branch, false_branch } => match condition {
            Some(c) => match c.spec_immediate() {
                Some(cv) => if cv != 0 {
                    Some(
                        (
                            IRNodeKind::Branch { condition: None, true_branch, false_branch: None },
                            None,
                        ),
                    )
                } else {
                    Some(
                        (
                            IRNodeKind::Branch {
                                condition: None,
                                true_branch: false_branch,
                                false_branch: None,
                            },
                            None,
                        ),
                    )
                },
                None => Some((k, None)),
            },
            None => Some((k, None)),
        },
        _ => Some((k, None)),
    }
}

/// The jump a branch node takes when its condition is known: the true
/// target without a condition or with a non-zero immediate one, the false
/// target with a zero one; `None` for other nodes and unknown conditions.
pub open spec fn jump_taken(k: IRNodeKind) -> Option<Option<usize>> {
    match k {
        IRNodeKind::Branch { condition, true_branch, false_branch } => match condition {
            None => Some(true_branch),
            Some(c) => match c.spec_immediate() {
                Some(v) => Some(if v != 0 { true_branch } else { false_branch }),
                None => None,
            },
        },
        _ => None,
    }
}

/// `k2` assigns the immediate `v` to register `r`.
pub open spec fn assigns_immediate(k2: IRNodeKind, r: VirtualRegister, v: i64) -> bool {
    k2 == IRNodeKind::Assign { variable: IRVariable::Register(r), value: IRValue::Immediate(v) }
}

/// What folding `k` must keep: a branch on a known condition becomes an
/// unconditional jump to the target it would have taken; an operation whose
/// operands are immediates and whose value is `v` becomes the assignment of
/// `v` to its own result register; a recorded entry says that the new node
/// assigns that constant to that temporary (a register holding no variable).
pub open spec fn keeps_meaning(k: IRNodeKind, folded: Option<(IRNodeKind, Option<FoldedRegister>)>) -> bool {
    &&& jump_taken(k) is Some ==> match folded {
        Some((k2, e)) => e is None && jump_taken(k2) == jump_taken(k) && match k2 {
            IRNodeKind::Branch { condition, .. } => condition is None,
            _ => false,
        },
        None => false,
    }
    &&& match k {
        IRNodeKind::BinaryOp { op, left, right, result, .. } => match (left.spec_immediate(), right.spec_immediate()) {
            (Some(l), Some(r)) => match binary_fold(op, l, r) {
                Some(v) => folded is Some && assigns_immediate((folded->0).0, result, v),
                None => true,
            },
            _ => true,
        },
        IRNodeKind::UnaryOp { op, operand, result } => match operand.spec_immediate() {
            Some(x) => match unary_fold(op, x) {
                Some(v) => folded is Some && assigns_immediate((folded->0).0, result, v),
                None => true,
            },
            None => true,
        },
        _ => true,
    }
    &&& match folded {
        Some((k2, Some((reg, val)))) => k2 == (IRNodeKind::Assign { variable: IRVariable::Register(reg), value: val })
            && !reg.stored && val.spec_is_constant(),
        _ => true,
    }
}

/// Folding a node keeps what it does (see [`keeps_meaning`]).
pub proof fn lemma_fold_node_meaning(k: IRNodeKind)
    ensures
        keeps_meaning(k, fold_node(k)),
{
}

/// Folds a list of nodes in order: the kept nodes and the recorded entries,
/// or `None` when some node fails to fold.
pub open spec fn fold_nodes(s: Seq<IRNode>) -> Option<(Seq<IRNode>, Seq<FoldedRegister>)>
    decreases s.len(),
{
    if s.len() == 0 {
        Some((Seq::empty(), Seq::empty()))
    } else {
        match fold_nodes(s.drop_last()) {
            None => None,
            Some((ns, es)) => match fold_node(s.last().kind) {
                None => None,
                Some((k, e)) => match e {
                    Some(x) => Some((ns, es.push(x))),
                    None => Some((ns.push(IRNode { kind: k }), es)),
                },
            },
        }
    }
}

/// Folds the blocks of a body in order: the new nodes of each block and all
/// recorded entries.
pub open spec fn fold_blocks(bs: Seq<IRBlock>) -> Option<(Seq<Seq<IRNode>>, Seq<FoldedRegister>)>
    decreases bs.len(),
{
    if bs.len() == 0 {
        Some((Seq::empty(), Seq::empty()))
    } else {
        match fold_blocks(bs.drop_last()) {
            None => None,
            Some((ns, es)) => match fold_nodes(bs.last().nodes@) {
                None => None,
                Some((n, e)) => Some((ns.push(n), es + e)),
            },
        }
    }
}

/// Folds the functions of a module in order.
pub open spec fn fold_functions(fs: Seq<IRFunction>) -> Option<(Seq<Seq<Seq<IRNode>>>, Seq<FoldedRegister>)>
    decreases fs.len(),
{
    if fs.len() == 0 {
        Some((Seq::empty(), Seq::empty()))
    } else {
        match fold_functions(fs.drop_last()) {
            None => None,
            Some((ns, es)) => match fold_blocks(fs.last().body@) {
                None => None,
                Some((n, e)) => Some((ns.push(n), es + e)),
            },
        }
    }
}

/// The message of a node whose fold fails: a division by an immediate zero,
/// or else the one overflowing division.
pub open spec fn fold_failure(k: IRNodeKind) -> Seq<char> {
    match k {
        IRNodeKind::BinaryOp { right, .. } => if right.spec_immediate() == Some(0i64) {
            "Division by zero"@
        } else {
            "Division overflow"@
        },
        _ => "Division overflow"@,
    }
}

/// The message of the first node whose fold fails.
pub open spec fn nodes_failure(s: Seq<IRNode>) -> Seq<char>
    decreases s.len(),
{
    if s.len() == 0 {
        Seq::empty()
    } else if fold_nodes(s.drop_last()) is None {
        nodes_failure(s.drop_last())
    } else {
        fold_failure(s.last().kind)
    }
}

/// The message of the first failing fold in a body, block by block.
pub open spec fn blocks_failure(bs: Seq<IRBlock>) -> Seq<char>
    decreases bs.len(),
{
    if bs.len() == 0 {
        Seq::empty()
    } else if fold_blocks(bs.drop_last()) is None {
        blocks_failure(bs.drop_last())
    } else {
        nodes_failure(bs.last().nodes@)
    }
}

/// The message of the first failing fold in a module, function by function.
pub open spec fn functions_failure(fs: Seq<IRFunction>) -> Seq<char>
    decreases fs.len(),
{
    if fs.len() == 0 {
        Seq::empty()
    } else if fold_functions(fs.drop_last()) is None {
        functions_failure(fs.drop_last())
    } else {
        blocks_failure(fs.last().body@)
    }
}

/// The number of nodes in a body.
pub open spec fn count_nodes(bs: Seq<IRBlock>) -> nat
    decreases bs.len(),
{
    if bs.len() == 0 {
        0
    } else {
        count_nodes(bs.drop_last()) + bs.last().nodes@.len()
    }
}

/// The number of nodes in a list of functions.
pub open spec fn count_function_nodes(fs: Seq<IRFunction>) -> nat
    decreases fs.len(),
{
    if fs.len() == 0 {
        0
    } else {
        count_function_nodes(fs.drop_last()) + count_nodes(fs.last().body@)
    }
}

/// `after` is `before` with the nodes of each block replaced by `nodes`;
/// names, parameters and block ids are unchanged.
pub open spec fn bodies_replaced(before: Seq<IRFunction>, after: Seq<IRFunction>, nodes: Seq<Seq<Seq<IRNode>>>) -> bool {
    &&& after.len() == before.len()
    &&& nodes.len() == before.len()
    &&& forall|i: int| 0 <= i < before.len() ==> {
        let f = #[trigger] after[i];
        let g = before[i];
        &&& f.name == g.name
        &&& f.parameters == g.parameters
        &&& f.parameter_regs == g.parameter_regs
        &&& f.body@.len() == g.body@.len()
        &&& nodes[i].len() == g.body@.len()
        &&& forall|j: int| 0 <= j < g.body@.len() ==> (#[trigger] f.body@[j]).id == g.body@[j].id
            && f.body@[j].nodes@ == nodes[i][j]
    }
}

/// A block's nodes after folding, with the entries of the temporaries that
/// disappeared.
fn fold_block_nodes(nodes: Vec<IRNode>) -> (r: Result<(Vec<IRNode>, Vec<FoldedRegister>), IROptimizerError>)
    ensures
        r is Ok <==> fold_nodes(nodes@) is Some,
        r matches Ok((ns, es)) ==> fold_nodes(nodes@) == Some((ns@, es@)),
        r is Ok ==> r->Ok_0.0@.len() + r->Ok_0.1@.len() == nodes@.len(),
        r is Err ==> r->Err_0.message@ == nodes_failure(nodes@),
{
    let ghost original = nodes@;
    let mut rest = nodes;
    let mut out: Vec<IRNode> = Vec::new();
    let mut entries: Vec<FoldedRegister> = Vec::new();
    let n: usize = rest.len();
    let mut k: usize = 0;
    while rest.len() > 0
        invariant
            original == nodes@,
            n == original.len(),
            k + rest@.len() == original.len(),
            rest@ == original.subrange(k as int, original.len() as int),
            fold_nodes(original.subrange(0, k as int)) == Some((out@, entries@)),
            out@.len() + entries@.len() == k,
        decreases rest.len(),
    {
        let node = rest.remove(0);
        proof {
            assert(node == original[k as int]);
            assert(original.subrange(0, k + 1).drop_last() =~= original.subrange(0, k as int));
            assert(original.subrange(0, k + 1).last() == node);
        }
        match node.kind {
            IRNodeKind::BinaryOp { op, left, right, result, optional_result } => {
                match fold_binary_op(&op, &left, &right) {
                    Err(e) => {
                        proof {
                            assert(fold_node(original[k as int].kind) is None);
                            assert(fold_nodes(original.subrange(0, k + 1)) is None);
                            assert(nodes_failure(original.subrange(0, k + 1)) == fold_failure(original[k as int].kind));
                            lemma_fold_nodes_none_extends(original, k as int + 1);
                        }
                        return Err(e);
                    },
                    Ok(Some(value)) => {
                        let v = match value {
                            IRValue::Immediate(v) => v,
                            _ => 0,
                        };
                        if !result.stored {
                            entries.push((result, IRValue::Immediate(v)));
                        } else {
                            out.push(IRNode {
                                kind: IRNodeKind::Assign {
                                    variable: IRVariable::Register(result),
                                    value: IRValue::Immediate(v),
                                },
                            });
                        }
                    },
                    Ok(None) => {
                        out.push(IRNode { kind: IRNodeKind::BinaryOp { op, left, right, result, optional_result } });
                    },
                }
            },
            IRNodeKind::UnaryOp { op, operand, result } => {
                match fold_unary_op(&op, &operand) {
                    Err(e) => {
                        return Err(e);
                    },
                    Ok(Some(value)) => {
                        let v = match value {
                            IRValue::Immediate(v) => v,
                            _ => 0,
                        };
                        if !result.stored {
                            entries.push((result, IRValue::Immediate(v)));
                        } else {
                            out.push(IRNode {
                                kind: IRNodeKind::Assign {
                                    variable: IRVariable::Register(result),
                                    value: IRValue::Immediate(v),
                                },
                            });
                        }
                    },
                    Ok(None) => {
                        out.push(IRNode { kind: IRNodeKind::UnaryOp { op, operand, result } });
                    },
                }
            },
            IRNodeKind::Assign { variable, value } => {
                let entry = match &variable {
                    IRVariable::Register(reg) => {
                        if !reg.stored && value.is_constant() {
                            Some(*reg)
                        } else {
                            None
                        }
                    },
                    IRVariable::Global(_) => None,
                };
                match entry {
                    Some(reg) => {
                        entries.push((reg, value));
                    },
                    None => {
                        out.push(IRNode { kind: IRNodeKind::Assign { variable, value } });
                    },
                }
            },
            IRNodeKind::Branch { condition, true_branch, false_branch } => {
                let constant = match &condition {
                    Some(c) => c.get_immediate(),
                    None => None,
                };
                match constant {
                    Some(cv) => {
                        if cv != 0 {
                            out.push(IRNode { kind: IRNodeKind::Branch { condition: None, true_branch, false_branch: None } });
                        } else {
                            out.push(IRNode {
                                kind: IRNodeKind::Branch { condition: None, true_branch: false_branch, false_branch: None },
                            });
                        }
                    },
                    None => {
                        out.push(IRNode { kind: IRNodeKind::Branch { condition, true_branch, false_branch } });
                    },
                }
            },
            other => {
                out.push(IRNode { kind: other });
            },
        }
        k += 1;
        proof {
            assert(rest@ =~= original.subrange(k as int, original.len() as int));
        }
    }
    proof {
        assert(original.subrange(0, k as int) =~= original);
    }
    Ok((out, entries))
}

/// Once a prefix fails to fold, every longer prefix fails too.
proof fn lemma_fold_nodes_none_extends(s: Seq<IRNode>, k: int)
    requires
        0 < k <= s.len(),
        fold_nodes(s.subrange(0, k)) is None,
    ensures
        fold_nodes(s) is None,
        nodes_failure(s) == nodes_failure(s.subrange(0, k)),
    decreases s.len() - k,
{
    if k < s.len() {
        assert(s.subrange(0, k + 1).drop_last() =~= s.subrange(0, k));
        lemma_fold_nodes_none_extends(s, k + 1);
    } else {
        assert(s.subrange(0, k) =~= s);
    }
}

/// Folding a node keeps or drops its jump targets; it adds none.
pub open spec fn targets_within(ns: Seq<IRNode>, s: Seq<IRNode>) -> bool {
    forall|n: int, t: usize| 0 <= n < ns.len() && #[trigger] is_target(ns[n].kind, t) ==> exists|m: int|
        0 <= m < s.len() && #[trigger] is_target(s[m].kind, t)
}

proof fn lemma_fold_nodes_targets(s: Seq<IRNode>)
    requires
        fold_nodes(s) is Some,
    ensures
        targets_within((fold_nodes(s)->0).0, s),
    decreases s.len(),
{
    if s.len() > 0 {
        let p = s.drop_last();
        lemma_fold_nodes_targets(p);
        let ns = (fold_nodes(s)->0).0;
        let pns = (fold_nodes(p)->0).0;
        assert forall|n: int, t: usize| 0 <= n < ns.len() && #[trigger] is_target(ns[n].kind, t) implies exists|m: int|
            0 <= m < s.len() && #[trigger] is_target(s[m].kind, t) by {
            if n < pns.len() {
                assert(ns[n] == pns[n]);
                let m = choose|m: int| 0 <= m < p.len() && #[trigger] is_target(p[m].kind, t);
                assert(s[m] == p[m]);
            } else {
                assert(is_target(s[s.len() - 1].kind, t));
            }
        }
    }
}

/// Folds the blocks of a body, keeping their ids.
fn fold_body(body: Vec<IRBlock>) -> (r: Result<(Vec<IRBlock>, Vec<FoldedRegister>), IROptimizerError>)
    ensures
        r is Ok <==> fold_blocks(body@) is Some,
        r matches Ok((bs, es)) ==> {
            let (ns, es2) = fold_blocks(body@)->0;
            &&& es2 == es@
            &&& bs@.len() == body@.len()
            &&& ns.len() == body@.len()
            &&& forall|j: int| 0 <= j < body@.len() ==> (#[trigger] bs@[j]).id == body@[j].id && bs@[j].nodes@ == ns[j]
            &&& count_nodes(bs@) + es@.len() == count_nodes(body@)
            &&& body_wf(body@) ==> body_wf(bs@)
        },
        r is Err ==> r->Err_0.message@ == blocks_failure(body@),
{
    let ghost original = body@;
    let n: usize = body.len();
    let mut rest = body;
    let mut out: Vec<IRBlock> = Vec::new();
    let mut entries: Vec<FoldedRegister> = Vec::new();
    let mut k: usize = 0;
    while rest.len() > 0
        invariant
            original == body@,
            n == original.len(),
            k + rest@.len() == original.len(),
            rest@ == original.subrange(k as int, original.len() as int),
            out@.len() == k,
            fold_blocks(original.subrange(0, k as int)) is Some,
            (fold_blocks(original.subrange(0, k as int))->0).1 == entries@,
            (fold_blocks(original.subrange(0, k as int))->0).0.len() == k,
            forall|j: int| 0 <= j < k ==> (#[trigger] out@[j]).id == original[j].id
                && out@[j].nodes@ == (fold_blocks(original.subrange(0, k as int))->0).0[j]
                && targets_within(out@[j].nodes@, original[j].nodes@),
            count_nodes(out@) + entries@.len() == count_nodes(original.subrange(0, k as int)),
        decreases rest.len(),
    {
        let block = rest.remove(0);
        proof {
            assert(block == original[k as int]);
            assert(original.subrange(0, k + 1).drop_last() =~= original.subrange(0, k as int));
            assert(original.subrange(0, k + 1).last() == block);
        }
        let id = block.id;
        match fold_block_nodes(block.nodes) {
            Err(e) => {
                proof {
                    assert(blocks_failure(original.subrange(0, k + 1)) == nodes_failure(original[k as int].nodes@));
                    lemma_fold_blocks_none_extends(original, k as int + 1);
                }
                return Err(e);
            },
            Ok((nodes, es)) => {
                proof {
                    lemma_fold_nodes_targets(original[k as int].nodes@);
                }
                let ghost before = out@;
                let new_block = IRBlock { id, nodes };
                out.push(new_block);
                let mut es = es;
                entries.append(&mut es);
                proof {
                    assert(out@.drop_last() =~= before);
                    let ns = (fold_blocks(original.subrange(0, k + 1))->0).0;
                    assert forall|j: int| 0 <= j < k + 1 implies (#[trigger] out@[j]).id == original[j].id
                        && out@[j].nodes@ == ns[j]
                        && targets_within(out@[j].nodes@, original[j].nodes@) by {
                        if j < k {
                            assert(out@[j] == before[j]);
                        }
                    }
                }
            },
        }
        k += 1;
        proof {
            assert(rest@ =~= original.subrange(k as int, original.len() as int));
        }
    }
    proof {
        assert(original.subrange(0, k as int) =~= original);
        if body_wf(original) {
            assert forall|t: usize| #[trigger] referenced(out@, t) implies has_block(out@, t) by {
                let (b, m) = choose|b: int, m: int| 0 <= b < out@.len() && 0 <= m < out@[b].nodes@.len()
                    && #[trigger] is_target(out@[b].nodes@[m].kind, t);
                let m2 = choose|m2: int| 0 <= m2 < original[b].nodes@.len() && #[trigger] is_target(original[b].nodes@[m2].kind, t);
                assert(referenced(original, t));
                let i = choose|i: int| 0 <= i < original.len() && #[trigger] original[i].id == t;
                assert(out@[i].id == t);
            }
            assert forall|i: int, j: int| 0 <= i < out@.len() && 0 <= j < out@.len() && #[trigger] out@[i].id == #[trigger] out@[j].id implies i == j by {
                assert(original[i].id == original[j].id);
            }
        }
    }
    Ok((out, entries))
}

proof fn lemma_fold_blocks_none_extends(s: Seq<IRBlock>, k: int)
    requires
        0 < k <= s.len(),
        fold_blocks(s.subrange(0, k)) is None,
    ensures
        fold_blocks(s) is None,
        blocks_failure(s) == blocks_failure(s.subrange(0, k)),
    decreases s.len() - k,
{
    if k < s.len() {
        assert(s.subrange(0, k + 1).drop_last() =~= s.subrange(0, k));
        lemma_fold_blocks_none_extends(s, k + 1);
    } else {
        assert(s.subrange(0, k) =~= s);
    }
}

proof fn lemma_fold_functions_none_extends(s: Seq<IRFunction>, k: int)
    requires
        0 < k <= s.len(),
        fold_functions(s.subrange(0, k)) is None,
    ensures
        fold_functions(s) is None,
        functions_failure(s) == functions_failure(s.subrange(0, k)),
    decreases s.len() - k,
{
    if k < s.len() {
        assert(s.subrange(0, k + 1).drop_last() =~= s.subrange(0, k));
        lemma_fold_functions_none_extends(s, k + 1);
    } else {
        assert(s.subrange(0, k) =~= s);
    }
}

/// Folds every block of every function in place. Returns the temporaries
/// that now stand for constants, in the order their nodes appeared. Fails on
/// the first node whose folding fails (a constant division by zero or
/// `i64::MIN / -1`); the module is then left in an unspecified state.
pub fn fold_constants(module: &mut IRModule) -> (r: Result<Vec<FoldedRegister>, IROptimizerError>)
    ensures
        r is Ok <==> fold_functions(old(module).functions@) is Some,
        r is Err ==> r->Err_0.message@ == functions_failure(old(module).functions@),
        r matches Ok(es) ==> {
            let (ns, es2) = fold_functions(old(module).functions@)->0;
            &&& es2 == es@
            &&& bodies_replaced(old(module).functions@, final(module).functions@, ns)
            &&& count_function_nodes(final(module).functions@) + es@.len() == count_function_nodes(old(module).functions@)
            &&& final(module).global_variables == old(module).global_variables
            &&& final(module).strings == old(module).strings
            &&& old(module).wf() ==> final(module).wf()
        },
{
    let ghost original = module.functions@;
    let mut rest: Vec<IRFunction> = Vec::new();
    std::mem::swap(&mut rest, &mut module.functions);
    let n: usize = rest.len();
    let mut out: Vec<IRFunction> = Vec::new();
    let mut entries: Vec<FoldedRegister> = Vec::new();
    let mut k: usize = 0;
    while rest.len() > 0
        invariant
            original == old(module).functions@,
            module.global_variables == old(module).global_variables,
            module.strings == old(module).strings,
            n == original.len(),
            k + rest@.len() == original.len(),
            rest@ == original.subrange(k as int, original.len() as int),
            out@.len() == k,
            fold_functions(original.subrange(0, k as int)) is Some,
            (fold_functions(original.subrange(0, k as int))->0).1 == entries@,
            bodies_replaced(original.subrange(0, k as int), out@, (fold_functions(original.subrange(0, k as int))->0).0),
            forall|j: int| 0 <= j < k && body_wf(original[j].body@) ==> body_wf((#[trigger] out@[j]).body@),
            count_function_nodes(out@) + entries@.len() == count_function_nodes(original.subrange(0, k as int)),
        decreases rest.len(),
    {
        let function = rest.remove(0);
        proof {
            assert(function == original[k as int]);
            assert(original.subrange(0, k + 1).drop_last() =~= original.subrange(0, k as int));
            assert(original.subrange(0, k + 1).last() == function);
        }
        let IRFunction { name, parameters, parameter_regs, body } = function;
        match fold_body(body) {
            Err(e) => {
                proof {
                    assert(functions_failure(original.subrange(0, k + 1)) == blocks_failure(original[k as int].body@));
                    lemma_fold_functions_none_extends(original, k as int + 1);
                }
                return Err(e);
            },
            Ok((new_body, es)) => {
                let ghost before = out@;
                out.push(IRFunction { name, parameters, parameter_regs, body: new_body });
                let mut es = es;
                entries.append(&mut es);
                proof {
                    assert(out@.drop_last() =~= before);
                    let ns = (fold_functions(original.subrange(0, k + 1))->0).0;
                    let sub = original.subrange(0, k + 1);
                    assert forall|i: int| 0 <= i < sub.len() implies {
                        let f = #[trigger] out@[i];
                        let g = sub[i];
                        &&& f.name == g.name
                        &&& f.parameters == g.parameters
                        &&& f.parameter_regs == g.parameter_regs
                        &&& f.body@.len() == g.body@.len()
                        &&& ns[i].len() == g.body@.len()
                        &&& forall|j: int| 0 <= j < g.body@.len() ==> (#[trigger] f.body@[j]).id == g.body@[j].id
                            && f.body@[j].nodes@ == ns[i][j]
                    } by {
                        if i < k {
                            assert(out@[i] == before[i]);
                            assert(sub[i] == original.subrange(0, k as int)[i]);
                        }
                    }
                    assert forall|j: int| 0 <= j < k + 1 && body_wf(original[j].body@) implies body_wf((#[trigger] out@[j]).body@) by {
                        if j < k {
                            assert(out@[j] == before[j]);
                        }
                    }
                }
            },
        }
        k += 1;
        proof {
            assert(rest@ =~= original.subrange(k as int, original.len() as int));
        }
    }
    proof {
        assert(original.subrange(0, k as int) =~= original);
    }
    module.functions = out;
    Ok(entries)
}

} // verus!
