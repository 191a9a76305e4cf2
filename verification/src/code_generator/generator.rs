//! x86-64 assembly (AT&T syntax) from allocated IR.
use vstd::prelude::*;
use crate::code_generator::error::CodeGeneratorError;
use crate::ir_generator::domain::{IRBinaryOp, IRBlock, IRFunction, IRModule, IRNode, IRNodeKind, IRString, IRUnaryOp, IRValue, IRVariable, IRVariableDeclaration};
use vstd::utf8::encode_utf8;
use crate::physical_register::PhysicalRegister;
use crate::register_allocator::assoc::lookup;
use crate::register_allocator::domain::{allocation_of, RegisterAllocation, RegisterAllocationFunction};
use crate::text::{chars_of, debug_escaped, decimal, escape_debug, i64_to_text, push_str, signed_decimal, str_equal, u64_to_text, usize_to_text};
use crate::virtual_register::VirtualRegister;

verus! {

// ---------------------------------------------------------------------------
// Registers and operands.
// ---------------------------------------------------------------------------

/// The physical register of a virtual register under the current allocation.
pub open spec fn phys(a: Option<Seq<(VirtualRegister, PhysicalRegister)>>, r: VirtualRegister) -> Option<PhysicalRegister> {
    match a {
        Some(m) => lookup(m, r),
        None => None,
    }
}

/// The assembler name of a virtual register's physical register.
pub open spec fn reg_name(a: Option<Seq<(VirtualRegister, PhysicalRegister)>>, r: VirtualRegister) -> Option<Seq<char>> {
    match phys(a, r) {
        Some(p) => Some(p.spec_name()),
        None => None,
    }
}

/// An operand: its assembler form and the code that prepares it.
pub open spec fn value_asm(a: Option<Seq<(VirtualRegister, PhysicalRegister)>>, v: IRValue) -> Option<(Seq<char>, Seq<char>)> {
    match v {
        IRValue::GlobalVariable(name) => Some((name@ + "(%rip)"@, Seq::empty())),
        IRValue::Immediate(x) => Some(("$"@ + signed_decimal(x as int), Seq::empty())),
        IRValue::StringLiteral { string, reg } => match reg_name(a, reg) {
            Some(n) => Some((n, "\tleaq\t"@ + ".str."@ + decimal(string.id as nat) + "(%rip), "@ + n + "\n"@)),
            None => None,
        },
        IRValue::Register(r) => match reg_name(a, r) {
            Some(n) => Some((n, Seq::empty())),
            None => None,
        },
    }
}

pub open spec fn variable_asm(a: Option<Seq<(VirtualRegister, PhysicalRegister)>>, v: IRVariable) -> Option<Seq<char>> {
    match v {
        IRVariable::Global(name) => Some(name@ + "(%rip)"@),
        IRVariable::Register(r) => reg_name(a, r),
    }
}

// ---------------------------------------------------------------------------
// Parallel moves.
// ---------------------------------------------------------------------------

/// The moves between distinct physical registers, or `None` when some
/// register has no physical register.
pub open spec fn physical_moves(a: Option<Seq<(VirtualRegister, PhysicalRegister)>>, moves: Seq<(VirtualRegister, VirtualRegister)>) -> Option<Seq<(PhysicalRegister, PhysicalRegister)>>
    decreases moves.len(),
{
    if moves.len() == 0 {
        Some(Seq::empty())
    } else {
        match physical_moves(a, moves.drop_last()) {
            None => None,
            Some(pm) => match (phys(a, moves.last().0), phys(a, moves.last().1)) {
                (Some(s), Some(d)) => if s == d {
                    Some(pm)
                } else {
                    Some(pm.push((s, d)))
                },
                _ => None,
            },
        }
    }
}

/// The first chain that ends with `src`, or -1.
pub open spec fn chain_ending(chains: Seq<Seq<PhysicalRegister>>, src: PhysicalRegister) -> int
    decreases chains.len(),
{
    if chains.len() == 0 {
        -1
    } else {
        let i = chain_ending(chains.drop_last(), src);
        if i >= 0 {
            i
        } else if chains.last().len() > 0 && chains.last().last() == src {
            chains.len() - 1
        } else {
            -1
        }
    }
}

/// Chains and cycles of moves: a move extends the first chain that ends
/// where it starts (closing a cycle when it leads back to the chain's
/// start), or starts a new chain.
pub open spec fn build_chains(pm: Seq<(PhysicalRegister, PhysicalRegister)>) -> (Seq<Seq<PhysicalRegister>>, Seq<Seq<PhysicalRegister>>)
    decreases pm.len(),
{
    if pm.len() == 0 {
        (Seq::empty(), Seq::empty())
    } else {
        let (chains, cycles) = build_chains(pm.drop_last());
        let (src, dst) = pm.last();
        if src == dst {
            (chains, cycles)
        } else {
            let i = chain_ending(chains, src);
            if i >= 0 {
                let extended = chains[i].push(dst);
                if chains[i][0] == dst {
                    (chains.remove(i), cycles.push(extended))
                } else {
                    (chains.update(i, extended), cycles)
                }
            } else {
                (chains.push(seq![src, dst]), cycles)
            }
        }
    }
}

/// The instructions that run a chain backwards: `op src, dst` for each link,
/// last link first.
pub open spec fn chain_text(op: Seq<char>, c: Seq<PhysicalRegister>) -> Seq<char>
    decreases c.len(),
{
    if c.len() < 2 {
        Seq::empty()
    } else {
        line2(op, c[c.len() - 2].spec_name(), c.last().spec_name()) + chain_text(op, c.drop_last())
    }
}

pub open spec fn chains_text(op: Seq<char>, cs: Seq<Seq<PhysicalRegister>>) -> Seq<char>
    decreases cs.len(),
{
    if cs.len() == 0 {
        Seq::empty()
    } else {
        chains_text(op, cs.drop_last()) + chain_text(op, cs.last())
    }
}

/// The code of a parallel move: the chains with `movq`, then the cycles
/// with `xchgq`.
pub open spec fn parallel_move_asm(a: Option<Seq<(VirtualRegister, PhysicalRegister)>>, moves: Seq<(VirtualRegister, VirtualRegister)>) -> Option<Seq<char>> {
    match physical_moves(a, moves) {
        Some(pm) => Some(chains_text("movq"@, build_chains(pm).0) + chains_text("xchgq"@, build_chains(pm).1)),
        None => None,
    }
}

// ---------------------------------------------------------------------------
// Nodes.
// ---------------------------------------------------------------------------

/// An instruction with one operand: `\t<op>\t<x>\n`.
pub open spec fn line1(op: Seq<char>, x: Seq<char>) -> Seq<char> {
    "\t"@ + op + "\t"@ + x + "\n"@
}

/// An instruction with two operands: `\t<op>\t<x>, <y>\n`.
pub open spec fn line2(op: Seq<char>, x: Seq<char>, y: Seq<char>) -> Seq<char> {
    "\t"@ + op + "\t"@ + x + ", "@ + y + "\n"@
}

pub open spec fn binary_op_name(op: IRBinaryOp) -> Seq<char> {
    match op {
        IRBinaryOp::Add => "addq"@,
        IRBinaryOp::Sub => "subq"@,
        IRBinaryOp::Mul => "imulq"@,
        IRBinaryOp::Div => "idivq"@,
        IRBinaryOp::BitAnd => "andq"@,
        IRBinaryOp::BitOr => "orq"@,
        IRBinaryOp::Eq => "cmpq"@,
        IRBinaryOp::Less => "cmpq"@,
    }
}

/// The arithmetic of a binary operation once its operands are named.
pub open spec fn binary_body(op: IRBinaryOp, right: IRValue, ln: Seq<char>, rn: Seq<char>, res: Seq<char>) -> Seq<char> {
    if op is Div {
        (if ln != "%rax"@ { line2("movq"@, ln, "%rax"@) } else { Seq::empty() }) + "\tcqto\n"@ + line1("idivq"@, rn)
    } else if op is Eq || op is Less {
        if right is Immediate {
            line2("cmpq"@, rn, ln)
        } else {
            line2("cmpq"@, ln, rn)
        }
    } else if ln == res {
        "\t"@ + binary_op_name(op) + " "@ + rn + ", "@ + ln + "\n"@
    } else if rn == res {
        line2(binary_op_name(op), ln, rn) + if op is Sub {
            line1("negq"@, rn)
        } else {
            Seq::empty()
        }
    } else {
        line2("movq"@, ln, res) + line2(binary_op_name(op), rn, res)
    }
}

/// The flag materialisation after a comparison.
pub open spec fn compare_tail(op: IRBinaryOp, right: IRValue, result: PhysicalRegister, res: Seq<char>) -> Seq<char> {
    if op is Eq || op is Less {
        let set = if op is Eq {
            "sete"@
        } else if right is Immediate {
            "setl"@
        } else {
            "setg"@
        };
        line1(set, result.spec_byte_name()) + line2("movzbq"@, result.spec_byte_name(), res)
    } else {
        Seq::empty()
    }
}

/// After `cmpq src, dst` (AT&T order: the flags of `dst - src`), whether
/// the condition of the set instruction `set` holds: `sete` when the two
/// values are equal, `setl` when `dst` is less than `src`, `setg` when it is
/// greater, all signed.
pub open spec fn set_condition(set: Seq<char>, src: int, dst: int) -> bool {
    if set == "sete"@ {
        dst == src
    } else if set == "setl"@ {
        dst < src
    } else if set == "setg"@ {
        dst > src
    } else {
        false
    }
}

/// `code` compares the operands named `src` and `dst` with `cmpq src, dst`,
/// sets the low byte of the result with `set` and widens it into the result;
/// the operands are the left one (named `ln`, value `lv`) and the right one
/// (`rn`, `rv`) in either order, and the set condition holds exactly when
/// `lv op rv` does (`op` being less-than or equality).
pub open spec fn compares_to(
    code: Seq<char>,
    op: IRBinaryOp,
    ln: Seq<char>,
    rn: Seq<char>,
    lv: int,
    rv: int,
    byte: Seq<char>,
    res: Seq<char>,
    src: Seq<char>,
    dst: Seq<char>,
    set: Seq<char>,
) -> bool {
    let holds = if op is Less {
        lv < rv
    } else {
        lv == rv
    };
    &&& code == line2("cmpq"@, src, dst) + (line1(set, byte) + line2("movzbq"@, byte, res))
    &&& ((src == ln && dst == rn && (set_condition(set, lv, rv) <==> holds)) || (src == rn && dst == ln && (set_condition(
        set,
        rv,
        lv,
    ) <==> holds)))
}

/// The code of a comparison node leaves 1 in the result register exactly
/// when the comparison holds of the operand values: for `Less`, when the
/// left value is smaller than the right one (signed); for `Eq`, when they
/// are equal. This holds whatever the values `lv` and `rv` in the operands
/// named `ln` and `rn` are.
pub proof fn lemma_comparison_result(
    op: IRBinaryOp,
    right: IRValue,
    ln: Seq<char>,
    rn: Seq<char>,
    result: PhysicalRegister,
    lv: int,
    rv: int,
)
    requires
        op is Less || op is Eq,
    ensures
        exists|src: Seq<char>, dst: Seq<char>, set: Seq<char>|
            #[trigger] compares_to(
                binary_body(op, right, ln, rn, result.spec_name()) + compare_tail(op, right, result, result.spec_name()),
                op,
                ln,
                rn,
                lv,
                rv,
                result.spec_byte_name(),
                result.spec_name(),
                src,
                dst,
                set,
            ),
{
    let code = binary_body(op, right, ln, rn, result.spec_name()) + compare_tail(op, right, result, result.spec_name());
    let byte = result.spec_byte_name();
    let res = result.spec_name();
    let set = if op is Eq {
        "sete"@
    } else if right is Immediate {
        "setl"@
    } else {
        "setg"@
    };
    reveal_strlit("sete");
    reveal_strlit("setl");
    reveal_strlit("setg");
    assert("setl"@[3] != "sete"@[3]);
    assert("setg"@[3] != "sete"@[3]);
    assert("setg"@[3] != "setl"@[3]);
    if right is Immediate {
        assert(compares_to(code, op, ln, rn, lv, rv, byte, res, rn, ln, set));
    } else {
        assert(compares_to(code, op, ln, rn, lv, rv, byte, res, ln, rn, set));
    }
}

/// One two-operand instruction `<op> src, dst` (written with a space
/// rather than a tab after the mnemonic when `spaced`), or `negq dst` or
/// `notq dst`.
pub struct AsmStep {
    pub op: Seq<char>,
    pub src: Seq<char>,
    pub dst: Seq<char>,
    pub spaced: bool,
}

/// The text of one instruction.
pub open spec fn step_text(s: AsmStep) -> Seq<char> {
    if s.op == "negq"@ || s.op == "notq"@ {
        line1(s.op, s.dst)
    } else if s.spaced {
        "\t"@ + s.op + " "@ + s.src + ", "@ + s.dst + "\n"@
    } else {
        line2(s.op, s.src, s.dst)
    }
}

/// The text of a list of instructions.
pub open spec fn steps_text(steps: Seq<AsmStep>) -> Seq<char>
    decreases steps.len(),
{
    if steps.len() == 0 {
        Seq::empty()
    } else {
        steps_text(steps.drop_last()) + step_text(steps.last())
    }
}

/// What an arithmetic instruction leaves in its destination, from the
/// values of its source and destination: `addq` adds, `subq` subtracts the
/// source from the destination, `imulq` multiplies, `movq` copies the
/// source, `negq` negates the destination and `notq` complements it.
pub open spec fn alu(op: Seq<char>, src: int, dst: int) -> int {
    if op == "addq"@ {
        dst + src
    } else if op == "subq"@ {
        dst - src
    } else if op == "imulq"@ {
        dst * src
    } else if op == "movq"@ {
        src
    } else if op == "negq"@ {
        -dst
    } else if op == "notq"@ {
        -dst - 1
    } else {
        0
    }
}

/// The values of the operands after running the instructions from `env`.
pub open spec fn run_steps(steps: Seq<AsmStep>, env: Map<Seq<char>, int>) -> Map<Seq<char>, int>
    decreases steps.len(),
{
    if steps.len() == 0 {
        env
    } else {
        let before = run_steps(steps.drop_last(), env);
        let s = steps.last();
        before.insert(s.dst, alu(s.op, before[s.src], before[s.dst]))
    }
}

/// The integer an addition, subtraction or multiplication computes.
pub open spec fn arithmetic_value(op: IRBinaryOp, l: int, r: int) -> int {
    match op {
        IRBinaryOp::Add => l + r,
        IRBinaryOp::Sub => l - r,
        _ => l * r,
    }
}

/// The code of an addition, subtraction or multiplication of the operand
/// named `ln` (value `lv`) and the one named `rn` (value `rv`) into the
/// register named `res` is a list of instructions that leaves `lv + rv`,
/// `lv - rv` or `lv * rv` in `res`, whether `res` is the left operand, the
/// right one or neither (two names that are equal hold the same value).
pub proof fn lemma_arithmetic_result(
    op: IRBinaryOp,
    right: IRValue,
    ln: Seq<char>,
    rn: Seq<char>,
    res: Seq<char>,
    lv: int,
    rv: int,
    env: Map<Seq<char>, int>,
)
    requires
        op is Add || op is Sub || op is Mul,
        env.contains_key(ln) && env[ln] == lv,
        env.contains_key(rn) && env[rn] == rv,
        env.contains_key(res),
    ensures
        exists|steps: Seq<AsmStep>|
            steps_text(steps) == binary_body(op, right, ln, rn, res) && #[trigger] run_steps(steps, env)[res] == arithmetic_value(
                op,
                lv,
                rv,
            ),
{
    reveal_strlit("addq");
    reveal_strlit("subq");
    reveal_strlit("imulq");
    reveal_strlit("movq");
    reveal_strlit("negq");
    reveal_strlit("notq");
    assert("addq"@[0] != "negq"@[0] && "subq"@[0] != "negq"@[0] && "imulq"@[0] != "negq"@[0] && "movq"@[0] != "negq"@[0]);
    assert("addq"@[0] != "notq"@[0] && "subq"@[0] != "notq"@[0] && "imulq"@[0] != "notq"@[0] && "movq"@[0] != "notq"@[0]);
    assert("addq"@[0] != "subq"@[0] && "addq"@[0] != "imulq"@[0] && "addq"@[0] != "movq"@[0]);
    assert("subq"@[0] != "imulq"@[0] && "subq"@[0] != "movq"@[0] && "imulq"@[0] != "movq"@[0]);
    reveal_with_fuel(steps_text, 3);
    reveal_with_fuel(run_steps, 3);
    let name = binary_op_name(op);
    assert(name != "negq"@ && name != "notq"@);
    let code = binary_body(op, right, ln, rn, res);
    if ln == res {
        let s1 = AsmStep { op: name, src: rn, dst: ln, spaced: true };
        let steps = seq![s1];
        assert(steps.drop_last() =~= Seq::<AsmStep>::empty());
        assert(steps_text(steps) =~= code);
        let out = run_steps(steps, env);
        assert(out[res] == alu(name, rv, lv));
        if op is Mul {
            assert(lv * rv == rv * lv) by (nonlinear_arith);
        }
        assert(run_steps(steps, env)[res] == arithmetic_value(op, lv, rv));
    } else if rn == res {
        let s1 = AsmStep { op: name, src: ln, dst: rn, spaced: false };
        if op is Sub {
            let s2 = AsmStep { op: "negq"@, src: rn, dst: rn, spaced: false };
            let steps = seq![s1, s2];
            assert(steps.drop_last() =~= seq![s1]);
            assert(seq![s1].drop_last() =~= Seq::<AsmStep>::empty());
            assert(steps_text(steps) =~= code);
            let mid = run_steps(seq![s1], env);
            assert(mid[rn] == rv - lv);
            assert(run_steps(steps, env)[res] == arithmetic_value(op, lv, rv));
        } else {
            let steps = seq![s1];
            assert(steps.drop_last() =~= Seq::<AsmStep>::empty());
            assert(steps_text(steps) =~= code);
            if op is Mul {
                assert(rv * lv == lv * rv) by (nonlinear_arith);
            }
            assert(run_steps(steps, env)[res] == arithmetic_value(op, lv, rv));
        }
    } else {
        let s1 = AsmStep { op: "movq"@, src: ln, dst: res, spaced: false };
        let s2 = AsmStep { op: name, src: rn, dst: res, spaced: false };
        let steps = seq![s1, s2];
        assert(steps.drop_last() =~= seq![s1]);
        assert(seq![s1].drop_last() =~= Seq::<AsmStep>::empty());
        assert(steps_text(steps) =~= code);
        let mid = run_steps(seq![s1], env);
        assert(mid[res] == lv);
        assert(mid[rn] == rv);
        assert(run_steps(steps, env)[res] == arithmetic_value(op, lv, rv));
    }
}

/// The code of a negation or a complement of the operand named `on`
/// (value `ov`) into the register named `res` is the operand's code and a
/// list of instructions that leaves `-ov`, or `-ov - 1` (the bitwise
/// complement), in `res`.
pub proof fn lemma_negation_result(
    a: Option<Seq<(VirtualRegister, PhysicalRegister)>>,
    fname: Seq<char>,
    op: IRUnaryOp,
    operand: IRValue,
    result: VirtualRegister,
    on: Seq<char>,
    oc: Seq<char>,
    res: Seq<char>,
    ov: int,
    env: Map<Seq<char>, int>,
)
    requires
        op is Neg || op is Not,
        value_asm(a, operand) == Some((on, oc)),
        reg_name(a, result) == Some(res),
        env.contains_key(on) && env[on] == ov,
        env.contains_key(res),
    ensures
        exists|steps: Seq<AsmStep>|
            node_asm(a, fname, IRNodeKind::UnaryOp { op, operand, result }) == Some(oc + steps_text(steps)) && #[trigger] run_steps(
                steps,
                env,
            )[res] == if op is Neg {
                -ov
            } else {
                -ov - 1
            },
{
    reveal_with_fuel(steps_text, 3);
    reveal_with_fuel(run_steps, 3);
    reveal_strlit("negq");
    reveal_strlit("notq");
    reveal_strlit("movq");
    reveal_strlit("addq");
    reveal_strlit("subq");
    reveal_strlit("imulq");
    assert("movq"@[0] != "negq"@[0] && "movq"@[0] != "notq"@[0] && "negq"@[1] != "notq"@[1]);
    assert("addq"@[0] != "negq"@[0] && "subq"@[0] != "negq"@[0] && "imulq"@[0] != "negq"@[0]);
    assert("addq"@[0] != "notq"@[0] && "subq"@[0] != "notq"@[0] && "imulq"@[0] != "notq"@[0]);
    let m = if op is Neg { "negq"@ } else { "notq"@ };
    let s1 = AsmStep { op: m, src: on, dst: on, spaced: false };
    let code = node_asm(a, fname, IRNodeKind::UnaryOp { op, operand, result })->0;
    if on != res {
        let s2 = AsmStep { op: "movq"@, src: on, dst: res, spaced: false };
        let steps = seq![s1, s2];
        assert(steps.drop_last() =~= seq![s1]);
        assert(seq![s1].drop_last() =~= Seq::<AsmStep>::empty());
        assert(code =~= oc + steps_text(steps));
        assert(run_steps(steps, env)[res] == if op is Neg { -ov } else { -ov - 1 });
    } else {
        let steps = seq![s1];
        assert(steps.drop_last() =~= Seq::<AsmStep>::empty());
        assert(code =~= oc + steps_text(steps));
        assert(run_steps(steps, env)[res] == if op is Neg { -ov } else { -ov - 1 });
    }
}

/// The library functions that are called through the PLT.
pub open spec fn is_library_function(name: Seq<char>) -> bool {
    name == "printf"@ || name == "malloc"@ || name == "random"@ || name == "srandom"@ || name == "atol"@ || name == "exit"@
}

/// The label of a block.
pub open spec fn block_label(fname: Seq<char>, id: usize) -> Seq<char> {
    "."@ + fname + "_"@ + decimal(id as nat)
}

pub open spec fn arguments_code(a: Option<Seq<(VirtualRegister, PhysicalRegister)>>, args: Seq<IRValue>) -> Option<Seq<char>>
    decreases args.len(),
{
    if args.len() == 0 {
        Some(Seq::empty())
    } else {
        match (arguments_code(a, args.drop_last()), value_asm(a, args.last())) {
            (Some(c), Some((_, code))) => Some(c + code),
            _ => None,
        }
    }
}

/// The register moves of a call: each argument that lives in a register to
/// its argument register, as far as both lists go.
pub open spec fn call_register_moves(args: Seq<IRValue>, regs: Seq<VirtualRegister>) -> Seq<(VirtualRegister, VirtualRegister)>
    decreases args.len(),
{
    let n = if args.len() < regs.len() { args.len() } else { regs.len() };
    if n == 0 {
        Seq::empty()
    } else {
        let prior = call_register_moves(args.subrange(0, n - 1), regs.subrange(0, n - 1));
        match args[n - 1].spec_register() {
            Some(r) => prior.push((r, regs[n - 1])),
            None => prior,
        }
    }
}

/// The loads of a call's immediate and global arguments into their argument
/// registers.
pub open spec fn call_other_moves(a: Option<Seq<(VirtualRegister, PhysicalRegister)>>, args: Seq<IRValue>, regs: Seq<VirtualRegister>) -> Option<Seq<char>>
    decreases args.len(),
{
    let n = if args.len() < regs.len() { args.len() } else { regs.len() };
    if n == 0 {
        Some(Seq::empty())
    } else {
        match call_other_moves(a, args.subrange(0, n - 1), regs.subrange(0, n - 1)) {
            None => None,
            Some(prior) => if args[n - 1] is GlobalVariable || args[n - 1] is Immediate {
                match (value_asm(a, args[n - 1]), reg_name(a, regs[n - 1])) {
                    (Some((arg, _)), Some(dst)) => Some(prior + line2("movq"@, arg, dst)),
                    _ => None,
                }
            } else {
                Some(prior)
            },
        }
    }
}

/// The name a call jumps to: library functions go through the PLT.
pub open spec fn callee_asm(a: Option<Seq<(VirtualRegister, PhysicalRegister)>>, name: IRVariable) -> Option<Seq<char>> {
    match name {
        IRVariable::Global(n) => if is_library_function(n@) { Some(n@ + "@PLT"@) } else { Some(n@) },
        IRVariable::Register(r) => reg_name(a, r),
    }
}

/// A call: the arguments' own code, the register moves into the argument
/// registers, the loads of constant arguments, `%al` cleared for `printf`,
/// and the call.
pub open spec fn call_asm(a: Option<Seq<(VirtualRegister, PhysicalRegister)>>, name: IRVariable, args: Seq<IRValue>, regs: Seq<VirtualRegister>) -> Option<Seq<char>> {
    match (callee_asm(a, name), arguments_code(a, args), parallel_move_asm(a, call_register_moves(args, regs)), call_other_moves(a, args, regs)) {
        (Some(c), Some(ac), Some(pm), Some(om)) => Some(ac + pm + om + (if c == "printf@PLT"@ { "\tmovb\t$0, %al\n"@ } else { Seq::empty() })
            + line1("callq"@, c)),
        _ => None,
    }
}

/// The jumps of a branch to its targets' labels.
pub open spec fn jumps_asm(fname: Seq<char>, yes: Seq<char>, no: Seq<char>, true_branch: Option<usize>, false_branch: Option<usize>) -> Seq<char> {
    (match true_branch {
        Some(t) => line1(yes, block_label(fname, t)),
        None => Seq::empty(),
    }) + match false_branch {
        Some(f) => line1(no, block_label(fname, f)),
        None => Seq::empty(),
    }
}

/// A branch: a test of the condition against zero, then `jne`/`je`, or
/// plain jumps without a condition.
pub open spec fn branch_asm(a: Option<Seq<(VirtualRegister, PhysicalRegister)>>, fname: Seq<char>, condition: Option<IRValue>, true_branch: Option<usize>, false_branch: Option<usize>) -> Option<Seq<char>> {
    match condition {
        Some(c) => match value_asm(a, c) {
            Some((cv, cc)) => Some(cc + line2("cmpq"@, "$0"@, cv) + jumps_asm(fname, "jne"@, "je"@, true_branch, false_branch)),
            None => None,
        },
        None => Some(jumps_asm(fname, "jmp"@, "jmp"@, true_branch, false_branch)),
    }
}

/// The assembly of one node, or `None` when a register it needs has no
/// physical register or it takes an address.
pub open spec fn node_asm(a: Option<Seq<(VirtualRegister, PhysicalRegister)>>, fname: Seq<char>, k: IRNodeKind) -> Option<Seq<char>> {
    match k {
        IRNodeKind::Assign { variable, value } => match (value_asm(a, value), variable_asm(a, variable)) {
            (Some((vn, vc)), Some(var)) => Some(vc + line2("movq"@, vn, var)),
            _ => None,
        },
        IRNodeKind::AddressAssignment { address, value } => match (value_asm(a, value), value_asm(a, address)) {
            (Some((vn, vc)), Some((an, ac))) => Some(vc + ac + "\tmovq\t"@ + vn + ", ("@ + an + ")\n"@),
            _ => None,
        },
        IRNodeKind::Spill { reg, offset } => match reg_name(a, reg) {
            Some(n) => Some("\tmovq\t"@ + n + ", -"@ + decimal(offset as nat * 8) + "(%rbp)\n"@),
            None => None,
        },
        IRNodeKind::Unspill { reg, offset } => match reg_name(a, reg) {
            Some(n) => Some("\tmovq\t-"@ + decimal(offset as nat * 8) + "(%rbp), "@ + n + "\n"@),
            None => None,
        },
        IRNodeKind::Lea { base, index, scaler, result } => match (value_asm(a, base), reg_name(a, index), reg_name(a, result)) {
            (Some((bn, bc)), Some(i), Some(r)) => Some(bc + "\tleaq\t("@ + bn + ", "@ + i + ", "@ + signed_decimal(scaler as int) + "), "@ + r + "\n"@),
            _ => None,
        },
        IRNodeKind::BinaryOp { op, left, right, result, .. } => match (value_asm(a, left), value_asm(a, right), phys(a, result)) {
            (Some((ln, lc)), Some((rn, rc)), Some(rp)) => Some(lc + rc + binary_body(op, right, ln, rn, rp.spec_name())
                + compare_tail(op, right, rp, rp.spec_name())),
            _ => None,
        },
        IRNodeKind::UnaryOp { op, operand, result } => match (value_asm(a, operand), reg_name(a, result)) {
            (Some((on, oc)), Some(res)) => match op {
                IRUnaryOp::Neg | IRUnaryOp::Not => Some(oc + line1(if op is Neg { "negq"@ } else { "notq"@ }, on)
                    + if on != res { line2("movq"@, on, res) } else { Seq::empty() }),
                IRUnaryOp::Address => None,
                IRUnaryOp::Deref => Some(oc + "\tmovq\t("@ + on + "), "@ + res + "\n"@),
            },
            _ => None,
        },
        IRNodeKind::FunctionCall { name, arguments, argument_regs, .. } => call_asm(a, name, arguments@, argument_regs@),
        IRNodeKind::Branch { condition, true_branch, false_branch } => branch_asm(a, fname, condition, true_branch, false_branch),
        IRNodeKind::Return { value } => match value {
            Some(v) => match value_asm(a, v) {
                Some((vn, vc)) => Some(vc + line2("movq"@, vn, "%rax"@) + line1("jmp"@, "."@ + fname + "_end"@)),
                None => None,
            },
            None => Some(line1("jmp"@, "."@ + fname + "_end"@)),
        },
        _ => Some(Seq::empty()),
    }
}

/// What a node needs so that generating it cannot fail an internal check: a
/// division whose operands and result are allocated puts its quotient in
/// `%rax`, and a stack slot's byte offset fits in a `usize`.
pub open spec fn node_generable(a: Option<Seq<(VirtualRegister, PhysicalRegister)>>, k: IRNodeKind) -> bool {
    match k {
        IRNodeKind::BinaryOp { op, left, right, result, .. } =>
            (op is Div && value_asm(a, left) is Some && value_asm(a, right) is Some && phys(a, result) is Some)
                ==> phys(a, result) == Some(PhysicalRegister::RAX),
        IRNodeKind::Spill { reg, offset } => reg_name(a, reg) is Some ==> offset * 8 <= usize::MAX,
        IRNodeKind::Unspill { reg, offset } => reg_name(a, reg) is Some ==> offset * 8 <= usize::MAX,
        _ => true,
    }
}

// ---------------------------------------------------------------------------
// Functions and the module.
// ---------------------------------------------------------------------------

pub open spec fn nodes_asm(a: Option<Seq<(VirtualRegister, PhysicalRegister)>>, fname: Seq<char>, nodes: Seq<IRNode>) -> Option<Seq<char>>
    decreases nodes.len(),
{
    if nodes.len() == 0 {
        Some(Seq::empty())
    } else {
        match (nodes_asm(a, fname, nodes.drop_last()), node_asm(a, fname, nodes.last().kind)) {
            (Some(x), Some(y)) => Some(x + y),
            _ => None,
        }
    }
}

/// Each block: its label, then its nodes.
pub open spec fn blocks_asm(a: Option<Seq<(VirtualRegister, PhysicalRegister)>>, fname: Seq<char>, blocks: Seq<IRBlock>) -> Option<Seq<char>>
    decreases blocks.len(),
{
    if blocks.len() == 0 {
        Some(Seq::empty())
    } else {
        match (blocks_asm(a, fname, blocks.drop_last()), nodes_asm(a, fname, blocks.last().nodes@)) {
            (Some(x), Some(y)) => Some(x + block_label(fname, blocks.last().id) + ":\n"@ + y),
            _ => None,
        }
    }
}

/// The moves that bring the incoming argument registers into the
/// parameters, pairwise as far as both lists go.
pub open spec fn parameter_moves(f: IRFunction) -> Seq<(VirtualRegister, VirtualRegister)> {
    let n = if f.parameter_regs@.len() < f.parameters@.len() { f.parameter_regs@.len() } else { f.parameters@.len() };
    Seq::new(n, |i: int| (f.parameter_regs@[i], f.parameters@[i]))
}

/// The stack slot of the `i`-th saved register.
pub open spec fn save_slot(spill: nat, i: int) -> Seq<char> {
    "-"@ + decimal(((spill - i) * 8) as nat) + "(%rbp)"@
}

pub open spec fn saves_asm(regs: Seq<PhysicalRegister>, spill: nat) -> Seq<char>
    decreases regs.len(),
{
    if regs.len() == 0 {
        Seq::empty()
    } else {
        saves_asm(regs.drop_last(), spill) + line2("movq"@, regs.last().spec_name(), save_slot(spill, regs.len() - 1))
    }
}

pub open spec fn restores_asm(regs: Seq<PhysicalRegister>, spill: nat) -> Seq<char>
    decreases regs.len(),
{
    if regs.len() == 0 {
        Seq::empty()
    } else {
        restores_asm(regs.drop_last(), spill) + line2("movq"@, save_slot(spill, regs.len() - 1), regs.last().spec_name())
    }
}

/// The views of a function's allocation: mapping, callee-saved registers,
/// stack slots.
pub open spec fn allocation_views(x: RegisterAllocationFunction) -> (Seq<(VirtualRegister, PhysicalRegister)>, Seq<PhysicalRegister>, usize) {
    (x.mapping@, x.used_callee_save@, x.max_spilled_registers)
}

/// A function: header, frame set-up and saves when it has stack slots, the
/// parameter moves, the blocks, `main`'s zero exit code, the end label, the
/// restores, and the return.
#[verifier::opaque]
pub open spec fn function_asm(alloc: (Seq<(VirtualRegister, PhysicalRegister)>, Seq<PhysicalRegister>, usize), f: IRFunction) -> Option<Seq<char>> {
    let a = Some(alloc.0);
    let spill = alloc.2 as nat;
    let name = f.name@;
    match (parallel_move_asm(a, parameter_moves(f)), blocks_asm(a, name, f.body@)) {
        (Some(pm), Some(body)) => Some(
            line1(".globl"@, name) + line1(".p2align"@, "4"@) + line1(".type"@, name + ",@function"@) + name + ":\n"@
            + (if spill > 0 { "\tpushq\t%rbp\n"@ + "\tmovq\t%rsp, %rbp\n"@ + line2("subq"@, "$"@ + decimal(spill * 8), "%rsp"@) } else { Seq::empty() })
            + saves_asm(alloc.1, spill)
            + pm + body
            + (if name == "main"@ { "\tmovq\t$0, %rax\n"@ } else { Seq::empty() })
            + "."@ + name + "_end:\n"@
            + restores_asm(alloc.1, spill)
            + (if spill > 0 { "\tleave\n"@ } else { Seq::empty() })
            + "\tretq\n"@ + "\n"@),
        _ => None,
    }
}

/// What generating a function needs: a slot for every saved register, a
/// frame size that fits in a `usize`, and generable nodes.
pub open spec fn function_generable(alloc: (Seq<(VirtualRegister, PhysicalRegister)>, Seq<PhysicalRegister>, usize), f: IRFunction) -> bool {
    &&& alloc.1.len() <= alloc.2
    &&& alloc.2 * 8 <= usize::MAX
    &&& forall|i: int, j: int| 0 <= i < f.body@.len() && 0 <= j < f.body@[i].nodes@.len()
        ==> node_generable(Some(alloc.0), #[trigger] f.body@[i].nodes@[j].kind)
}

/// The allocation recorded under a name (the last entry for it), by views.
pub open spec fn find_allocation(entries: Seq<(String, RegisterAllocationFunction)>, name: Seq<char>) -> Option<(Seq<(VirtualRegister, PhysicalRegister)>, Seq<PhysicalRegister>, usize)> {
    match allocation_of(entries, name) {
        Some(x) => Some(allocation_views(x)),
        None => None,
    }
}

pub open spec fn functions_asm(entries: Seq<(String, RegisterAllocationFunction)>, fs: Seq<IRFunction>) -> Option<Seq<char>>
    decreases fs.len(),
{
    if fs.len() == 0 {
        Some(Seq::empty())
    } else {
        match (functions_asm(entries, fs.drop_last()), find_allocation(entries, fs.last().name@)) {
            (Some(prev), Some(x)) => match function_asm(x, fs.last()) {
                Some(c) => Some(prev + c),
                None => None,
            },
            _ => None,
        }
    }
}

pub open spec fn declaration_asm(g: IRVariableDeclaration) -> Seq<char> {
    line2(".type"@, g.name@, "@object"@) + line1(".globl"@, g.name@) + line1(".p2align"@, "4"@) + g.name@ + ":\n"@
        + line1(".zero"@, decimal(g.ty.spec_size() as nat)) + line2(".size"@, g.name@, decimal(g.ty.spec_size() as nat))
}

pub open spec fn globals_lines(gs: Seq<IRVariableDeclaration>) -> Seq<char>
    decreases gs.len(),
{
    if gs.len() == 0 {
        Seq::empty()
    } else {
        globals_lines(gs.drop_last()) + declaration_asm(gs.last())
    }
}

/// The `.bss` section with every global, or nothing without globals.
pub open spec fn globals_asm(gs: Seq<IRVariableDeclaration>) -> Seq<char> {
    if gs.len() == 0 {
        Seq::empty()
    } else {
        "\t.bss\n"@ + globals_lines(gs)
    }
}

/// A string constant: its label, its escaped text, and its size in bytes
/// with the terminating zero.
pub open spec fn string_asm(s: IRString) -> Seq<char> {
    let label = ".str."@ + decimal(s.id as nat);
    label + ":\n"@ + "\t.asciz\t\""@ + debug_escaped(s.value@) + "\"\n"@ + line2(".size"@, label, decimal(encode_utf8(s.value@).len() + 1))
}

pub open spec fn strings_lines(ss: Seq<IRString>) -> Seq<char>
    decreases ss.len(),
{
    if ss.len() == 0 {
        Seq::empty()
    } else {
        strings_lines(ss.drop_last()) + string_asm(ss.last())
    }
}

/// The read-only string section, or nothing without strings.
pub open spec fn strings_asm(ss: Seq<IRString>) -> Seq<char> {
    if ss.len() == 0 {
        Seq::empty()
    } else {
        "\t.section\t.rodata.str1.1, \"aMS\", @progbits, 1\n"@ + strings_lines(ss)
    }
}

/// The whole assembly file, or `None` when a function has no allocation or
/// a register it uses has none.
pub open spec fn module_asm(entries: Seq<(String, RegisterAllocationFunction)>, m: IRModule) -> Option<Seq<char>> {
    match functions_asm(entries, m.functions@) {
        Some(fc) => Some(".text\n"@ + fc + globals_asm(m.global_variables@) + strings_asm(m.strings@)
            + "\t.section .note.GNU-stack, \"\", @progbits\n"@),
        None => None,
    }
}

/// The error for a function without an allocation.
pub open spec fn is_not_found_error(r: Result<String, CodeGeneratorError>, name: Seq<char>) -> bool {
    r matches Err(e) && e.message@ == "Function "@ + name + " not found in allocation"@
}

/// Function `k` is the first one without an allocation, and every function
/// before it is generated.
pub open spec fn first_missing(entries: Seq<(String, RegisterAllocationFunction)>, fs: Seq<IRFunction>, k: int) -> bool {
    &&& 0 <= k < fs.len()
    &&& find_allocation(entries, fs[k].name@) is None
    &&& functions_asm(entries, fs.subrange(0, k)) is Some
}

/// The checks [`CodeGenerator::can_generate`] makes: every allocated function
/// is generable.
pub open spec fn module_checked(entries: Seq<(String, RegisterAllocationFunction)>, m: IRModule) -> bool {
    forall|i: int| 0 <= i < m.functions@.len() ==> (find_allocation(entries, (#[trigger] m.functions@[i]).name@) matches Some(x)
        ==> function_generable(x, m.functions@[i]))
}

/// What generating a module needs: the checks of
/// [`CodeGenerator::can_generate`], and every string's size in bytes fits in
/// a `usize` with room for its terminating zero.
pub open spec fn module_generable(entries: Seq<(String, RegisterAllocationFunction)>, m: IRModule) -> bool {
    &&& module_checked(entries, m)
    &&& forall|i: int| 0 <= i < m.strings@.len() ==> encode_utf8((#[trigger] m.strings@[i]).value@).len() < usize::MAX
}

pub struct CodeGenerator {
    allocation: RegisterAllocation,
    current_allocation: Option<RegisterAllocationFunction>,
    current_function_name: String,
    /// The allocation entries the generator was made with.
    entries: Ghost<Seq<(String, RegisterAllocationFunction)>>,
}

impl CodeGenerator {
    /// The allocation the generator works with.
    pub closed spec fn allocation(&self) -> RegisterAllocation {
        self.allocation
    }

    /// The register mapping of the function being generated.
    pub closed spec fn current_map(&self) -> Option<Seq<(VirtualRegister, PhysicalRegister)>> {
        match self.current_allocation {
            Some(x) => Some(x.mapping@),
            None => None,
        }
    }

    /// The views of the allocation of the function being generated.
    pub closed spec fn current_views(&self) -> Option<(Seq<(VirtualRegister, PhysicalRegister)>, Seq<PhysicalRegister>, usize)> {
        match self.current_allocation {
            Some(x) => Some(allocation_views(x)),
            None => None,
        }
    }

    /// The name of the function being generated.
    pub closed spec fn current_name(&self) -> Seq<char> {
        self.current_function_name@
    }

    /// The allocation entries the generator was made with.
    pub closed spec fn entries(&self) -> Seq<(String, RegisterAllocationFunction)> {
        self.entries@
    }

    /// The generator's own copy of the allocation agrees, name by name, with
    /// the entries it was made with.
    pub closed spec fn wf(&self) -> bool {
        forall|n: Seq<char>| #[trigger] find_allocation(self.allocation.functions@, n) == find_allocation(self.entries@, n)
    }

    pub fn new(allocation: &RegisterAllocation) -> (r: Self)
        ensures
            r.wf(),
            r.entries() == allocation.functions@,
    {
        let mut functions: Vec<(String, RegisterAllocationFunction)> = Vec::new();
        let mut i: usize = 0;
        while i < allocation.functions.len()
            invariant
                i <= allocation.functions@.len(),
                functions@.len() == i,
                forall|j: int| 0 <= j < i ==> (#[trigger] functions@[j]).0@ == allocation.functions@[j].0@
                    && allocation_views(functions@[j].1) == allocation_views(allocation.functions@[j].1),
            decreases allocation.functions.len() - i,
        {
            functions.push((allocation.functions[i].0.clone(), allocation.functions[i].1.clone()));
            i += 1;
        }
        proof {
            assert forall|n: Seq<char>| #[trigger] find_allocation(functions@, n) == find_allocation(allocation.functions@, n) by {
                lemma_find_allocation_views(functions@, allocation.functions@, n);
            }
        }
        CodeGenerator {
            allocation: RegisterAllocation { functions },
            current_allocation: None,
            current_function_name: String::new(),
            entries: Ghost(allocation.functions@),
        }
    }

    fn current(&self) -> (r: Option<&RegisterAllocationFunction>)
        ensures
            match r {
                Some(x) => self.current_map() == Some(x.mapping@) && self.current_views() == Some(allocation_views(*x)),
                None => self.current_map() is None && self.current_views() is None,
            },
    {
        match &self.current_allocation {
            Some(x) => Some(x),
            None => None,
        }
    }

    fn get_register(&self, reg: &VirtualRegister) -> (r: Result<PhysicalRegister, CodeGeneratorError>)
        ensures
            r is Ok <==> phys(self.current_map(), *reg) is Some,
            r matches Ok(p) ==> phys(self.current_map(), *reg) == Some(p),
    {
        match self.current() {
            None => {
                let mut m = "No current allocation for register ".to_string();
                let id = u64_to_text(reg.id as u64);
                push_str(&mut m, id.as_str());
                Err(CodeGeneratorError { message: m })
            },
            Some(allocation) => match allocation.get(reg) {
                Some(p) => Ok(p),
                None => {
                    let mut m = "Register ".to_string();
                    let id = u64_to_text(reg.id as u64);
                    push_str(&mut m, id.as_str());
                    push_str(&mut m, " not allocated");
                    Err(CodeGeneratorError { message: m })
                },
            },
        }
    }

    fn get_register_name(&self, reg: &VirtualRegister) -> (r: Result<String, CodeGeneratorError>)
        ensures
            r is Ok <==> reg_name(self.current_map(), *reg) is Some,
            r matches Ok(n) ==> reg_name(self.current_map(), *reg) == Some(n@),
    {
        let p = self.get_register(reg)?;
        let mut s = String::new();
        push_str(&mut s, p.name());
        Ok(s)
    }

    fn generate_value(&self, value: &IRValue) -> (r: Result<(String, String), CodeGeneratorError>)
        ensures
            r is Ok <==> value_asm(self.current_map(), *value) is Some,
            r matches Ok((n, c)) ==> value_asm(self.current_map(), *value) == Some((n@, c@)),
    {
        match value {
            IRValue::GlobalVariable(name) => {
                let mut n = String::new();
                push_str(&mut n, name.as_str());
                push_str(&mut n, "(%rip)");
                Ok((n, String::new()))
            },
            IRValue::Immediate(x) => {
                let mut n = String::new();
                push_str(&mut n, "$");
                let d = i64_to_text(*x);
                push_str(&mut n, d.as_str());
                Ok((n, String::new()))
            },
            IRValue::StringLiteral { string, reg } => {
                let n = self.get_register_name(reg)?;
                let mut c = String::new();
                push_str(&mut c, "\tleaq\t");
                let label = string.label();
                push_str(&mut c, label.as_str());
                push_str(&mut c, "(%rip), ");
                push_str(&mut c, n.as_str());
                push_str(&mut c, "\n");
                proof {
                    assert(c@ =~= "\tleaq\t"@ + ".str."@ + decimal(string.id as nat) + "(%rip), "@ + n@ + "\n"@);
                }
                Ok((n, c))
            },
            IRValue::Register(r) => {
                let n = self.get_register_name(r)?;
                Ok((n, String::new()))
            },
        }
    }

    fn generate_variable(&self, variable: &IRVariable) -> (r: Result<String, CodeGeneratorError>)
        ensures
            r is Ok <==> variable_asm(self.current_map(), *variable) is Some,
            r matches Ok(n) ==> variable_asm(self.current_map(), *variable) == Some(n@),
    {
        match variable {
            IRVariable::Global(name) => {
                let mut n = String::new();
                push_str(&mut n, name.as_str());
                push_str(&mut n, "(%rip)");
                Ok(n)
            },
            IRVariable::Register(r) => self.get_register_name(r),
        }
    }
}


proof fn lemma_physical_moves_none(a: Option<Seq<(VirtualRegister, PhysicalRegister)>>, s: Seq<(VirtualRegister, VirtualRegister)>, k: int)
    requires
        0 <= k <= s.len(),
        physical_moves(a, s.subrange(0, k)) is None,
    ensures
        physical_moves(a, s) is None,
    decreases s.len(),
{
    if k == s.len() {
        assert(s.subrange(0, k) =~= s);
    } else {
        assert(s.drop_last().subrange(0, k) =~= s.subrange(0, k));
        lemma_physical_moves_none(a, s.drop_last(), k);
    }
}

/// Whether chain `j` ends with `src`.
pub open spec fn ends_with(chains: Seq<Seq<PhysicalRegister>>, j: int, src: PhysicalRegister) -> bool {
    chains[j].len() > 0 && chains[j].last() == src
}

proof fn lemma_chain_ending(chains: Seq<Seq<PhysicalRegister>>, src: PhysicalRegister)
    ensures
        chain_ending(chains, src) == -1 ==> forall|j: int| 0 <= j < chains.len() ==> !#[trigger] ends_with(chains, j, src),
        chain_ending(chains, src) != -1 ==> {
            let i = chain_ending(chains, src);
            &&& 0 <= i < chains.len()
            &&& ends_with(chains, i, src)
            &&& forall|j: int| 0 <= j < i ==> !#[trigger] ends_with(chains, j, src)
        },
    decreases chains.len(),
{
    if chains.len() > 0 {
        lemma_chain_ending(chains.drop_last(), src);
        assert forall|j: int| 0 <= j < chains.len() - 1 implies #[trigger] ends_with(chains, j, src) == ends_with(chains.drop_last(), j, src) by {}
    }
}

/// Appends the instructions of one chain.
fn emit_chain(code: &mut String, op: &str, c: &Vec<PhysicalRegister>)
    ensures
        final(code)@ == old(code)@ + chain_text(op@, c@),
{
    let mut k: usize = c.len();
    proof {
        assert(c@.subrange(0, k as int) =~= c@);
        assert(code@ + chain_text(op@, c@) =~= old(code)@ + chain_text(op@, c@));
    }
    while k >= 2
        invariant
            k <= c@.len(),
            old(code)@ + chain_text(op@, c@) == code@ + chain_text(op@, c@.subrange(0, k as int)),
        decreases k,
    {
        let ghost before = code@;
        emit2(code, op, c[k - 2].name(), c[k - 1].name());
        proof {
            let sub = c@.subrange(0, k as int);
            let line = line2(op@, c@[k - 2].spec_name(), c@[k - 1].spec_name());
            let rest = chain_text(op@, c@.subrange(0, k - 1));
            assert(sub.drop_last() =~= c@.subrange(0, k - 1));
            assert(sub[sub.len() - 2] == c@[k - 2]);
            assert(sub.last() == c@[k - 1]);
            assert(chain_text(op@, sub) == line + rest);
            assert(before + (line + rest) =~= (before + line) + rest);
        }
        k -= 1;
    }
    proof {
        assert(code@ + chain_text(op@, c@.subrange(0, k as int)) =~= code@);
    }
}

/// Appends the instructions of each chain in order.
fn emit_chains(code: &mut String, op: &str, cs: &Vec<Vec<PhysicalRegister>>)
    ensures
        final(code)@ == old(code)@ + chains_text(op@, cs@.map_values(|c: Vec<PhysicalRegister>| c@)),
{
    let ghost views = cs@.map_values(|c: Vec<PhysicalRegister>| c@);
    let mut i: usize = 0;
    proof {
        assert(views.subrange(0, 0) =~= Seq::<Seq<PhysicalRegister>>::empty());
        assert(code@ =~= old(code)@ + chains_text(op@, views.subrange(0, 0)));
    }
    while i < cs.len()
        invariant
            i <= cs@.len(),
            views == cs@.map_values(|c: Vec<PhysicalRegister>| c@),
            code@ == old(code)@ + chains_text(op@, views.subrange(0, i as int)),
        decreases cs.len() - i,
    {
        let ghost before = code@;
        emit_chain(code, op, &cs[i]);
        proof {
            let sub = views.subrange(0, i + 1);
            assert(sub.drop_last() =~= views.subrange(0, i as int));
            assert(sub.last() == cs@[i as int]@);
            assert(code@ =~= old(code)@ + chains_text(op@, sub));
        }
        i += 1;
    }
    proof {
        assert(views.subrange(0, i as int) =~= views);
    }
}

impl CodeGenerator {
    fn physical_moves(&self, moves: &Vec<(VirtualRegister, VirtualRegister)>) -> (r: Result<Vec<(PhysicalRegister, PhysicalRegister)>, CodeGeneratorError>)
        ensures
            r is Ok <==> physical_moves(self.current_map(), moves@) is Some,
            r matches Ok(pm) ==> physical_moves(self.current_map(), moves@) == Some(pm@),
    {
        let mut pm: Vec<(PhysicalRegister, PhysicalRegister)> = Vec::new();
        let mut i: usize = 0;
        proof {
            assert(moves@.subrange(0, 0) =~= Seq::<(VirtualRegister, VirtualRegister)>::empty());
        }
        while i < moves.len()
            invariant
                i <= moves@.len(),
                physical_moves(self.current_map(), moves@.subrange(0, i as int)) == Some(pm@),
            decreases moves.len() - i,
        {
            let ghost sub = moves@.subrange(0, i + 1);
            proof {
                assert(sub.drop_last() =~= moves@.subrange(0, i as int));
                assert(sub.last() == moves@[i as int]);
            }
            let s = match self.get_register(&moves[i].0) {
                Ok(p) => p,
                Err(e) => {
                    proof { lemma_physical_moves_none(self.current_map(), moves@, i + 1); }
                    return Err(e);
                },
            };
            let d = match self.get_register(&moves[i].1) {
                Ok(p) => p,
                Err(e) => {
                    proof { lemma_physical_moves_none(self.current_map(), moves@, i + 1); }
                    return Err(e);
                },
            };
            if s != d {
                pm.push((s, d));
            }
            i += 1;
        }
        proof {
            assert(moves@.subrange(0, i as int) =~= moves@);
        }
        Ok(pm)
    }

    fn generate_parallel_move(&self, moves: &Vec<(VirtualRegister, VirtualRegister)>) -> (r: Result<String, CodeGeneratorError>)
        ensures
            r is Ok <==> parallel_move_asm(self.current_map(), moves@) is Some,
            r matches Ok(c) ==> parallel_move_asm(self.current_map(), moves@) == Some(c@),
    {
        let pm = self.physical_moves(moves)?;
        let mut chains: Vec<Vec<PhysicalRegister>> = Vec::new();
        let mut cycles: Vec<Vec<PhysicalRegister>> = Vec::new();
        let mut i: usize = 0;
        proof {
            assert(pm@.subrange(0, 0) =~= Seq::<(PhysicalRegister, PhysicalRegister)>::empty());
            assert(chains@.map_values(|c: Vec<PhysicalRegister>| c@) =~= Seq::<Seq<PhysicalRegister>>::empty());
            assert(cycles@.map_values(|c: Vec<PhysicalRegister>| c@) =~= Seq::<Seq<PhysicalRegister>>::empty());
        }
        while i < pm.len()
            invariant
                i <= pm@.len(),
                build_chains(pm@.subrange(0, i as int)) == (chains@.map_values(|c: Vec<PhysicalRegister>| c@), cycles@.map_values(|c: Vec<PhysicalRegister>| c@)),
            decreases pm.len() - i,
        {
            let ghost cv = chains@.map_values(|c: Vec<PhysicalRegister>| c@);
            let ghost yv = cycles@.map_values(|c: Vec<PhysicalRegister>| c@);
            let ghost sub = pm@.subrange(0, i + 1);
            proof {
                assert(sub.drop_last() =~= pm@.subrange(0, i as int));
                assert(sub.last() == pm@[i as int]);
            }
            let (src, dst) = pm[i];
            if src != dst {
                let mut j: usize = 0;
                let mut found = false;
                while j < chains.len()
                    invariant_except_break
                        j <= chains@.len(),
                        cv == chains@.map_values(|c: Vec<PhysicalRegister>| c@),
                        forall|k: int| 0 <= k < j ==> !#[trigger] ends_with(cv, k, src),
                        !found,
                    ensures
                        j <= chains@.len(),
                        found ==> j < chains@.len() && ends_with(cv, j as int, src),
                        forall|k: int| 0 <= k < j ==> !#[trigger] ends_with(cv, k, src),
                        !found ==> j == chains@.len(),
                    decreases chains.len() - j,
                {
                    let n = chains[j].len();
                    if n > 0 && chains[j][n - 1] == src {
                        proof { assert(cv[j as int] == chains@[j as int]@); }
                        found = true;
                        break;
                    }
                    proof { assert(cv[j as int] == chains@[j as int]@); }
                    j += 1;
                }
                proof {
                    lemma_chain_ending(cv, src);
                    if found {
                        if chain_ending(cv, src) != j as int {
                            if chain_ending(cv, src) < j as int {
                                assert(ends_with(cv, chain_ending(cv, src), src));
                            } else {
                                assert(!ends_with(cv, j as int, src));
                            }
                        }
                    } else if chain_ending(cv, src) != -1 {
                        assert(ends_with(cv, chain_ending(cv, src), src));
                    }
                }
                if found {
                    let mut extended = chains.remove(j);
                    let closes = extended.len() > 0 && extended[0] == dst;
                    proof { assert(cv[j as int] == extended@); }
                    extended.push(dst);
                    if closes {
                        cycles.push(extended);
                        proof {
                            assert(chains@.map_values(|c: Vec<PhysicalRegister>| c@) =~= cv.remove(j as int));
                            assert(cycles@.map_values(|c: Vec<PhysicalRegister>| c@) =~= yv.push(extended@));
                        }
                    } else {
                        chains.insert(j, extended);
                        proof {
                            assert(chains@.map_values(|c: Vec<PhysicalRegister>| c@) =~= cv.update(j as int, extended@));
                        }
                    }
                } else {
                    let mut c: Vec<PhysicalRegister> = Vec::new();
                    c.push(src);
                    c.push(dst);
                    chains.push(c);
                    proof {
                        assert(c@ =~= seq![src, dst]);
                        assert(chains@.map_values(|c: Vec<PhysicalRegister>| c@) =~= cv.push(seq![src, dst]));
                    }
                }
            }
            i += 1;
        }
        proof {
            assert(pm@.subrange(0, i as int) =~= pm@);
        }
        let mut code = String::new();
        emit_chains(&mut code, "movq", &chains);
        emit_chains(&mut code, "xchgq", &cycles);
        proof {
            assert(code@ =~= chains_text("movq"@, build_chains(pm@).0) + chains_text("xchgq"@, build_chains(pm@).1));
        }
        Ok(code)
    }
}


proof fn lemma_arguments_code_none(a: Option<Seq<(VirtualRegister, PhysicalRegister)>>, s: Seq<IRValue>, k: int)
    requires
        0 <= k <= s.len(),
        arguments_code(a, s.subrange(0, k)) is None,
    ensures
        arguments_code(a, s) is None,
    decreases s.len(),
{
    if k == s.len() {
        assert(s.subrange(0, k) =~= s);
    } else {
        assert(s.drop_last().subrange(0, k) =~= s.subrange(0, k));
        lemma_arguments_code_none(a, s.drop_last(), k);
    }
}

proof fn lemma_call_prefix(args: Seq<IRValue>, regs: Seq<VirtualRegister>, k: int)
    requires
        0 <= k < args.len(),
        k < regs.len(),
    ensures
        args.subrange(0, k + 1).subrange(0, k) == args.subrange(0, k),
        regs.subrange(0, k + 1).subrange(0, k) == regs.subrange(0, k),
        args.subrange(0, k + 1)[k] == args[k],
        regs.subrange(0, k + 1)[k] == regs[k],
{
    assert(args.subrange(0, k + 1).subrange(0, k) =~= args.subrange(0, k));
    assert(regs.subrange(0, k + 1).subrange(0, k) =~= regs.subrange(0, k));
}

proof fn lemma_call_whole(a: Option<Seq<(VirtualRegister, PhysicalRegister)>>, args: Seq<IRValue>, regs: Seq<VirtualRegister>, m: int)
    requires
        m == (if args.len() < regs.len() { args.len() as int } else { regs.len() as int }),
    ensures
        call_register_moves(args, regs) == call_register_moves(args.subrange(0, m), regs.subrange(0, m)),
        call_other_moves(a, args, regs) == call_other_moves(a, args.subrange(0, m), regs.subrange(0, m)),
{
    if m > 0 {
        assert(args.subrange(0, m).subrange(0, m - 1) =~= args.subrange(0, m - 1));
        assert(regs.subrange(0, m).subrange(0, m - 1) =~= regs.subrange(0, m - 1));
    }
}

fn is_library_function_name(name: &str) -> (r: bool)
    ensures
        r == is_library_function(name@),
{
    str_equal(name, "printf") || str_equal(name, "malloc") || str_equal(name, "random") || str_equal(name, "srandom")
        || str_equal(name, "atol") || str_equal(name, "exit")
}

fn binary_op_text(op: IRBinaryOp) -> (r: &'static str)
    ensures
        r@ == binary_op_name(op),
{
    match op {
        IRBinaryOp::Add => "addq",
        IRBinaryOp::Sub => "subq",
        IRBinaryOp::Mul => "imulq",
        IRBinaryOp::Div => "idivq",
        IRBinaryOp::BitAnd => "andq",
        IRBinaryOp::BitOr => "orq",
        IRBinaryOp::Eq => "cmpq",
        IRBinaryOp::Less => "cmpq",
    }
}

/// Appends `\t<op>\t<a>, <b>\n`.
fn emit2(code: &mut String, op: &str, x: &str, y: &str)
    ensures
        final(code)@ == old(code)@ + line2(op@, x@, y@),
{
    push_str(code, "\t");
    push_str(code, op);
    push_str(code, "\t");
    push_str(code, x);
    push_str(code, ", ");
    push_str(code, y);
    push_str(code, "\n");
    proof {
        assert(code@ =~= old(code)@ + ("\t"@ + op@ + "\t"@ + x@ + ", "@ + y@ + "\n"@));
    }
}

/// Appends `\t<op>\t<a>\n`.
fn emit1(code: &mut String, op: &str, x: &str)
    ensures
        final(code)@ == old(code)@ + line1(op@, x@),
{
    push_str(code, "\t");
    push_str(code, op);
    push_str(code, "\t");
    push_str(code, x);
    push_str(code, "\n");
    proof {
        assert(code@ =~= old(code)@ + ("\t"@ + op@ + "\t"@ + x@ + "\n"@));
    }
}

fn binary_body_text(op: IRBinaryOp, right: &IRValue, ln: &str, rn: &str, res: &str) -> (r: String)
    ensures
        r@ == binary_body(op, *right, ln@, rn@, res@),
{
    let mut code = String::new();
    if op == IRBinaryOp::Div {
        if !str_equal(ln, "%rax") {
            emit2(&mut code, "movq", ln, "%rax");
        }
        push_str(&mut code, "\tcqto\n");
        emit1(&mut code, "idivq", rn);
        proof {
            assert(code@ =~= binary_body(op, *right, ln@, rn@, res@));
        }
    } else if op == IRBinaryOp::Eq || op == IRBinaryOp::Less {
        if matches!(right, IRValue::Immediate(_)) {
            emit2(&mut code, "cmpq", rn, ln);
        } else {
            emit2(&mut code, "cmpq", ln, rn);
        }
        proof {
            assert(code@ =~= binary_body(op, *right, ln@, rn@, res@));
        }
    } else if str_equal(ln, res) {
        push_str(&mut code, "\t");
        push_str(&mut code, binary_op_text(op));
        push_str(&mut code, " ");
        push_str(&mut code, rn);
        push_str(&mut code, ", ");
        push_str(&mut code, ln);
        push_str(&mut code, "\n");
        proof {
            assert(code@ =~= binary_body(op, *right, ln@, rn@, res@));
        }
    } else if str_equal(rn, res) {
        emit2(&mut code, binary_op_text(op), ln, rn);
        if op == IRBinaryOp::Sub {
            emit1(&mut code, "negq", rn);
        }
        proof {
            assert(code@ =~= binary_body(op, *right, ln@, rn@, res@));
        }
    } else {
        emit2(&mut code, "movq", ln, res);
        emit2(&mut code, binary_op_text(op), rn, res);
        proof {
            assert(code@ =~= binary_body(op, *right, ln@, rn@, res@));
        }
    }
    code
}

fn compare_tail_text(op: IRBinaryOp, right: &IRValue, result: PhysicalRegister, res: &str) -> (r: String)
    ensures
        r@ == compare_tail(op, *right, result, res@),
{
    let mut code = String::new();
    if op == IRBinaryOp::Eq || op == IRBinaryOp::Less {
        let set = if op == IRBinaryOp::Eq {
            "sete"
        } else if matches!(right, IRValue::Immediate(_)) {
            "setl"
        } else {
            "setg"
        };
        emit1(&mut code, set, result.byte_name());
        emit2(&mut code, "movzbq", result.byte_name(), res);
        proof {
            assert(code@ =~= compare_tail(op, *right, result, res@));
        }
    } else {
        proof {
            assert(code@ =~= compare_tail(op, *right, result, res@));
        }
    }
    code
}

impl CodeGenerator {
    fn generate_binary(&self, op: IRBinaryOp, left: &IRValue, right: &IRValue, result: &VirtualRegister) -> (r: Result<String, CodeGeneratorError>)
        requires
            (op is Div && value_asm(self.current_map(), *left) is Some && value_asm(self.current_map(), *right) is Some
                && phys(self.current_map(), *result) is Some) ==> phys(self.current_map(), *result) == Some(PhysicalRegister::RAX),
        ensures
            r is Ok <==> (value_asm(self.current_map(), *left) is Some && value_asm(self.current_map(), *right) is Some
                && phys(self.current_map(), *result) is Some),
            r matches Ok(c) ==> {
                let (ln, lc) = value_asm(self.current_map(), *left).unwrap();
                let (rn, rc) = value_asm(self.current_map(), *right).unwrap();
                let rp = phys(self.current_map(), *result).unwrap();
                c@ == lc + rc + binary_body(op, *right, ln, rn, rp.spec_name()) + compare_tail(op, *right, rp, rp.spec_name())
            },
    {
        let (left_name, left_code) = self.generate_value(left)?;
        let (right_name, right_code) = self.generate_value(right)?;
        let result_reg = self.get_register(result)?;
        let result_name = self.get_register_name(result)?;
        let body = binary_body_text(op, right, left_name.as_str(), right_name.as_str(), result_name.as_str());
        let tail = compare_tail_text(op, right, result_reg, result_name.as_str());
        let mut code = String::new();
        push_str(&mut code, left_code.as_str());
        push_str(&mut code, right_code.as_str());
        push_str(&mut code, body.as_str());
        push_str(&mut code, tail.as_str());
        proof {
            assert(code@ =~= left_code@ + right_code@ + body@ + tail@);
        }
        Ok(code)
    }

    fn generate_unary(&self, op: IRUnaryOp, operand: &IRValue, result: &VirtualRegister) -> (r: Result<String, CodeGeneratorError>)
        ensures
            r is Ok <==> node_asm(self.current_map(), self.current_name(), IRNodeKind::UnaryOp { op, operand: *operand, result: *result }) is Some,
            r matches Ok(c) ==> node_asm(self.current_map(), self.current_name(), IRNodeKind::UnaryOp { op, operand: *operand, result: *result }) == Some(c@),
    {
        let (operand_name, operand_code) = self.generate_value(operand)?;
        let result_name = self.get_register_name(result)?;
        let mut code = String::new();
        push_str(&mut code, operand_code.as_str());
        match op {
            IRUnaryOp::Neg | IRUnaryOp::Not => {
                let name = if op == IRUnaryOp::Neg { "negq" } else { "notq" };
                emit1(&mut code, name, operand_name.as_str());
                if !str_equal(operand_name.as_str(), result_name.as_str()) {
                    emit2(&mut code, "movq", operand_name.as_str(), result_name.as_str());
                }
                proof {
                    let k = IRNodeKind::UnaryOp { op, operand: *operand, result: *result };
                    assert(code@ =~= node_asm(self.current_map(), self.current_name(), k).unwrap());
                }
            },
            IRUnaryOp::Address => {
                return Err(CodeGeneratorError { message: "Address operation currently not supported in code generation".to_string() });
            },
            IRUnaryOp::Deref => {
                push_str(&mut code, "\tmovq\t(");
                push_str(&mut code, operand_name.as_str());
                push_str(&mut code, "), ");
                push_str(&mut code, result_name.as_str());
                push_str(&mut code, "\n");
                proof {
                    let k = IRNodeKind::UnaryOp { op, operand: *operand, result: *result };
                    assert(code@ =~= node_asm(self.current_map(), self.current_name(), k).unwrap());
                }
            },
        }
        Ok(code)
    }
}


proof fn lemma_other_moves_none(a: Option<Seq<(VirtualRegister, PhysicalRegister)>>, args: Seq<IRValue>, regs: Seq<VirtualRegister>, k: int, m: int)
    requires
        0 <= k <= m,
        m <= args.len(),
        m <= regs.len(),
        call_other_moves(a, args.subrange(0, k), regs.subrange(0, k)) is None,
    ensures
        call_other_moves(a, args.subrange(0, m), regs.subrange(0, m)) is None,
    decreases m,
{
    if m > k {
        lemma_other_moves_none(a, args, regs, k, m - 1);
        assert(args.subrange(0, m).subrange(0, m - 1) =~= args.subrange(0, m - 1));
        assert(regs.subrange(0, m).subrange(0, m - 1) =~= regs.subrange(0, m - 1));
    }
}

impl CodeGenerator {
    fn generate_call(&self, name: &IRVariable, arguments: &Vec<IRValue>, argument_regs: &Vec<VirtualRegister>) -> (r: Result<String, CodeGeneratorError>)
        ensures
            r is Ok <==> call_asm(self.current_map(), *name, arguments@, argument_regs@) is Some,
            r matches Ok(c) ==> call_asm(self.current_map(), *name, arguments@, argument_regs@) == Some(c@),
    {
        let ghost a = self.current_map();
        let callee = match name {
            IRVariable::Global(n) => {
                let mut c = String::new();
                push_str(&mut c, n.as_str());
                if is_library_function_name(n.as_str()) {
                    push_str(&mut c, "@PLT");
                }
                c
            },
            IRVariable::Register(reg) => self.get_register_name(reg)?,
        };
        proof {
            assert(callee_asm(a, *name) == Some(callee@));
        }
        let mut code = String::new();
        let mut i: usize = 0;
        proof {
            assert(arguments@.subrange(0, 0) =~= Seq::<IRValue>::empty());
        }
        while i < arguments.len()
            invariant
                i <= arguments@.len(),
                a == self.current_map(),
                arguments_code(a, arguments@.subrange(0, i as int)) == Some(code@),
            decreases arguments.len() - i,
        {
            let ghost sub = arguments@.subrange(0, i + 1);
            proof {
                assert(sub.drop_last() =~= arguments@.subrange(0, i as int));
                assert(sub.last() == arguments@[i as int]);
            }
            match self.generate_value(&arguments[i]) {
                Ok((_, c)) => {
                    push_str(&mut code, c.as_str());
                },
                Err(e) => {
                    proof { lemma_arguments_code_none(a, arguments@, i + 1); }
                    return Err(e);
                },
            }
            i += 1;
        }
        proof {
            assert(arguments@.subrange(0, i as int) =~= arguments@);
        }
        let ghost args_code = code@;
        let m: usize = if arguments.len() < argument_regs.len() { arguments.len() } else { argument_regs.len() };
        proof {
            lemma_call_whole(a, arguments@, argument_regs@, m as int);
            assert(arguments@.subrange(0, 0) =~= Seq::<IRValue>::empty());
            assert(argument_regs@.subrange(0, 0) =~= Seq::<VirtualRegister>::empty());
        }
        let mut moves: Vec<(VirtualRegister, VirtualRegister)> = Vec::new();
        let mut k: usize = 0;
        while k < m
            invariant
                k <= m,
                m <= arguments@.len(),
                m <= argument_regs@.len(),
                moves@ == call_register_moves(arguments@.subrange(0, k as int), argument_regs@.subrange(0, k as int)),
            decreases m - k,
        {
            proof { lemma_call_prefix(arguments@, argument_regs@, k as int); }
            match arguments[k].get_register() {
                Some(reg) => {
                    moves.push((reg, argument_regs[k]));
                },
                None => {},
            }
            k += 1;
        }
        let pm = self.generate_parallel_move(&moves)?;
        push_str(&mut code, pm.as_str());
        let ghost with_moves = code@;
        let mut om = String::new();
        let mut k: usize = 0;
        while k < m
            invariant
                k <= m,
                m <= arguments@.len(),
                m <= argument_regs@.len(),
                a == self.current_map(),
                call_other_moves(a, arguments@.subrange(0, k as int), argument_regs@.subrange(0, k as int)) == Some(om@),
                call_other_moves(a, arguments@, argument_regs@) == call_other_moves(a, arguments@.subrange(0, m as int), argument_regs@.subrange(0, m as int)),
            decreases m - k,
        {
            proof { lemma_call_prefix(arguments@, argument_regs@, k as int); }
            match &arguments[k] {
                IRValue::GlobalVariable(_) | IRValue::Immediate(_) => {
                    proof {
                        assert(value_asm(a, arguments@[k as int]) is Some);
                    }
                    let (arg_name, _) = match self.generate_value(&arguments[k]) {
                        Ok(v) => v,
                        Err(e) => {
                            return Err(e);
                        },
                    };
                    let dst = match self.get_register_name(&argument_regs[k]) {
                        Ok(n) => n,
                        Err(e) => {
                            proof { lemma_other_moves_none(a, arguments@, argument_regs@, k + 1, m as int); }
                            return Err(e);
                        },
                    };
                    emit2(&mut om, "movq", arg_name.as_str(), dst.as_str());
                },
                _ => {},
            }
            k += 1;
        }
        push_str(&mut code, om.as_str());
        let ghost with_other = code@;
        if str_equal(callee.as_str(), "printf@PLT") {
            push_str(&mut code, "\tmovb\t$0, %al\n");
        }
        emit1(&mut code, "callq", callee.as_str());
        proof {
            assert(code@ =~= call_asm(a, *name, arguments@, argument_regs@).unwrap());
        }
        Ok(code)
    }

    /// The label of a block of the current function.
    fn label(&self, id: usize) -> (r: String)
        ensures
            r@ == block_label(self.current_name(), id),
    {
        let mut s = String::new();
        push_str(&mut s, ".");
        push_str(&mut s, self.current_function_name.as_str());
        push_str(&mut s, "_");
        let digits = usize_to_text(id);
        push_str(&mut s, digits.as_str());
        proof {
            assert(s@ =~= block_label(self.current_name(), id));
        }
        s
    }

    fn emit_jumps(&self, code: &mut String, yes: &str, no: &str, true_branch: Option<usize>, false_branch: Option<usize>)
        ensures
            final(code)@ == old(code)@ + jumps_asm(self.current_name(), yes@, no@, true_branch, false_branch),
    {
        let ghost start = code@;
        match true_branch {
            Some(t) => {
                let l = self.label(t);
                emit1(code, yes, l.as_str());
            },
            None => {},
        }
        let ghost mid = code@;
        match false_branch {
            Some(f) => {
                let l = self.label(f);
                emit1(code, no, l.as_str());
            },
            None => {},
        }
        proof {
            assert(code@ =~= start + jumps_asm(self.current_name(), yes@, no@, true_branch, false_branch));
        }
    }

    fn generate_branch(&self, condition: &Option<IRValue>, true_branch: Option<usize>, false_branch: Option<usize>) -> (r: Result<String, CodeGeneratorError>)
        ensures
            r is Ok <==> branch_asm(self.current_map(), self.current_name(), *condition, true_branch, false_branch) is Some,
            r matches Ok(c) ==> branch_asm(self.current_map(), self.current_name(), *condition, true_branch, false_branch) == Some(c@),
    {
        let mut code = String::new();
        match condition {
            Some(c) => {
                let (cond_value, cond_code) = self.generate_value(c)?;
                push_str(&mut code, cond_code.as_str());
                emit2(&mut code, "cmpq", "$0", cond_value.as_str());
                self.emit_jumps(&mut code, "jne", "je", true_branch, false_branch);
            },
            None => {
                self.emit_jumps(&mut code, "jmp", "jmp", true_branch, false_branch);
            },
        }
        proof {
            assert(code@ =~= branch_asm(self.current_map(), self.current_name(), *condition, true_branch, false_branch).unwrap());
        }
        Ok(code)
    }
}


impl CodeGenerator {
    fn generate_node(&self, node: &IRNode) -> (r: Result<String, CodeGeneratorError>)
        requires
            node_generable(self.current_map(), node.kind),
        ensures
            r is Ok <==> node_asm(self.current_map(), self.current_name(), node.kind) is Some,
            r matches Ok(c) ==> node_asm(self.current_map(), self.current_name(), node.kind) == Some(c@),
    {
        let ghost a = self.current_map();
        let ghost fname = self.current_name();
        let mut code = String::new();
        match &node.kind {
            IRNodeKind::Assign { variable, value } => {
                let (value_name, value_code) = self.generate_value(value)?;
                let var_name = self.generate_variable(variable)?;
                push_str(&mut code, value_code.as_str());
                emit2(&mut code, "movq", value_name.as_str(), var_name.as_str());
                proof {
                    assert(code@ =~= node_asm(a, fname, node.kind).unwrap());
                }
            },
            IRNodeKind::AddressAssignment { address, value } => {
                let (value_name, value_code) = self.generate_value(value)?;
                let (address_name, address_code) = self.generate_value(address)?;
                push_str(&mut code, value_code.as_str());
                push_str(&mut code, address_code.as_str());
                push_str(&mut code, "\tmovq\t");
                push_str(&mut code, value_name.as_str());
                push_str(&mut code, ", (");
                push_str(&mut code, address_name.as_str());
                push_str(&mut code, ")\n");
                proof {
                    assert(code@ =~= node_asm(a, fname, node.kind).unwrap());
                }
            },
            IRNodeKind::Spill { reg, offset } => {
                let reg_name = self.get_register_name(reg)?;
                let bytes = usize_to_text(*offset * 8);
                push_str(&mut code, "\tmovq\t");
                push_str(&mut code, reg_name.as_str());
                push_str(&mut code, ", -");
                push_str(&mut code, bytes.as_str());
                push_str(&mut code, "(%rbp)\n");
                proof {
                    assert(code@ =~= node_asm(a, fname, node.kind).unwrap());
                }
            },
            IRNodeKind::Unspill { reg, offset } => {
                let reg_name = self.get_register_name(reg)?;
                let bytes = usize_to_text(*offset * 8);
                push_str(&mut code, "\tmovq\t-");
                push_str(&mut code, bytes.as_str());
                push_str(&mut code, "(%rbp), ");
                push_str(&mut code, reg_name.as_str());
                push_str(&mut code, "\n");
                proof {
                    assert(code@ =~= node_asm(a, fname, node.kind).unwrap());
                }
            },
            IRNodeKind::Lea { base, index, scaler, result } => {
                let (base_name, base_code) = self.generate_value(base)?;
                let index_name = self.get_register_name(index)?;
                let result_name = self.get_register_name(result)?;
                let scale = i64_to_text(*scaler);
                push_str(&mut code, base_code.as_str());
                push_str(&mut code, "\tleaq\t(");
                push_str(&mut code, base_name.as_str());
                push_str(&mut code, ", ");
                push_str(&mut code, index_name.as_str());
                push_str(&mut code, ", ");
                push_str(&mut code, scale.as_str());
                push_str(&mut code, "), ");
                push_str(&mut code, result_name.as_str());
                push_str(&mut code, "\n");
                proof {
                    assert(code@ =~= node_asm(a, fname, node.kind).unwrap());
                }
            },
            IRNodeKind::BinaryOp { op, left, right, result, .. } => {
                return self.generate_binary(*op, left, right, result);
            },
            IRNodeKind::UnaryOp { op, operand, result } => {
                return self.generate_unary(*op, operand, result);
            },
            IRNodeKind::FunctionCall { name, arguments, argument_regs, .. } => {
                return self.generate_call(name, arguments, argument_regs);
            },
            IRNodeKind::Branch { condition, true_branch, false_branch } => {
                return self.generate_branch(condition, *true_branch, *false_branch);
            },
            IRNodeKind::Return { value } => {
                match value {
                    Some(v) => {
                        let (value_name, value_code) = self.generate_value(v)?;
                        push_str(&mut code, value_code.as_str());
                        emit2(&mut code, "movq", value_name.as_str(), "%rax");
                    },
                    None => {},
                }
                let mut end = String::new();
                push_str(&mut end, ".");
                push_str(&mut end, self.current_function_name.as_str());
                push_str(&mut end, "_end");
                emit1(&mut code, "jmp", end.as_str());
                proof {
                    assert(code@ =~= node_asm(a, fname, node.kind).unwrap());
                }
            },
            _ => {
                proof {
                    assert(code@ =~= node_asm(a, fname, node.kind).unwrap());
                }
            },
        }
        Ok(code)
    }
}


proof fn lemma_nodes_asm_none(a: Option<Seq<(VirtualRegister, PhysicalRegister)>>, fname: Seq<char>, s: Seq<IRNode>, k: int)
    requires
        0 <= k <= s.len(),
        nodes_asm(a, fname, s.subrange(0, k)) is None,
    ensures
        nodes_asm(a, fname, s) is None,
    decreases s.len(),
{
    if k == s.len() {
        assert(s.subrange(0, k) =~= s);
    } else {
        assert(s.drop_last().subrange(0, k) =~= s.subrange(0, k));
        lemma_nodes_asm_none(a, fname, s.drop_last(), k);
    }
}

proof fn lemma_blocks_asm_none(a: Option<Seq<(VirtualRegister, PhysicalRegister)>>, fname: Seq<char>, s: Seq<IRBlock>, k: int)
    requires
        0 <= k <= s.len(),
        blocks_asm(a, fname, s.subrange(0, k)) is None,
    ensures
        blocks_asm(a, fname, s) is None,
    decreases s.len(),
{
    if k == s.len() {
        assert(s.subrange(0, k) =~= s);
    } else {
        assert(s.drop_last().subrange(0, k) =~= s.subrange(0, k));
        lemma_blocks_asm_none(a, fname, s.drop_last(), k);
    }
}

/// `-<8 * (spill - i)>(%rbp)`.
fn slot_text(spill: usize, i: usize) -> (r: String)
    requires
        i < spill,
        spill * 8 <= usize::MAX,
    ensures
        r@ == save_slot(spill as nat, i as int),
{
    let offset: usize = (spill - i) * 8;
    let digits = usize_to_text(offset);
    let mut s = String::new();
    push_str(&mut s, "-");
    push_str(&mut s, digits.as_str());
    push_str(&mut s, "(%rbp)");
    proof {
        assert(s@ =~= save_slot(spill as nat, i as int));
    }
    s
}

/// Saves (`restore == false`) or restores the callee-saved registers.
fn emit_saves(code: &mut String, regs: &Vec<PhysicalRegister>, spill: usize, restore: bool)
    requires
        regs@.len() <= spill,
        spill * 8 <= usize::MAX,
    ensures
        final(code)@ == old(code)@ + if restore { restores_asm(regs@, spill as nat) } else { saves_asm(regs@, spill as nat) },
{
    let mut i: usize = 0;
    proof {
        assert(regs@.subrange(0, 0) =~= Seq::<PhysicalRegister>::empty());
        assert(code@ =~= old(code)@ + if restore { restores_asm(regs@.subrange(0, 0), spill as nat) } else { saves_asm(regs@.subrange(0, 0), spill as nat) });
    }
    while i < regs.len()
        invariant
            i <= regs@.len(),
            regs@.len() <= spill,
            spill * 8 <= usize::MAX,
            code@ == old(code)@ + if restore { restores_asm(regs@.subrange(0, i as int), spill as nat) } else { saves_asm(regs@.subrange(0, i as int), spill as nat) },
        decreases regs.len() - i,
    {
        let ghost sub = regs@.subrange(0, i + 1);
        proof {
            assert(sub.drop_last() =~= regs@.subrange(0, i as int));
            assert(sub.last() == regs@[i as int]);
        }
        let slot = slot_text(spill, i);
        if restore {
            emit2(code, "movq", slot.as_str(), regs[i].name());
        } else {
            emit2(code, "movq", regs[i].name(), slot.as_str());
        }
        i += 1;
    }
    proof {
        assert(regs@.subrange(0, i as int) =~= regs@);
    }
}

impl CodeGenerator {
    fn generate_nodes(&self, nodes: &Vec<IRNode>) -> (r: Result<String, CodeGeneratorError>)
        requires
            forall|j: int| 0 <= j < nodes@.len() ==> node_generable(self.current_map(), #[trigger] nodes@[j].kind),
        ensures
            r is Ok <==> nodes_asm(self.current_map(), self.current_name(), nodes@) is Some,
            r matches Ok(c) ==> nodes_asm(self.current_map(), self.current_name(), nodes@) == Some(c@),
    {
        let ghost a = self.current_map();
        let ghost fname = self.current_name();
        let mut code = String::new();
        let mut i: usize = 0;
        proof {
            assert(nodes@.subrange(0, 0) =~= Seq::<IRNode>::empty());
        }
        while i < nodes.len()
            invariant
                i <= nodes@.len(),
                a == self.current_map(),
                fname == self.current_name(),
                forall|j: int| 0 <= j < nodes@.len() ==> node_generable(a, #[trigger] nodes@[j].kind),
                nodes_asm(a, fname, nodes@.subrange(0, i as int)) == Some(code@),
            decreases nodes.len() - i,
        {
            let ghost sub = nodes@.subrange(0, i + 1);
            proof {
                assert(sub.drop_last() =~= nodes@.subrange(0, i as int));
                assert(sub.last() == nodes@[i as int]);
            }
            match self.generate_node(&nodes[i]) {
                Ok(c) => {
                    push_str(&mut code, c.as_str());
                },
                Err(e) => {
                    proof { lemma_nodes_asm_none(a, fname, nodes@, i + 1); }
                    return Err(e);
                },
            }
            i += 1;
        }
        proof {
            assert(nodes@.subrange(0, i as int) =~= nodes@);
        }
        Ok(code)
    }

    fn generate_blocks(&self, blocks: &Vec<IRBlock>) -> (r: Result<String, CodeGeneratorError>)
        requires
            forall|i: int, j: int| 0 <= i < blocks@.len() && 0 <= j < blocks@[i].nodes@.len()
                ==> node_generable(self.current_map(), #[trigger] blocks@[i].nodes@[j].kind),
        ensures
            r is Ok <==> blocks_asm(self.current_map(), self.current_name(), blocks@) is Some,
            r matches Ok(c) ==> blocks_asm(self.current_map(), self.current_name(), blocks@) == Some(c@),
    {
        let ghost a = self.current_map();
        let ghost fname = self.current_name();
        let mut code = String::new();
        let mut i: usize = 0;
        proof {
            assert(blocks@.subrange(0, 0) =~= Seq::<IRBlock>::empty());
        }
        while i < blocks.len()
            invariant
                i <= blocks@.len(),
                a == self.current_map(),
                fname == self.current_name(),
                forall|i: int, j: int| 0 <= i < blocks@.len() && 0 <= j < blocks@[i].nodes@.len()
                    ==> node_generable(a, #[trigger] blocks@[i].nodes@[j].kind),
                blocks_asm(a, fname, blocks@.subrange(0, i as int)) == Some(code@),
            decreases blocks.len() - i,
        {
            let ghost sub = blocks@.subrange(0, i + 1);
            proof {
                assert(sub.drop_last() =~= blocks@.subrange(0, i as int));
                assert(sub.last() == blocks@[i as int]);
                assert forall|j: int| 0 <= j < blocks@[i as int].nodes@.len() implies node_generable(a, #[trigger] blocks@[i as int].nodes@[j].kind) by {}
            }
            let ghost before = code@;
            let label = self.label(blocks[i].id);
            push_str(&mut code, label.as_str());
            push_str(&mut code, ":\n");
            match self.generate_nodes(&blocks[i].nodes) {
                Ok(c) => {
                    push_str(&mut code, c.as_str());
                    proof {
                        assert(code@ =~= before + block_label(fname, blocks@[i as int].id) + ":\n"@ + c@);
                    }
                },
                Err(e) => {
                    proof { lemma_blocks_asm_none(a, fname, blocks@, i + 1); }
                    return Err(e);
                },
            }
            i += 1;
        }
        proof {
            assert(blocks@.subrange(0, i as int) =~= blocks@);
        }
        Ok(code)
    }

    fn generate_function(&self, function: &IRFunction) -> (r: Result<String, CodeGeneratorError>)
        requires
            self.current_views() matches Some(x) && function_generable(x, *function),
            self.current_name() == function.name@,
        ensures
            r is Ok <==> function_asm(self.current_views().unwrap(), *function) is Some,
            r matches Ok(c) ==> function_asm(self.current_views().unwrap(), *function) == Some(c@),
    {
        proof {
            reveal(function_asm);
        }
        let allocation = match self.current() {
            Some(x) => x,
            None => {
                return Err(CodeGeneratorError { message: "no allocation".to_string() });
            },
        };
        let ghost alloc = self.current_views().unwrap();
        let ghost name = function.name@;
        let mut code = String::new();
        emit1(&mut code, ".globl", function.name.as_str());
        emit1(&mut code, ".p2align", "4");
        let mut ty = String::new();
        push_str(&mut ty, function.name.as_str());
        push_str(&mut ty, ",@function");
        emit1(&mut code, ".type", ty.as_str());
        push_str(&mut code, function.name.as_str());
        push_str(&mut code, ":\n");
        let ghost header = code@;
        let spill_count = allocation.max_spilled_registers;
        if spill_count > 0 {
            push_str(&mut code, "\tpushq\t%rbp\n");
            push_str(&mut code, "\tmovq\t%rsp, %rbp\n");
            let mut frame = String::new();
            push_str(&mut frame, "$");
            let digits = usize_to_text(spill_count * 8);
            push_str(&mut frame, digits.as_str());
            emit2(&mut code, "subq", frame.as_str(), "%rsp");
        }
        let ghost prologue = code@;
        emit_saves(&mut code, &allocation.used_callee_save, spill_count, false);
        let ghost saved = code@;
        let mut moves: Vec<(VirtualRegister, VirtualRegister)> = Vec::new();
        let n: usize = if function.parameter_regs.len() < function.parameters.len() { function.parameter_regs.len() } else { function.parameters.len() };
        let mut k: usize = 0;
        while k < n
            invariant
                k <= n,
                n <= function.parameter_regs@.len(),
                n <= function.parameters@.len(),
                moves@ == parameter_moves(*function).subrange(0, k as int),
            decreases n - k,
        {
            moves.push((function.parameter_regs[k], function.parameters[k]));
            k += 1;
            proof {
                assert(moves@ =~= parameter_moves(*function).subrange(0, k as int));
            }
        }
        proof {
            assert(moves@ =~= parameter_moves(*function));
        }
        let pm = self.generate_parallel_move(&moves)?;
        push_str(&mut code, pm.as_str());
        let body = self.generate_blocks(&function.body)?;
        push_str(&mut code, body.as_str());
        let ghost after_body = code@;
        if str_equal(function.name.as_str(), "main") {
            push_str(&mut code, "\tmovq\t$0, %rax\n");
        }
        push_str(&mut code, ".");
        push_str(&mut code, function.name.as_str());
        push_str(&mut code, "_end:\n");
        let ghost ended = code@;
        emit_saves(&mut code, &allocation.used_callee_save, spill_count, true);
        let ghost restored = code@;
        if spill_count > 0 {
            push_str(&mut code, "\tleave\n");
        }
        push_str(&mut code, "\tretq\n");
        push_str(&mut code, "\n");
        proof {
            let spill = alloc.2 as nat;
            assert(header =~= line1(".globl"@, name) + line1(".p2align"@, "4"@) + line1(".type"@, name + ",@function"@) + name + ":\n"@);
            assert(prologue =~= header + (if spill > 0 { "\tpushq\t%rbp\n"@ + "\tmovq\t%rsp, %rbp\n"@ + line2("subq"@, "$"@ + decimal(spill * 8), "%rsp"@) } else { Seq::empty() }));
            reveal(function_asm);
            assert(code@ =~= function_asm(alloc, *function).unwrap());
        }
        Ok(code)
    }
}


/// Entry lists that agree entry by entry on names and views give the same
/// allocation for every name.
proof fn lemma_find_allocation_views(s1: Seq<(String, RegisterAllocationFunction)>, s2: Seq<(String, RegisterAllocationFunction)>, n: Seq<char>)
    requires
        s1.len() == s2.len(),
        forall|j: int| 0 <= j < s1.len() ==> (#[trigger] s1[j]).0@ == s2[j].0@ && allocation_views(s1[j].1) == allocation_views(s2[j].1),
    ensures
        find_allocation(s1, n) == find_allocation(s2, n),
    decreases s1.len(),
{
    if s1.len() > 0 {
        assert(s1[s1.len() - 1].0@ == s2[s2.len() - 1].0@);
        lemma_find_allocation_views(s1.drop_last(), s2.drop_last(), n);
    }
}

fn value_allocated(x: &RegisterAllocationFunction, v: &IRValue) -> (r: bool)
    ensures
        r == value_asm(Some(x.mapping@), *v) is Some,
{
    match v {
        IRValue::GlobalVariable(_) | IRValue::Immediate(_) => true,
        IRValue::StringLiteral { reg, .. } => x.get(reg).is_some(),
        IRValue::Register(reg) => x.get(reg).is_some(),
    }
}

fn node_checked(x: &RegisterAllocationFunction, k: &IRNodeKind) -> (r: bool)
    ensures
        r == node_generable(Some(x.mapping@), *k),
{
    match k {
        IRNodeKind::BinaryOp { op, left, right, result, .. } => {
            if *op == IRBinaryOp::Div && value_allocated(x, left) && value_allocated(x, right) {
                match x.get(result) {
                    Some(p) => p == PhysicalRegister::RAX,
                    None => true,
                }
            } else {
                true
            }
        },
        IRNodeKind::Spill { reg, offset } => match x.get(reg) {
            Some(_) => *offset <= usize::MAX / 8,
            None => true,
        },
        IRNodeKind::Unspill { reg, offset } => match x.get(reg) {
            Some(_) => *offset <= usize::MAX / 8,
            None => true,
        },
        _ => true,
    }
}

fn function_checked(x: &RegisterAllocationFunction, f: &IRFunction) -> (r: bool)
    ensures
        r == function_generable(allocation_views(*x), *f),
{
    if x.used_callee_save.len() > x.max_spilled_registers || x.max_spilled_registers > usize::MAX / 8 {
        return false;
    }
    let mut i: usize = 0;
    while i < f.body.len()
        invariant
            i <= f.body@.len(),
            forall|b: int, j: int| 0 <= b < i && 0 <= j < f.body@[b].nodes@.len()
                ==> node_generable(Some(x.mapping@), #[trigger] f.body@[b].nodes@[j].kind),
        decreases f.body.len() - i,
    {
        let mut j: usize = 0;
        while j < f.body[i].nodes.len()
            invariant
                i < f.body@.len(),
                j <= f.body@[i as int].nodes@.len(),
                forall|b: int, k: int| 0 <= b < i && 0 <= k < f.body@[b].nodes@.len()
                    ==> node_generable(Some(x.mapping@), #[trigger] f.body@[b].nodes@[k].kind),
                forall|k: int| 0 <= k < j ==> node_generable(Some(x.mapping@), #[trigger] f.body@[i as int].nodes@[k].kind),
            decreases f.body[i as int].nodes.len() - j,
        {
            if !node_checked(x, &f.body[i].nodes[j].kind) {
                return false;
            }
            j += 1;
        }
        i += 1;
    }
    true
}

impl CodeGenerator {
    /// Whether [`CodeGenerator::generate`] can run on the module without
    /// failing an internal check: every allocated function keeps its saved
    /// registers within its stack slots, its frame size fits, and each of its
    /// divisions leaves the quotient in `%rax`.
    pub fn can_generate(&self, module: &IRModule) -> (r: bool)
        requires
            self.wf(),
        ensures
            r == module_checked(self.entries(), *module),
    {
        let mut i: usize = 0;
        while i < module.functions.len()
            invariant
                self.wf(),
                i <= module.functions@.len(),
                forall|j: int| 0 <= j < i ==> (find_allocation(self.entries(), (#[trigger] module.functions@[j]).name@) matches Some(x)
                    ==> function_generable(x, module.functions@[j])),
            decreases module.functions.len() - i,
        {
            let f = &module.functions[i];
            proof {
                assert(find_allocation(self.allocation.functions@, f.name@) == find_allocation(self.entries(), f.name@));
            }
            match self.allocation.get_function(&f.name) {
                Some(x) => {
                    if !function_checked(x, f) {
                        return false;
                    }
                },
                None => {},
            }
            i += 1;
        }
        true
    }

    #[verifier::spinoff_prover]
    #[verifier::rlimit(30)]
    fn generate_globals(&self, module: &IRModule) -> (r: String)
        ensures
            r@ == globals_asm(module.global_variables@),
    {
        let mut code = String::new();
        if module.global_variables.len() == 0 {
            return code;
        }
        push_str(&mut code, "\t.bss\n");
        let ghost start = code@;
        let mut i: usize = 0;
        proof {
            assert(module.global_variables@.subrange(0, 0) =~= Seq::<IRVariableDeclaration>::empty());
            assert(code@ =~= start + globals_lines(module.global_variables@.subrange(0, 0)));
        }
        while i < module.global_variables.len()
            invariant
                i <= module.global_variables@.len(),
                code@ == start + globals_lines(module.global_variables@.subrange(0, i as int)),
            decreases module.global_variables.len() - i,
        {
            let ghost sub = module.global_variables@.subrange(0, i + 1);
            let ghost before = code@;
            proof {
                assert(sub.drop_last() =~= module.global_variables@.subrange(0, i as int));
                assert(sub.last() == module.global_variables@[i as int]);
            }
            let var = &module.global_variables[i];
            let size = usize_to_text(var.ty.size());
            emit2(&mut code, ".type", var.name.as_str(), "@object");
            emit1(&mut code, ".globl", var.name.as_str());
            emit1(&mut code, ".p2align", "4");
            push_str(&mut code, var.name.as_str());
            push_str(&mut code, ":\n");
            emit1(&mut code, ".zero", size.as_str());
            emit2(&mut code, ".size", var.name.as_str(), size.as_str());
            proof {
                assert(code@ =~= before + declaration_asm(*var));
            }
            i += 1;
        }
        proof {
            assert(module.global_variables@.subrange(0, i as int) =~= module.global_variables@);
        }
        code
    }

    fn generate_strings(&self, module: &IRModule) -> (r: String)
        requires
            forall|i: int| 0 <= i < module.strings@.len() ==> encode_utf8((#[trigger] module.strings@[i]).value@).len() < usize::MAX,
        ensures
            r@ == strings_asm(module.strings@),
    {
        let mut code = String::new();
        if module.strings.len() == 0 {
            return code;
        }
        push_str(&mut code, "\t.section\t.rodata.str1.1, \"aMS\", @progbits, 1\n");
        let ghost start = code@;
        let mut i: usize = 0;
        proof {
            assert(module.strings@.subrange(0, 0) =~= Seq::<IRString>::empty());
            assert(code@ =~= start + strings_lines(module.strings@.subrange(0, 0)));
        }
        while i < module.strings.len()
            invariant
                i <= module.strings@.len(),
                forall|i: int| 0 <= i < module.strings@.len() ==> encode_utf8((#[trigger] module.strings@[i]).value@).len() < usize::MAX,
                code@ == start + strings_lines(module.strings@.subrange(0, i as int)),
            decreases module.strings.len() - i,
        {
            let ghost sub = module.strings@.subrange(0, i + 1);
            let ghost before = code@;
            proof {
                assert(sub.drop_last() =~= module.strings@.subrange(0, i as int));
                assert(sub.last() == module.strings@[i as int]);
            }
            let string = &module.strings[i];
            let label = string.label();
            push_str(&mut code, label.as_str());
            push_str(&mut code, ":\n");
            push_str(&mut code, "\t.asciz\t\"");
            let escaped = escape_debug(string.value.as_str());
            push_str(&mut code, escaped.as_str());
            push_str(&mut code, "\"\n");
            let bytes: usize = string.value.as_str().len();
            let size = usize_to_text(bytes + 1);
            emit2(&mut code, ".size", label.as_str(), size.as_str());
            proof {
                assert(code@ =~= before + string_asm(*string));
            }
            i += 1;
        }
        proof {
            assert(module.strings@.subrange(0, i as int) =~= module.strings@);
        }
        code
    }

    /// The functions' code, in module order.
    #[verifier::rlimit(40)]
    fn generate_functions(&mut self, module: &IRModule) -> (r: Result<String, CodeGeneratorError>)
        requires
            old(self).wf(),
            module_checked(old(self).entries(), *module),
        ensures
            final(self).wf(),
            final(self).entries() == old(self).entries(),
            r is Ok <==> functions_asm(old(self).entries(), module.functions@) is Some,
            r matches Ok(c) ==> functions_asm(old(self).entries(), module.functions@) == Some(c@),
            forall|k: int| #[trigger] first_missing(old(self).entries(), module.functions@, k)
                ==> is_not_found_error(r, module.functions@[k].name@),
    {
        let ghost entries = self.entries();
        let mut code = String::new();
        let mut i: usize = 0;
        proof {
            assert(module.functions@.subrange(0, 0) =~= Seq::<IRFunction>::empty());
        }
        while i < module.functions.len()
            invariant
                self.wf(),
                self.entries() == entries,
                entries == old(self).entries(),
                i <= module.functions@.len(),
                module_checked(entries, *module),
                functions_asm(entries, module.functions@.subrange(0, i as int)) == Some(code@),
                i > 0 ==> find_allocation(entries, module.functions@[0].name@) is Some,
            decreases module.functions.len() - i,
        {
            let ghost sub = module.functions@.subrange(0, i + 1);
            proof {
                assert(sub.drop_last() =~= module.functions@.subrange(0, i as int));
                assert(sub.last() == module.functions@[i as int]);
                assert(find_allocation(self.allocation.functions@, module.functions@[i as int].name@)
                    == find_allocation(entries, module.functions@[i as int].name@));
            }
            let function = &module.functions[i];
            match self.allocation.get_function(&function.name) {
                Some(x) => {
                    self.current_allocation = Some(x.clone());
                },
                None => {
                    let mut m = "Function ".to_string();
                    push_str(&mut m, function.name.as_str());
                    push_str(&mut m, " not found in allocation");
                    proof {
                        lemma_functions_asm_none(entries, module.functions@, i + 1);
                        assert forall|k: int| #[trigger] first_missing(entries, module.functions@, k) implies k == i by {
                            lemma_prefix_generated(entries, module.functions@, k);
                            lemma_prefix_generated(entries, module.functions@, i as int);
                        }
                    }
                    return Err(CodeGeneratorError { message: m });
                },
            }
            self.current_function_name = function.name.clone();
            proof {
                assert(self.current_views() == find_allocation(entries, function.name@));
                assert(function_generable(self.current_views().unwrap(), *function));
            }
            match self.generate_function(function) {
                Ok(c) => {
                    push_str(&mut code, c.as_str());
                },
                Err(e) => {
                    proof {
                        lemma_functions_asm_none(entries, module.functions@, i + 1);
                        assert forall|k: int| #[trigger] first_missing(entries, module.functions@, k) implies false by {
                            lemma_prefix_generated(entries, module.functions@, k);
                            lemma_prefix_generated(entries, module.functions@, i as int);
                        }
                    }
                    return Err(e);
                },
            }
            i += 1;
        }
        proof {
            assert(module.functions@.subrange(0, i as int) =~= module.functions@);
            assert forall|k: int| #[trigger] first_missing(entries, module.functions@, k) implies false by {
                lemma_prefix_generated(entries, module.functions@, module.functions@.len() as int);
            }
        }
        Ok(code)
    }

    /// The assembly of a module: `.text`, each function with the allocation
    /// recorded under its name, the globals, the strings and the stack note.
    /// Fails when a function has no allocation (`Function <name> not found in
    /// allocation`), when a register it uses has no physical register, or on
    /// an address-of operation.
    pub fn generate(&mut self, module: &IRModule) -> (r: Result<String, CodeGeneratorError>)
        requires
            old(self).wf(),
            module_generable(old(self).entries(), *module),
        ensures
            final(self).wf(),
            final(self).entries() == old(self).entries(),
            r is Ok <==> module_asm(old(self).entries(), *module) is Some,
            r matches Ok(c) ==> module_asm(old(self).entries(), *module) == Some(c@),
            forall|k: int| #[trigger] first_missing(old(self).entries(), module.functions@, k)
                ==> is_not_found_error(r, module.functions@[k].name@),
    {
        let ghost entries = self.entries();
        let mut code = String::new();
        push_str(&mut code, ".text\n");
        let functions = self.generate_functions(module)?;
        push_str(&mut code, functions.as_str());
        let globals = self.generate_globals(module);
        push_str(&mut code, globals.as_str());
        let strings = self.generate_strings(module);
        push_str(&mut code, strings.as_str());
        push_str(&mut code, "\t.section .note.GNU-stack, \"\", @progbits\n");
        proof {
            assert(code@ =~= module_asm(entries, *module).unwrap());
        }
        Ok(code)
    }
}

proof fn lemma_prefix_generated(entries: Seq<(String, RegisterAllocationFunction)>, s: Seq<IRFunction>, k: int)
    requires
        0 <= k <= s.len(),
        functions_asm(entries, s.subrange(0, k)) is Some,
    ensures
        forall|j: int| 0 <= j < k ==> (#[trigger] find_allocation(entries, s[j].name@)) is Some,
        forall|j: int| 0 <= j <= k ==> (#[trigger] functions_asm(entries, s.subrange(0, j))) is Some,
    decreases k,
{
    if k > 0 {
        let p = s.subrange(0, k);
        assert(p.drop_last() =~= s.subrange(0, k - 1));
        assert(p.last() == s[k - 1]);
        lemma_prefix_generated(entries, s, k - 1);
    }
}

proof fn lemma_functions_asm_none(entries: Seq<(String, RegisterAllocationFunction)>, s: Seq<IRFunction>, k: int)
    requires
        0 <= k <= s.len(),
        functions_asm(entries, s.subrange(0, k)) is None,
    ensures
        functions_asm(entries, s) is None,
    decreases s.len(),
{
    if k == s.len() {
        assert(s.subrange(0, k) =~= s);
    } else {
        assert(s.drop_last().subrange(0, k) =~= s.subrange(0, k));
        lemma_functions_asm_none(entries, s.drop_last(), k);
    }
}

} // verus!
