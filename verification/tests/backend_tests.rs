use lib::code_generator::CodeGenerator;
use lib::control_flow::ControlFlowGraph;
use lib::ir_generator::domain::{IRBinaryOp, IRBlock, IRFunction, IRModule, IRNode, IRNodeKind, IRString, IRUnaryOp, IRValue, IRVariable, IRVariableDeclaration, VariableType};
use lib::lifetime_analyzer::IRAddress;
use lib::physical_register::PhysicalRegister;
use lib::register_allocator::{RegisterAllocation, RegisterAllocationFunction};
use lib::virtual_register::VirtualRegister;
use lib::ir_generator::IRGenerator;
use lib::lexer::Lexer;
use lib::lifetime_analyzer::analyze_lifetime;
use lib::parser::Parser;
use lib::register_allocator::RegisterAllocator;

fn compile_ir(source: &str) -> IRModule {
    let lexer = Lexer::new(source);
    let mut parser = Parser::new(lexer).unwrap();
    let ast = parser.parse().unwrap();
    let mut generator = IRGenerator::new();
    generator.generate(&ast).unwrap()
}

#[test]
fn test_division() {
    // Arrange
    let input = "
void test_division(long a, long b) {
    long result;
    result = a / b;
}";
    let lexer = Lexer::new(input);
    let mut parser = Parser::new(lexer).unwrap();
    let ast = parser.parse().unwrap();
    let mut ir_generator = IRGenerator::new();
    let ir_module = ir_generator.generate(&ast).unwrap();
    let lifetime_table = analyze_lifetime(&ir_module).unwrap();

    // Act
    let register_allocator = RegisterAllocator::new(&lifetime_table);
    let (allocated_module, allocation) = register_allocator.allocate(&ir_module).unwrap();

    // Assert
    println!("{}", allocated_module.fmt_with_allocation(&allocation));
}

#[test]
fn test_register_allocator() {
    // Arrange
    let input = "
void swap(long *a, long *b);

void bubble_sort(long *data, long size) {
    long i; long j;
    i = size - 1;
    while (0 < i) {
        j = 0;
        while (j < i) {
            if (*(data + (j+1)) < *(data + j))
                swap (data + j, data + (j + 1));
            j = j + 1;
        }
        i = i - 1;
    }
}";
    let lexer = Lexer::new(input);
    let mut parser = Parser::new(lexer).unwrap();
    let ast = parser.parse().unwrap();
    let mut ir_generator = IRGenerator::new();
    let ir_module = ir_generator.generate(&ast).unwrap();
    let lifetime_table = analyze_lifetime(&ir_module).unwrap();

    // Act
    let register_allocator = RegisterAllocator::new(&lifetime_table);
    let (allocated_module, allocation) = register_allocator.allocate(&ir_module).unwrap();

    // Assert
    println!("{}", allocated_module.fmt_with_allocation(&allocation));
}

fn bubble_source() -> &'static str {
    "
void swap(long *a, long *b);

void bubble_sort(long *data, long size) {
    long i; long j;
    i = size - 1;
    while (0 < i) {
        j = 0;
        while (j < i) {
            if (*(data + (j+1)) < *(data + j))
                swap (data + j, data + (j + 1));
            j = j + 1;
        }
        i = i - 1;
    }
}"
}

fn run_backend(source: &str) -> (IRModule, lib::register_allocator::RegisterAllocation) {
    let module = compile_ir(source);
    let table = analyze_lifetime(&module).unwrap();
    let allocator = RegisterAllocator::new(&table);
    allocator.allocate(&module).unwrap()
}

#[test]
fn codegen_main_returning_a_constant() {
    let (allocated, allocation) = run_backend("long main() { return 42; }");
    let mut generator = CodeGenerator::new(&allocation);
    assert!(generator.can_generate(&allocated));
    let code = generator.generate(&allocated).unwrap();
    assert_eq!(
        code,
        ".text\n\t.globl\tmain\n\t.p2align\t4\n\t.type\tmain,@function\nmain:\n.main_0:\n\tmovq\t$42, %rax\n\tjmp\t.main_end\n\tmovq\t$0, %rax\n.main_end:\n\tretq\n\n\t.section .note.GNU-stack, \"\", @progbits\n"
    );
    assert_eq!(allocation.functions[0].1.to_text(), "Max spilled registers: 0\n");
}

#[test]
fn codegen_division_uses_rax() {
    let (allocated, allocation) = run_backend(
        "
void test_division(long a, long b) {
    long result;
    result = a / b;
}",
    );
    let mut generator = CodeGenerator::new(&allocation);
    assert!(generator.can_generate(&allocated));
    let code = generator.generate(&allocated).unwrap();
    assert!(code.contains("\tcqto\n\tidivq\t"));
    assert!(code.starts_with(".text\n\t.globl\ttest_division\n"));
}

fn vreg(id: u32) -> VirtualRegister {
    VirtualRegister::new(id, false)
}

fn function_allocation(mapping: Vec<(u32, PhysicalRegister)>, saved: Vec<PhysicalRegister>, slots: usize) -> RegisterAllocationFunction {
    let mut a = RegisterAllocationFunction::new();
    for (id, p) in mapping {
        a.allocate(vreg(id), p);
    }
    a.used_callee_save = saved;
    a.max_spilled_registers = slots;
    a
}

#[test]
fn codegen_parameter_chain_and_frame() {
    let function = IRFunction {
        name: "f".to_string(),
        parameters: vec![vreg(2), vreg(3)],
        parameter_regs: vec![vreg(0), vreg(1)],
        body: vec![IRBlock { id: 0, nodes: vec![IRNode::new(IRNodeKind::Return { value: None })] }],
    };
    let module = IRModule { functions: vec![function], global_variables: vec![], strings: vec![] };
    let mut allocation = RegisterAllocation::new();
    allocation.functions.push((
        "f".to_string(),
        function_allocation(
            vec![(0, PhysicalRegister::RDI), (1, PhysicalRegister::RSI), (2, PhysicalRegister::RSI), (3, PhysicalRegister::RDX)],
            vec![PhysicalRegister::RBX],
            1,
        ),
    ));
    let mut generator = CodeGenerator::new(&allocation);
    assert!(generator.can_generate(&module));
    let code = generator.generate(&module).unwrap();
    assert_eq!(
        code,
        ".text\n\t.globl\tf\n\t.p2align\t4\n\t.type\tf,@function\nf:\n\tpushq\t%rbp\n\tmovq\t%rsp, %rbp\n\tsubq\t$8, %rsp\n\tmovq\t%rbx, -8(%rbp)\n\tmovq\t%rsi, %rdx\n\tmovq\t%rdi, %rsi\n.f_0:\n\tjmp\t.f_end\n.f_end:\n\tmovq\t-8(%rbp), %rbx\n\tleave\n\tretq\n\n\t.section .note.GNU-stack, \"\", @progbits\n"
    );
}

#[test]
fn codegen_globals_and_strings() {
    let module = IRModule {
        functions: vec![],
        global_variables: vec![IRVariableDeclaration { name: "g".to_string(), ty: VariableType::Long }],
        strings: vec![
            IRString { id: 0, value: "a\"b".to_string() },
            IRString { id: 1, value: "\u{e9}".to_string() },
        ],
    };
    let mut generator = CodeGenerator::new(&RegisterAllocation::new());
    let code = generator.generate(&module).unwrap();
    assert_eq!(
        code,
        ".text\n\t.bss\n\t.type\tg, @object\n\t.globl\tg\n\t.p2align\t4\ng:\n\t.zero\t8\n\t.size\tg, 8\n\t.section\t.rodata.str1.1, \"aMS\", @progbits, 1\n.str.0:\n\t.asciz\t\"a\\\"b\"\n\t.size\t.str.0, 4\n.str.1:\n\t.asciz\t\"\u{e9}\"\n\t.size\t.str.1, 3\n\t.section .note.GNU-stack, \"\", @progbits\n"
    );
}

#[test]
fn codegen_reports_missing_allocation() {
    let module = compile_ir("long main() { return 0; }");
    let mut generator = CodeGenerator::new(&RegisterAllocation::new());
    let error = generator.generate(&module).unwrap_err();
    assert_eq!(error.message, "Function main not found in allocation");
    assert_eq!(error.to_text(), "CodeGeneratorError: Function main not found in allocation");
}

#[test]
fn codegen_reports_unallocated_register() {
    let function = IRFunction {
        name: "f".to_string(),
        parameters: vec![],
        parameter_regs: vec![],
        body: vec![IRBlock { id: 0, nodes: vec![IRNode::new(IRNodeKind::Return { value: Some(IRValue::Register(vreg(7))) })] }],
    };
    let module = IRModule { functions: vec![function], global_variables: vec![], strings: vec![] };
    let mut allocation = RegisterAllocation::new();
    allocation.functions.push(("f".to_string(), RegisterAllocationFunction::new()));
    let mut generator = CodeGenerator::new(&allocation);
    let error = generator.generate(&module).unwrap_err();
    assert_eq!(error.message, "Register 7 not allocated");
}

#[test]
fn allocation_text_is_sorted() {
    let a = function_allocation(
        vec![(3, PhysicalRegister::RBX), (1, PhysicalRegister::RAX), (10, PhysicalRegister::R12)],
        vec![PhysicalRegister::R12, PhysicalRegister::RBX],
        2,
    );
    assert_eq!(
        a.to_text(),
        "%1 -> %rax\n%3 -> %rbx\n%10 -> %r12\nCallee-save: %rbx\nCallee-save: %r12\nMax spilled registers: 2\n"
    );
}

#[test]
fn control_flow_text_of_a_loop() {
    let module = compile_ir("long f(long a) { while (a < 10) { a = a + 1; } return a; }");
    let cfg = ControlFlowGraph::from_function(&module.functions[0]);
    assert_eq!(cfg.to_text(), "p0 -> p1\np1 -> p3, p2\np2 -> p1\n");
}

#[test]
fn lifetime_element_and_address_text() {
    let table = analyze_lifetime(&compile_ir(bubble_source())).unwrap();
    let f = &table.functions[0];
    assert_eq!(f.elements[0].to_text(), "%0\n  ref = [p0+1]\n  assign = [p0+0]");
    assert_eq!(IRAddress::new(4, 12).to_text(), "p4+12");
}

#[test]
fn lifetime_table_of_a_counting_loop() {
    let table = analyze_lifetime(&compile_ir("long f(long a) { while (a < 10) { a = a + 1; } return a; }")).unwrap();
    assert_eq!(table.functions.len(), 1);
    let expected = "-------+---------+----------
Addr   | Live In | Live Out
-------+---------+----------
p0+0   |         | %0      
p0+1   | %0      | %1      
p1+0   | %1      | %1, %2  
p1+1   | %1, %2  | %1      
p2+0   | %1      | %3      
p2+1   | %3      | %1      
p3+0   | %1      |         
";
    assert_eq!(table.functions[0].to_text(), expected);
    assert_eq!(table.to_text(), expected);
}

#[test]
fn allocation_separates_registers_live_together() {
    let module = compile_ir(bubble_source());
    let table = analyze_lifetime(&module).unwrap();
    let allocator = RegisterAllocator::new(&table);
    let (_, allocation) = allocator.allocate(&module).unwrap();
    let mapping = &allocation.functions[0].1;
    let mut checked = 0;
    for (_, live) in &table.functions[0].live_in {
        for x in live {
            for y in live {
                if x != y {
                    if let (Some(p), Some(q)) = (mapping.get(x), mapping.get(y)) {
                        assert_ne!(p, q);
                        checked += 1;
                    }
                }
            }
        }
    }
    assert!(checked > 0);
}

#[test]
fn allocation_honours_calling_convention() {
    let module = compile_ir("long f(long a, long b) { return a / b; } long main() { return f(7, 2); }");
    let table = analyze_lifetime(&module).unwrap();
    let allocator = RegisterAllocator::new(&table);
    let (_, allocation) = allocator.allocate(&module).unwrap();
    let f = &module.functions[0];
    let fa = &allocation.functions[0].1;
    assert_eq!(fa.get(&f.parameter_regs[0]), Some(PhysicalRegister::RDI));
    assert_eq!(fa.get(&f.parameter_regs[1]), Some(PhysicalRegister::RSI));
    let mut divisions = 0;
    for block in &f.body {
        for node in &block.nodes {
            if let IRNodeKind::BinaryOp { result, optional_result: Some(rem), .. } = &node.kind {
                divisions += 1;
                if let Some(p) = fa.get(result) {
                    assert_eq!(p, PhysicalRegister::RAX);
                }
                if let Some(p) = fa.get(rem) {
                    assert_eq!(p, PhysicalRegister::RDX);
                }
            }
        }
    }
    assert_eq!(divisions, 1);
    let main = &module.functions[1];
    let ma = &allocation.functions[1].1;
    for block in &main.body {
        for node in &block.nodes {
            if let IRNodeKind::FunctionCall { argument_regs, result: Some(res), .. } = &node.kind {
                if let Some(p) = ma.get(&argument_regs[0]) {
                    assert_eq!(p, PhysicalRegister::RDI);
                }
                if let Some(p) = ma.get(&argument_regs[1]) {
                    assert_eq!(p, PhysicalRegister::RSI);
                }
                if let Some(p) = ma.get(res) {
                    assert_eq!(p, PhysicalRegister::RAX);
                }
            }
        }
    }
    for p in &fa.used_callee_save {
        assert!(fa.mapping.iter().any(|(_, q)| q == p));
    }
}

#[test]
fn spill_registers_are_listed_in_debug_form() {
    let regs = vec![vreg(1), VirtualRegister { id: 2, stored: true }];
    assert_eq!(
        lib::register_allocator::error::registers_text(&regs),
        "{VirtualRegister { id: 1, stored: false }, VirtualRegister { id: 2, stored: true }}"
    );
    assert_eq!(lib::register_allocator::error::registers_text(&vec![]), "{}");
}

#[test]
fn ir_pieces_are_shown_in_their_text_forms() {
    let r1 = VirtualRegister { id: 1, stored: false };
    let r2 = VirtualRegister { id: 2, stored: false };
    assert_eq!(VariableType::Pointer.to_text(), "pointer");
    assert_eq!(IRBinaryOp::BitOr.to_text(), "|");
    assert_eq!(IRUnaryOp::Deref.to_text(), "*");
    assert_eq!(IRValue::Immediate(-7).to_text(), "-7");
    assert_eq!(IRValue::GlobalVariable("g".to_string()).to_text(), "#g");
    assert_eq!(IRVariable::Register(r2).to_text(), "%2");
    assert_eq!(IRVariable::Global("g".to_string()).to_text(), "@g");
    let s = IRString { id: 0, value: "a\"b\n".to_string() };
    assert_eq!(s.to_text(), "\"a\\\"b\\n\"");
    let block = IRBlock {
        id: 3,
        nodes: vec![
            IRNode { kind: IRNodeKind::NoOp },
            IRNode {
                kind: IRNodeKind::Assign { variable: IRVariable::Register(r1), value: IRValue::Register(r2) },
            },
        ],
    };
    assert_eq!(block.to_text(), "p3:\n  nop\n  %1 = %2\n");
}

#[test]
fn allocation_refuses_a_call_with_seven_arguments() {
    let module = compile_ir(
        "long f(long a, long b, long c, long d, long e, long g, long h); long main() { return f(1, 2, 3, 4, 5, 6, 7); }",
    );
    let table = analyze_lifetime(&module).unwrap();
    let allocator = RegisterAllocator::new(&table);
    let err = allocator.allocate(&module).unwrap_err();
    assert_eq!(
        err,
        lib::register_allocator::RegisterAllocatorError::TooManyArguments { function: "main".to_string(), actual: 7 }
    );
}

#[test]
fn values_and_variables_render_registers_through_a_mapping() {
    let r = VirtualRegister { id: 4, stored: false };
    let name = |reg: &VirtualRegister| format!("R{}", reg.id);
    assert_eq!(IRValue::Register(r).fmt_inner(&name), "R4");
    assert_eq!(IRValue::Immediate(12).fmt_inner(&name), "12");
    let s = IRValue::StringLiteral { string: Box::new(IRString { id: 0, value: "hi".to_string() }), reg: r };
    assert_eq!(s.fmt_inner(&name), "\"hi\" <- R4");
    assert_eq!(IRVariable::Register(r).fmt_inner(&name), "R4");
    assert_eq!(IRVariable::Global("g".to_string()).fmt_inner(&name), "@g");
}

#[test]
fn renaming_block_ids_has_an_identity_and_composes() {
    let make = || IRBlock {
        id: 2,
        nodes: vec![
            IRNode { kind: IRNodeKind::NoOp },
            IRNode { kind: IRNodeKind::Branch { condition: None, true_branch: Some(3), false_branch: Some(5) } },
        ],
    };
    let mut same = make();
    same.map_block_ids(|x| x);
    assert_eq!(same, make());
    let mut twice = make();
    twice.map_block_ids(|x| x + 1);
    twice.map_block_ids(|x| x * 2);
    let mut once = make();
    once.map_block_ids(|x| (x + 1) * 2);
    assert_eq!(twice, once);
    assert_eq!(once.id, 6);
}

#[test]
fn compacting_twice_changes_nothing() {
    let once = compile_ir(bubble_source());
    let mut twice = compile_ir(bubble_source());
    twice.compact();
    assert_eq!(twice, once);
    assert!(once.functions[0].body.len() > 1);
}
