use lib::ir_generator::domain::{IRBinaryOp, IRBlock, IRFunction, IRModule, IRNode, IRNodeKind, IRUnaryOp, IRValue, IRVariable};
use lib::ir_generator::IRGenerator;
use lib::ir_optimizer::folder::{fold_binary_op, fold_unary_op};
use lib::ir_optimizer::optimize_ir;
use lib::lexer::Lexer;
use lib::lifetime_analyzer::analyze_lifetime;
use lib::lifetime_analyzer::liveness::compute_liveness;
use lib::virtual_register::VirtualRegister;
use lib::parser::Parser;

fn compile_ir(source: &str) -> IRModule {
    let lexer = Lexer::new(source);
    let mut parser = Parser::new(lexer).unwrap();
    let ast = parser.parse().unwrap();
    let mut generator = IRGenerator::new();
    generator.generate(&ast).unwrap()
}

#[test]
fn test_simple_return() {
    // Arrange
    let input = "int main() { return 42; }";
    let lexer = Lexer::new(input);
    let mut parser = Parser::new(lexer).unwrap();
    let ast = parser.parse().unwrap();

    // Act
    let mut generator = IRGenerator::new();
    let ir_module = generator.generate(&ast).unwrap();

    // Assert
    assert_eq!(ir_module.functions.len(), 1);
    assert_eq!(ir_module.functions[0].name, "main");
    assert_eq!(
        ir_module.functions[0].body[0].nodes[0],
        IRNode::new(IRNodeKind::Return {
            value: Some(IRValue::Immediate(42)),
        })
    );
}

#[test]
fn test_variable_declaration() {
    // Arrange
    let input = "int main() { int x; return 0; }";
    let lexer = Lexer::new(input);
    let mut parser = Parser::new(lexer).unwrap();
    let ast = parser.parse().unwrap();

    // Act
    let mut generator = IRGenerator::new();
    let ir_module = generator.generate(&ast).unwrap();

    // Assert
    assert_eq!(ir_module.functions.len(), 1);
    let function = &ir_module.functions[0];
    assert_eq!(function.name, "main");
    assert!(matches!(
        function.body[0].nodes[0].kind,
        IRNodeKind::VariableDeclaration { .. }
    ));
}

#[test]
fn test_assignment() {
    // Arrange
    let input = "int main() { int x; x = 42; return x; }";
    let lexer = Lexer::new(input);
    let mut parser = Parser::new(lexer).unwrap();
    let ast = parser.parse().unwrap();

    // Act
    let mut generator = IRGenerator::new();
    let ir_module = generator.generate(&ast).unwrap();

    // Assert
    assert_eq!(ir_module.functions.len(), 1);
    let function = &ir_module.functions[0];
    assert!(matches!(
        function.body[0].nodes[1].kind,
        IRNodeKind::Assign {
            value: IRValue::Immediate(42),
            ..
        }
    ));
}

#[test]
fn generator_rejects_undefined_identifier() {
    let lexer = Lexer::new("int main() { return y; }");
    let mut parser = Parser::new(lexer).unwrap();
    let ast = parser.parse().unwrap();
    let mut generator = IRGenerator::new();
    let err = generator.generate(&ast).unwrap_err();
    assert!(err.message.contains("Undefined identifier: y"));
}

fn generate_error(source: &str) -> String {
    let lexer = Lexer::new(source);
    let mut parser = Parser::new(lexer).unwrap();
    let ast = parser.parse().unwrap();
    let mut generator = IRGenerator::new();
    generator.generate(&ast).unwrap_err().message
}

fn generates(source: &str) -> bool {
    let lexer = Lexer::new(source);
    let mut parser = Parser::new(lexer).unwrap();
    let ast = parser.parse().unwrap();
    let mut generator = IRGenerator::new();
    generator.generate(&ast).is_ok()
}

#[test]
fn generator_rejects_assignment_to_function() {
    let message = generate_error("int f() { return 0; } int main() { f = 1; return 0; }");
    assert!(message.contains("Cannot assign to function"));
}

#[test]
fn generator_rejects_store_through_non_pointer() {
    let message = generate_error("int main() { int x; *x = 1; return 0; }");
    assert!(message.contains("Operand of the deref operator must be a pointer"));
}

#[test]
fn generator_rejects_local_declared_twice() {
    let message = generate_error("int main() { int x; int x; return 0; }");
    assert!(message.contains("Failed to add local variable 'x'"));
}

#[test]
fn generator_accepts_shadowing_in_inner_block() {
    assert!(generates("int main() { int x; { int x; x = 1; } return x; }"));
}

#[test]
fn generator_rejects_global_declared_twice() {
    let message = generate_error("int g; long g; int main() { return 0; }");
    assert!(message.contains("Failed to add global variable 'g'"));
}

#[test]
fn generator_rejects_void_global() {
    let message = generate_error("void g; int main() { return 0; }");
    assert!(message.contains("Unsupported variable type"));
}

#[test]
fn generator_sees_earlier_functions_and_itself_only() {
    assert!(generates("long f(long n) { return f(n - 1); } long main() { return f(3); }"));
    let message = generate_error("long main() { return g(3); } long g(long n) { return n; }");
    assert!(message.contains("Undefined function: g"));
}

#[test]
fn generator_rejects_invalid_operand_types() {
    let message = generate_error("int main() { char *p; char *q; return p * q; }");
    assert!(message.contains("Invalid binary op"));
}

#[test]
fn generator_module_follows_declarations() {
    let module = compile_ir("int g; char *s; void *malloc(); long f(long a, long b) { return a; } int main() { return 0; }");
    assert_eq!(module.global_variables.len(), 2);
    assert_eq!(module.global_variables[0].name, "g");
    assert_eq!(module.global_variables[1].name, "s");
    assert_eq!(module.functions.len(), 2);
    assert_eq!(module.functions[0].name, "f");
    assert_eq!(module.functions[0].parameters.len(), 2);
    assert_eq!(module.functions[0].parameter_regs.len(), 2);
    assert_eq!(module.functions[1].name, "main");
}

#[test]
fn generator_block_ids_are_positions() {
    let module = compile_ir("long f(long a) { while (a < 10) { a = a + 1; } return a; }");
    for function in &module.functions {
        for (i, block) in function.body.iter().enumerate() {
            assert_eq!(block.id, i);
        }
    }
}

#[test]
fn fold_binary_values() {
    let r = fold_binary_op(&IRBinaryOp::Add, &IRValue::Immediate(2), &IRValue::Immediate(3)).unwrap();
    assert_eq!(r, Some(IRValue::Immediate(5)));
    let r = fold_binary_op(&IRBinaryOp::Less, &IRValue::Immediate(2), &IRValue::Immediate(3)).unwrap();
    assert_eq!(r, Some(IRValue::Immediate(1)));
    let r = fold_binary_op(&IRBinaryOp::Div, &IRValue::Immediate(-7), &IRValue::Immediate(2)).unwrap();
    assert_eq!(r, Some(IRValue::Immediate(-3)));
    let r = fold_binary_op(&IRBinaryOp::Add, &IRValue::Immediate(i64::MAX), &IRValue::Immediate(1)).unwrap();
    assert_eq!(r, Some(IRValue::Immediate(i64::MIN)));
    let r = fold_binary_op(&IRBinaryOp::Mul, &IRValue::Immediate(2), &IRValue::GlobalVariable("g".to_string())).unwrap();
    assert_eq!(r, None);
}

#[test]
fn fold_division_errors() {
    let e = fold_binary_op(&IRBinaryOp::Div, &IRValue::Immediate(1), &IRValue::Immediate(0)).unwrap_err();
    assert_eq!(e.message, "Division by zero");
    let e = fold_binary_op(&IRBinaryOp::Div, &IRValue::Immediate(i64::MIN), &IRValue::Immediate(-1)).unwrap_err();
    assert_eq!(e.message, "Division overflow");
}

#[test]
fn fold_unary_values() {
    assert_eq!(fold_unary_op(&IRUnaryOp::Neg, &IRValue::Immediate(5)).unwrap(), Some(IRValue::Immediate(-5)));
    assert_eq!(fold_unary_op(&IRUnaryOp::Not, &IRValue::Immediate(0)).unwrap(), Some(IRValue::Immediate(-1)));
    assert_eq!(fold_unary_op(&IRUnaryOp::Deref, &IRValue::Immediate(0)).unwrap(), None);
}

#[test]
fn optimizer_folds_constant_expression() {
    let module = compile_ir("long main() { long x; x = 2 + 3 * 4; return x; }");
    let optimized = optimize_ir(&module).unwrap();
    let mut found = false;
    for block in &optimized.functions[0].body {
        for node in &block.nodes {
            if let IRNodeKind::Assign { variable: IRVariable::Register(_), value: IRValue::Immediate(14) } = node.kind {
                found = true;
            }
            assert!(!matches!(node.kind, IRNodeKind::BinaryOp { .. }));
        }
    }
    assert!(found);
}

#[test]
fn optimizer_reports_constant_division_by_zero() {
    let module = compile_ir("long main() { long x; x = 1 / 0; return x; }");
    assert!(optimize_ir(&module).is_err());
}

#[test]
fn optimizer_inlines_small_leaf_function() {
    let module = compile_ir("long id(long a) { return a; } long main() { return id(3); }");
    let optimized = optimize_ir(&module).unwrap();
    let main = optimized.functions.iter().find(|f| f.name == "main").unwrap();
    for block in &main.body {
        for node in &block.nodes {
            assert!(!matches!(node.kind, IRNodeKind::FunctionCall { .. }));
        }
    }
}

#[test]
fn lifetime_parameters_are_live_at_entry() {
    let module = compile_ir("long add(long a, long b) { return a + b; }");
    let table = analyze_lifetime(&module).unwrap();
    let f = &table.functions[0];
    assert_eq!(f.name, "add");
    // the bound parameter registers are assigned at p0+0 and read at p0+1
    let entry_out = &f.live_out.iter().find(|(a, _)| a.id == 0 && a.offset == 0).unwrap().1;
    assert_eq!(entry_out.len(), 2);
    // nothing is live before the first point
    let entry_in = &f.live_in.iter().find(|(a, _)| a.id == 0 && a.offset == 0).unwrap().1;
    assert!(entry_in.is_empty());
}

#[test]
fn lifetime_overlaps_are_symmetric() {
    let module = compile_ir("long add(long a, long b) { return a + b; }");
    let table = analyze_lifetime(&module).unwrap();
    let overlaps = table.functions[0].get_overlaps();
    for (x, y) in &overlaps.overlaps {
        let px = &overlaps.overlaps_by_register.iter().find(|(r, _)| r == x).unwrap().1;
        let py = &overlaps.overlaps_by_register.iter().find(|(r, _)| r == y).unwrap().1;
        assert!(px.contains(y));
        assert!(py.contains(x));
    }
}

#[test]
fn compact_drops_merges_and_renumbers() {
    let block = |id: usize, kinds: Vec<IRNodeKind>| IRBlock { id, nodes: kinds.into_iter().map(|kind| IRNode { kind }).collect() };
    let mut function = IRFunction {
        name: "f".to_string(),
        parameters: vec![],
        parameter_regs: vec![],
        body: vec![
            block(10, vec![IRNodeKind::NoOp]),
            block(11, vec![]),
            block(12, vec![IRNodeKind::NoOp, IRNodeKind::Branch { condition: None, true_branch: Some(14), false_branch: None }]),
            block(13, vec![IRNodeKind::NoOp]),
            block(14, vec![IRNodeKind::Return { value: None }]),
        ],
    };
    function.compact();
    assert_eq!(function.body.len(), 3);
    assert_eq!(function.body[0].id, 0);
    assert_eq!(function.body[0].nodes.len(), 3);
    assert!(matches!(
        function.body[0].nodes[2].kind,
        IRNodeKind::Branch { condition: None, true_branch: Some(2), false_branch: None }
    ));
    assert_eq!(function.body[1].id, 1);
    assert_eq!(function.body[1].nodes.len(), 1);
    assert_eq!(function.body[2].id, 2);
    assert!(matches!(function.body[2].nodes[0].kind, IRNodeKind::Return { value: None }));
}

#[test]
fn liveness_is_the_least_solution() {
    let reg = |id: u32| VirtualRegister { id, stored: false };
    let (a, b, c) = (reg(1), reg(2), reg(3));
    let succ = vec![vec![1usize], vec![2usize], vec![1usize]];
    let uses = vec![vec![], vec![a], vec![b]];
    let defs = vec![vec![a, b], vec![], vec![c]];
    let (ins, outs) = compute_liveness(&succ, &uses, &defs);
    let ids = |v: &Vec<VirtualRegister>| {
        let mut x: Vec<u32> = v.iter().map(|r| r.id).collect();
        x.sort();
        x
    };
    assert_eq!(ids(&ins[0]), Vec::<u32>::new());
    assert_eq!(ids(&ins[1]), vec![1, 2]);
    assert_eq!(ids(&ins[2]), vec![1, 2]);
    assert_eq!(ids(&outs[0]), vec![1, 2]);
    assert_eq!(ids(&outs[1]), vec![1, 2]);
    assert_eq!(ids(&outs[2]), vec![1, 2]);
}

#[test]
fn folding_a_division_by_zero_reports_it() {
    let mut module = compile_ir("long main() { long x; x = 7; return x; }");
    module.functions[0].body[0].nodes.push(IRNode {
        kind: IRNodeKind::BinaryOp {
            op: IRBinaryOp::Div,
            left: IRValue::Immediate(1),
            right: IRValue::Immediate(0),
            result: VirtualRegister { id: 90, stored: false },
            optional_result: None,
        },
    });
    let err = lib::ir_optimizer::fold_constants(&mut module).unwrap_err();
    assert_eq!(err.message, "Division by zero");
}

#[test]
fn optimizer_reports_a_constant_division_by_zero() {
    let module = compile_ir("long main() { return 1 / 0; }");
    let err = optimize_ir(&module).unwrap_err();
    assert_eq!(err.message, "Division by zero");
}

#[test]
fn symbol_table_errors_are_worded() {
    let mut table = lib::symbol::SymbolTable::new();
    assert_eq!(table.exit_scope().unwrap_err(), "Cannot exit global scope");
    table.add_global_variable("g".to_string(), lib::ast::Type::Long).unwrap();
    assert_eq!(
        table.add_global_variable("g".to_string(), lib::ast::Type::Int).unwrap_err(),
        "Global symbol 'g' already defined"
    );
    table.enter_scope();
    table.add_local_variable("x".to_string(), lib::ast::Type::Int, VirtualRegister { id: 1, stored: true }).unwrap();
    assert_eq!(
        table
            .add_local_variable("x".to_string(), lib::ast::Type::Int, VirtualRegister { id: 2, stored: true })
            .unwrap_err(),
        "Symbol 'x' already defined in current scope"
    );
}

#[test]
fn inlining_removes_calls_to_small_leaf_functions() {
    let mut module = compile_ir("long one(long a) { return a + 1; } long main() { return one(41); }");
    let inlined = lib::ir_optimizer::inline_functions(&mut module).unwrap();
    assert!(inlined);
    let main = &module.functions[1];
    assert_eq!(main.name, "main");
    let mut copied_add = false;
    for block in &main.body {
        for node in &block.nodes {
            assert!(!matches!(node.kind, IRNodeKind::FunctionCall { .. }));
            if let IRNodeKind::BinaryOp { op: IRBinaryOp::Add, left: IRValue::Immediate(41), right: IRValue::Immediate(1), .. } = &node.kind {
                copied_add = true;
            }
        }
    }
    assert!(copied_add);
}

#[test]
fn lifetime_reports_a_register_read_before_assignment() {
    let f = IRFunction {
        name: "f".to_string(),
        parameters: vec![],
        parameter_regs: vec![],
        body: vec![IRBlock {
            id: 0,
            nodes: vec![IRNode {
                kind: IRNodeKind::Return { value: Some(IRValue::Register(VirtualRegister { id: 5, stored: false })) },
            }],
        }],
    };
    let module = IRModule { functions: vec![f], global_variables: vec![], strings: vec![] };
    let err = analyze_lifetime(&module).unwrap_err();
    assert_eq!(err.message, "Register %5 not found in lifetime elements");
}

#[test]
fn generator_rejects_a_tree_that_is_not_a_translation_unit() {
    let ast = lib::ast::ASTNode::new(lib::ast::ASTKind::IntegerLiteral(1));
    let mut generator = IRGenerator::new();
    let err = generator.generate(&ast).unwrap_err();
    assert_eq!(err.message, "Expected TranslationUnit");
    assert_eq!(*err.node, ast);
}

#[test]
fn register_manager_hands_out_ids_in_order() {
    let mut manager = lib::virtual_register::VirtualRegisterManager::new();
    for k in 0..5u32 {
        let r = manager.allocate(k % 2 == 0);
        assert_eq!(r.id, k);
        assert_eq!(r.stored, k % 2 == 0);
    }
}
