use lib::ast::{ASTKind, ASTNode, BinaryOp, Parameter, Type};
use lib::lexer::Lexer;
use lib::parser::Parser;

#[test]
fn test_simple_function() {
    let input = "int main() { return 0; }";
    let lexer = Lexer::new(input);
    let mut parser = Parser::new(lexer).unwrap();
    let ast = parser.parse().unwrap();

    let expected = ASTNode::new(ASTKind::TranslationUnit(vec![ASTNode::new(
        ASTKind::FunctionDefinition {
            ret_type: Type::Int,
            name: "main".to_string(),
            params: vec![],
            body: Box::new(ASTNode::new(ASTKind::CompoundStatement {
                declarations: vec![],
                statements: vec![ASTNode::new(ASTKind::ReturnStatement(Some(Box::new(
                    ASTNode::new(ASTKind::IntegerLiteral(0)),
                ))))],
            })),
        },
    )]));

    assert_eq!(ast, expected);
}

#[test]
fn test_expression() {
    let input = "int test() { x = 1 + 2 * 3; }";
    let lexer = Lexer::new(input);
    let mut parser = Parser::new(lexer).unwrap();
    let ast = parser.parse().unwrap();

    let expected = ASTNode::new(ASTKind::TranslationUnit(vec![ASTNode::new(
        ASTKind::FunctionDefinition {
            ret_type: Type::Int,
            name: "test".to_string(),
            params: vec![],
            body: Box::new(ASTNode::new(ASTKind::CompoundStatement {
                declarations: vec![],
                statements: vec![ASTNode::new(ASTKind::ExpressionStatement(Some(Box::new(
                    ASTNode::new(ASTKind::BinaryExpression {
                        op: BinaryOp::Assign,
                        left: Box::new(ASTNode::new(ASTKind::Identifier("x".to_string()))),
                        right: Box::new(ASTNode::new(ASTKind::BinaryExpression {
                            op: BinaryOp::Add,
                            left: Box::new(ASTNode::new(ASTKind::IntegerLiteral(1))),
                            right: Box::new(ASTNode::new(ASTKind::BinaryExpression {
                                op: BinaryOp::Mul,
                                left: Box::new(ASTNode::new(ASTKind::IntegerLiteral(2))),
                                right: Box::new(ASTNode::new(ASTKind::IntegerLiteral(3))),
                            })),
                        })),
                    }),
                ))))],
            })),
        },
    )]));

    assert_eq!(ast, expected);
}

#[test]
fn test_malloc() {
    let input = "void* malloc();";
    let lexer = Lexer::new(input);
    let mut parser = Parser::new(lexer).unwrap();
    let ast = parser.parse().unwrap();

    let expected = ASTNode::new(ASTKind::TranslationUnit(vec![ASTNode::new(
        ASTKind::Declaration {
            var_type: Type::Function {
                ret_type: Box::new(Type::Pointer(Box::new(Type::Void))),
                params: vec![],
            },
            name: "malloc".to_string(),
        },
    )]));

    assert_eq!(ast, expected);
}

#[test]
fn test_function_with_params() {
    let input = "void func(int a, char b) { return; }";
    let lexer = Lexer::new(input);
    let mut parser = Parser::new(lexer).unwrap();
    let ast = parser.parse().unwrap();

    let expected = ASTNode::new(ASTKind::TranslationUnit(vec![ASTNode::new(
        ASTKind::FunctionDefinition {
            ret_type: Type::Void,
            name: "func".to_string(),
            params: vec![
                Parameter {
                    name: "a".to_string(),
                    param_type: Type::Int,
                },
                Parameter {
                    name: "b".to_string(),
                    param_type: Type::Char,
                },
            ],
            body: Box::new(ASTNode::new(ASTKind::CompoundStatement {
                declarations: vec![],
                statements: vec![ASTNode::new(ASTKind::ReturnStatement(None))],
            })),
        },
    )]));

    assert_eq!(ast, expected);
}

#[test]
fn test_function_call() {
    let input = "void call() { func(1, 'a'); }";
    let lexer = Lexer::new(input);
    let mut parser = Parser::new(lexer).unwrap();
    let ast = parser.parse().unwrap();

    let expected = ASTNode::new(ASTKind::TranslationUnit(vec![ASTNode::new(
        ASTKind::FunctionDefinition {
            ret_type: Type::Void,
            name: "call".to_string(),
            params: vec![],
            body: Box::new(ASTNode::new(ASTKind::CompoundStatement {
                declarations: vec![],
                statements: vec![ASTNode::new(ASTKind::ExpressionStatement(Some(Box::new(
                    ASTNode::new(ASTKind::FunctionCall {
                        function: Box::new(ASTNode::new(ASTKind::Identifier(
                            "func".to_string(),
                        ))),
                        args: vec![
                            ASTNode::new(ASTKind::IntegerLiteral(1)),
                            ASTNode::new(ASTKind::CharacterLiteral('a')),
                        ],
                    }),
                ))))],
            })),
        },
    )]));

    assert_eq!(ast, expected);
}

#[test]
fn parser_reports_missing_semicolon() {
    let lexer = Lexer::new("int x");
    let mut parser = Parser::new(lexer).unwrap();
    assert!(parser.parse().is_err());
}

#[test]
fn parser_reads_global_and_pointer_declarations() {
    let lexer = Lexer::new("long g; char *p;");
    let mut parser = Parser::new(lexer).unwrap();
    let ast = parser.parse().unwrap();
    let expected = ASTNode::new(ASTKind::TranslationUnit(vec![
        ASTNode::new(ASTKind::Declaration { var_type: Type::Long, name: "g".to_string() }),
        ASTNode::new(ASTKind::Declaration {
            var_type: Type::Pointer(Box::new(Type::Char)),
            name: "p".to_string(),
        }),
    ]));
    assert_eq!(ast, expected);
}

#[test]
fn parser_fails_on_lexer_error() {
    let lexer = Lexer::new("@");
    assert!(Parser::new(lexer).is_err());
}

#[test]
fn kind_text_matches_the_derived_debug() {
    let source = "long *f(long a, char **b) { long x; if (a < 1) { x = -a; } else x = 'c'; while (x) x = g(x, \"s\\n\"); return (x + 2) * 3; }";
    let lexer = lib::lexer::Lexer::new(source);
    let mut parser = lib::parser::Parser::new(lexer).unwrap();
    let ast = parser.parse().unwrap();
    assert_eq!(lib::ast::kind_debug_text(&ast), format!("{:?}", ast.kind));
}
