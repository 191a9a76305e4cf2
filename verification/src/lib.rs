pub mod ast;
pub mod code_generator;
pub mod control_flow;
pub mod grammar;
pub mod ir_generator;
pub mod ir_optimizer;
pub mod lexer;
pub mod lifetime_analyzer;
pub mod order;
pub mod parser;
pub mod physical_register;
pub mod register_allocator;
pub mod symbol;
pub mod text;
pub mod virtual_register;
