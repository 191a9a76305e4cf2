//! Lowers the syntax tree to IR: one function per definition, blocks linked
//! by branches, a fresh virtual register per intermediate value.
use vstd::prelude::*;
use crate::ast::{ASTKind, ASTNode, BinaryOp, Type, UnaryOp, copy_params, node_height, nodes_height, lemma_nodes_height, kind_debug_text, write_type, type_eq};
use crate::ir_generator::blocks::{fresh_blocks, lemma_join, lemma_single, join, single};
use crate::ir_generator::domain::{
    IRBinaryOp, IRBlock, IRFunction, IRModule, IRNode, IRNodeKind, IRString, IRUnaryOp, IRValue,
    IRVariable, IRVariableDeclaration, VariableType, body_wf, has_block, ids_unique, referenced,
    targets_closed, is_target, ids_are_positions, compacted,
};
use crate::ir_generator::error::IRGeneratorError;
use crate::symbol::{Symbol, SymbolKind, SymbolTable, SymV, sym_v, scopes_v, scope_index, declares, lemma_declares, lemma_scopes_v_add, lemma_scopes_v_open_close};
use crate::grammar::{ast_v, type_v, params_v, lemma_type_eq_view, lemma_view_type_eq, lemma_params_eq_view};
use crate::ir_generator::typing::{EnvV, variable_type_of, unit_env, globals_env, functions_env, initial_env, lemma_globals_prefix, lemma_functions_prefix, declare_global, function_env, function_body_env, params_env, lemma_params_prefix, stmt_env, stmts_env, locals_env, lemma_locals_prefix, lemma_stmts_prefix, expr_type, args_typed, binary_expr_type, assign_type, unary_expr_type, binary_type_v, unary_type_v, lemma_view_kinds};
use crate::text::{push_str};
use crate::virtual_register::{VirtualRegister, VirtualRegisterManager};
use crate::ir_generator::lowering::{ExprLowering, StmtLowering, lowered_args_by, lowered_by, lowered_body, lowered_stmt_by, lowered_stmts_by, lowers_expr, lowers_stmt, scaled_into};

verus! {

/// The result of lowering an expression: its blocks, its type and the value
/// that holds its result.
pub type ExprResult = (Vec<IRBlock>, Type, IRValue);

fn message3(a: &str, b: &str, c: &str) -> (r: String)
    ensures
        r@ == a@ + b@ + c@,
{
    let mut s = String::new();
    push_str(&mut s, a);
    push_str(&mut s, b);
    push_str(&mut s, c);
    s
}

fn node_error(message: String, node: &ASTNode) -> (e: IRGeneratorError)
    ensures
        e.message == message,
        ast_v(*e.node) == ast_v(*node),
{
    IRGeneratorError { message, node: Box::new(node.clone()) }
}

fn nodes1(a: IRNode) -> (r: Vec<IRNode>)
    ensures
        r@ == seq![a],
{
    let mut v: Vec<IRNode> = Vec::new();
    v.push(a);
    v
}

fn nodes2(a: IRNode, b: IRNode) -> (r: Vec<IRNode>)
    ensures
        r@ == seq![a, b],
{
    let mut v: Vec<IRNode> = Vec::new();
    v.push(a);
    v.push(b);
    v
}

/// A branch node.
fn branch(condition: Option<IRValue>, t: Option<usize>, f: Option<usize>) -> (r: IRNode)
    ensures
        r.kind == (IRNodeKind::Branch { condition: condition, true_branch: t, false_branch: f }),
{
    IRNode::new(IRNodeKind::Branch { condition, true_branch: t, false_branch: f })
}

pub struct IRGenerator {
    virtual_register_manager: VirtualRegisterManager,
    strings: Vec<IRString>,
    symbol_table: SymbolTable,
    block_id: usize,
}

/// Each string's id is its position in the list.
pub open spec fn strings_indexed(strings: Seq<IRString>) -> bool {
    forall|i: int| 0 <= i < strings.len() ==> #[trigger] strings[i].id == i
}

/// The room an expression or statement of height `h` needs for block ids.
pub open spec fn block_budget(h: nat) -> int {
    (5 * h + 1) as int
}

impl IRGenerator {
    /// Symbol table in order, and string ids equal to their positions.
    pub closed spec fn wf(&self) -> bool {
        &&& self.symbol_table.wf()
        &&& strings_indexed(self.strings@)
    }

    /// The symbols in scope and the stack offset, as typing sees them.
    pub closed spec fn env(&self) -> EnvV {
        EnvV { scopes: scopes_v(self.symbol_table.scopes_view()), offset: self.symbol_table.offset() as int }
    }

    /// The id of the last block created (zero before the first).
    pub closed spec fn last_block_id(&self) -> usize {
        self.block_id
    }

    pub fn new() -> (r: Self)
        ensures
            r.wf(),
            r.last_block_id() == 0,
            r.env() == initial_env(),
    {
        let symbol_table = SymbolTable::new();
        proof {
            assert(scopes_v(symbol_table.scopes_view()) =~= seq![Seq::<SymV>::empty()]) by {
                assert(scopes_v(symbol_table.scopes_view())[0] =~= Seq::<SymV>::empty());
            }
        }
        IRGenerator { virtual_register_manager: VirtualRegisterManager::new(), strings: Vec::new(), symbol_table, block_id: 0 }
    }

    /// Lowers a translation unit and compacts every function. A function
    /// with parameters starts with two no-ops, the points at which lifetime
    /// analysis defines the incoming registers and copies them into the
    /// stored parameters; a function without parameters has none. It succeeds
    /// exactly on the programs that [`unit_env`] types from the generator's
    /// symbols, and leaves the symbols that typing ends with. On success the
    /// module has one function per definition, in order, with its name and a
    /// stored and an incoming register per parameter, whose body is the
    /// compaction of the blocks its statement lowers to (see
    /// [`lowered_body`]), and the declared globals in order; every function
    /// has a well-formed body (unique block ids, jumps inside the function)
    /// numbered by position, and each string's id is its position.
    pub fn generate(&mut self, ast: &ASTNode) -> (r: Result<IRModule, IRGeneratorError>)
        requires
            old(self).wf(),
            old(self).last_block_id() + block_budget(node_height(*ast)) <= usize::MAX,
        ensures
            final(self).wf(),
            r is Ok ==> generated_module(r->Ok_0),
            r is Ok ==> compiled_unit(r->Ok_0, *ast),
            r is Ok <==> unit_env(old(self).env(), *ast) is Some,
            r is Ok ==> unit_env(old(self).env(), *ast) == Some(final(self).env()),
            !(ast.kind is TranslationUnit) ==> r is Err && r->Err_0.message@ == "Expected TranslationUnit"@
                && ast_v(*r->Err_0.node) == ast_v(*ast),
    {
        let mut module = self.generate_root(ast)?;
        let ghost pre = module;
        module.compact();
        proof {
            if let ASTKind::TranslationUnit(decls) = &ast.kind {
                let defs = defined_functions(decls@);
                assert forall|i: int| 0 <= i < module.functions@.len() implies compiled_function(
                    #[trigger] module.functions@[i],
                    defs[i],
                ) by {
                    assert(lowered_function(pre.functions@[i], defs[i]));
                }
            }
            assert forall|i: int| 0 <= i < module.functions@.len() implies {
                let f = #[trigger] module.functions@[i];
                &&& body_wf(f.body@)
                &&& ids_are_positions(f.body@)
                &&& f.parameters@.len() > 0 ==> f.body@.len() > 0 && f.body@[0].nodes@.len() >= 2
            } by {
                let f = module.functions@[i];
            }
        }
        Ok(module)
    }

    /// What adding a variable (a copy of its name and type) to the innermost
    /// scope does to the typing view.
    proof fn lemma_symbol_added(&self, n2: String, t2: Type, name: String, var_type: Type, kind: SymbolKind)
        requires
            self.wf(),
            n2@ == name@,
            type_eq(t2, var_type),
            !(kind is Function),
        ensures
            self.env().scopes.len() >= 1,
            declares(self.env().scopes.last(), name@) <==> scope_index(self.symbol_table.scopes_view().last(), name@) is Some,
            scopes_v(
                self.symbol_table.scopes_view().update(
                    self.symbol_table.scopes_view().len() - 1,
                    self.symbol_table.scopes_view().last().push(Symbol { name: n2, symbol_type: t2, kind: kind }),
                ),
            ) == self.env().scopes.update(
                self.env().scopes.len() - 1,
                self.env().scopes.last().push(SymV { name: name@, ty: type_v(var_type), function: false }),
            ),
    {
        let sv = self.symbol_table.scopes_view();
        self.symbol_table.lemma_scopes_unique();
        lemma_scopes_v_open_close(sv);
        lemma_declares(sv.last(), name@);
        lemma_type_eq_view(t2, var_type);
        lemma_scopes_v_add(sv, sv.len() - 1, Symbol { name: n2, symbol_type: t2, kind: kind });
    }

    /// What adding a global (a copy of its name and type) to the outermost
    /// scope does to the typing view.
    proof fn lemma_global_added(&self, n2: String, t2: Type, name: String, var_type: Type)
        requires
            self.wf(),
            n2@ == name@,
            type_eq(t2, var_type),
        ensures
            self.env().scopes.len() >= 1,
            declares(self.env().scopes[0], name@) <==> scope_index(self.symbol_table.scopes_view()[0], name@) is Some,
            scopes_v(
                self.symbol_table.scopes_view().update(
                    0,
                    self.symbol_table.scopes_view()[0].push(
                        Symbol { name: n2, symbol_type: t2, kind: SymbolKind::GlobalVariable },
                    ),
                ),
            ) == self.env().scopes.update(
                0,
                self.env().scopes[0].push(SymV { name: name@, ty: type_v(var_type), function: false }),
            ),
    {
        let sv = self.symbol_table.scopes_view();
        self.symbol_table.lemma_scopes_unique();
        lemma_scopes_v_open_close(sv);
        lemma_declares(sv[0], name@);
        lemma_type_eq_view(t2, var_type);
        lemma_scopes_v_add(sv, 0, Symbol { name: n2, symbol_type: t2, kind: SymbolKind::GlobalVariable });
    }

    fn new_block(&mut self, nodes: Vec<IRNode>) -> (r: IRBlock)
        requires
            old(self).block_id < usize::MAX,
        ensures
            r.id == old(self).block_id + 1,
            r.nodes == nodes,
            final(self).block_id == r.id,
            final(self).symbol_table == old(self).symbol_table,
            final(self).strings == old(self).strings,
            final(self).virtual_register_manager == old(self).virtual_register_manager,
    {
        self.block_id = self.block_id + 1;
        IRBlock { id: self.block_id, nodes }
    }

    fn generate_root(&mut self, root: &ASTNode) -> (r: Result<IRModule, IRGeneratorError>)
        requires
            old(self).wf(),
            old(self).block_id + block_budget(node_height(*root)) <= usize::MAX,
        ensures
            final(self).wf(),
            r is Ok ==> r->Ok_0.wf() && strings_indexed(r->Ok_0.strings@) && forall|i: int|
                0 <= i < r->Ok_0.functions@.len() ==> {
                    let f = #[trigger] r->Ok_0.functions@[i];
                    f.parameters@.len() > 0 ==> f.body@.len() > 0 && f.body@[0].nodes@.len() >= 2
                },
            r is Ok ==> lowered_unit(r->Ok_0, *root),
            r is Ok <==> unit_env(old(self).env(), *root) is Some,
            r is Ok ==> unit_env(old(self).env(), *root) == Some(final(self).env()),
            !(root.kind is TranslationUnit) ==> r is Err && r->Err_0.message@ == "Expected TranslationUnit"@
                && ast_v(*r->Err_0.node) == ast_v(*root),
    {
        let decls = match &root.kind {
            ASTKind::TranslationUnit(decls) => decls,
            _ => {
                return Err(node_error("Expected TranslationUnit".to_string(), root));
            },
        };
        let ghost e_in = self.env();
        let mut global_variables: Vec<IRVariableDeclaration> = Vec::new();
        let mut i: usize = 0;
        while i < decls.len()
            invariant
                i <= decls.len(),
                self.wf(),
                self.block_id == old(self).block_id,
                *root == (ASTNode { kind: ASTKind::TranslationUnit(*decls) }),
                globals_match(global_variables@, declared_globals(decls@.subrange(0, i as int))),
                e_in == old(self).env(),
                globals_env(e_in, decls@.subrange(0, i as int)) == Some(self.env()),
            decreases decls.len() - i,
        {
            let decl = &decls[i];
            let ghost before = global_variables@;
            proof {
                assert(decls@.subrange(0, i + 1).drop_last() =~= decls@.subrange(0, i as int));
                assert(decls@.subrange(0, i + 1).last() == decls@[i as int]);
            }
            if let ASTKind::Declaration { var_type, name } = &decl.kind {
                let n2 = name.clone();
                let t2 = var_type.clone();
                proof {
                    self.lemma_global_added(n2, t2, *name, *var_type);
                }
                match self.symbol_table.add_global_variable(n2, t2) {
                    Ok(()) => {},
                    Err(e) => {
                        proof {
                            lemma_globals_prefix(e_in, decls@, i + 1);
                        }
                        let mut m = message3("Failed to add global variable '", name.as_str(), "': ");
                        push_str(&mut m, e.as_str());
                        return Err(node_error(m, decl));
                    },
                }
                if !var_type.is_function() {
                    let ty = match var_type {
                        Type::Char => VariableType::Char,
                        Type::Int => VariableType::Int,
                        Type::Long => VariableType::Long,
                        Type::Pointer(_) => VariableType::Pointer,
                        _ => {
                            proof {
                                lemma_globals_prefix(e_in, decls@, i + 1);
                            }
                            let mut m = "Unsupported variable type: ".to_string();
                            write_type(&mut m, var_type);
                            return Err(node_error(m, decl));
                        },
                    };
                    global_variables.push(IRVariableDeclaration { name: name.clone(), ty });
                    proof {
                        assert forall|j: int| 0 <= j < before.len() implies global_variables@[j] == before[j] by {}
                    }
                }
            }
            i += 1;
        }
        proof {
            assert(decls@.subrange(0, decls@.len() as int) =~= decls@);
        }
        let ghost e1 = self.env();
        let mut functions: Vec<IRFunction> = Vec::new();
        let ghost b0 = self.block_id;
        let mut k: usize = 0;
        while k < decls.len()
            invariant
                k <= decls.len(),
                self.wf(),
                *root == (ASTNode { kind: ASTKind::TranslationUnit(*decls) }),
                b0 == old(self).block_id,
                b0 + block_budget(node_height(*root)) <= usize::MAX,
                b0 <= self.block_id,
                self.block_id <= b0 + 5 * nodes_height(decls@.subrange(0, k as int)),
                forall|j: int| 0 <= j < functions@.len() ==> {
                    let f = #[trigger] functions@[j];
                    body_wf(f.body@) && (f.parameters@.len() > 0 ==> f.body@.len() > 0 && f.body@[0].nodes@.len() >= 2)
                },
                functions_match(functions@, defined_functions(decls@.subrange(0, k as int))),
                globals_match(global_variables@, declared_globals(decls@)),
                e_in == old(self).env(),
                globals_env(e_in, decls@) == Some(e1),
                functions_env(e1, decls@.subrange(0, k as int)) == Some(self.env()),
            decreases decls.len() - k,
        {
            let decl = &decls[k];
            let ghost before = functions@;
            proof {
                assert(decls@.subrange(0, k + 1).drop_last() =~= decls@.subrange(0, k as int));
                assert(decls@.subrange(0, k + 1).last() == decls@[k as int]);
            }
            proof {
                lemma_nodes_height(decls@, k as int);
                assert(decls@.subrange(0, k + 1).drop_last() =~= decls@.subrange(0, k as int));
                lemma_prefix_height(decls@, k + 1);
            }
            if let ASTKind::FunctionDefinition { name, .. } = &decl.kind {
                let ghost cur = self.env();
                match self.generate_function(decl) {
                    Ok(f) => {
                        functions.push(f);
                        proof {
                            assert forall|j: int| 0 <= j < before.len() implies functions@[j] == before[j] by {}
                        }
                    },
                    Err(e) => {
                        proof {
                            assert(function_env(cur, *decl) is None);
                            lemma_functions_prefix(e1, decls@, k + 1);
                        }
                        let mut m = message3("Failed to generate function definition for '", name.as_str(), "': ");
                        push_str(&mut m, e.message.as_str());
                        return Err(node_error(m, decl));
                    },
                }
            }
            k += 1;
        }
        let mut strings: Vec<IRString> = Vec::new();
        let mut s: usize = 0;
        while s < self.strings.len()
            invariant
                s <= self.strings.len(),
                strings@ == self.strings@.subrange(0, s as int),
            decreases self.strings.len() - s,
        {
            strings.push(self.strings[s].clone());
            s += 1;
            proof {
                assert(strings@ =~= self.strings@.subrange(0, s as int));
            }
        }
        proof {
            assert(strings@ =~= self.strings@);
            assert(decls@.subrange(0, decls@.len() as int) =~= decls@);
        }
        Ok(IRModule { functions, global_variables, strings })
    }

    fn generate_function(&mut self, func: &ASTNode) -> (r: Result<IRFunction, IRGeneratorError>)
        requires
            old(self).wf(),
            old(self).block_id + block_budget(node_height(*func)) <= usize::MAX,
        ensures
            final(self).wf(),
            old(self).block_id <= final(self).block_id,
            final(self).block_id <= old(self).block_id + block_budget(node_height(*func)),
            r is Ok ==> body_wf(r->Ok_0.body@) && (r->Ok_0.parameters@.len() > 0 ==> r->Ok_0.body@.len() > 0
                && r->Ok_0.body@[0].nodes@.len() >= 2),
            r is Ok ==> lowered_function(r->Ok_0, *func),
            r is Ok <==> function_env(old(self).env(), *func) is Some,
            r is Ok ==> function_env(old(self).env(), *func) == Some(final(self).env()),
    {
        let (name, params, body, ret_type) = match &func.kind {
            ASTKind::FunctionDefinition { name, body, params, ret_type } => (name, params, body, ret_type),
            _ => {
                return Err(node_error("Expected FunctionDefinition".to_string(), func));
            },
        };
        let copied_params = copy_params(params);
        let n2 = name.clone();
        let t2 = ret_type.clone();
        let ghost e_in = self.env();
        let ghost sv0 = self.symbol_table.scopes_view();
        let ghost gt = t2;
        let ghost gp = copied_params@;
        let ghost f = SymV {
            name: name@,
            ty: crate::grammar::TypeV::Function(Box::new(type_v(*ret_type)), params_v(params@)),
            function: true,
        };
        let ghost declared = e_in.scopes.update(e_in.scopes.len() - 1, e_in.scopes.last().push(f));
        proof {
            self.symbol_table.lemma_scopes_unique();
            lemma_scopes_v_open_close(sv0);
            lemma_declares(sv0.last(), name@);
            lemma_scopes_v_add(sv0, sv0.len() - 1, sv0.last()[0]);
            lemma_type_eq_view(gt, *ret_type);
            lemma_params_eq_view(gp, params@);
        }
        match self.symbol_table.add_function(n2, t2, copied_params) {
            Ok(()) => {
                proof {
                    let sv1 = self.symbol_table.scopes_view();
                    let x = sv1.last().last();
                    lemma_scopes_v_add(sv0, sv0.len() - 1, x);
                    let p = x.symbol_type->Function_params;
                    lemma_params_eq_view(p@, gp);
                    assert(sym_v(x) == f);
                    assert(self.env() == EnvV { scopes: declared, offset: e_in.offset });
                }
            },
            Err(e) => {
                let mut m = message3("Failed to add function '", name.as_str(), "': ");
                push_str(&mut m, e.as_str());
                return Err(node_error(m, func));
            },
        }
        self.symbol_table.enter_function(name.clone());
        proof {
            lemma_scopes_v_open_close(self.symbol_table.scopes_view());
        }
        self.symbol_table.enter_scope();
        let ghost p0 = self.env();
        assert(p0 == EnvV { scopes: declared.push(Seq::empty()), offset: 0 });
        assert(function_env(e_in, *func) == function_body_env(p0, params@, **body));
        let mut parameter_regs: Vec<VirtualRegister> = Vec::new();
        let mut p: usize = 0;
        while p < params.len()
            invariant
                p <= params.len(),
                parameter_regs@.len() == p,
                self.wf(),
                self.block_id == old(self).block_id,
                self.env() == p0,
            decreases params.len() - p,
        {
            parameter_regs.push(self.virtual_register_manager.allocate(false));
            p += 1;
        }
        let mut parameters: Vec<VirtualRegister> = Vec::new();
        let mut q: usize = 0;
        while q < params.len()
            invariant
                q <= params.len(),
                parameters@.len() == q,
                parameter_regs@.len() == params@.len(),
                self.wf(),
                self.block_id == old(self).block_id,
                self.env() == p0,
            decreases params.len() - q,
        {
            parameters.push(self.virtual_register_manager.allocate(true));
            q += 1;
        }
        let mut index: usize = 0;
        while index < params.len()
            invariant
                index <= params.len(),
                parameters@.len() == params@.len(),
                parameter_regs@.len() == params@.len(),
                self.wf(),
                self.block_id == old(self).block_id,
                params_env(p0, params@.subrange(0, index as int)) == Some(self.env()),
                e_in == old(self).env(),
                function_env(e_in, *func) == function_body_env(p0, params@, **body),
            decreases params.len() - index,
        {
            let param = &params[index];
            proof {
                assert(params@.subrange(0, index + 1).drop_last() =~= params@.subrange(0, index as int));
                assert(params@.subrange(0, index + 1).last() == params@[index as int]);
            }
            if self.symbol_table.get_local_offset() < i32::MIN + 8 {
                proof {
                    lemma_params_prefix(p0, params@, index + 1);
                }
                return Err(node_error(message3("Failed to add parameter '", param.name.as_str(), "': too many parameters"), func));
            }
            let pn = param.name.clone();
            let pt = param.param_type.clone();
            proof {
                self.lemma_symbol_added(pn, pt, param.name, param.param_type, SymbolKind::Parameter { offset: (self.symbol_table.offset() - 8) as i32, register: parameters@[index as int] });
            }
            match self.symbol_table.add_parameter(pn, pt, parameters[index]) {
                Ok(_) => {},
                Err(e) => {
                    proof {
                        lemma_params_prefix(p0, params@, index + 1);
                    }
                    let mut m = message3("Failed to add parameter '", param.name.as_str(), "': ");
                    push_str(&mut m, e.as_str());
                    return Err(node_error(m, func));
                },
            }
            index += 1;
        }
        proof {
            assert(params@.subrange(0, params@.len() as int) =~= params@);
        }
        let ghost e1 = self.env();
        let noop_block = if params.len() > 0 {
            Some(self.new_block(nodes2(IRNode::new(IRNodeKind::NoOp), IRNode::new(IRNodeKind::NoOp))))
        } else {
            None
        };
        let ghost b1 = self.block_id;
        let body_blocks = self.generate_stmt(body)?;
        let ghost e2 = self.env();
        let all = match noop_block {
            Some(nb) => {
                proof {
                    lemma_single(nb);
                    assert forall|t: usize| !referenced(seq![nb], t) by {
                        if referenced(seq![nb], t) {
                            let n = choose|n: int| 0 <= n < nb.nodes@.len() && #[trigger] is_target(nb.nodes@[n].kind, t);
                        }
                    }
                    lemma_join(seq![nb], body_blocks@);
                }
                let joined = join(single(nb), body_blocks);
                proof {
                    assert(joined@[0] == nb);
                }
                joined
            },
            None => body_blocks,
        };
        self.symbol_table.exit_function();
        proof {
            self.symbol_table.lemma_scopes_unique();
            lemma_scopes_v_open_close(self.symbol_table.scopes_view());
        }
        match self.symbol_table.exit_scope() {
            Ok(()) => {},
            Err(e) => {
                let mut m = "Failed to exit scope: ".to_string();
                push_str(&mut m, e.as_str());
                return Err(node_error(m, func));
            },
        }
        proof {
            assert forall|t: usize| #[trigger] referenced(all@, t) implies has_block(all@, t) by {
                assert(referenced(body_blocks@, t));
            }
            if params@.len() > 0 {
                assert(all@.drop_first() =~= body_blocks@);
            }
            assert(lowered_body(all@, params@.len(), **body));
        }
        Ok(IRFunction { name: name.clone(), parameters, parameter_regs, body: all })
    }

    #[verifier::spinoff_prover]
    #[verifier::rlimit(40)]
    fn generate_stmt(&mut self, body: &ASTNode) -> (r: Result<Vec<IRBlock>, IRGeneratorError>)
        requires
            old(self).wf(),
            old(self).block_id + block_budget(node_height(*body)) <= usize::MAX,
        ensures
            final(self).wf(),
            old(self).block_id <= final(self).block_id,
            final(self).block_id <= old(self).block_id + block_budget(node_height(*body)),
            r is Ok ==> fresh_blocks(r->Ok_0@, old(self).block_id as int, final(self).block_id as int),
            r is Ok <==> stmt_env(old(self).env(), *body) is Some,
            r is Ok ==> stmt_env(old(self).env(), *body) == Some(final(self).env()),
            r is Ok ==> lowers_stmt(*body, r->Ok_0@),
        decreases node_height(*body), 10nat,
    {
        let ghost b0 = self.block_id;
        match &body.kind {
            ASTKind::Declaration { name, var_type } => {
                let reg = self.virtual_register_manager.allocate(true);
                if self.symbol_table.get_local_offset() < i32::MIN + 8 {
                    return Err(node_error(message3("Failed to add local variable '", name.as_str(), "': too many local variables"), body));
                }
                let n2 = name.clone();
                let t2 = var_type.clone();
                proof {
                    self.lemma_symbol_added(n2, t2, *name, *var_type, SymbolKind::LocalVariable { offset: (self.symbol_table.offset() - 8) as i32, register: reg });
                }
                match self.symbol_table.add_local_variable(n2, t2, reg) {
                    Ok(_) => {},
                    Err(e) => {
                        let mut m = message3("Failed to add local variable '", name.as_str(), "': ");
                        push_str(&mut m, e.as_str());
                        return Err(node_error(m, body));
                    },
                }
                let block = self.new_block(nodes1(IRNode::new(IRNodeKind::VariableDeclaration { reg })));
                proof {
                    lemma_single_plain(block);
                }
                let out = single(block);
                proof {
                    assert(lowered_stmt_by(*body, StmtLowering::Leaf, out@));
                }
                Ok(out)
            },
            ASTKind::ExpressionStatement(expr) => {
                match expr {
                    Some(e) => {
                        let (blocks, _, value) = self.generate_expr(e)?;
                        proof {
                            assert(lowers_expr(**e, blocks@, value));
                            assert(lowered_stmt_by(*body, StmtLowering::Leaf, blocks@));
                        }
                        Ok(blocks)
                    },
                    None => {
                        let block = self.new_block(Vec::new());
                        proof {
                            lemma_single_plain(block);
                        }
                        let out = single(block);
                        proof {
                            assert(lowered_stmt_by(*body, StmtLowering::Leaf, out@));
                        }
                        Ok(out)
                    },
                }
            },
            ASTKind::CompoundStatement { declarations, statements } => {
                let ghost e_in = self.env();
                proof {
                    lemma_scopes_v_open_close(self.symbol_table.scopes_view());
                }
                self.symbol_table.enter_scope();
                let ghost e0 = self.env();
                assert(e0 == EnvV { scopes: e_in.scopes.push(Seq::empty()), offset: e_in.offset });
                let mut decl_nodes: Vec<IRNode> = Vec::new();
                let mut i: usize = 0;
                while i < declarations.len()
                    invariant
                        i <= declarations.len(),
                        self.wf(),
                        self.block_id == b0,
                        b0 == old(self).block_id,
                        forall|n: int| 0 <= n < decl_nodes@.len() ==> (#[trigger] decl_nodes@[n]).kind is VariableDeclaration,
                        decl_nodes@.len() == i,
                        e_in == old(self).env(),
                        e0 == (EnvV { scopes: e_in.scopes.push(Seq::empty()), offset: e_in.offset }),
                        *body == (ASTNode { kind: ASTKind::CompoundStatement { declarations: *declarations, statements: *statements } }),
                        locals_env(e0, declarations@.subrange(0, i as int)) == Some(self.env()),
                    decreases declarations.len() - i,
                {
                    let decl = &declarations[i];
                    proof {
                        assert(declarations@.subrange(0, i + 1).drop_last() =~= declarations@.subrange(0, i as int));
                        assert(declarations@.subrange(0, i + 1).last() == declarations@[i as int]);
                    }
                    if let ASTKind::Declaration { name, var_type } = &decl.kind {
                        let reg = self.virtual_register_manager.allocate(true);
                        if self.symbol_table.get_local_offset() < i32::MIN + 8 {
                            proof {
                                lemma_locals_prefix(e0, declarations@, i + 1);
                            }
                            return Err(node_error(message3("Failed to add local variable '", name.as_str(), "': too many local variables"), decl));
                        }
                        let n2 = name.clone();
                        let t2 = var_type.clone();
                        proof {
                            self.lemma_symbol_added(n2, t2, *name, *var_type, SymbolKind::LocalVariable { offset: (self.symbol_table.offset() - 8) as i32, register: reg });
                        }
                        match self.symbol_table.add_local_variable(n2, t2, reg) {
                            Ok(_) => {},
                            Err(e) => {
                                proof {
                                    lemma_locals_prefix(e0, declarations@, i + 1);
                                }
                                let mut m = message3("Failed to add local variable '", name.as_str(), "': ");
                                push_str(&mut m, e.as_str());
                                return Err(node_error(m, decl));
                            },
                        }
                        decl_nodes.push(IRNode::new(IRNodeKind::VariableDeclaration { reg }));
                    } else {
                        proof {
                            lemma_locals_prefix(e0, declarations@, i + 1);
                        }
                        let mut m = "Expected Declaration, found: ".to_string();
                        let d = kind_debug_text(decl);
                        push_str(&mut m, d.as_str());
                        return Err(node_error(m, decl));
                    }
                    i += 1;
                }
                proof {
                    assert(declarations@.subrange(0, declarations@.len() as int) =~= declarations@);
                }
                let ghost e1 = self.env();
                let decl_block = self.new_block(decl_nodes);
                proof {
                    lemma_single(decl_block);
                    assert forall|t: usize| !referenced(seq![decl_block], t) by {
                        if referenced(seq![decl_block], t) {
                            let n = choose|n: int| 0 <= n < decl_block.nodes@.len() && #[trigger] is_target(decl_block.nodes@[n].kind, t);
                            assert(decl_block.nodes@[n].kind is VariableDeclaration);
                        }
                    }
                }
                let mut result = single(decl_block);
                let ghost b1 = self.block_id;
                let ghost mut counts: Seq<nat> = Seq::empty();
                let ghost mut ds: Seq<StmtLowering> = Seq::empty();
                proof {
                    assert(result@.drop_first() =~= Seq::<IRBlock>::empty());
                    assert(statements@.subrange(0, 0) =~= Seq::<ASTNode>::empty());
                }
                let mut k: usize = 0;
                while k < statements.len()
                    invariant
                        k <= statements.len(),
                        self.wf(),
                        b0 < b1,
                        b1 <= self.block_id,
                        b1 == b0 + 1,
                        b0 == old(self).block_id,
                        b0 + block_budget(node_height(*body)) <= usize::MAX,
                        *body == (ASTNode { kind: ASTKind::CompoundStatement { declarations: *declarations, statements: *statements } }),
                        self.block_id <= b1 + 5 * nodes_height(statements@.subrange(0, k as int)),
                        fresh_blocks(result@, b0 as int, self.block_id as int),
                        e_in == old(self).env(),
                        e0 == (EnvV { scopes: e_in.scopes.push(Seq::empty()), offset: e_in.offset }),
                        locals_env(e0, declarations@) == Some(e1),
                        stmts_env(e1, statements@.subrange(0, k as int)) == Some(self.env()),
                        result@.len() >= 1,
                        result@[0] == decl_block,
                        decl_block.nodes@.len() == declarations@.len(),
                        forall|n: int| 0 <= n < decl_block.nodes@.len() ==> (#[trigger] decl_block.nodes@[n]).kind is VariableDeclaration,
                        lowered_stmts_by(statements@.subrange(0, k as int), counts, ds, result@.drop_first()),
                    decreases statements.len() - k,
                {
                    proof {
                        lemma_nodes_height(statements@, k as int);
                        assert(statements@.subrange(0, k + 1).drop_last() =~= statements@.subrange(0, k as int));
                        assert(statements@.subrange(0, k + 1).last() == statements@[k as int]);
                        lemma_prefix_height(statements@, k + 1);
                        if stmt_env(self.env(), statements@[k as int]) is None {
                            lemma_stmts_prefix(e1, statements@, k + 1);
                        }
                    }
                    let ghost bk = self.block_id;
                    let blocks = self.generate_stmt(&statements[k])?;
                    proof {
                        lemma_join(result@, blocks@);
                        let d = choose|d: StmtLowering| lowered_stmt_by(statements@[k as int], d, blocks@);
                        let c2 = counts.push(blocks@.len());
                        let ds2 = ds.push(d);
                        let ss = statements@.subrange(0, k + 1);
                        let bs = (result@ + blocks@).drop_first();
                        let m = bs.len() - blocks@.len();
                        assert(c2.drop_last() =~= counts);
                        assert(ds2.drop_last() =~= ds);
                        assert(bs.subrange(0, m) =~= result@.drop_first());
                        assert(bs.subrange(m, bs.len() as int) =~= blocks@);
                        assert(lowered_stmts_by(ss, c2, ds2, bs));
                        counts = c2;
                        ds = ds2;
                    }
                    result = join(result, blocks);
                    k += 1;
                }
                let ghost e2 = self.env();
                let ghost sv2 = self.symbol_table.scopes_view();
                proof {
                    assert(statements@.subrange(0, statements@.len() as int) =~= statements@);
                    lemma_scopes_v_open_close(self.symbol_table.scopes_view());
                    self.symbol_table.lemma_scopes_unique();
                    assert(stmts_env(e1, statements@) == Some(e2));
                    assert(stmt_env(e_in, *body) == (if e2.scopes.len() <= 1 {
                        None
                    } else {
                        Some(EnvV { scopes: e2.scopes.drop_last(), offset: e2.offset })
                    }));
                }
                match self.symbol_table.exit_scope() {
                    Ok(()) => {},
                    Err(e) => {
                        let mut m = "Failed to exit scope: ".to_string();
                        push_str(&mut m, e.as_str());
                        return Err(node_error(m, body));
                    },
                }
                proof {
                    assert(lowered_stmt_by(*body, StmtLowering::Compound(counts, ds), result@));
                }
                Ok(result)
            },
            ASTKind::IfStatement { condition, then_stmt, else_stmt } => {
                let (cond_blocks, _, cond_value) = self.generate_expr(condition)?;
                let ghost b1 = self.block_id;
                let then_blocks = self.generate_stmt(then_stmt)?;
                let ghost b2 = self.block_id;
                let end_block = self.new_block(Vec::new());
                proof {
                    lemma_single_plain(end_block);
                    lemma_has_first(cond_blocks@);
                    lemma_has_first(then_blocks@);
                }
                match else_stmt {
                    Some(else_stmt) => {
                        let else_blocks = self.generate_stmt(else_stmt)?;
                        let ghost b3 = self.block_id;
                        let jump_block = self.new_block(nodes1(branch(None, Some(end_block.id), None)));
                        let block = self.new_block(nodes1(branch(Some(cond_value), Some(then_blocks[0].id), Some(else_blocks[0].id))));
                        proof {
                            lemma_has_first(else_blocks@);
                            lemma_single_branch(jump_block);
                            lemma_single_branch(block);
                            lemma_join(cond_blocks@, seq![block]);
                            lemma_join(cond_blocks@ + seq![block], then_blocks@);
                            lemma_join(cond_blocks@ + seq![block] + then_blocks@, seq![jump_block]);
                            lemma_join(cond_blocks@ + seq![block] + then_blocks@ + seq![jump_block], else_blocks@);
                            lemma_join(cond_blocks@ + seq![block] + then_blocks@ + seq![jump_block] + else_blocks@, seq![end_block]);
                        }
                        let r = join(join(join(join(join(cond_blocks, single(block)), then_blocks), single(jump_block)), else_blocks), single(end_block));
                        proof {
                            assert forall|t: usize| #[trigger] referenced(r@, t) implies has_block(r@, t) by {}
                            let c = cond_blocks@.len() as int;
                            let t = then_blocks@.len() as int;
                            let n = r@.len() as int;
                            let dt = choose|d: StmtLowering| lowered_stmt_by(**then_stmt, d, then_blocks@);
                            let de = choose|d: StmtLowering| lowered_stmt_by(**else_stmt, d, else_blocks@);
                            assert(r@.subrange(0, c as int) =~= cond_blocks@);
                            assert(r@.subrange(c + 1, c + 1 + t) =~= then_blocks@);
                            assert(r@.subrange(c + 2 + t, n - 1) =~= else_blocks@);
                            assert(r@[c as int] == block);
                            assert(r@[c + 1] == then_blocks@[0]);
                            assert(r@[c + 1 + t] == jump_block);
                            assert(r@[c + 2 + t] == else_blocks@[0]);
                            assert(lowered_stmt_by(
                                *body,
                                StmtLowering::Conditional(c as nat, cond_value, t as nat, Box::new(dt), Box::new(de)),
                                r@,
                            ));
                        }
                        Ok(r)
                    },
                    None => {
                        let block = self.new_block(nodes1(branch(Some(cond_value), Some(then_blocks[0].id), Some(end_block.id))));
                        proof {
                            lemma_single_branch(block);
                            lemma_join(cond_blocks@, seq![block]);
                            lemma_join(cond_blocks@ + seq![block], then_blocks@);
                            lemma_join(cond_blocks@ + seq![block] + then_blocks@, seq![end_block]);
                        }
                        let r = join(join(join(cond_blocks, single(block)), then_blocks), single(end_block));
                        proof {
                            assert forall|t: usize| #[trigger] referenced(r@, t) implies has_block(r@, t) by {}
                            let c = cond_blocks@.len() as int;
                            let t = then_blocks@.len() as int;
                            let dt = choose|d: StmtLowering| lowered_stmt_by(**then_stmt, d, then_blocks@);
                            assert(r@.subrange(0, c as int) =~= cond_blocks@);
                            assert(r@.subrange(c + 1, c + 1 + t) =~= then_blocks@);
                            assert(r@[c as int] == block);
                            assert(r@[c + 1] == then_blocks@[0]);
                            assert(lowered_stmt_by(
                                *body,
                                StmtLowering::Conditional(c as nat, cond_value, t as nat, Box::new(dt), Box::new(StmtLowering::Leaf)),
                                r@,
                            ));
                        }
                        Ok(r)
                    },
                }
            },
            ASTKind::WhileStatement { condition, body: loop_body } => {
                let (cond_blocks, _, cond_value) = self.generate_expr(condition)?;
                let body_blocks = self.generate_stmt(loop_body)?;
                let end_block = self.new_block(Vec::new());
                let start_block = self.new_block(nodes1(branch(Some(cond_value), None, Some(end_block.id))));
                proof {
                    lemma_has_first(cond_blocks@);
                }
                let body_end_block = self.new_block(nodes1(branch(None, Some(cond_blocks[0].id), None)));
                proof {
                    lemma_single_plain(end_block);
                    lemma_single_branch(start_block);
                    lemma_single_branch(body_end_block);
                    lemma_join(cond_blocks@, seq![start_block]);
                    lemma_join(cond_blocks@ + seq![start_block], body_blocks@);
                    lemma_join(cond_blocks@ + seq![start_block] + body_blocks@, seq![body_end_block]);
                    lemma_join(cond_blocks@ + seq![start_block] + body_blocks@ + seq![body_end_block], seq![end_block]);
                }
                let r = join(join(join(join(cond_blocks, single(start_block)), body_blocks), single(body_end_block)), single(end_block));
                proof {
                    assert forall|t: usize| #[trigger] referenced(r@, t) implies has_block(r@, t) by {}
                    let c = cond_blocks@.len() as int;
                    let n = r@.len() as int;
                    let db = choose|d: StmtLowering| lowered_stmt_by(**loop_body, d, body_blocks@);
                    assert(r@.subrange(0, c as int) =~= cond_blocks@);
                    assert(r@.subrange(c + 1, n - 2) =~= body_blocks@);
                    assert(r@[c as int] == start_block);
                    assert(r@[n - 2] == body_end_block);
                    assert(r@[0] == cond_blocks@[0]);
                    assert(lowered_stmt_by(*body, StmtLowering::Loop(c as nat, cond_value, Box::new(db)), r@));
                }
                Ok(r)
            },
            ASTKind::ReturnStatement(expr) => {
                match expr {
                    Some(e) => {
                        let (blocks, _, value) = self.generate_expr(e)?;
                        let block = self.new_block(nodes1(IRNode::new(IRNodeKind::Return { value: Some(value) })));
                        proof {
                            lemma_single_plain(block);
                            lemma_join(blocks@, seq![block]);
                        }
                        let out = join(blocks, single(block));
                        proof {
                            assert(out@.drop_last() =~= blocks@);
                            assert(lowers_expr(**e, out@.drop_last(), value));
                            assert(lowered_stmt_by(*body, StmtLowering::Leaf, out@));
                        }
                        Ok(out)
                    },
                    None => {
                        let block = self.new_block(nodes1(IRNode::new(IRNodeKind::Return { value: None })));
                        proof {
                            lemma_single_plain(block);
                        }
                        let out = single(block);
                        proof {
                            assert(lowered_stmt_by(*body, StmtLowering::Leaf, out@));
                        }
                        Ok(out)
                    },
                }
            },
            _ => {
                let mut m = "Unsupported AST node kind: ".to_string();
                let d = kind_debug_text(body);
                push_str(&mut m, d.as_str());
                Err(node_error(m, body))
            },
        }
    }

    fn generate_expr(&mut self, expr: &ASTNode) -> (r: Result<ExprResult, IRGeneratorError>)
        requires
            old(self).wf(),
            old(self).block_id + block_budget(node_height(*expr)) <= usize::MAX,
        ensures
            final(self).wf(),
            old(self).block_id <= final(self).block_id,
            final(self).block_id <= old(self).block_id + block_budget(node_height(*expr)),
            r is Ok ==> fresh_blocks(r->Ok_0.0@, old(self).block_id as int, final(self).block_id as int),
            final(self).symbol_table == old(self).symbol_table,
            r is Ok <==> expr_type(scopes_v(old(self).symbol_table.scopes_view()), *expr) is Some,
            r is Ok ==> Some(type_v(r->Ok_0.1)) == expr_type(scopes_v(old(self).symbol_table.scopes_view()), *expr),
            r is Ok ==> lowers_expr(*expr, r->Ok_0.0@, r->Ok_0.2),
        decreases node_height(*expr), 5nat,
    {
        match &expr.kind {
            ASTKind::Identifier(name) => {
                let (value, ty) = match self.symbol_table.lookup(name.as_str()) {
                    Some(symbol) => {
                        let value = match &symbol.kind {
                            SymbolKind::LocalVariable { register, .. } => IRValue::Register(*register),
                            SymbolKind::Parameter { register, .. } => IRValue::Register(*register),
                            SymbolKind::GlobalVariable => IRValue::GlobalVariable(name.clone()),
                            SymbolKind::Function { .. } => IRValue::GlobalVariable(name.clone()),
                        };
                        let ty = symbol.symbol_type.clone();
                        proof {
                            lemma_type_eq_view(ty, symbol.symbol_type);
                        }
                        (value, ty)
                    },
                    None => {
                        return Err(node_error(message3("Undefined identifier: ", name.as_str(), ""), expr));
                    },
                };
                let block = self.new_block(Vec::new());
                proof {
                    lemma_single_plain(block);
                }
                let out = single(block);
                proof {
                    assert(lowered_by(*expr, ExprLowering::Leaf, out@, value));
                }
                Ok((out, ty, value))
            },
            ASTKind::IntegerLiteral(value) => {
                let block = self.new_block(Vec::new());
                proof {
                    lemma_single_plain(block);
                }
                let out = single(block);
                proof {
                    assert(lowered_by(*expr, ExprLowering::Leaf, out@, IRValue::Immediate(*value)));
                }
                Ok((out, Type::Long, IRValue::Immediate(*value)))
            },
            ASTKind::CharacterLiteral(value) => {
                let block = self.new_block(Vec::new());
                proof {
                    lemma_single_plain(block);
                }
                let code = char_code(*value);
                let out = single(block);
                proof {
                    assert(lowered_by(*expr, ExprLowering::Leaf, out@, IRValue::Immediate(code)));
                }
                Ok((out, Type::Long, IRValue::Immediate(code)))
            },
            ASTKind::StringLiteral(value) => {
                let ir_string = IRString { id: self.strings.len(), value: value.clone() };
                let ghost before = self.strings@;
                self.strings.push(ir_string.clone());
                proof {
                    assert forall|i: int| 0 <= i < self.strings@.len() implies #[trigger] self.strings@[i].id == i by {
                        if i < before.len() {
                            assert(self.strings@[i] == before[i]);
                        }
                    }
                }
                let block = self.new_block(nodes1(IRNode::new(IRNodeKind::NoOp)));
                let reg = self.virtual_register_manager.allocate(false);
                proof {
                    lemma_single_plain(block);
                    assert(type_v(Type::Char) == crate::grammar::TypeV::Char);
                    assert(type_v(Type::Pointer(Box::new(Type::Char))) == crate::grammar::TypeV::Pointer(
                        Box::new(crate::grammar::TypeV::Char),
                    ));
                }
                let out = single(block);
                let sv = IRValue::StringLiteral { string: Box::new(ir_string), reg };
                proof {
                    assert(lowered_by(*expr, ExprLowering::Leaf, out@, sv));
                }
                Ok((out, Type::Pointer(Box::new(Type::Char)), sv))
            },
            ASTKind::BinaryExpression { op, left, right } => {
                let r = self.generate_binary_op_expr(op, left, right);
                proof {
                    assert(*expr == binary_node(*op, **left, **right));
                }
                r
            },
            ASTKind::UnaryExpression { op, operand } => {
                let r = self.generate_unary_op_expr(op, operand);
                proof {
                    assert(*expr == unary_node(*op, **operand));
                }
                r
            },
            ASTKind::FunctionCall { function, args } => {
                let (name, ret_type) = match &function.kind {
                    ASTKind::Identifier(name) => {
                        match self.symbol_table.lookup(name.as_str()) {
                            Some(symbol) => {
                                let function_name = match &symbol.kind {
                                    SymbolKind::Function { .. } => IRVariable::Global(name.clone()),
                                    SymbolKind::GlobalVariable => IRVariable::Global(name.clone()),
                                    SymbolKind::LocalVariable { register, .. } => IRVariable::Register(*register),
                                    SymbolKind::Parameter { register, .. } => IRVariable::Register(*register),
                                };
                                let ret_type = match &symbol.symbol_type {
                                    Type::Function { ret_type, .. } => {
                                        let t = (**ret_type).clone();
                                        proof {
                                            lemma_type_eq_view(t, **ret_type);
                                        }
                                        t
                                    },
                                    _ => {
                                        return Err(node_error(message3("Expected function type for '", name.as_str(), "'"), function));
                                    },
                                };
                                (function_name, ret_type)
                            },
                            None => {
                                return Err(node_error(message3("Undefined function: ", name.as_str(), ""), function));
                            },
                        }
                    },
                    _ => {
                        return Err(node_error("Function call must be an identifier".to_string(), function));
                    },
                };
                let ghost b0 = self.block_id;
                let ghost sc = scopes_v(self.symbol_table.scopes_view());
                proof {
                    assert(expr_type(sc, *expr) == (if args_typed(sc, args@) {
                        Some(type_v(ret_type))
                    } else {
                        None
                    }));
                }
                let mut arg_blocks: Vec<IRBlock> = Vec::new();
                let mut arg_values: Vec<IRValue> = Vec::new();
                let ghost mut counts: Seq<nat> = Seq::empty();
                let ghost mut ds: Seq<ExprLowering> = Seq::empty();
                proof {
                    assert(args@.subrange(0, 0) =~= Seq::<ASTNode>::empty());
                }
                let mut i: usize = 0;
                while i < args.len()
                    invariant
                        i <= args.len(),
                        self.wf(),
                        b0 == old(self).block_id,
                        b0 + block_budget(node_height(*expr)) <= usize::MAX,
                        *expr == (ASTNode { kind: ASTKind::FunctionCall { function: *function, args: *args } }),
                        b0 <= self.block_id,
                        self.block_id <= b0 + 5 * nodes_height(args@.subrange(0, i as int)),
                        arg_values@.len() == i,
                        ids_unique(arg_blocks@),
                        targets_closed(arg_blocks@),
                        forall|id: usize| #[trigger] has_block(arg_blocks@, id) ==> b0 < id <= self.block_id,
                        self.symbol_table == old(self).symbol_table,
                        sc == scopes_v(old(self).symbol_table.scopes_view()),
                        args_typed(sc, args@.subrange(0, i as int)),
                        expr_type(sc, *expr) == (if args_typed(sc, args@) {
                            Some(type_v(ret_type))
                        } else {
                            None
                        }),
                        lowered_args_by(args@.subrange(0, i as int), counts, ds, arg_values@, arg_blocks@),
                    decreases args.len() - i,
                {
                    proof {
                        lemma_nodes_height(args@, i as int);
                        assert(args@.subrange(0, i + 1).drop_last() =~= args@.subrange(0, i as int));
                        assert(args@.subrange(0, i + 1).last() == args@[i as int]);
                        lemma_prefix_height(args@, i + 1);
                        if args_typed(sc, args@) {
                            lemma_args_typed_prefix(sc, args@, i + 1);
                        }
                    }
                    let (blocks, _, value) = self.generate_expr(&args[i])?;
                    let ghost bv = blocks@;
                    let ghost vv = value;
                    let ghost ob = arg_blocks@;
                    let ghost ovs = arg_values@;
                    proof {
                        lemma_join(arg_blocks@, blocks@);
                    }
                    arg_blocks = join(arg_blocks, blocks);
                    arg_values.push(value);
                    proof {
                        let d = choose|d: ExprLowering| lowered_by(args@[i as int], d, bv, vv);
                        let c2 = counts.push(bv.len());
                        let ds2 = ds.push(d);
                        let k = arg_blocks@.len() - bv.len();
                        assert(c2.drop_last() =~= counts);
                        assert(ds2.drop_last() =~= ds);
                        assert(arg_values@.drop_last() =~= ovs);
                        assert(arg_blocks@.subrange(0, k) =~= ob);
                        assert(arg_blocks@.subrange(k, arg_blocks@.len() as int) =~= bv);
                        assert(lowered_args_by(args@.subrange(0, i + 1), c2, ds2, arg_values@, arg_blocks@));
                        counts = c2;
                        ds = ds2;
                    }
                    i += 1;
                }
                proof {
                    assert(args@.subrange(0, args@.len() as int) =~= args@);
                }
                let ghost b1 = self.block_id;
                let mut arg_regs: Vec<VirtualRegister> = Vec::new();
                let mut j: usize = 0;
                while j < arg_values.len()
                    invariant
                        j <= arg_values.len(),
                        arg_regs@.len() == j,
                        self.wf(),
                        self.block_id == b1,
                        self.symbol_table == old(self).symbol_table,
                    decreases arg_values.len() - j,
                {
                    arg_regs.push(self.virtual_register_manager.allocate(false));
                    j += 1;
                }
                let result_register = self.virtual_register_manager.allocate(false);
                let call = IRNode::new(IRNodeKind::FunctionCall {
                    name,
                    arguments: arg_values,
                    argument_regs: arg_regs,
                    result: Some(result_register),
                });
                let block = self.new_block(nodes2(IRNode::new(IRNodeKind::NoOp), call));
                proof {
                    lemma_single_plain(block);
                    lemma_join(arg_blocks@, seq![block]);
                }
                let ghost av = arg_blocks@;
                let out = join(arg_blocks, single(block));
                proof {
                    assert(out@.drop_last() =~= av);
                    assert(lowered_by(*expr, ExprLowering::List(counts, ds), out@, IRValue::Register(result_register)));
                }
                Ok((out, ret_type, IRValue::Register(result_register)))
            },
            ASTKind::ParenExpression(inner) => {
                let r = self.generate_expr(inner);
                proof {
                    if r is Ok {
                        let d = choose|d: ExprLowering| lowered_by(**inner, d, r->Ok_0.0@, r->Ok_0.2);
                        assert(lowered_by(*expr, ExprLowering::Wrap(Box::new(d)), r->Ok_0.0@, r->Ok_0.2));
                    }
                }
                r
            },
            _ => {
                let mut m = "Unsupported AST node kind in expression: ".to_string();
                let d = kind_debug_text(expr);
                push_str(&mut m, d.as_str());
                Err(node_error(m, expr))
            },
        }
    }

    fn generate_binary_op_expr(&mut self, op: &BinaryOp, left: &ASTNode, right: &ASTNode) -> (r: Result<ExprResult, IRGeneratorError>)
        requires
            old(self).wf(),
            old(self).block_id + block_budget(1 + node_height(*left) + node_height(*right)) <= usize::MAX,
        ensures
            final(self).wf(),
            old(self).block_id <= final(self).block_id,
            final(self).block_id <= old(self).block_id + block_budget(1 + node_height(*left) + node_height(*right)),
            r is Ok ==> fresh_blocks(r->Ok_0.0@, old(self).block_id as int, final(self).block_id as int),
            final(self).symbol_table == old(self).symbol_table,
            r is Ok <==> binary_expr_type(scopes_v(old(self).symbol_table.scopes_view()), *op, *left, *right) is Some,
            r is Ok ==> Some(type_v(r->Ok_0.1)) == binary_expr_type(scopes_v(old(self).symbol_table.scopes_view()), *op, *left, *right),
            r is Ok ==> lowers_expr(binary_node(*op, *left, *right), r->Ok_0.0@, r->Ok_0.2),
        decreases 1 + node_height(*left) + node_height(*right), 4nat,
    {
        match op {
            BinaryOp::Assign => self.generate_binary_op_assign(left, right),
            BinaryOp::Add | BinaryOp::Sub | BinaryOp::Mul | BinaryOp::Div | BinaryOp::Eq | BinaryOp::Less => self.generate_binary_op_arithmetic(op, left, right),
            BinaryOp::And | BinaryOp::Or => self.generate_binary_op_logical(op, left, right),
        }
    }

    fn generate_binary_op_assign(&mut self, left: &ASTNode, right: &ASTNode) -> (r: Result<ExprResult, IRGeneratorError>)
        requires
            old(self).wf(),
            old(self).block_id + block_budget(1 + node_height(*left) + node_height(*right)) <= usize::MAX,
        ensures
            final(self).wf(),
            old(self).block_id <= final(self).block_id,
            final(self).block_id <= old(self).block_id + block_budget(1 + node_height(*left) + node_height(*right)),
            r is Ok ==> fresh_blocks(r->Ok_0.0@, old(self).block_id as int, final(self).block_id as int),
            final(self).symbol_table == old(self).symbol_table,
            r is Ok <==> assign_type(scopes_v(old(self).symbol_table.scopes_view()), *left, *right) is Some,
            r is Ok ==> Some(type_v(r->Ok_0.1)) == assign_type(scopes_v(old(self).symbol_table.scopes_view()), *left, *right),
            r is Ok ==> lowers_expr(binary_node(BinaryOp::Assign, *left, *right), r->Ok_0.0@, r->Ok_0.2),
        decreases 1 + node_height(*left) + node_height(*right), 3nat,
    {
        if let ASTKind::Identifier(name) = &left.kind {
            let variable = match self.symbol_table.lookup(name.as_str()) {
                Some(symbol) => match &symbol.kind {
                    SymbolKind::LocalVariable { register, .. } => IRVariable::Register(*register),
                    SymbolKind::Parameter { register, .. } => IRVariable::Register(*register),
                    SymbolKind::GlobalVariable => IRVariable::Global(name.clone()),
                    SymbolKind::Function { .. } => {
                        return Err(node_error("Cannot assign to function".to_string(), left));
                    },
                },
                None => {
                    return Err(node_error(message3("Undefined identifier: ", name.as_str(), ""), left));
                },
            };
            let (right_blocks, right_type, right_value) = self.generate_expr(right)?;
            let block = self.new_block(nodes1(IRNode::new(IRNodeKind::Assign { variable, value: right_value.clone() })));
            proof {
                lemma_single_plain(block);
                lemma_join(right_blocks@, seq![block]);
            }
            let out = join(right_blocks, single(block));
            proof {
                let d = choose|d: ExprLowering| lowered_by(*right, d, right_blocks@, right_value);
                assert(out@.drop_last() =~= right_blocks@);
                assert(lowered_by(binary_node(BinaryOp::Assign, *left, *right), ExprLowering::Wrap(Box::new(d)), out@, right_value));
            }
            Ok((out, right_type, right_value))
        } else if let ASTKind::UnaryExpression { op: UnaryOp::Deref, operand } = &left.kind {
            let (right_blocks, right_type, right_value) = self.generate_expr(right)?;
            let (operand_blocks, operand_type, operand_value) = self.generate_expr(operand)?;
            let ghost rb = right_blocks@;
            let ghost pb = operand_blocks@;
            let ghost pv = operand_value;
            if !operand_type.is_pointer() {
                return Err(node_error("Operand of the deref operator must be a pointer".to_string(), left));
            }
            let block = self.new_block(nodes1(IRNode::new(IRNodeKind::AddressAssignment { address: operand_value, value: right_value.clone() })));
            proof {
                lemma_single_plain(block);
                lemma_join(right_blocks@, operand_blocks@);
                lemma_join(right_blocks@ + operand_blocks@, seq![block]);
            }
            let out = join(join(right_blocks, operand_blocks), single(block));
            proof {
                let dr = choose|d: ExprLowering| lowered_by(*right, d, rb, right_value);
                let dp = choose|d: ExprLowering| lowered_by(**operand, d, pb, pv);
                assert(out@.subrange(0, rb.len() as int) =~= rb);
                assert(out@.subrange(rb.len() as int, (rb.len() + pb.len()) as int) =~= pb);
                assert(lowered_by(
                    binary_node(BinaryOp::Assign, *left, *right),
                    ExprLowering::Pair(Box::new(dr), Box::new(dp), rb.len(), right_value, pb.len(), pv),
                    out@,
                    right_value,
                ));
            }
            Ok((out, right_type, right_value))
        } else {
            Err(node_error("Left-hand side of assignment must be deref operator an identifier".to_string(), left))
        }
    }

    fn scale_to_pointer(&mut self, val: IRValue) -> (r: (IRValue, IRBlock))
        requires
            old(self).block_id < usize::MAX,
            old(self).wf(),
        ensures
            final(self).wf(),
            final(self).block_id == old(self).block_id + 1,
            r.1.id == final(self).block_id,
            forall|n: int| 0 <= n < r.1.nodes@.len() ==> (#[trigger] r.1.nodes@[n]).kind is BinaryOp,
            final(self).symbol_table == old(self).symbol_table,
            scaled_into(r.1, val, r.0),
    {
        let scale_register = self.virtual_register_manager.allocate(false);
        let scale_block = self.new_block(nodes1(IRNode::new(IRNodeKind::BinaryOp {
            op: IRBinaryOp::Mul,
            left: val,
            right: IRValue::Immediate(8),
            result: scale_register,
            optional_result: None,
        })));
        (IRValue::Register(scale_register), scale_block)
    }

    fn generate_binary_op_arithmetic(&mut self, op: &BinaryOp, left: &ASTNode, right: &ASTNode) -> (r: Result<ExprResult, IRGeneratorError>)
        requires
            old(self).wf(),
            old(self).block_id + block_budget(1 + node_height(*left) + node_height(*right)) <= usize::MAX,
            !(*op is Assign),
        ensures
            final(self).wf(),
            old(self).block_id <= final(self).block_id,
            final(self).block_id <= old(self).block_id + block_budget(1 + node_height(*left) + node_height(*right)),
            r is Ok ==> fresh_blocks(r->Ok_0.0@, old(self).block_id as int, final(self).block_id as int),
            final(self).symbol_table == old(self).symbol_table,
            r is Ok <==> binary_expr_type(scopes_v(old(self).symbol_table.scopes_view()), *op, *left, *right) is Some,
            r is Ok ==> Some(type_v(r->Ok_0.1)) == binary_expr_type(scopes_v(old(self).symbol_table.scopes_view()), *op, *left, *right),
            r is Ok ==> !(*op is And || *op is Or) ==> lowers_expr(binary_node(*op, *left, *right), r->Ok_0.0@, r->Ok_0.2),
        decreases 1 + node_height(*left) + node_height(*right), 3nat,
    {
        let (left_blocks, left_type, left_value) = self.generate_expr(left)?;
        let (right_blocks, right_type, right_value) = self.generate_expr(right)?;
        let ghost lv = left_value;
        let ghost rv = right_value;
        let ghost lb = left_blocks@;
        let ghost rb = right_blocks@;
        let ir_op = match op {
            BinaryOp::Add => IRBinaryOp::Add,
            BinaryOp::Sub => IRBinaryOp::Sub,
            BinaryOp::Mul => IRBinaryOp::Mul,
            BinaryOp::Div => IRBinaryOp::Div,
            BinaryOp::Eq => IRBinaryOp::Eq,
            _ => IRBinaryOp::Less,
        };
        let result_register = self.virtual_register_manager.allocate(false);
        let result_type = match binary_op_type(op, &left_type, &right_type) {
            Ok(t) => {
                proof {
                    lemma_binary_view(*op, left_type, right_type, t);
                }
                t
            },
            Err(e) => {
                proof {
                    lemma_binary_view(*op, left_type, right_type, left_type);
                }
                return Err(node_error(e, left));
            },
        };
        let is_add = matches!(op, BinaryOp::Add);
        let is_sub = matches!(op, BinaryOp::Sub);
        let (final_left, final_right, extra) = if is_add && left_type.is_pointer() && right_type.is_number() {
            let (scaled, blk) = self.scale_to_pointer(right_value);
            (left_value, scaled, Some(blk))
        } else if is_add && left_type.is_number() && right_type.is_pointer() {
            let (scaled, blk) = self.scale_to_pointer(left_value);
            (scaled, right_value, Some(blk))
        } else if is_sub && left_type.is_pointer() && right_type.is_number() {
            let (scaled, blk) = self.scale_to_pointer(right_value);
            (left_value, scaled, Some(blk))
        } else {
            (left_value, right_value, None)
        };
        proof {
            assert(match extra {
                Some(blk) => (final_right == rv && scaled_into(blk, lv, final_left)) || (final_left == lv && scaled_into(
                    blk,
                    rv,
                    final_right,
                )),
                None => final_left == lv && final_right == rv,
            });
        }
        let optional_result = if matches!(op, BinaryOp::Div) {
            Some(self.virtual_register_manager.allocate(false))
        } else {
            None
        };
        let block = self.new_block(nodes1(IRNode::new(IRNodeKind::BinaryOp {
            op: ir_op,
            left: final_left,
            right: final_right,
            result: result_register,
            optional_result,
        })));
        proof {
            lemma_single_plain(block);
            lemma_join(left_blocks@, right_blocks@);
        }
        let both = join(left_blocks, right_blocks);
        let with_extra = match extra {
            Some(blk) => {
                proof {
                    lemma_single(blk);
                    assert forall|t: usize| !referenced(seq![blk], t) by {
                        if referenced(seq![blk], t) {
                            let n = choose|n: int| 0 <= n < blk.nodes@.len() && #[trigger] is_target(blk.nodes@[n].kind, t);
                            assert(blk.nodes@[n].kind is BinaryOp);
                        }
                    }
                    lemma_join(both@, seq![blk]);
                }
                join(both, single(blk))
            },
            None => both,
        };
        proof {
            lemma_join(with_extra@, seq![block]);
        }
        let out = join(with_extra, single(block));
        proof {
            let n = (lb.len() + rb.len()) as int;
            assert(out@.subrange(0, lb.len() as int) =~= lb);
            assert(out@.subrange(lb.len() as int, n) =~= rb);
            if !(*op is And || *op is Or) {
                let dl = choose|d: ExprLowering| lowered_by(*left, d, lb, lv);
                let dr = choose|d: ExprLowering| lowered_by(*right, d, rb, rv);
                assert(crate::ir_generator::lowering::arithmetic_node(*op, out@, n, lv, rv, IRValue::Register(result_register)));
                assert(lowered_by(
                    binary_node(*op, *left, *right),
                    ExprLowering::Pair(Box::new(dl), Box::new(dr), lb.len(), lv, rb.len(), rv),
                    out@,
                    IRValue::Register(result_register),
                ));
            }
        }
        Ok((out, result_type, IRValue::Register(result_register)))
    }

    fn generate_binary_op_logical(&mut self, op: &BinaryOp, left: &ASTNode, right: &ASTNode) -> (r: Result<ExprResult, IRGeneratorError>)
        requires
            old(self).wf(),
            old(self).block_id + block_budget(1 + node_height(*left) + node_height(*right)) <= usize::MAX,
            !(*op is Assign),
        ensures
            final(self).wf(),
            old(self).block_id <= final(self).block_id,
            final(self).block_id <= old(self).block_id + block_budget(1 + node_height(*left) + node_height(*right)),
            r is Ok ==> fresh_blocks(r->Ok_0.0@, old(self).block_id as int, final(self).block_id as int),
            final(self).symbol_table == old(self).symbol_table,
            r is Ok <==> binary_expr_type(scopes_v(old(self).symbol_table.scopes_view()), *op, *left, *right) is Some,
            r is Ok ==> Some(type_v(r->Ok_0.1)) == binary_expr_type(scopes_v(old(self).symbol_table.scopes_view()), *op, *left, *right),
        r is Ok ==> (*op is And || *op is Or) ==> lowers_expr(binary_node(*op, *left, *right), r->Ok_0.0@, r->Ok_0.2),
        decreases 1 + node_height(*left) + node_height(*right), 3nat,
    {
        let (left_blocks, left_type, left_value) = self.generate_expr(left)?;
        let (right_blocks, right_type, right_value) = self.generate_expr(right)?;
        let ghost lv = left_value;
        let ghost rv = right_value;
        let ghost lb = left_blocks@;
        let ghost rb = right_blocks@;
        let end_block = self.new_block(Vec::new());
        let result_register = self.virtual_register_manager.allocate(true);
        let result_type = match binary_op_type(op, &left_type, &right_type) {
            Ok(t) => {
                proof {
                    lemma_binary_view(*op, left_type, right_type, t);
                }
                t
            },
            Err(e) => {
                proof {
                    lemma_binary_view(*op, left_type, right_type, left_type);
                }
                return Err(node_error(e, left));
            },
        };
        proof {
            lemma_has_first(right_blocks@);
        }
        let (first, second) = if matches!(op, BinaryOp::And) {
            let first = self.new_block(nodes1(branch(Some(left_value), Some(end_block.id), None)));
            let second = self.new_block(nodes2(
                IRNode::new(IRNodeKind::Assign { variable: IRVariable::Register(result_register), value: IRValue::Immediate(0) }),
                branch(None, Some(end_block.id), None),
            ));
            (first, second)
        } else {
            let first = self.new_block(nodes1(branch(Some(left_value), None, Some(right_blocks[0].id))));
            let second = self.new_block(nodes2(
                IRNode::new(IRNodeKind::Assign { variable: IRVariable::Register(result_register), value: IRValue::Immediate(1) }),
                branch(None, Some(end_block.id), None),
            ));
            (first, second)
        };
        let right_after_block = self.new_block(nodes2(
            IRNode::new(IRNodeKind::Assign { variable: IRVariable::Register(result_register), value: right_value.clone() }),
            IRNode::new(IRNodeKind::BinaryOp {
                op: IRBinaryOp::BitAnd,
                left: IRValue::Register(result_register),
                right: IRValue::Immediate(1),
                result: result_register,
                optional_result: None,
            }),
        ));
        proof {
            lemma_single_plain(end_block);
            lemma_single_branch(first);
            lemma_single_branch(second);
            lemma_single_plain(right_after_block);
            lemma_join(left_blocks@, seq![first]);
            lemma_join(left_blocks@ + seq![first], seq![second]);
            lemma_join(left_blocks@ + seq![first] + seq![second], right_blocks@);
            lemma_join(left_blocks@ + seq![first] + seq![second] + right_blocks@, seq![right_after_block]);
            lemma_join(left_blocks@ + seq![first] + seq![second] + right_blocks@ + seq![right_after_block], seq![end_block]);
        }
        let r = join(join(join(join(join(left_blocks, single(first)), single(second)), right_blocks), single(right_after_block)), single(end_block));
        proof {
            assert forall|t: usize| #[trigger] referenced(r@, t) implies has_block(r@, t) by {}
            let ln = lb.len() as int;
            let rn = rb.len() as int;
            let n = r@.len() as int;
            assert(r@.subrange(0, ln) =~= lb);
            assert(r@.subrange(ln + 2, ln + 2 + rn) =~= rb);
            assert(r@[ln] == first);
            assert(r@[ln + 1] == second);
            assert(r@[ln + 2] == rb[0]);
            assert(r@[n - 2] == right_after_block);
            if *op is And || *op is Or {
                let dl = choose|d: ExprLowering| lowered_by(*left, d, lb, lv);
                let dr = choose|d: ExprLowering| lowered_by(*right, d, rb, rv);
                assert(crate::ir_generator::lowering::logical_blocks(*op, r@, ln, lv, rn, rv, IRValue::Register(result_register)));
                assert(lowered_by(
                    binary_node(*op, *left, *right),
                    ExprLowering::Pair(Box::new(dl), Box::new(dr), ln as nat, lv, rn as nat, rv),
                    r@,
                    IRValue::Register(result_register),
                ));
            }
        }
        Ok((r, result_type, IRValue::Register(result_register)))
    }

    fn generate_unary_op_expr(&mut self, op: &UnaryOp, operand: &ASTNode) -> (r: Result<ExprResult, IRGeneratorError>)
        requires
            old(self).wf(),
            old(self).block_id + block_budget(1 + node_height(*operand)) <= usize::MAX,
        ensures
            final(self).wf(),
            old(self).block_id <= final(self).block_id,
            final(self).block_id <= old(self).block_id + block_budget(1 + node_height(*operand)),
            r is Ok ==> fresh_blocks(r->Ok_0.0@, old(self).block_id as int, final(self).block_id as int),
            final(self).symbol_table == old(self).symbol_table,
            r is Ok <==> unary_expr_type(scopes_v(old(self).symbol_table.scopes_view()), *op, *operand) is Some,
            r is Ok ==> Some(type_v(r->Ok_0.1)) == unary_expr_type(scopes_v(old(self).symbol_table.scopes_view()), *op, *operand),
        r is Ok ==> lowers_expr(unary_node(*op, *operand), r->Ok_0.0@, r->Ok_0.2),
        decreases 1 + node_height(*operand), 3nat,
    {
        let (operand_blocks, operand_type, operand_value) = self.generate_expr(operand)?;
        let ghost d = choose|d: ExprLowering| lowered_by(*operand, d, operand_blocks@, operand_value);
        if matches!(op, UnaryOp::Plus) {
            proof {
                assert(lowered_by(unary_node(*op, *operand), ExprLowering::Wrap(Box::new(d)), operand_blocks@, operand_value));
            }
            return Ok((operand_blocks, operand_type, operand_value));
        }
        let ghost ov = operand_value;
        let ghost ob = operand_blocks@;
        let result_register = self.virtual_register_manager.allocate(false);
        let result_type = match unary_op_type(op, &operand_type) {
            Ok(t) => {
                proof {
                    lemma_unary_view(*op, operand_type, t);
                }
                t
            },
            Err(e) => {
                proof {
                    lemma_unary_view(*op, operand_type, operand_type);
                }
                return Err(node_error(e, operand));
            },
        };
        let ir_op = match op {
            UnaryOp::Deref => IRUnaryOp::Deref,
            UnaryOp::Address => IRUnaryOp::Address,
            UnaryOp::Minus => IRUnaryOp::Neg,
            _ => IRUnaryOp::Not,
        };
        let block = self.new_block(nodes1(IRNode::new(IRNodeKind::UnaryOp { op: ir_op, operand: operand_value, result: result_register })));
        proof {
            lemma_single_plain(block);
            lemma_join(operand_blocks@, seq![block]);
        }
        let out = join(operand_blocks, single(block));
        proof {
            assert(out@.drop_last() =~= ob);
            assert(lowered_by(unary_node(*op, *operand), ExprLowering::Wrap(Box::new(d)), out@, IRValue::Register(result_register)));
        }
        Ok((out, result_type, IRValue::Register(result_register)))
    }
}

/// The prefix expression `op operand`.
pub open spec fn unary_node(op: UnaryOp, operand: ASTNode) -> ASTNode {
    ASTNode { kind: ASTKind::UnaryExpression { op, operand: Box::new(operand) } }
}

/// The binary expression `left op right`.
pub open spec fn binary_node(op: BinaryOp, left: ASTNode, right: ASTNode) -> ASTNode {
    ASTNode { kind: ASTKind::BinaryExpression { op, left: Box::new(left), right: Box::new(right) } }
}

/// What a module produced by [`IRGenerator::generate`] satisfies.
pub open spec fn generated_module(m: IRModule) -> bool {
    &&& m.wf()
    &&& strings_indexed(m.strings@)
    &&& forall|i: int| 0 <= i < m.functions@.len() ==> {
        let f = #[trigger] m.functions@[i];
        &&& ids_are_positions(f.body@)
        &&& f.parameters@.len() > 0 ==> f.body@.len() > 0 && f.body@[0].nodes@.len() >= 2
    }
}

/// The function definitions among the top-level declarations, in order.
pub open spec fn defined_functions(decls: Seq<ASTNode>) -> Seq<ASTNode>
    decreases decls.len(),
{
    if decls.len() == 0 {
        Seq::empty()
    } else {
        let rest = defined_functions(decls.drop_last());
        match decls.last().kind {
            ASTKind::FunctionDefinition { .. } => rest.push(decls.last()),
            _ => rest,
        }
    }
}

/// Names and storage of the global variables among the top-level
/// declarations: those whose type is not a function type, in order.
pub open spec fn declared_globals(decls: Seq<ASTNode>) -> Seq<(Seq<char>, Option<VariableType>)>
    decreases decls.len(),
{
    if decls.len() == 0 {
        Seq::empty()
    } else {
        let rest = declared_globals(decls.drop_last());
        match decls.last().kind {
            ASTKind::Declaration { var_type, name } => if var_type is Function {
                rest
            } else {
                rest.push((name@, variable_type_of(var_type)))
            },
            _ => rest,
        }
    }
}

/// The lowered functions are the definitions, in order, each as
/// [`lowered_function`] says.
pub open spec fn functions_match(fs: Seq<IRFunction>, defs: Seq<ASTNode>) -> bool {
    &&& fs.len() == defs.len()
    &&& forall|i: int| 0 <= i < fs.len() ==> lowered_function(#[trigger] fs[i], defs[i])
}

/// The global variables are the declared ones, in order, each stored as its
/// type says.
pub open spec fn globals_match(gs: Seq<IRVariableDeclaration>, decls: Seq<(Seq<char>, Option<VariableType>)>) -> bool {
    &&& gs.len() == decls.len()
    &&& forall|i: int| 0 <= i < gs.len() ==> (#[trigger] gs[i]).name@ == decls[i].0 && decls[i].1 == Some(gs[i].ty)
}

/// A module lowered from a translation unit with these declarations.
pub open spec fn lowered_from(m: IRModule, decls: Seq<ASTNode>) -> bool {
    &&& functions_match(m.functions@, defined_functions(decls))
    &&& globals_match(m.global_variables@, declared_globals(decls))
}

/// A module lowered from a translation unit.
pub open spec fn lowered_unit(m: IRModule, root: ASTNode) -> bool {
    match root.kind {
        ASTKind::TranslationUnit(decls) => lowered_from(m, decls@),
        _ => false,
    }
}

/// A function lowered from a definition: its name, a stored and an
/// incoming register per parameter, and its body as [`lowered_body`] says.
pub open spec fn lowered_function(f: IRFunction, def: ASTNode) -> bool {
    match def.kind {
        ASTKind::FunctionDefinition { name, params, body, .. } => {
            &&& f.name@ == name@
            &&& f.parameters@.len() == params@.len()
            &&& f.parameter_regs@.len() == params@.len()
            &&& lowered_body(f.body@, params@.len(), *body)
        },
        _ => false,
    }
}

/// A function compiled from a definition: a function lowered from it, with
/// its body compacted.
pub open spec fn compiled_function(f: IRFunction, def: ASTNode) -> bool {
    exists|g: IRFunction|
        #[trigger] lowered_function(g, def) && g.name == f.name && g.parameters@ == f.parameters@
            && g.parameter_regs@ == f.parameter_regs@ && compacted(g.body@, f.body@)
}

/// A module compiled from a translation unit: one compiled function per
/// definition, in order, and the declared globals in order.
pub open spec fn compiled_unit(m: IRModule, root: ASTNode) -> bool {
    match root.kind {
        ASTKind::TranslationUnit(decls) => {
            let defs = defined_functions(decls@);
            &&& m.functions@.len() == defs.len()
            &&& forall|i: int| 0 <= i < m.functions@.len() ==> compiled_function(#[trigger] m.functions@[i], defs[i])
            &&& globals_match(m.global_variables@, declared_globals(decls@))
        },
        _ => false,
    }
}

/// The code of a character as an integer.
fn char_code(c: char) -> (r: i64)
    ensures
        r == c as int,
{
    c as u32 as i64
}

proof fn lemma_prefix_height(v: Seq<ASTNode>, k: int)
    requires
        0 < k <= v.len(),
    ensures
        nodes_height(v.subrange(0, k)) == 1 + node_height(v[k - 1]) + nodes_height(v.subrange(0, k - 1)),
        nodes_height(v.subrange(0, k)) <= nodes_height(v),
    decreases v.len() - k,
{
    assert(v.subrange(0, k).drop_last() =~= v.subrange(0, k - 1));
    if k < v.len() {
        lemma_prefix_height(v, k + 1);
    } else {
        assert(v.subrange(0, k) =~= v);
    }
}

/// A block without jumps: it references nothing.
proof fn lemma_single_plain(blk: IRBlock)
    requires
        forall|n: int| 0 <= n < blk.nodes@.len() ==> !((#[trigger] blk.nodes@[n]).kind is Branch),
    ensures
        fresh_blocks(seq![blk], blk.id - 1, blk.id as int),
        forall|id: usize| #[trigger] has_block(seq![blk], id) <==> id == blk.id,
        forall|t: usize| !referenced(seq![blk], t),
{
    lemma_single(blk);
    assert forall|t: usize| !referenced(seq![blk], t) by {
        if referenced(seq![blk], t) {
            let n = choose|n: int| 0 <= n < blk.nodes@.len() && #[trigger] is_target(blk.nodes@[n].kind, t);
        }
    }
}

/// A block whose jumps are exactly those of its branch nodes.
proof fn lemma_single_branch(blk: IRBlock)
    ensures
        ids_unique(seq![blk]),
        forall|id: usize| #[trigger] has_block(seq![blk], id) <==> id == blk.id,
        forall|t: usize| #[trigger] referenced(seq![blk], t) <==> exists|n: int|
            0 <= n < blk.nodes@.len() && #[trigger] is_target(blk.nodes@[n].kind, t),
{
    lemma_single(blk);
}

proof fn lemma_has_first(blocks: Seq<IRBlock>)
    requires
        blocks.len() > 0,
    ensures
        has_block(blocks, blocks[0].id),
{
}

/// The type of a binary expression, or why it is ill-typed.
fn binary_op_type(op: &BinaryOp, left: &Type, right: &Type) -> (r: Result<Type, String>)
    ensures
        r is Ok <==> binary_op_allowed(*op, *left, *right),
        r is Ok ==> binary_op_result(*op, *left, *right, r->Ok_0),
{
    let ok = match op {
        BinaryOp::Add => {
            if left.is_number() && right.is_number() {
                return Ok(Type::Long);
            } else if left.is_pointer() && right.is_number() {
                return Ok(left.clone());
            } else if left.is_number() && right.is_pointer() {
                return Ok(right.clone());
            }
            false
        },
        BinaryOp::Sub => {
            if left.is_number() && right.is_number() {
                return Ok(Type::Long);
            } else if left.is_pointer() && right.is_number() {
                return Ok(left.clone());
            } else if crate::ast::types_equal(left, right) {
                return Ok(Type::Long);
            }
            false
        },
        BinaryOp::Mul | BinaryOp::Div => {
            if left.is_number() && right.is_number() {
                return Ok(Type::Long);
            }
            false
        },
        BinaryOp::And | BinaryOp::Or => {
            if (left.is_bool() || left.is_number()) && (right.is_bool() || right.is_number()) {
                return Ok(Type::Bool);
            }
            false
        },
        BinaryOp::Eq => {
            if left.is_number() && right.is_number() || crate::ast::types_equal(left, right) {
                return Ok(Type::Bool);
            }
            false
        },
        BinaryOp::Less => {
            if left.is_number() && right.is_number() {
                return Ok(Type::Bool);
            }
            false
        },
        BinaryOp::Assign => {
            if left.is_number() && right.is_number() {
                return Ok(Type::Long);
            } else if left.is_pointer() && right.is_pointer() || crate::ast::types_equal(left, right) {
                return Ok(left.clone());
            }
            false
        },
    };
    let mut m = "Invalid binary op: ".to_string();
    write_type(&mut m, left);
    push_str(&mut m, " ");
    push_str(&mut m, op.symbol());
    push_str(&mut m, " ");
    write_type(&mut m, right);
    Err(m)
}

/// When a binary operator accepts its operand types.
pub open spec fn binary_op_allowed(op: BinaryOp, l: Type, r: Type) -> bool {
    let num_l = l.spec_is_number();
    let num_r = r.spec_is_number();
    match op {
        BinaryOp::Add => (num_l && num_r) || (l is Pointer && num_r) || (num_l && r is Pointer),
        BinaryOp::Sub => (num_l && num_r) || (l is Pointer && num_r) || type_eq(l, r),
        BinaryOp::Mul | BinaryOp::Div => num_l && num_r,
        BinaryOp::And | BinaryOp::Or => (l is Bool || num_l) && (r is Bool || num_r),
        BinaryOp::Eq => (num_l && num_r) || type_eq(l, r),
        BinaryOp::Less => num_l && num_r,
        BinaryOp::Assign => (num_l && num_r) || (l is Pointer && r is Pointer) || type_eq(l, r),
    }
}

/// The type a well-typed binary expression has: `long` for arithmetic on
/// numbers, the pointer type for pointer arithmetic, `bool` for logic and
/// comparisons, the left type for pointer assignment.
pub open spec fn binary_op_result(op: BinaryOp, l: Type, r: Type, t: Type) -> bool {
    let num_l = l.spec_is_number();
    let num_r = r.spec_is_number();
    match op {
        BinaryOp::Add => if num_l && num_r {
            t is Long
        } else if l is Pointer && num_r {
            type_eq(t, l)
        } else {
            type_eq(t, r)
        },
        BinaryOp::Sub => if num_l && num_r {
            t is Long
        } else if l is Pointer && num_r {
            type_eq(t, l)
        } else {
            t is Long
        },
        BinaryOp::Mul | BinaryOp::Div => t is Long,
        BinaryOp::And | BinaryOp::Or | BinaryOp::Eq | BinaryOp::Less => t is Bool,
        BinaryOp::Assign => if num_l && num_r {
            t is Long
        } else {
            type_eq(t, l)
        },
    }
}

/// The type of a unary expression, or why it is ill-typed.
fn unary_op_type(op: &UnaryOp, operand: &Type) -> (r: Result<Type, String>)
    ensures
        r is Ok <==> unary_op_allowed(*op, *operand),
        r is Ok ==> unary_op_result(*op, *operand, r->Ok_0),
{
    match op {
        UnaryOp::Plus | UnaryOp::Minus => {
            if operand.is_number() {
                return Ok(Type::Long);
            }
        },
        UnaryOp::Not => {
            if operand.is_bool() || operand.is_number() {
                return Ok(Type::Bool);
            }
        },
        UnaryOp::Deref => {
            if let Type::Pointer(inner) = operand {
                return Ok((**inner).clone());
            }
        },
        UnaryOp::Address => {
            return Ok(Type::Pointer(Box::new(operand.clone())));
        },
    }
    let mut m = "Invalid unary op: ".to_string();
    push_str(&mut m, op.symbol());
    push_str(&mut m, " ");
    write_type(&mut m, operand);
    Err(m)
}


/// When a prefix operator accepts its operand's type.
pub open spec fn unary_op_allowed(op: UnaryOp, o: Type) -> bool {
    match op {
        UnaryOp::Plus | UnaryOp::Minus => o.spec_is_number(),
        UnaryOp::Not => o is Bool || o.spec_is_number(),
        UnaryOp::Deref => o is Pointer,
        UnaryOp::Address => true,
    }
}

/// The type of a well-typed prefix expression: `long` for signs, `bool` for
/// negation, the pointee for a dereference, a pointer for an address.
pub open spec fn unary_op_result(op: UnaryOp, o: Type, t: Type) -> bool {
    match op {
        UnaryOp::Plus | UnaryOp::Minus => t is Long,
        UnaryOp::Not => t is Bool,
        UnaryOp::Deref => type_eq(t, *o->Pointer_0),
        UnaryOp::Address => t matches Type::Pointer(inner) && type_eq(*inner, o),
    }
}

/// [`binary_op_allowed`] and [`binary_op_result`] seen through type views.
proof fn lemma_binary_view(op: BinaryOp, l: Type, r: Type, t: Type)
    ensures
        binary_op_allowed(op, l, r) <==> binary_type_v(op, type_v(l), type_v(r)) is Some,
        binary_op_allowed(op, l, r) && binary_op_result(op, l, r, t) ==> binary_type_v(op, type_v(l), type_v(r))
            == Some(type_v(t)),
{
    lemma_view_kinds(l);
    lemma_view_kinds(r);
    lemma_view_kinds(t);
    if type_eq(l, r) {
        lemma_type_eq_view(l, r);
    }
    if type_v(l) == type_v(r) {
        lemma_view_type_eq(l, r);
    }
    if type_eq(t, l) {
        lemma_type_eq_view(t, l);
    }
    if type_eq(t, r) {
        lemma_type_eq_view(t, r);
    }
}

/// [`unary_op_allowed`] and [`unary_op_result`] seen through type views.
proof fn lemma_unary_view(op: UnaryOp, o: Type, t: Type)
    ensures
        unary_op_allowed(op, o) <==> unary_type_v(op, type_v(o)) is Some,
        unary_op_allowed(op, o) && unary_op_result(op, o, t) ==> unary_type_v(op, type_v(o)) == Some(type_v(t)),
{
    lemma_view_kinds(o);
    lemma_view_kinds(t);
    if unary_op_allowed(op, o) && unary_op_result(op, o, t) {
        match op {
            UnaryOp::Deref => {
                lemma_type_eq_view(t, *o->Pointer_0);
            },
            UnaryOp::Address => {
                let inner = t->Pointer_0;
                lemma_type_eq_view(*inner, o);
            },
            _ => {},
        }
    }
}

/// A list whose expressions all have types has a prefix that does too.
proof fn lemma_args_typed_prefix(scopes: Seq<Seq<crate::symbol::SymV>>, args: Seq<ASTNode>, k: int)
    requires
        0 <= k <= args.len(),
        args_typed(scopes, args),
    ensures
        args_typed(scopes, args.subrange(0, k)),
    decreases args.len(),
{
    if k < args.len() {
        assert(args.drop_last() =~= args.subrange(0, args.len() - 1));
        lemma_args_typed_prefix(scopes, args.drop_last(), k);
        assert(args.drop_last().subrange(0, k) =~= args.subrange(0, k));
    } else {
        assert(args.subrange(0, k) =~= args);
    }
}

} // verus!
