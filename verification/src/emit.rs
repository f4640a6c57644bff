//! Emission of graph-IR regions into the model of the target module: basic
//! blocks, recorded instructions, and row mailboxes.
//!
//! The module driver walks the top-level function definitions; for each, a
//! function context is created and its body — always a straight-line region —
//! is emitted by the dataflow-parent emitter, which recursively delegates
//! nested conditionals, control-flow graphs, and custom ops back into the
//! dispatch registry. The first error anywhere aborts the whole module
//! compilation and is returned to the caller.

pub mod func;
pub mod ops;

use vstd::prelude::*;

use crate::custom::CodegenExtsMap;
use crate::emit::func::EmitFuncContext;
use crate::emit::ops::{
    emit_dataflow_parent, node_out_row, node_out_vals, region_acyclic, region_ok, region_out_vals,
};
use crate::graph::{FuncDefn, ModuleGraph};
use crate::sum::{view_value_row, LLVMValue};
use crate::types::CodegenError;

verus! {

broadcast use crate::sum::lemma_view_value_row;

/// Lowers one function definition: a fresh function context is created, the
/// function's parameters are handed to the body as its input row, and the
/// body is emitted as a straight-line region. Returns the built context and
/// the body's output row.
pub fn emit_func(exts: &CodegenExtsMap, func: &FuncDefn) -> (r: Result<
    (EmitFuncContext, Vec<LLVMValue>),
    CodegenError,
>)
    ensures
        r is Ok <==> region_acyclic(func.body) && region_ok(
            exts.type_handlers@,
            exts.op_handlers@,
            exts.const_handlers@,
            func.body,
        ),
        r matches Ok((c, outs)) ==> view_value_row(outs@) == region_out_vals(
            func.body,
            exts.const_handlers@,
            node_out_vals(func.node, func.body.num_inputs as nat),
        ),
{
    let mut ctx = EmitFuncContext::new();
    let params = node_out_row(func.node, func.body.num_inputs);
    let out_mb = ctx.new_row_mail_box(func.body.output_wires.len());
    match emit_dataflow_parent(&mut ctx, exts, &func.body, params, out_mb.promise()) {
        Ok(()) => {
            let outs = ctx.read_mailbox(out_mb);
            Ok((ctx, outs))
        }
        Err(e) => Err(e),
    }
}

/// Whether every function of the module lowers without an error.
pub open spec fn module_ok(exts: CodegenExtsMap, m: ModuleGraph) -> bool {
    forall|i: int|
        0 <= i < m.funcs@.len() ==> region_acyclic((#[trigger] m.funcs@[i]).body) && region_ok(
            exts.type_handlers@,
            exts.op_handlers@,
            exts.const_handlers@,
            m.funcs@[i].body,
        )
}

/// Lowers a module: walks the top-level function definitions in order and
/// lowers each; the first error aborts the whole compilation. On success,
/// returns each function's symbol with its built context and output row.
pub fn emit_module(exts: &CodegenExtsMap, m: &ModuleGraph) -> (r: Result<
    Vec<(u64, EmitFuncContext, Vec<LLVMValue>)>,
    CodegenError,
>)
    ensures
        r is Ok <==> module_ok(*exts, *m),
        r matches Ok(fs) ==> fs@.len() == m.funcs@.len() && forall|i: int|
            0 <= i < m.funcs@.len() ==> (#[trigger] fs@[i]).0 == m.funcs@[i].name
                && view_value_row(fs@[i].2@) == region_out_vals(
                m.funcs@[i].body,
                exts.const_handlers@,
                node_out_vals(m.funcs@[i].node, m.funcs@[i].body.num_inputs as nat),
            ),
{
    let mut out: Vec<(u64, EmitFuncContext, Vec<LLVMValue>)> = Vec::new();
    let mut i: usize = 0;
    while i < m.funcs.len()
        invariant
            i <= m.funcs@.len(),
            out@.len() == i,
            forall|j: int|
                0 <= j < i ==> region_acyclic((#[trigger] m.funcs@[j]).body) && region_ok(
                    exts.type_handlers@,
                    exts.op_handlers@,
                    exts.const_handlers@,
                    m.funcs@[j].body,
                ),
            forall|j: int|
                0 <= j < i ==> (#[trigger] out@[j]).0 == m.funcs@[j].name && view_value_row(
                    out@[j].2@,
                ) == region_out_vals(
                    m.funcs@[j].body,
                    exts.const_handlers@,
                    node_out_vals(m.funcs@[j].node, m.funcs@[j].body.num_inputs as nat),
                ),
        decreases m.funcs@.len() - i,
    {
        match emit_func(exts, &m.funcs[i]) {
            Ok((c, outs)) => {
                out.push((m.funcs[i].name, c, outs));
            }
            Err(e) => {
                return Err(e);
            }
        }
        i = i + 1;
    }
    Ok(out)
}

} // verus!
