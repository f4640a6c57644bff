//! Lowering rules targeting the QIR runtime convention: qubits and results
//! are opaque pointers, and the tket2 quantum ops lower to calls of the QIR
//! runtime functions.

use vstd::prelude::*;

use crate::custom::tket2::add_tket2_extensions_to;
use crate::custom::prelude::{add_prelude_extensions, PreludeCodegen};
use crate::custom::{CodegenExtension, CodegenExtsBuilder, CodegenExtsMap};
use crate::types::{lemma_view_llvm_type_row, view_llvm_type_row, LLVMFuncType, LLVMType, LLVMTypeV};

verus! {

/// The prelude lowering of the QIR convention: a qubit is an opaque pointer.
pub struct Tket2QIRPrelude;

impl PreludeCodegen for Tket2QIRPrelude {
    fn usize_type(&self) -> (r: LLVMType)
        ensures
            r@ == LLVMTypeV::Int(64),
    {
        LLVMType::Int(64)
    }

    fn qubit_type(&self) -> (r: LLVMType)
        ensures
            r@ == LLVMTypeV::Ptr,
    {
        LLVMType::Ptr
    }
}

/// The codegen extension lowering tket2 ops to QIR runtime calls.
pub struct Tket2QIR;

impl CodegenExtension for Tket2QIR {
    fn add_extension(self, builder: CodegenExtsBuilder) -> CodegenExtsBuilder {
        add_tket2_extensions_to(builder)
    }
}

/// The QIR runtime functions the lowering calls.
#[derive(Clone, Copy, PartialEq, Eq, Structural)]
pub enum QirFunc {
    H,
    RZ,
    QAlloc,
    QFree,
    Measure,
    ReadResult,
}

impl QirFunc {
    /// The symbol this runtime function is linked under.
    pub open spec fn spec_symbol(self) -> Seq<char> {
        match self {
            QirFunc::H => "__quantum__qis__h__body"@,
            QirFunc::RZ => "__quantum__qis__rz__body"@,
            QirFunc::QAlloc => "__quantum__rt__qubit_allocate"@,
            QirFunc::QFree => "__quantum__rt__qubit_release"@,
            QirFunc::Measure => "__quantum__qis__m__body"@,
            QirFunc::ReadResult => "__quantum__qis__read_result__body"@,
        }
    }

    /// The symbol this runtime function is linked under.
    pub fn symbol(self) -> (r: &'static str)
        ensures
            r@ == self.spec_symbol(),
    {
        match self {
            QirFunc::H => "__quantum__qis__h__body",
            QirFunc::RZ => "__quantum__qis__rz__body",
            QirFunc::QAlloc => "__quantum__rt__qubit_allocate",
            QirFunc::QFree => "__quantum__rt__qubit_release",
            QirFunc::Measure => "__quantum__qis__m__body",
            QirFunc::ReadResult => "__quantum__qis__read_result__body",
        }
    }

    /// The parameter types this runtime function is declared with: qubits
    /// and results are opaque pointers, rotation angles are doubles.
    pub open spec fn spec_param_types(self) -> Seq<LLVMTypeV> {
        match self {
            QirFunc::H => seq![LLVMTypeV::Ptr],
            QirFunc::RZ => seq![LLVMTypeV::Float(64), LLVMTypeV::Ptr],
            QirFunc::QAlloc => Seq::empty(),
            QirFunc::QFree => seq![LLVMTypeV::Ptr],
            QirFunc::Measure => seq![LLVMTypeV::Ptr],
            QirFunc::ReadResult => seq![LLVMTypeV::Ptr],
        }
    }

    /// The result types this runtime function is declared with.
    pub open spec fn spec_result_types(self) -> Seq<LLVMTypeV> {
        match self {
            QirFunc::H => Seq::empty(),
            QirFunc::RZ => Seq::empty(),
            QirFunc::QAlloc => seq![LLVMTypeV::Ptr],
            QirFunc::QFree => Seq::empty(),
            QirFunc::Measure => seq![LLVMTypeV::Ptr],
            QirFunc::ReadResult => seq![LLVMTypeV::Int(1)],
        }
    }

    /// The signature this runtime function is declared with: qubits and
    /// results are opaque pointers, rotation angles are doubles.
    pub fn func_type(self) -> (r: LLVMFuncType)
        ensures
            view_llvm_type_row(r.params@) == self.spec_param_types(),
            view_llvm_type_row(r.results@) == self.spec_result_types(),
    {
        let r = match self {
            QirFunc::H => LLVMFuncType { params: vec![LLVMType::Ptr], results: Vec::new() },
            QirFunc::RZ => LLVMFuncType {
                params: vec![LLVMType::Float(64), LLVMType::Ptr],
                results: Vec::new(),
            },
            QirFunc::QAlloc => LLVMFuncType { params: Vec::new(), results: vec![LLVMType::Ptr] },
            QirFunc::QFree => LLVMFuncType { params: vec![LLVMType::Ptr], results: Vec::new() },
            QirFunc::Measure => LLVMFuncType {
                params: vec![LLVMType::Ptr],
                results: vec![LLVMType::Ptr],
            },
            QirFunc::ReadResult => LLVMFuncType {
                params: vec![LLVMType::Ptr],
                results: vec![LLVMType::Int(1)],
            },
        };
        proof {
            lemma_view_llvm_type_row(r.params@);
            lemma_view_llvm_type_row(r.results@);
            assert(view_llvm_type_row(r.params@) =~= self.spec_param_types());
            assert(view_llvm_type_row(r.results@) =~= self.spec_result_types());
        }
        r
    }
}

impl CodegenExtsMap {
    /// Adds the QIR lowering rules to this registry: the prelude's leaf
    /// types under the QIR convention, and the tket2 ops routed to the QIR
    /// op handler.
    pub fn add_tket2_qir_exts(self) -> (r: CodegenExtsMap)
        ensures
            r.type_handlers@.len() == self.type_handlers@.len() + 2,
            r.type_handlers@.subrange(0, self.type_handlers@.len() as int)
                == self.type_handlers@,
            r.op_handlers@.len() == self.op_handlers@.len() + 5,
            r.const_handlers@.len() == self.const_handlers@.len() + 2,
    {
        let b = CodegenExtsBuilder {
            type_handlers: self.type_handlers,
            op_handlers: self.op_handlers,
            const_handlers: self.const_handlers,
        };
        let b = add_prelude_extensions(b, &Tket2QIRPrelude);
        let b = add_tket2_extensions_to(b);
        b.finish()
    }
}

} // verus!
