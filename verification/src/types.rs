//! The graph-IR types consumed by the engine, the target value
//! representations they are lowered to, and the engine's error taxonomy.
//!
//! The graph IR itself is externally owned and read-only; the engine reads it
//! through these model types, which hold as plain values exactly what the
//! lowering logic inspects: a type is a leaf extension type (identified by an
//! extension identifier and a type name), a sum type (an ordered list of
//! variants, each an ordered row of field types), a function type, or a type
//! variable (which the engine does not lower).
//!
//! Target representations are described twice: by the executable
//! [`LLVMType`], and by its mathematical view [`LLVMTypeV`], which the
//! contracts of the type mapper and the sum encoder speak of.

use vstd::prelude::*;

verus! {

/// The error taxonomy of the lowering engine.
///
/// Every component operation returns a result; the first error anywhere
/// aborts the whole module compilation and is returned to the caller.
#[derive(Clone, Copy, Debug, PartialEq, Eq, Structural)]
pub enum CodegenError {
    /// No handler is registered for a requested extension id / op / type /
    /// constant kind.
    LookupError,
    /// An arity or cardinality mismatch between a graph-IR node and what an
    /// emitter expects.
    ShapeError,
    /// A graph-IR shape this engine does not lower (for example a call to a
    /// type-parametric function).
    UnsupportedConstruct,
    /// The underlying IR builder rejected an operation.
    BackendError,
}

impl CodegenError {
    /// A short human-readable description of the error.
    pub fn describe(&self) -> &'static str {
        match self {
            CodegenError::LookupError => "no handler registered for key",
            CodegenError::ShapeError => "arity or cardinality mismatch",
            CodegenError::UnsupportedConstruct => "construct not supported by this engine",
            CodegenError::BackendError => "the IR builder rejected an operation",
        }
    }
}

/// The key a custom (leaf extension) type is registered under: an extension
/// identifier paired with a type name, both modelled as integer identifiers.
#[derive(Clone, Copy, Debug, PartialEq, Eq, Structural)]
pub struct CustomTypeKey {
    pub extension: u64,
    pub name: u64,
}

/// A graph-IR type.
pub enum HugrType {
    /// A leaf extension type, lowered by a registered type handler.
    Extension(CustomTypeKey),
    /// A sum type: an ordered list of variants, each an ordered row of fields.
    Sum(HugrSumType),
    /// A function type.
    Function(Box<HugrFuncType>),
    /// A type variable. The engine does not lower type-parametric constructs.
    Variable(u64),
}

/// A graph-IR sum type: an ordered list of variants, each an ordered row.
pub struct HugrSumType {
    pub variants: Vec<Vec<HugrType>>,
}

/// A graph-IR function type: ordered input and output rows.
pub struct HugrFuncType {
    pub inputs: Vec<HugrType>,
    pub outputs: Vec<HugrType>,
}

impl HugrSumType {
    /// The number of variants of this sum type.
    pub fn num_variants(&self) -> (n: usize)
        ensures
            n == self.variants@.len(),
    {
        self.variants.len()
    }
}

/// The mathematical view of a target representation.
#[verifier::ext_equal]
pub enum LLVMTypeV {
    Int(u32),
    Float(u32),
    Ptr,
    Agg(Seq<LLVMTypeV>),
}

/// The target representation of a graph-IR type: how a value of that type is
/// realised in the emitted module.
#[derive(Debug, PartialEq, Eq)]
pub enum LLVMType {
    /// An integer type of the given bit width.
    Int(u32),
    /// A floating-point type of the given bit width. Values of it are
    /// opaque to this model; only the type tag is represented.
    Float(u32),
    /// A pointer-sized value (also the indirect-call representation of a
    /// function type used as a value).
    Ptr,
    /// A struct aggregate with the given ordered field types.
    Agg(Vec<LLVMType>),
}

/// The view of a row of target representations, element by element.
pub open spec fn view_llvm_type_row(row: Seq<LLVMType>) -> Seq<LLVMTypeV>
    decreases row,
{
    if row.len() == 0 {
        Seq::empty()
    } else {
        view_llvm_type_row(row.drop_last()).push(row.last()@)
    }
}

impl View for LLVMType {
    type V = LLVMTypeV;

    open spec fn view(&self) -> LLVMTypeV
        decreases self,
    {
        match self {
            LLVMType::Int(w) => LLVMTypeV::Int(*w),
            LLVMType::Float(w) => LLVMTypeV::Float(*w),
            LLVMType::Ptr => LLVMTypeV::Ptr,
            LLVMType::Agg(fields) => LLVMTypeV::Agg(view_llvm_type_row(fields@)),
        }
    }
}

/// The view of a row of target representations is taken element by element.
pub broadcast proof fn lemma_view_llvm_type_row(row: Seq<LLVMType>)
    ensures
        (#[trigger] view_llvm_type_row(row)).len() == row.len(),
        forall|i: int| 0 <= i < row.len() ==> view_llvm_type_row(row)[i] == row[i]@,
    decreases row,
{
    if row.len() > 0 {
        lemma_view_llvm_type_row(row.drop_last());
        assert(view_llvm_type_row(row) == view_llvm_type_row(row.drop_last()).push(
            row.last()@,
        ));
        assert forall|i: int| 0 <= i < row.len() implies view_llvm_type_row(row)[i]
            == row[i]@ by {
            if i < row.len() - 1 {
                assert(row.drop_last()[i] == row[i]);
            }
        }
    }
}

/// The direct callable signature of a graph-IR function type.
pub struct LLVMFuncType {
    pub params: Vec<LLVMType>,
    pub results: Vec<LLVMType>,
}

impl Clone for LLVMType {
    fn clone(&self) -> (r: Self)
        ensures
            r@ == self@,
    {
        clone_llvm_type(self)
    }
}

/// Clones a target representation, preserving its view exactly.
pub fn clone_llvm_type(t: &LLVMType) -> (r: LLVMType)
    ensures
        r@ == t@,
    decreases *t,
{
    match t {
        LLVMType::Int(w) => LLVMType::Int(*w),
        LLVMType::Float(w) => LLVMType::Float(*w),
        LLVMType::Ptr => LLVMType::Ptr,
        LLVMType::Agg(fields) => {
            let fs = clone_llvm_type_row(fields);
            proof {
                broadcast use lemma_view_llvm_type_row;

                assert(view_llvm_type_row(fs@) =~= view_llvm_type_row(fields@));
            }
            LLVMType::Agg(fs)
        }
    }
}

/// Clones a row of target representations, preserving its views exactly.
pub fn clone_llvm_type_row(row: &Vec<LLVMType>) -> (r: Vec<LLVMType>)
    ensures
        r@.len() == row@.len(),
        forall|i: int| 0 <= i < row@.len() ==> r@[i]@ == row@[i]@,
    decreases row@,
{
    let mut r: Vec<LLVMType> = Vec::new();
    let mut i: usize = 0;
    while i < row.len()
        invariant
            i <= row@.len(),
            r@.len() == i,
            forall|j: int| 0 <= j < i ==> r@[j]@ == row@[j]@,
        decreases row@.len() - i,
    {
        let e = clone_llvm_type(&row[i]);
        r.push(e);
        i = i + 1;
    }
    r
}

} // verus!
