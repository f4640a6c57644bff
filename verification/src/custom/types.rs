//! The mapping target for lowering graph-IR types to target value
//! representations: sums aggregate into the tagged-all-variants struct, and
//! function types used as values are pointer-sized.

use vstd::prelude::*;

use crate::sum::LLVMSumType;
use crate::type_map::{spec_sum_repr, view_llvm_type_rows, TypeMappable};
use crate::types::{LLVMFuncType, LLVMType, LLVMTypeV};

verus! {

/// The default mapping target: graph-IR types are realised directly as
/// target value representations.
pub struct LLVMTypeMapping;

impl TypeMappable for LLVMTypeMapping {
    type OutV = LLVMType;

    fn aggregate_variants(&self, sum_type: LLVMSumType) -> (r: LLVMType)
        ensures
            r@ == spec_sum_repr(view_llvm_type_rows(sum_type.variant_types@)),
    {
        sum_type.as_llvm_type()
    }

    fn func_as_value(&self, _signature: LLVMFuncType) -> (r: LLVMType)
        ensures
            r@ == LLVMTypeV::Ptr,
    {
        LLVMType::Ptr
    }
}

} // verus!
