//! Lowering rules for the float-types extension: the 64-bit float leaf type
//! and its constants. The float ops themselves are routed to handlers of
//! downstream extensions; this extension contributes the type and the
//! constant materialiser.

use vstd::prelude::*;

use crate::custom::{CodegenExtsBuilder, ConstHandler};
use crate::types::{CustomTypeKey, LLVMType};

verus! {

/// The float-types extension's identifier.
pub const FLOAT_TYPES_EXTENSION: u64 = 6;

/// The name of the 64-bit float leaf type.
pub const FLOAT64_TYPE_NAME: u64 = 1;

/// The kind of the float extension's native constants.
pub const FLOAT_CONST_KIND: u64 = 4;

/// The concrete kind of 64-bit float constants.
pub const CONST_F64: u64 = 1;

/// The handle of the handler materialising 64-bit float constants.
pub const CONST_F64_HANDLER: u64 = 601;

/// The registration key of the 64-bit float leaf type, in spec form.
pub open spec fn float64_key() -> CustomTypeKey {
    CustomTypeKey { extension: FLOAT_TYPES_EXTENSION, name: FLOAT64_TYPE_NAME }
}

/// The registration key of the 64-bit float leaf type.
pub fn float64_type_key() -> (r: CustomTypeKey)
    ensures
        r == float64_key(),
{
    CustomTypeKey { extension: FLOAT_TYPES_EXTENSION, name: FLOAT64_TYPE_NAME }
}

/// Registers the float extension's handlers: the 64-bit float leaf type as
/// the target's double type, and the float constant handler.
pub fn add_float_extensions(cem: CodegenExtsBuilder) -> (r: CodegenExtsBuilder)
    ensures
        r.type_handlers@ == cem.type_handlers@.push((float64_key(), LLVMType::Float(64))),
        r.op_handlers@ == cem.op_handlers@,
        r.const_handlers@ == cem.const_handlers@.push(
            (FLOAT_CONST_KIND, ConstHandler { accepts: CONST_F64, id: CONST_F64_HANDLER }),
        ),
{
    cem.custom_type(float64_type_key(), LLVMType::Float(64)).custom_const(
        FLOAT_CONST_KIND,
        ConstHandler { accepts: CONST_F64, id: CONST_F64_HANDLER },
    )
}

} // verus!
