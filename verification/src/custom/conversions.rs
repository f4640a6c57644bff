//! Lowering rules for the conversions extension: casts between the integer,
//! usize, and float leaf types.

use vstd::prelude::*;

use crate::custom::{CodegenExtension, CodegenExtsBuilder, OpHandler};

verus! {

/// The conversions extension's identifier.
pub const CONVERSIONS_EXTENSION: u64 = 3;

/// The conversion op names routed to the conversions op handler.
pub const CONVERSIONS_OP_TRUNC_U: u64 = 1;

pub const CONVERSIONS_OP_TRUNC_S: u64 = 2;

pub const CONVERSIONS_OP_CONVERT_U: u64 = 3;

pub const CONVERSIONS_OP_CONVERT_S: u64 = 4;

/// The handle of the conversions op handler.
pub const CONVERSIONS_OP_HANDLER: u64 = 301;

/// The codegen extension for the conversions extension.
pub struct ConversionsCodegenExtension;

impl CodegenExtension for ConversionsCodegenExtension {
    fn add_extension(self, builder: CodegenExtsBuilder) -> CodegenExtsBuilder {
        add_conversions_extension_to(builder)
    }
}

/// Registers the conversions extension's op handlers.
pub fn add_conversions_extension_to(cem: CodegenExtsBuilder) -> (r: CodegenExtsBuilder)
    ensures
        r.type_handlers@ == cem.type_handlers@,
        r.const_handlers@ == cem.const_handlers@,
        r.op_handlers@.len() == cem.op_handlers@.len() + 4,
        r.op_handlers@.subrange(0, cem.op_handlers@.len() as int) == cem.op_handlers@,
        forall|i: int|
            cem.op_handlers@.len() <= i < r.op_handlers@.len() ==> (#[trigger] r.op_handlers@[i]).0.extension
                == CONVERSIONS_EXTENSION && r.op_handlers@[i].1 == (OpHandler {
                id: CONVERSIONS_OP_HANDLER,
            }),
{
    let r = cem.extension_op(
        CONVERSIONS_EXTENSION,
        CONVERSIONS_OP_TRUNC_U,
        OpHandler { id: CONVERSIONS_OP_HANDLER },
    ).extension_op(
        CONVERSIONS_EXTENSION,
        CONVERSIONS_OP_TRUNC_S,
        OpHandler { id: CONVERSIONS_OP_HANDLER },
    ).extension_op(
        CONVERSIONS_EXTENSION,
        CONVERSIONS_OP_CONVERT_U,
        OpHandler { id: CONVERSIONS_OP_HANDLER },
    ).extension_op(
        CONVERSIONS_EXTENSION,
        CONVERSIONS_OP_CONVERT_S,
        OpHandler { id: CONVERSIONS_OP_HANDLER },
    );
    proof {
        assert(r.op_handlers@.subrange(0, cem.op_handlers@.len() as int) =~= cem.op_handlers@);
    }
    r
}

} // verus!
