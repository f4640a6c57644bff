//! Lowering rules for the tket2 quantum extension: its gate and measurement
//! ops are routed to the tket2 op handler.

use vstd::prelude::*;

use crate::custom::{CodegenExtsBuilder, CodegenExtsMap, OpHandler};

verus! {

/// The tket2 extension's identifier.
pub const TKET2_EXTENSION: u64 = 4;

/// The tket2 op names routed to the tket2 op handler.
pub const TKET2_OP_H: u64 = 1;

pub const TKET2_OP_RZ_F64: u64 = 2;

pub const TKET2_OP_QALLOC: u64 = 3;

pub const TKET2_OP_QFREE: u64 = 4;

pub const TKET2_OP_MEASURE: u64 = 5;

/// The handle of the tket2 op handler.
pub const TKET2_OP_HANDLER: u64 = 401;

/// Registers the tket2 extension's op handlers.
pub fn add_tket2_extensions_to(cem: CodegenExtsBuilder) -> (r: CodegenExtsBuilder)
    ensures
        r.type_handlers@ == cem.type_handlers@,
        r.const_handlers@ == cem.const_handlers@,
        r.op_handlers@.len() == cem.op_handlers@.len() + 5,
        r.op_handlers@.subrange(0, cem.op_handlers@.len() as int) == cem.op_handlers@,
        forall|i: int|
            cem.op_handlers@.len() <= i < r.op_handlers@.len() ==> (#[trigger] r.op_handlers@[i]).0.extension
                == TKET2_EXTENSION && r.op_handlers@[i].1 == (OpHandler { id: TKET2_OP_HANDLER }),
{
    let r = cem.extension_op(TKET2_EXTENSION, TKET2_OP_H, OpHandler { id: TKET2_OP_HANDLER })
        .extension_op(TKET2_EXTENSION, TKET2_OP_RZ_F64, OpHandler { id: TKET2_OP_HANDLER })
        .extension_op(TKET2_EXTENSION, TKET2_OP_QALLOC, OpHandler { id: TKET2_OP_HANDLER })
        .extension_op(TKET2_EXTENSION, TKET2_OP_QFREE, OpHandler { id: TKET2_OP_HANDLER })
        .extension_op(TKET2_EXTENSION, TKET2_OP_MEASURE, OpHandler { id: TKET2_OP_HANDLER });
    proof {
        assert(r.op_handlers@.subrange(0, cem.op_handlers@.len() as int) =~= cem.op_handlers@);
    }
    r
}

impl CodegenExtsMap {
    /// Adds the tket2 extension's op handlers to this registry.
    pub fn add_tket2_extensions(self) -> (r: CodegenExtsMap)
        ensures
            r.type_handlers@ == self.type_handlers@,
            r.const_handlers@ == self.const_handlers@,
            r.op_handlers@.len() == self.op_handlers@.len() + 5,
            r.op_handlers@.subrange(0, self.op_handlers@.len() as int) == self.op_handlers@,
            forall|i: int|
                self.op_handlers@.len() <= i < r.op_handlers@.len() ==> (
                #[trigger] r.op_handlers@[i]).0.extension == TKET2_EXTENSION
                    && r.op_handlers@[i].1 == (OpHandler { id: TKET2_OP_HANDLER }),
    {
        let b = CodegenExtsBuilder {
            type_handlers: self.type_handlers,
            op_handlers: self.op_handlers,
            const_handlers: self.const_handlers,
        };
        add_tket2_extensions_to(b).finish()
    }
}

} // verus!
