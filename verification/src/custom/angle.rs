//! Lowering rules for the angle extension.
//!
//! The angle leaf type is lowered to the same integer type as usize, with
//! every value normalised to a log-denominator equal to that type's width;
//! the angle ops then lower to the equivalent wrapping unsigned integer
//! operations.

use vstd::prelude::*;

use crate::custom::{CodegenExtension, CodegenExtsBuilder, CodegenExtsMap, ConstHandler, OpHandler};
use crate::types::{CustomTypeKey, LLVMType, LLVMTypeV};

verus! {

/// The angle extension's identifier.
pub const ANGLE_EXTENSION: u64 = 2;

/// The name of the angle leaf type.
pub const ANGLE_TYPE_NAME: u64 = 1;

/// The angle op names routed to the angle op handler.
pub const ANGLE_OP_AADD: u64 = 1;

pub const ANGLE_OP_ASUB: u64 = 2;

pub const ANGLE_OP_AMUL: u64 = 3;

pub const ANGLE_OP_ANEG: u64 = 4;

pub const ANGLE_OP_AEQ: u64 = 5;

/// The handle of the angle op handler.
pub const ANGLE_OP_HANDLER: u64 = 201;

/// The kind of the angle extension's native constants.
pub const ANGLE_CONST_KIND: u64 = 2;

/// The concrete kind of angle constants.
pub const CONST_ANGLE: u64 = 1;

/// The handle of the handler materialising angle constants.
pub const CONST_ANGLE_HANDLER: u64 = 202;

/// The codegen extension for the angle extension.
pub struct AngleCodegenExtension;

/// The registration key of the angle leaf type.
pub fn angle_type_key() -> (r: CustomTypeKey)
    ensures
        r == (CustomTypeKey { extension: ANGLE_EXTENSION, name: ANGLE_TYPE_NAME }),
{
    CustomTypeKey { extension: ANGLE_EXTENSION, name: ANGLE_TYPE_NAME }
}

impl CodegenExtension for AngleCodegenExtension {
    fn add_extension(self, builder: CodegenExtsBuilder) -> CodegenExtsBuilder {
        add_angle_extensions_to(builder)
    }
}

/// Registers the angle extension's handlers: the angle leaf type as a 64-bit
/// integer, the angle ops, and the angle constant handler.
pub fn add_angle_extensions_to(cem: CodegenExtsBuilder) -> (r: CodegenExtsBuilder)
    ensures
        r.type_handlers@ == cem.type_handlers@.push((angle_key(), LLVMType::Int(64))),
        r.op_handlers@.len() == cem.op_handlers@.len() + 5,
        r.op_handlers@.subrange(0, cem.op_handlers@.len() as int) == cem.op_handlers@,
        forall|i: int|
            cem.op_handlers@.len() <= i < r.op_handlers@.len() ==> (#[trigger] r.op_handlers@[i]).0.extension
                == ANGLE_EXTENSION && r.op_handlers@[i].1 == (OpHandler { id: ANGLE_OP_HANDLER }),
        r.const_handlers@ == cem.const_handlers@.push(
            (ANGLE_CONST_KIND, ConstHandler { accepts: CONST_ANGLE, id: CONST_ANGLE_HANDLER }),
        ),
{
    let r = cem.custom_type(angle_type_key(), LLVMType::Int(64)).extension_op(
        ANGLE_EXTENSION,
        ANGLE_OP_AADD,
        OpHandler { id: ANGLE_OP_HANDLER },
    ).extension_op(ANGLE_EXTENSION, ANGLE_OP_ASUB, OpHandler { id: ANGLE_OP_HANDLER })
        .extension_op(ANGLE_EXTENSION, ANGLE_OP_AMUL, OpHandler { id: ANGLE_OP_HANDLER })
        .extension_op(ANGLE_EXTENSION, ANGLE_OP_ANEG, OpHandler { id: ANGLE_OP_HANDLER })
        .extension_op(ANGLE_EXTENSION, ANGLE_OP_AEQ, OpHandler { id: ANGLE_OP_HANDLER })
        .custom_const(
        ANGLE_CONST_KIND,
        ConstHandler { accepts: CONST_ANGLE, id: CONST_ANGLE_HANDLER },
    );
    proof {
        assert(r.op_handlers@.subrange(0, cem.op_handlers@.len() as int) =~= cem.op_handlers@);
    }
    r
}

/// The registration key of the angle leaf type, in spec form.
pub open spec fn angle_key() -> CustomTypeKey {
    CustomTypeKey { extension: ANGLE_EXTENSION, name: ANGLE_TYPE_NAME }
}

impl CodegenExtsMap {
    /// Adds the angle extension's handlers to this registry: the angle leaf
    /// type maps to the usize integer type, and the angle ops are routed to
    /// the angle op handler.
    pub fn add_angle_extensions(self) -> (r: CodegenExtsMap)
        ensures
            r.type_handlers@ == self.type_handlers@.push((angle_key(), LLVMType::Int(64))),
            r.type_handlers@.last().1@ == LLVMTypeV::Int(64),
            r.op_handlers@.len() == self.op_handlers@.len() + 5,
            r.op_handlers@.subrange(0, self.op_handlers@.len() as int) == self.op_handlers@,
            forall|i: int|
                self.op_handlers@.len() <= i < r.op_handlers@.len() ==> (
                #[trigger] r.op_handlers@[i]).0.extension == ANGLE_EXTENSION
                    && r.op_handlers@[i].1 == (OpHandler { id: ANGLE_OP_HANDLER }),
            r.const_handlers@ == self.const_handlers@.push(
                (ANGLE_CONST_KIND, ConstHandler { accepts: CONST_ANGLE, id: CONST_ANGLE_HANDLER }),
            ),
    {
        let b = CodegenExtsBuilder {
            type_handlers: self.type_handlers,
            op_handlers: self.op_handlers,
            const_handlers: self.const_handlers,
        };
        add_angle_extensions_to(b).finish()
    }
}

} // verus!
