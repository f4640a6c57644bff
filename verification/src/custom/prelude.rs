//! Lowering rules for the prelude extension: the usize and qubit leaf types
//! and the prelude's native constants.

use vstd::prelude::*;

use crate::custom::{CodegenExtsBuilder, ConstHandler};
use crate::types::{CustomTypeKey, LLVMType};

verus! {

/// The prelude's extension identifier.
pub const PRELUDE_EXTENSION: u64 = 1;

/// The name of the prelude's qubit leaf type.
pub const QUBIT_TYPE_NAME: u64 = 1;

/// The name of the prelude's usize leaf type.
pub const USIZE_TYPE_NAME: u64 = 2;

/// The kind of the prelude's native constants.
pub const PRELUDE_CONST_KIND: u64 = 1;

/// The concrete kind of usize constants.
pub const CONST_USIZE: u64 = 1;

/// The concrete kind of external-symbol constants.
pub const CONST_EXTERNAL_SYMBOL: u64 = 2;

/// The handle of the handler materialising usize constants.
pub const CONST_USIZE_HANDLER: u64 = 101;

/// The handle of the handler materialising external-symbol constants.
pub const CONST_EXTERNAL_SYMBOL_HANDLER: u64 = 102;

/// A hook customising how the prelude's leaf types are lowered; implement it
/// to lower the prelude for a particular target convention.
pub trait PreludeCodegen {
    /// The representation of the prelude's usize type.
    fn usize_type(&self) -> LLVMType;

    /// The representation of the prelude's qubit type.
    fn qubit_type(&self) -> LLVMType;
}

/// The trivial implementation of [`PreludeCodegen`]: usize is a 64-bit
/// integer and a qubit a 16-bit integer.
pub struct DefaultPreludeCodegen;

impl PreludeCodegen for DefaultPreludeCodegen {
    fn usize_type(&self) -> (r: LLVMType)
        ensures
            r@ == crate::types::LLVMTypeV::Int(64),
    {
        LLVMType::Int(64)
    }

    fn qubit_type(&self) -> (r: LLVMType)
        ensures
            r@ == crate::types::LLVMTypeV::Int(16),
    {
        LLVMType::Int(16)
    }
}

/// The registration key of the prelude's qubit type.
pub fn qubit_type_key() -> (r: CustomTypeKey)
    ensures
        r == (CustomTypeKey { extension: PRELUDE_EXTENSION, name: QUBIT_TYPE_NAME }),
{
    CustomTypeKey { extension: PRELUDE_EXTENSION, name: QUBIT_TYPE_NAME }
}

/// The registration key of the prelude's usize type.
pub fn usize_type_key() -> (r: CustomTypeKey)
    ensures
        r == (CustomTypeKey { extension: PRELUDE_EXTENSION, name: USIZE_TYPE_NAME }),
{
    CustomTypeKey { extension: PRELUDE_EXTENSION, name: USIZE_TYPE_NAME }
}

/// Registers the prelude's lowering rules using `pcg` as the implementation:
/// type handlers for the qubit and usize leaf types, and constant handlers
/// for the prelude's usize and external-symbol constants.
pub fn add_prelude_extensions<P: PreludeCodegen>(cem: CodegenExtsBuilder, pcg: &P) -> (r:
    CodegenExtsBuilder)
    ensures
        r.type_handlers@.len() == cem.type_handlers@.len() + 2,
        r.type_handlers@.subrange(0, cem.type_handlers@.len() as int) == cem.type_handlers@,
        r.type_handlers@[cem.type_handlers@.len() as int].0 == (CustomTypeKey {
            extension: PRELUDE_EXTENSION,
            name: QUBIT_TYPE_NAME,
        }),
        r.type_handlers@[cem.type_handlers@.len() as int + 1].0 == (CustomTypeKey {
            extension: PRELUDE_EXTENSION,
            name: USIZE_TYPE_NAME,
        }),
        r.op_handlers@ == cem.op_handlers@,
        r.const_handlers@ == cem.const_handlers@.push(
            (PRELUDE_CONST_KIND, ConstHandler { accepts: CONST_USIZE, id: CONST_USIZE_HANDLER }),
        ).push(
            (
                PRELUDE_CONST_KIND,
                ConstHandler { accepts: CONST_EXTERNAL_SYMBOL, id: CONST_EXTERNAL_SYMBOL_HANDLER },
            ),
        ),
{
    let qubit = pcg.qubit_type();
    let usize_t = pcg.usize_type();
    let r = cem.custom_type(qubit_type_key(), qubit).custom_type(usize_type_key(), usize_t)
        .custom_const(
        PRELUDE_CONST_KIND,
        ConstHandler { accepts: CONST_USIZE, id: CONST_USIZE_HANDLER },
    ).custom_const(
        PRELUDE_CONST_KIND,
        ConstHandler { accepts: CONST_EXTERNAL_SYMBOL, id: CONST_EXTERNAL_SYMBOL_HANDLER },
    );
    proof {
        assert(r.type_handlers@.subrange(0, cem.type_handlers@.len() as int)
            =~= cem.type_handlers@);
    }
    r
}

/// Registers the prelude's lowering rules using [`DefaultPreludeCodegen`].
pub fn add_default_prelude_extensions(cem: CodegenExtsBuilder) -> (r: CodegenExtsBuilder)
    ensures
        r.type_handlers@.len() == cem.type_handlers@.len() + 2,
        r.type_handlers@.subrange(0, cem.type_handlers@.len() as int) == cem.type_handlers@,
        r.type_handlers@[cem.type_handlers@.len() as int].0 == (CustomTypeKey {
            extension: PRELUDE_EXTENSION,
            name: QUBIT_TYPE_NAME,
        }),
        r.type_handlers@[cem.type_handlers@.len() as int + 1].0 == (CustomTypeKey {
            extension: PRELUDE_EXTENSION,
            name: USIZE_TYPE_NAME,
        }),
        r.op_handlers@ == cem.op_handlers@,
        r.const_handlers@ == cem.const_handlers@.push(
            (PRELUDE_CONST_KIND, ConstHandler { accepts: CONST_USIZE, id: CONST_USIZE_HANDLER }),
        ).push(
            (
                PRELUDE_CONST_KIND,
                ConstHandler { accepts: CONST_EXTERNAL_SYMBOL, id: CONST_EXTERNAL_SYMBOL_HANDLER },
            ),
        ),
{
    add_prelude_extensions(cem, &DefaultPreludeCodegen)
}

} // verus!
