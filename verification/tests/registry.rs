//! The extension registry: last-write-wins registration, lookup failures,
//! constant-handler order, and the packaged extension sets.

use hugr_llvm::custom::angle::{
    AngleCodegenExtension, ANGLE_EXTENSION, ANGLE_OP_AADD, ANGLE_OP_HANDLER, ANGLE_TYPE_NAME,
};
use hugr_llvm::custom::conversions::{
    ConversionsCodegenExtension, CONVERSIONS_EXTENSION, CONVERSIONS_OP_HANDLER,
    CONVERSIONS_OP_TRUNC_U,
};
use hugr_llvm::custom::float::{
    add_float_extensions, CONST_F64, CONST_F64_HANDLER, FLOAT64_TYPE_NAME, FLOAT_CONST_KIND,
    FLOAT_TYPES_EXTENSION,
};
use hugr_llvm::debuginfo::{LocationInfo, ModuleInfo};
use hugr_llvm::custom::prelude::{
    add_default_prelude_extensions, PRELUDE_EXTENSION, QUBIT_TYPE_NAME, USIZE_TYPE_NAME,
};
use hugr_llvm::custom::tket2::{TKET2_EXTENSION, TKET2_OP_H, TKET2_OP_HANDLER};
use hugr_llvm::custom::tket2_qir::QirFunc;
use hugr_llvm::custom::{
    CodegenExtsBuilder, ConstHandler, ExtensionOpKey, NativeConst, OpHandler,
};
use hugr_llvm::types::{CodegenError, CustomTypeKey, LLVMType};

#[test]
fn registry_overwrite_returns_last_handler() {
    // Scenario: registering H1 then H2 under the same (extension id, op name)
    // key, then looking it up, returns H2.
    let key = ExtensionOpKey { extension: 7, name: 3 };
    let exts = CodegenExtsBuilder::new()
        .extension_op(7, 3, OpHandler { id: 1 })
        .extension_op(7, 3, OpHandler { id: 2 })
        .finish();
    assert_eq!(exts.lookup_op(key).unwrap(), OpHandler { id: 2 });
}

#[test]
fn lookup_of_never_registered_key_fails() {
    let exts = CodegenExtsBuilder::new().finish();
    assert_eq!(
        exts.lookup_op(ExtensionOpKey { extension: 1, name: 1 }).unwrap_err(),
        CodegenError::LookupError
    );
    assert_eq!(
        exts.lookup_type(CustomTypeKey { extension: 1, name: 1 }).unwrap_err(),
        CodegenError::LookupError
    );
    assert_eq!(
        exts.load_constant(NativeConst { kind: 1, concrete: 1 }).unwrap_err(),
        CodegenError::LookupError
    );
}

#[test]
fn type_handler_overwrite_returns_last_representation() {
    let key = CustomTypeKey { extension: 4, name: 4 };
    let exts = CodegenExtsBuilder::new()
        .custom_type(key, LLVMType::Int(8))
        .custom_type(key, LLVMType::Ptr)
        .finish();
    assert_eq!(exts.lookup_type(key).unwrap(), LLVMType::Ptr);
}

#[test]
fn constant_handlers_tried_in_registration_order() {
    let exts = CodegenExtsBuilder::new()
        .custom_const(9, ConstHandler { accepts: 5, id: 100 })
        .custom_const(9, ConstHandler { accepts: 5, id: 200 })
        .custom_const(9, ConstHandler { accepts: 6, id: 300 })
        .finish();
    // The first handler of the kind that accepts the constant wins.
    let h = exts.load_constant(NativeConst { kind: 9, concrete: 5 }).unwrap();
    assert_eq!(h.id, 100);
    let h6 = exts.load_constant(NativeConst { kind: 9, concrete: 6 }).unwrap();
    assert_eq!(h6.id, 300);
    // A handler of another kind never answers.
    assert_eq!(
        exts.load_constant(NativeConst { kind: 8, concrete: 5 }).unwrap_err(),
        CodegenError::LookupError
    );
}

#[test]
fn prelude_extensions_register_leaf_types() {
    let exts = add_default_prelude_extensions(CodegenExtsBuilder::new()).finish();
    let usize_t = exts
        .lookup_type(CustomTypeKey { extension: PRELUDE_EXTENSION, name: USIZE_TYPE_NAME })
        .unwrap();
    assert_eq!(usize_t, LLVMType::Int(64));
    let qubit_t = exts
        .lookup_type(CustomTypeKey { extension: PRELUDE_EXTENSION, name: QUBIT_TYPE_NAME })
        .unwrap();
    assert_eq!(qubit_t, LLVMType::Int(16));
}

#[test]
fn angle_extensions_register_type_and_ops() {
    let exts = CodegenExtsBuilder::new().finish().add_angle_extensions();
    let angle_t = exts
        .lookup_type(CustomTypeKey { extension: ANGLE_EXTENSION, name: ANGLE_TYPE_NAME })
        .unwrap();
    assert_eq!(angle_t, LLVMType::Int(64));
    let h = exts
        .lookup_op(ExtensionOpKey { extension: ANGLE_EXTENSION, name: ANGLE_OP_AADD })
        .unwrap();
    assert_eq!(h, OpHandler { id: ANGLE_OP_HANDLER });
}

#[test]
fn tket2_extensions_register_ops() {
    let exts = CodegenExtsBuilder::new().finish().add_tket2_extensions();
    let h = exts
        .lookup_op(ExtensionOpKey { extension: TKET2_EXTENSION, name: TKET2_OP_H })
        .unwrap();
    assert_eq!(h, OpHandler { id: TKET2_OP_HANDLER });
}

#[test]
fn qir_extensions_lower_qubits_to_pointers() {
    let exts = CodegenExtsBuilder::new().finish().add_tket2_qir_exts();
    let qubit_t = exts
        .lookup_type(CustomTypeKey { extension: PRELUDE_EXTENSION, name: QUBIT_TYPE_NAME })
        .unwrap();
    assert_eq!(qubit_t, LLVMType::Ptr);
}

#[test]
fn qir_symbols() {
    assert_eq!(QirFunc::H.symbol(), "__quantum__qis__h__body");
    assert_eq!(QirFunc::QAlloc.symbol(), "__quantum__rt__qubit_allocate");
    assert_eq!(QirFunc::Measure.symbol(), "__quantum__qis__m__body");
    assert_eq!(QirFunc::ReadResult.symbol(), "__quantum__qis__read_result__body");
    assert_eq!(QirFunc::QAlloc.func_type().params.len(), 0);
}

#[test]
fn extensions_register_through_the_builder_hook() {
    let exts = CodegenExtsBuilder::new()
        .add_extension(AngleCodegenExtension)
        .add_extension(ConversionsCodegenExtension)
        .finish();
    let angle_t = exts
        .lookup_type(CustomTypeKey { extension: ANGLE_EXTENSION, name: ANGLE_TYPE_NAME })
        .unwrap();
    assert_eq!(angle_t, LLVMType::Int(64));
    let h = exts
        .lookup_op(ExtensionOpKey {
            extension: CONVERSIONS_EXTENSION,
            name: CONVERSIONS_OP_TRUNC_U,
        })
        .unwrap();
    assert_eq!(h, OpHandler { id: CONVERSIONS_OP_HANDLER });
}

#[test]
fn source_location_records_carry_their_fields() {
    let mi = ModuleInfo::new(String::from("prog.py"));
    assert_eq!(mi.file, "prog.py");
    let li = LocationInfo::new(String::from("prog.py"), 12, 3);
    assert_eq!(li.file, "prog.py");
    assert_eq!(li.line, 12);
    assert_eq!(li.col, 3);
}

#[test]
fn error_descriptions_name_the_failure() {
    assert_eq!(CodegenError::LookupError.describe(), "no handler registered for key");
    assert_eq!(CodegenError::ShapeError.describe(), "arity or cardinality mismatch");
    assert_eq!(
        CodegenError::UnsupportedConstruct.describe(),
        "construct not supported by this engine"
    );
    assert_eq!(CodegenError::BackendError.describe(), "the IR builder rejected an operation");
}

#[test]
fn float_extensions_register_the_double_type() {
    let exts = add_float_extensions(CodegenExtsBuilder::new()).finish();
    let f64_t = exts
        .lookup_type(CustomTypeKey { extension: FLOAT_TYPES_EXTENSION, name: FLOAT64_TYPE_NAME })
        .unwrap();
    assert_eq!(f64_t, LLVMType::Float(64));
    let h = exts
        .load_constant(NativeConst { kind: FLOAT_CONST_KIND, concrete: CONST_F64 })
        .unwrap();
    assert_eq!(h, ConstHandler { accepts: CONST_F64, id: CONST_F64_HANDLER });
}

#[test]
fn qir_signatures_follow_the_runtime_convention() {
    assert_eq!(
        QirFunc::RZ.func_type().params,
        vec![LLVMType::Float(64), LLVMType::Ptr]
    );
    assert_eq!(QirFunc::RZ.func_type().results, vec![]);
    assert_eq!(QirFunc::Measure.func_type().results, vec![LLVMType::Ptr]);
    assert_eq!(QirFunc::ReadResult.func_type().results, vec![LLVMType::Int(1)]);
}
