//! The sum encoder: tag / untag / get-tag round trips and the runtime case
//! split over concrete values.

use hugr_llvm::sum::{LLVMSumType, LLVMSumValue, LLVMValue};
use hugr_llvm::types::{CodegenError, LLVMType};

fn two_variant_sum() -> LLVMSumType {
    // Variant 0: empty row; variant 1: one 64-bit leaf field.
    LLVMSumType { variant_types: vec![vec![], vec![LLVMType::Int(64)]] }
}

#[test]
fn round_trip_variant_with_field() {
    let st = two_variant_sum();
    let x = LLVMValue::Num(42);
    let v = st.build_tag(1, vec![x]).unwrap();
    let fields = st.build_untag(1, &v).unwrap();
    assert_eq!(fields, vec![LLVMValue::Num(42)]);
}

#[test]
fn round_trip_empty_variant() {
    let st = two_variant_sum();
    let v = st.build_tag(0, vec![]).unwrap();
    let fields = st.build_untag(0, &v).unwrap();
    assert_eq!(fields, Vec::<LLVMValue>::new());
}

#[test]
fn tag_fidelity() {
    let st = two_variant_sum();
    let v0 = st.build_tag(0, vec![]).unwrap();
    let v1 = st.build_tag(1, vec![LLVMValue::Num(9)]).unwrap();
    assert_eq!(st.build_get_tag(&v0), LLVMValue::Num(0));
    assert_eq!(st.build_get_tag(&v1), LLVMValue::Num(1));
}

#[test]
fn single_variant_sum_is_untagged() {
    let st = LLVMSumType { variant_types: vec![vec![LLVMType::Int(32)]] };
    // A one-variant sum is never tagged; its implicit tag is 0 whatever the
    // value, even an opaque one.
    let v = st.build_tag(0, vec![LLVMValue::Num(5)]).unwrap();
    assert_eq!(st.build_get_tag(&v), LLVMValue::Num(0));
    assert_eq!(st.build_get_tag(&LLVMValue::NodeOut(3, 0)), LLVMValue::Num(0));
    // The layout of an untagged sum has exactly one slot: the row struct.
    assert_eq!(v, LLVMValue::Agg(vec![LLVMValue::Agg(vec![LLVMValue::Num(5)])]));
}

#[test]
fn build_tag_checks_arity() {
    let st = two_variant_sum();
    assert_eq!(st.build_tag(0, vec![LLVMValue::Num(1)]).unwrap_err(), CodegenError::ShapeError);
    assert_eq!(st.build_tag(1, vec![]).unwrap_err(), CodegenError::ShapeError);
    assert_eq!(st.build_tag(2, vec![]).unwrap_err(), CodegenError::ShapeError);
}

#[test]
fn tagged_layout_is_co_resident() {
    let st = two_variant_sum();
    let v = st.build_tag(1, vec![LLVMValue::Num(7)]).unwrap();
    // Tag field first, then one slot per variant, co-resident: the unused
    // variant's storage is undefined, never reused.
    assert_eq!(
        v,
        LLVMValue::Agg(vec![
            LLVMValue::Num(1),
            LLVMValue::Undef,
            LLVMValue::Agg(vec![LLVMValue::Num(7)]),
        ])
    );
}

#[test]
fn destructure_enters_exactly_the_value_branch() {
    // Scenario: a 2-variant sum, variant 0 the empty row, variant 1 one leaf
    // field. The case split over the tagged value must enter exactly the
    // branch of the value's tag, with that variant's fields.
    let st = two_variant_sum();
    let x = LLVMValue::Num(11);
    let v1 = st.build_tag(1, vec![x]).unwrap();
    let sv1 = LLVMSumValue::try_new(v1, two_variant_sum());
    let (tag, fields) = sv1.build_destructure().unwrap();
    assert_eq!(tag, 1);
    assert_eq!(fields, vec![LLVMValue::Num(11)]);

    let v0 = st.build_tag(0, vec![]).unwrap();
    let sv0 = LLVMSumValue::try_new(v0, two_variant_sum());
    let (tag0, fields0) = sv0.build_destructure().unwrap();
    assert_eq!(tag0, 0);
    assert_eq!(fields0, Vec::<LLVMValue>::new());
}

#[test]
fn destructure_rejects_opaque_tag() {
    let sv = LLVMSumValue::try_new(LLVMValue::NodeOut(1, 0), two_variant_sum());
    assert_eq!(sv.build_destructure().unwrap_err(), CodegenError::UnsupportedConstruct);
}

#[test]
fn sum_type_accessors() {
    let st = two_variant_sum();
    assert_eq!(st.num_variants(), 2);
    assert_eq!(st.num_fields(1).unwrap(), 1);
    assert_eq!(st.num_fields(2).unwrap_err(), CodegenError::ShapeError);
    assert_eq!(st.get_tag_type(), LLVMType::Int(32));
    assert_eq!(st.get_undef(), LLVMValue::Undef);
    assert_eq!(st.get_poison(), LLVMValue::Undef);
    // The layout struct: the i32 tag, then the two variants' rows.
    assert_eq!(
        st.as_llvm_type(),
        LLVMType::Agg(vec![
            LLVMType::Int(32),
            LLVMType::Agg(vec![]),
            LLVMType::Agg(vec![LLVMType::Int(64)]),
        ])
    );
}
