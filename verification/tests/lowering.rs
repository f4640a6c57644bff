//! The type mapper, the mailboxes, and the region emitters, on concrete
//! graphs.

use hugr_llvm::custom::prelude::{
    add_default_prelude_extensions, CONST_USIZE, CONST_USIZE_HANDLER, PRELUDE_CONST_KIND,
    PRELUDE_EXTENSION, USIZE_TYPE_NAME,
};
use hugr_llvm::custom::{CodegenExtsBuilder, CodegenExtsMap, NativeConst, OpHandler};
use hugr_llvm::emit::func::{EmitFuncContext, Instr};
use hugr_llvm::emit::ops::cfg::emit_cfg;
use hugr_llvm::emit::{emit_func, emit_module};
use hugr_llvm::graph::{
    CfgBlock, CfgRegion, ConstValue, DfgChild, DfgRegion, FuncDefn, ModuleGraph, OpKind, WireSrc,
};
use hugr_llvm::sum::{LLVMSumType, LLVMValue};
use hugr_llvm::type_map::TypingSession;
use hugr_llvm::types::{CodegenError, CustomTypeKey, HugrSumType, HugrType, LLVMType};

fn usize_key() -> CustomTypeKey {
    CustomTypeKey { extension: PRELUDE_EXTENSION, name: USIZE_TYPE_NAME }
}

fn usize_type() -> HugrType {
    HugrType::Extension(usize_key())
}

fn prelude_exts() -> CodegenExtsMap {
    add_default_prelude_extensions(CodegenExtsBuilder::new()).finish()
}

fn usize_const() -> ConstValue {
    ConstValue::Extension {
        konst: NativeConst { kind: PRELUDE_CONST_KIND, concrete: CONST_USIZE },
    }
}

fn usize_const_value() -> LLVMValue {
    LLVMValue::ConstVal(CONST_USIZE_HANDLER, CONST_USIZE)
}

#[test]
fn type_mapping_is_deterministic() {
    // Mapping the same graph type twice in one compilation yields
    // structurally identical representations.
    let exts = prelude_exts();
    let session = TypingSession::new(&exts);
    let sum = HugrType::Sum(HugrSumType {
        variants: vec![vec![usize_type()], vec![usize_type(), usize_type()]],
    });
    let first = session.llvm_type(&sum).unwrap();
    let second = session.llvm_type(&sum).unwrap();
    assert_eq!(first, second);
    // The tagged-all-variants layout: an i32 tag, then one struct per
    // variant's row, co-resident.
    assert_eq!(
        first,
        LLVMType::Agg(vec![
            LLVMType::Int(32),
            LLVMType::Agg(vec![LLVMType::Int(64)]),
            LLVMType::Agg(vec![LLVMType::Int(64), LLVMType::Int(64)]),
        ])
    );
}

#[test]
fn type_mapping_errors() {
    let exts = prelude_exts();
    let session = TypingSession::new(&exts);
    let unregistered = HugrType::Extension(CustomTypeKey { extension: 99, name: 99 });
    assert_eq!(session.llvm_type(&unregistered).unwrap_err(), CodegenError::LookupError);
    let var = HugrType::Variable(0);
    assert_eq!(session.llvm_type(&var).unwrap_err(), CodegenError::UnsupportedConstruct);
}

#[test]
fn function_type_as_value_is_a_pointer() {
    let exts = prelude_exts();
    let session = TypingSession::new(&exts);
    let ft = HugrType::Function(Box::new(hugr_llvm::types::HugrFuncType {
        inputs: vec![usize_type()],
        outputs: vec![usize_type()],
    }));
    assert_eq!(session.llvm_type(&ft).unwrap(), LLVMType::Ptr);
}

#[test]
fn mailbox_write_then_read_yields_row_unchanged() {
    let mut ctx = EmitFuncContext::new();
    let mb = ctx.new_row_mail_box(2);
    let vs = vec![LLVMValue::Num(1), LLVMValue::Num(2)];
    ctx.write_mailbox(mb, vs).unwrap();
    let row = ctx.read_mailbox(mb);
    assert_eq!(row, vec![LLVMValue::Num(1), LLVMValue::Num(2)]);
    // A second write from another path overwrites; a later read sees it.
    ctx.write_mailbox(mb, vec![LLVMValue::Num(3), LLVMValue::Num(4)]).unwrap();
    assert_eq!(ctx.read_mailbox(mb), vec![LLVMValue::Num(3), LLVMValue::Num(4)]);
}

#[test]
fn empty_row_mailbox_reads_without_a_write() {
    let mut ctx = EmitFuncContext::new();
    let mb = ctx.new_row_mail_box(0);
    assert_eq!(ctx.read_mailbox(mb), Vec::<LLVMValue>::new());
}

#[test]
fn mailbox_write_is_row_length_checked() {
    let mut ctx = EmitFuncContext::new();
    let mb = ctx.new_row_mail_box(2);
    let e = ctx.write_mailbox(mb, vec![LLVMValue::Num(1)]).unwrap_err();
    assert_eq!(e, CodegenError::ShapeError);
}

/// A straight-line region whose children are listed against dependency
/// order: the tuple at index 0 reads the constant at index 1, so emission
/// must topologically sort before reading.
fn out_of_order_region() -> DfgRegion {
    DfgRegion {
        num_inputs: 0,
        children: vec![
            DfgChild {
                node: 1,
                op: OpKind::MakeTuple { row: vec![usize_type()] },
                in_wires: vec![WireSrc::Child(1, 0)],
                num_outputs: 1,
            },
            DfgChild {
                node: 2,
                op: OpKind::LoadConstant { value: usize_const() },
                in_wires: vec![],
                num_outputs: 1,
            },
        ],
        output_wires: vec![WireSrc::Child(0, 0)],
    }
}

#[test]
fn dataflow_region_emits_in_topological_order() {
    let exts = prelude_exts();
    let f = FuncDefn { node: 100, name: 1, body: out_of_order_region() };
    let (_, outs) = emit_func(&exts, &f).unwrap();
    // The tuple holds the materialised constant: had the children been
    // emitted in listed order, the tuple would have read an unwritten
    // mailbox instead.
    assert_eq!(outs, vec![LLVMValue::Agg(vec![LLVMValue::Agg(vec![usize_const_value()])])]);
}

#[test]
fn cyclic_wires_in_a_straight_line_region_fail() {
    let exts = prelude_exts();
    let body = DfgRegion {
        num_inputs: 0,
        children: vec![DfgChild {
            node: 1,
            op: OpKind::MakeTuple { row: vec![usize_type()] },
            in_wires: vec![WireSrc::Child(0, 0)],
            num_outputs: 1,
        }],
        output_wires: vec![],
    };
    let f = FuncDefn { node: 100, name: 1, body };
    assert_eq!(emit_func(&exts, &f).unwrap_err(), CodegenError::ShapeError);
}

fn empty_case(num_inputs: usize) -> DfgRegion {
    DfgRegion { num_inputs, children: vec![], output_wires: vec![] }
}

fn conditional_func(n_cases: usize, n_variants: usize) -> FuncDefn {
    let mut variants: Vec<Vec<HugrType>> = Vec::new();
    for _ in 0..n_variants {
        variants.push(vec![]);
    }
    let sum_type = HugrSumType { variants };
    let mut cases = Vec::new();
    for _ in 0..n_cases {
        cases.push(empty_case(0));
    }
    FuncDefn {
        node: 100,
        name: 1,
        body: DfgRegion {
            num_inputs: 1,
            children: vec![DfgChild {
                node: 1,
                op: OpKind::Conditional { sum_type, cases },
                in_wires: vec![WireSrc::Input(0)],
                num_outputs: 0,
            }],
            output_wires: vec![],
        },
    }
}

#[test]
fn conditional_case_count_must_match_variant_count() {
    // Scenario: a conditional with 2 declared cases but a selector sum type
    // with 3 variants fails with a ShapeError, not by dropping a case.
    let exts = prelude_exts();
    assert_eq!(
        emit_func(&exts, &conditional_func(2, 3)).unwrap_err(),
        CodegenError::ShapeError
    );
}

#[test]
fn conditional_with_matching_cases_lowers() {
    let exts = prelude_exts();
    let (ctx, _) = emit_func(&exts, &conditional_func(2, 2)).unwrap();
    // One block per case plus the exit block were added to the entry block.
    assert_eq!(ctx.blocks.len(), 4);
    // The pre-allocated case mailboxes hold each variant's (empty) fields
    // plus the (empty) passthrough row, and the shared exit mailbox was
    // written by the cases.
    assert_eq!(ctx.mailboxes[3].slot, Some(vec![]));
    assert_eq!(ctx.mailboxes[4].slot, Some(vec![]));
    assert_eq!(ctx.mailboxes[2].slot, Some(vec![]));
}

#[test]
fn conditional_cases_receive_their_variant_fields() {
    // A two-variant selector whose second variant carries one field; the
    // conditional's selector is a constant sum, and each case's mailbox
    // receives exactly its variant's fields plus the passthrough inputs.
    let exts = prelude_exts();
    let mut variants: Vec<Vec<HugrType>> = Vec::new();
    variants.push(vec![]);
    variants.push(vec![usize_type()]);
    let selector = ConstValue::Sum {
        tag: 1,
        values: vec![usize_const()],
        sum_type: HugrSumType { variants },
    };
    let mut variants2: Vec<Vec<HugrType>> = Vec::new();
    variants2.push(vec![]);
    variants2.push(vec![usize_type()]);
    let body = DfgRegion {
        num_inputs: 0,
        children: vec![
            DfgChild {
                node: 1,
                op: OpKind::LoadConstant { value: selector },
                in_wires: vec![],
                num_outputs: 1,
            },
            DfgChild {
                node: 2,
                op: OpKind::Conditional {
                    sum_type: HugrSumType { variants: variants2 },
                    cases: vec![empty_case(0), empty_case(1)],
                },
                in_wires: vec![WireSrc::Child(0, 0)],
                num_outputs: 0,
            },
        ],
        output_wires: vec![],
    };
    let f = FuncDefn { node: 100, name: 1, body };
    let (ctx, _) = emit_func(&exts, &f).unwrap();
    // Mailboxes: the function's output, the two children's, the conditional's
    // exit, then the two pre-allocated case mailboxes. Case 0's row is its
    // empty variant; case 1's row is the selector's carried field.
    assert_eq!(ctx.mailboxes[4].slot, Some(vec![]));
    assert_eq!(ctx.mailboxes[5].slot, Some(vec![usize_const_value()]));
}

#[test]
fn cfg_two_block_graph_forwards_the_entry_row() {
    // Scenario: the entry block unconditionally selects its sole successor,
    // the exit; the exit's row must equal exactly the row written by the
    // entry, with no other block ever created.
    let exts = prelude_exts();
    let sum_type = HugrSumType { variants: vec![vec![usize_type()]] };
    let entry_body = DfgRegion {
        num_inputs: 1,
        children: vec![DfgChild {
            node: 10,
            op: OpKind::Tag { tag: 0, sum_type },
            in_wires: vec![WireSrc::Input(0)],
            num_outputs: 1,
        }],
        output_wires: vec![WireSrc::Child(0, 0)],
    };
    let cfg = CfgRegion {
        blocks: vec![CfgBlock {
            node: 11,
            body: entry_body,
            sum_rows: vec![vec![usize_type()]],
            successors: vec![1],
        }],
        exit_row_len: 1,
    };
    let mut ctx = EmitFuncContext::new();
    let promise_mb = ctx.new_row_mail_box(1);
    emit_cfg(&mut ctx, &exts, 11, &cfg, vec![LLVMValue::Num(7)], promise_mb.promise()).unwrap();
    // The region's exit-source mailbox was the first allocated inside; the
    // exit's row is exactly the row the entry carried on its sole edge.
    assert_eq!(ctx.mailboxes[1].slot, Some(vec![LLVMValue::Num(7)]));
    // The region's outbound promise carries the merged names of the node.
    assert_eq!(ctx.mailboxes[0].slot, Some(vec![LLVMValue::NodeOut(11, 0)]));
    // The entry block of the context, the exit block, and the one
    // basic-block child: no other block was created.
    assert_eq!(ctx.blocks.len(), 3);
    // The cursor ends at the exit block (the first block allocated inside).
    assert_eq!(ctx.cur, 1);
    // The entry child's mailbox still holds the region's input row.
    assert_eq!(ctx.mailboxes[2].slot, Some(vec![LLVMValue::Num(7)]));
}

#[test]
fn call_of_type_parametric_function_is_unsupported() {
    // Scenario: lowering a call to a type-parametric function returns
    // UnsupportedConstruct rather than producing malformed output.
    let exts = prelude_exts();
    let body = DfgRegion {
        num_inputs: 0,
        children: vec![DfgChild {
            node: 1,
            op: OpKind::Call { func: 5, type_params: 1 },
            in_wires: vec![],
            num_outputs: 0,
        }],
        output_wires: vec![],
    };
    let f = FuncDefn { node: 100, name: 1, body };
    assert_eq!(emit_func(&exts, &f).unwrap_err(), CodegenError::UnsupportedConstruct);
}

#[test]
fn plain_call_lowers_to_its_merged_names() {
    let exts = prelude_exts();
    let body = DfgRegion {
        num_inputs: 0,
        children: vec![DfgChild {
            node: 1,
            op: OpKind::Call { func: 5, type_params: 0 },
            in_wires: vec![],
            num_outputs: 1,
        }],
        output_wires: vec![WireSrc::Child(0, 0)],
    };
    let f = FuncDefn { node: 100, name: 1, body };
    let (_, outs) = emit_func(&exts, &f).unwrap();
    assert_eq!(outs, vec![LLVMValue::NodeOut(1, 0)]);
}

#[test]
fn unregistered_custom_op_fails_lookup() {
    let exts = prelude_exts();
    let body = DfgRegion {
        num_inputs: 0,
        children: vec![DfgChild {
            node: 1,
            op: OpKind::ExtensionOp { extension: 50, name: 1 },
            in_wires: vec![],
            num_outputs: 0,
        }],
        output_wires: vec![],
    };
    let f = FuncDefn { node: 100, name: 1, body };
    assert_eq!(emit_func(&exts, &f).unwrap_err(), CodegenError::LookupError);
}

#[test]
fn registered_custom_op_is_routed() {
    let exts = add_default_prelude_extensions(CodegenExtsBuilder::new())
        .extension_op(50, 1, OpHandler { id: 77 })
        .finish();
    let body = DfgRegion {
        num_inputs: 0,
        children: vec![DfgChild {
            node: 1,
            op: OpKind::ExtensionOp { extension: 50, name: 1 },
            in_wires: vec![],
            num_outputs: 2,
        }],
        output_wires: vec![WireSrc::Child(0, 1)],
    };
    let f = FuncDefn { node: 100, name: 1, body };
    let (_, outs) = emit_func(&exts, &f).unwrap();
    assert_eq!(outs, vec![LLVMValue::NodeOut(1, 1)]);
}

#[test]
fn constants_materialise_recursively() {
    let exts = prelude_exts();
    let tuple = ConstValue::Tuple { values: vec![usize_const()] };
    let body = DfgRegion {
        num_inputs: 0,
        children: vec![DfgChild {
            node: 1,
            op: OpKind::LoadConstant { value: tuple },
            in_wires: vec![],
            num_outputs: 1,
        }],
        output_wires: vec![WireSrc::Child(0, 0)],
    };
    let f = FuncDefn { node: 100, name: 1, body };
    let (_, outs) = emit_func(&exts, &f).unwrap();
    assert_eq!(outs, vec![LLVMValue::Agg(vec![LLVMValue::Agg(vec![usize_const_value()])])]);
}

#[test]
fn sum_constants_build_the_tagged_value() {
    let exts = prelude_exts();
    let sum = ConstValue::Sum {
        tag: 1,
        values: vec![usize_const()],
        sum_type: HugrSumType { variants: vec![vec![], vec![usize_type()]] },
    };
    let body = DfgRegion {
        num_inputs: 0,
        children: vec![DfgChild {
            node: 1,
            op: OpKind::LoadConstant { value: sum },
            in_wires: vec![],
            num_outputs: 1,
        }],
        output_wires: vec![WireSrc::Child(0, 0)],
    };
    let f = FuncDefn { node: 100, name: 1, body };
    let (_, outs) = emit_func(&exts, &f).unwrap();
    assert_eq!(
        outs,
        vec![LLVMValue::Agg(vec![
            LLVMValue::Num(1),
            LLVMValue::Undef,
            LLVMValue::Agg(vec![usize_const_value()]),
        ])]
    );
}

#[test]
fn function_constants_are_unsupported() {
    let exts = prelude_exts();
    let body = DfgRegion {
        num_inputs: 0,
        children: vec![DfgChild {
            node: 1,
            op: OpKind::LoadConstant { value: ConstValue::Function },
            in_wires: vec![],
            num_outputs: 1,
        }],
        output_wires: vec![WireSrc::Child(0, 0)],
    };
    let f = FuncDefn { node: 100, name: 1, body };
    assert_eq!(emit_func(&exts, &f).unwrap_err(), CodegenError::UnsupportedConstruct);
}

#[test]
fn module_compilation_aborts_on_first_error() {
    let exts = prelude_exts();
    let good = FuncDefn { node: 1, name: 1, body: out_of_order_region() };
    let good2 = FuncDefn { node: 2, name: 2, body: out_of_order_region() };
    let ok = emit_module(&exts, &ModuleGraph { funcs: vec![good, good2] }).unwrap();
    assert_eq!(ok.len(), 2);

    let bad = conditional_func(2, 3);
    let good3 = FuncDefn { node: 1, name: 1, body: out_of_order_region() };
    let m = ModuleGraph { funcs: vec![good3, bad] };
    assert_eq!(emit_module(&exts, &m).unwrap_err(), CodegenError::ShapeError);
}

#[test]
fn nested_region_boundaries_hand_out_merged_names() {
    let exts = prelude_exts();
    // A nested straight-line region forwarding its own constant: the parent
    // sees the nested node's merged name, one per output port.
    let inner = DfgRegion {
        num_inputs: 0,
        children: vec![DfgChild {
            node: 20,
            op: OpKind::LoadConstant { value: usize_const() },
            in_wires: vec![],
            num_outputs: 1,
        }],
        output_wires: vec![WireSrc::Child(0, 0)],
    };
    let body = DfgRegion {
        num_inputs: 0,
        children: vec![DfgChild {
            node: 21,
            op: OpKind::Dfg(Box::new(inner)),
            in_wires: vec![],
            num_outputs: 1,
        }],
        output_wires: vec![WireSrc::Child(0, 0)],
    };
    let f = FuncDefn { node: 100, name: 1, body };
    let (ctx, outs) = emit_func(&exts, &f).unwrap();
    assert_eq!(outs, vec![LLVMValue::NodeOut(21, 0)]);
    // The nested region's own mailbox still holds the real value it produced.
    assert_eq!(ctx.mailboxes[2].slot, Some(vec![usize_const_value()]));
}

#[test]
fn diamond_region_wiring_is_order_free() {
    // A diamond of dependencies: two tuples both read the one constant, and
    // a final tag packs both. Whatever topological order emission takes,
    // each mailbox settles to the same row.
    let exts = prelude_exts();
    fn tuple_of_usize() -> HugrType {
        HugrType::Sum(HugrSumType { variants: vec![vec![usize_type()]] })
    }
    let body = DfgRegion {
        num_inputs: 0,
        children: vec![
            DfgChild {
                node: 1,
                op: OpKind::Tag {
                    tag: 0,
                    sum_type: HugrSumType {
                        variants: vec![vec![tuple_of_usize(), tuple_of_usize()]],
                    },
                },
                in_wires: vec![WireSrc::Child(2, 0), WireSrc::Child(3, 0)],
                num_outputs: 1,
            },
            DfgChild {
                node: 2,
                op: OpKind::LoadConstant { value: usize_const() },
                in_wires: vec![],
                num_outputs: 1,
            },
            DfgChild {
                node: 3,
                op: OpKind::MakeTuple { row: vec![usize_type()] },
                in_wires: vec![WireSrc::Child(1, 0)],
                num_outputs: 1,
            },
            DfgChild {
                node: 4,
                op: OpKind::MakeTuple { row: vec![usize_type()] },
                in_wires: vec![WireSrc::Child(1, 0)],
                num_outputs: 1,
            },
        ],
        output_wires: vec![WireSrc::Child(0, 0)],
    };
    let f = FuncDefn { node: 100, name: 1, body };
    let (_, outs) = emit_func(&exts, &f).unwrap();
    let tuple = LLVMValue::Agg(vec![LLVMValue::Agg(vec![usize_const_value()])]);
    let tuple2 = LLVMValue::Agg(vec![LLVMValue::Agg(vec![usize_const_value()])]);
    assert_eq!(outs, vec![LLVMValue::Agg(vec![LLVMValue::Agg(vec![tuple, tuple2])])]);
}

#[test]
fn sum_types_map_through_try_new() {
    let exts = prelude_exts();
    let session = TypingSession::new(&exts);
    let st = HugrSumType { variants: vec![vec![], vec![usize_type()]] };
    let lst = LLVMSumType::try_new(&session, &st).unwrap();
    assert_eq!(lst.variant_types, vec![vec![], vec![LLVMType::Int(64)]]);
    let bad = HugrSumType { variants: vec![vec![HugrType::Variable(0)]] };
    assert_eq!(
        LLVMSumType::try_new(&session, &bad).unwrap_err(),
        CodegenError::UnsupportedConstruct
    );
}

#[test]
fn conditional_records_the_switch_at_the_entry_position() {
    let exts = prelude_exts();
    let (ctx, _) = emit_func(&exts, &conditional_func(2, 2)).unwrap();
    // The function body's block holds the two case-mailbox writes followed
    // by the multi-way branch whose targets are the pre-allocated case
    // blocks, in tag order.
    let entry = &ctx.blocks[0].instrs;
    assert!(matches!(entry[0], Instr::MailboxWrite { mailbox: 3, .. }));
    assert!(matches!(entry[1], Instr::MailboxWrite { mailbox: 4, .. }));
    match &entry[2] {
        Instr::Switch { targets, .. } => assert_eq!(targets, &vec![2usize, 3usize]),
        other => panic!("expected a switch, found {:?}", other),
    }
}

#[test]
fn cfg_records_the_entry_write_and_branch() {
    let exts = prelude_exts();
    let sum_type = HugrSumType { variants: vec![vec![usize_type()]] };
    let entry_body = DfgRegion {
        num_inputs: 1,
        children: vec![DfgChild {
            node: 10,
            op: OpKind::Tag { tag: 0, sum_type },
            in_wires: vec![WireSrc::Input(0)],
            num_outputs: 1,
        }],
        output_wires: vec![WireSrc::Child(0, 0)],
    };
    let cfg = CfgRegion {
        blocks: vec![CfgBlock {
            node: 11,
            body: entry_body,
            sum_rows: vec![vec![usize_type()]],
            successors: vec![1],
        }],
        exit_row_len: 1,
    };
    let mut ctx = EmitFuncContext::new();
    let promise_mb = ctx.new_row_mail_box(1);
    emit_cfg(&mut ctx, &exts, 11, &cfg, vec![LLVMValue::Num(9)], promise_mb.promise()).unwrap();
    // The caller's block records exactly the write of the input row into the
    // entry child's mailbox and the branch to the entry block.
    let caller = &ctx.blocks[0].instrs;
    assert_eq!(caller.len(), 2);
    match &caller[0] {
        Instr::MailboxWrite { mailbox, values } => {
            assert_eq!(*mailbox, 2);
            assert_eq!(values, &vec![LLVMValue::Num(9)]);
        }
        other => panic!("expected the entry write, found {:?}", other),
    }
    assert!(matches!(caller[1], Instr::Br { target: 2 }));
}
