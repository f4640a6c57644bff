//! The region emitters: straight-line (dataflow-parent) regions, conditional
//! case dispatch, and control-flow-graph regions, emitted over the function
//! context by a single recursive pass.
//!
//! A straight-line region's children are emitted in a topological order of
//! the internal data-dependency DAG (any valid order). The contracts pin the
//! mailbox each child fills to [`child_out_row`] — a function of the region,
//! its input row, and the registered handlers alone, never of the order — so
//! any two valid topological orders produce the same value flow; only the
//! physical instruction order may differ.
//!
//! Each child's outputs go through its own mailbox. Reading the boundary of
//! a nested region (a nested straight-line region, a conditional, or a
//! control-flow graph) hands out one merged name per output port — the moral
//! equivalent of a phi node — modelled by [`LLVMValueV::NodeOut`] values.

pub mod cfg;

use vstd::prelude::*;

use crate::custom::{
    const_handler_get, op_handler_get, CodegenExtsMap, ConstHandler, ExtensionOpKey, OpHandler,
};
use crate::emit::func::{
    spec_mailbox_read, EmitFuncContext, Instr, InstrV, MailboxV, RowMailBox, RowPromise,
};
use crate::graph::{CfgRegion, ConstValue, DfgChild, DfgRegion, OpKind, WireSrc};
use crate::sum::{
    clone_value, lemma_view_value_row, sum_tag_value, sum_untag_row, view_value_row, LLVMSumType,
    LLVMValue, LLVMValueV,
};
use crate::type_map::{spec_map_row, spec_map_variants, TypingSession};
use crate::types::{CodegenError, CustomTypeKey, HugrSumType, HugrType, LLVMType};

verus! {

broadcast use crate::sum::lemma_view_value_row;

// ---------------------------------------------------------------------------
// The order-free value semantics of a straight-line region.
// ---------------------------------------------------------------------------
/// The child index a wire depends on, if any.
pub open spec fn wire_dep(w: WireSrc) -> Option<usize> {
    match w {
        WireSrc::Input(_) => None,
        WireSrc::Child(i, _) => Some(i),
    }
}

/// The value carried by wire `w` of region `r` whose input row is `inputs`,
/// evaluated with `fuel` remaining dependency steps. A wire out of range
/// carries an undefined value.
pub open spec fn wire_val(
    r: DfgRegion,
    consts: Seq<(u64, ConstHandler)>,
    inputs: Seq<LLVMValueV>,
    w: WireSrc,
    fuel: nat,
) -> LLVMValueV
    decreases r, fuel, 1int,
{
    match w {
        WireSrc::Input(p) => {
            if p < inputs.len() {
                inputs[p as int]
            } else {
                LLVMValueV::Undef
            }
        }
        WireSrc::Child(i, p) => {
            if i < r.children@.len() && p < r.children@[i as int].num_outputs && fuel > 0 {
                let row = child_out_row(r, consts, inputs, i as int, (fuel - 1) as nat);
                if p < row.len() {
                    row[p as int]
                } else {
                    LLVMValueV::Undef
                }
            } else {
                LLVMValueV::Undef
            }
        }
    }
}

/// The input row of child `j`: its wires' values, in port order.
pub open spec fn child_in_vals(
    r: DfgRegion,
    consts: Seq<(u64, ConstHandler)>,
    inputs: Seq<LLVMValueV>,
    j: int,
    fuel: nat,
) -> Seq<LLVMValueV>
    decreases r, fuel, 2int,
{
    if 0 <= j < r.children@.len() {
        Seq::new(
            r.children@[j].in_wires@.len(),
            |t: int| wire_val(r, consts, inputs, r.children@[j].in_wires@[t], fuel),
        )
    } else {
        Seq::empty()
    }
}

/// The output row child `j` writes into its mailbox.
pub open spec fn child_out_row(
    r: DfgRegion,
    consts: Seq<(u64, ConstHandler)>,
    inputs: Seq<LLVMValueV>,
    j: int,
    fuel: nat,
) -> Seq<LLVMValueV>
    decreases r, fuel, 3int,
{
    child_result(consts, r.children@[j], child_in_vals(r, consts, inputs, j, fuel))
}

/// A row of the merged names a region, conditional, or call hands out: one
/// opaque value per output port of the node.
pub open spec fn node_out_vals(node: u64, n: nat) -> Seq<LLVMValueV> {
    Seq::new(n, |p: int| LLVMValueV::NodeOut(node, p as usize))
}

/// What one child's lowering leaves on its output ports, given its input
/// row: tuple and tag ops compute the tagged-all-variants value; a constant
/// load materialises the constant; everything routed to a handler, called,
/// or lowered as a nested region hands out its merged names.
pub open spec fn child_result(
    consts: Seq<(u64, ConstHandler)>,
    child: DfgChild,
    ins: Seq<LLVMValueV>,
) -> Seq<LLVMValueV> {
    match child.op {
        OpKind::MakeTuple { row } => seq![sum_tag_value(1, 0, ins)],
        OpKind::UnpackTuple { row } => sum_untag_row(
            1,
            row@.len(),
            0,
            if ins.len() > 0 {
                ins[0]
            } else {
                LLVMValueV::Undef
            },
        ),
        OpKind::Tag { tag, sum_type } => seq![
            sum_tag_value(sum_type.variants@.len(), tag, ins),
        ],
        OpKind::LoadConstant { value } => seq![const_val(consts, value)],
        OpKind::Call { func, type_params } => node_out_vals(child.node, child.num_outputs as nat),
        OpKind::ExtensionOp { extension, name } => node_out_vals(
            child.node,
            child.num_outputs as nat,
        ),
        OpKind::Dfg(inner) => node_out_vals(child.node, child.num_outputs as nat),
        OpKind::Conditional { sum_type, cases } => node_out_vals(
            child.node,
            child.num_outputs as nat,
        ),
        OpKind::Cfg(cfg) => node_out_vals(child.node, child.num_outputs as nat),
    }
}

/// The value a constant materialises to: native constants become the value
/// their handler returns; tuples and sums become the tagged-all-variants
/// value over their parts.
pub open spec fn const_val(consts: Seq<(u64, ConstHandler)>, cv: ConstValue) -> LLVMValueV
    decreases cv, 0int,
{
    match cv {
        ConstValue::Extension { konst } => match const_handler_get(consts, konst) {
            Some(h) => LLVMValueV::ConstVal(h.id, konst.concrete),
            None => LLVMValueV::Undef,
        },
        ConstValue::Tuple { values } => sum_tag_value(
            1,
            0,
            const_row_vals(consts, values@, values@.len() as int),
        ),
        ConstValue::Sum { tag, values, sum_type } => sum_tag_value(
            sum_type.variants@.len(),
            tag,
            const_row_vals(consts, values@, values@.len() as int),
        ),
        ConstValue::Function => LLVMValueV::Undef,
    }
}

/// The values of the first `k` constants of a row.
pub open spec fn const_row_vals(
    consts: Seq<(u64, ConstHandler)>,
    vs: Seq<ConstValue>,
    k: int,
) -> Seq<LLVMValueV>
    decreases vs, k,
{
    if k <= 0 || k > vs.len() {
        Seq::empty()
    } else {
        const_row_vals(consts, vs, k - 1).push(const_val(consts, vs[k - 1]))
    }
}

/// The region's boundary output row: the values of its output wires.
pub open spec fn region_out_vals(
    r: DfgRegion,
    consts: Seq<(u64, ConstHandler)>,
    inputs: Seq<LLVMValueV>,
) -> Seq<LLVMValueV>
    decreases r, r.children@.len() + 2, 0int,
{
    Seq::new(
        r.output_wires@.len(),
        |t: int| wire_val(r, consts, inputs, r.output_wires@[t], r.children@.len() + 1),
    )
}

// ---------------------------------------------------------------------------
// Definedness and fuel monotonicity.
// ---------------------------------------------------------------------------
/// Whether `fuel` dependency steps suffice to evaluate child `j`'s row: each
/// in-range wire dependency must be evaluable with one step fewer.
pub open spec fn child_defined(r: DfgRegion, j: int, fuel: nat) -> bool
    decreases fuel,
{
    0 <= j < r.children@.len() && forall|t: int|
        0 <= t < r.children@[j].in_wires@.len() ==> {
            let w = #[trigger] r.children@[j].in_wires@[t];
            match w {
                WireSrc::Input(_) => true,
                WireSrc::Child(i, p) => {
                    (i < r.children@.len() && p < r.children@[i as int].num_outputs) ==> (fuel > 0
                        && child_defined(r, i as int, (fuel - 1) as nat))
                }
            }
        }
}

/// Once a child's row is evaluable, more fuel does not change it.
pub proof fn lemma_fuel_mono(
    r: DfgRegion,
    consts: Seq<(u64, ConstHandler)>,
    inputs: Seq<LLVMValueV>,
    j: int,
    f1: nat,
    f2: nat,
)
    requires
        child_defined(r, j, f1),
        f1 <= f2,
    ensures
        child_defined(r, j, f2),
        child_out_row(r, consts, inputs, j, f2) == child_out_row(r, consts, inputs, j, f1),
    decreases f1,
{
    assert forall|t: int| 0 <= t < r.children@[j].in_wires@.len() implies {
        let w = #[trigger] r.children@[j].in_wires@[t];
        wire_val(r, consts, inputs, w, f2) == wire_val(r, consts, inputs, w, f1) && match w {
            WireSrc::Input(_) => true,
            WireSrc::Child(i, p) => {
                (i < r.children@.len() && p < r.children@[i as int].num_outputs) ==> (f2 > 0
                    && child_defined(r, i as int, (f2 - 1) as nat))
            }
        }
    } by {
        let w = r.children@[j].in_wires@[t];
        match w {
            WireSrc::Input(_) => {}
            WireSrc::Child(i, p) => {
                if i < r.children@.len() && p < r.children@[i as int].num_outputs {
                    lemma_fuel_mono(r, consts, inputs, i as int, (f1 - 1) as nat, (f2 - 1) as nat);
                }
            }
        }
    }
    assert(child_in_vals(r, consts, inputs, j, f2) =~= child_in_vals(r, consts, inputs, j, f1));
}

// ---------------------------------------------------------------------------
// Topological orders.
// ---------------------------------------------------------------------------
/// `ord` is a valid topological order of the region's children: a
/// permutation of all of them in which every in-range wire dependency of a
/// child appears before the child itself.
pub open spec fn valid_topo_order(r: DfgRegion, ord: Seq<usize>) -> bool {
    &&& ord.len() == r.children@.len()
    &&& forall|k: int| 0 <= k < ord.len() ==> (#[trigger] ord[k]) < r.children@.len()
    &&& forall|k1: int, k2: int| 0 <= k1 < k2 < ord.len() ==> ord[k1] != ord[k2]
    &&& forall|v: usize| v < r.children@.len() ==> ord.contains(v)
    &&& forall|k: int, t: int|
        0 <= k < ord.len() && 0 <= t < r.children@[ord[k] as int].in_wires@.len() ==> {
            let w = #[trigger] r.children@[ord[k] as int].in_wires@[t];
            match wire_dep(w) {
                Some(i) => i < r.children@.len() ==> exists|m: int| 0 <= m < k && ord[m] == i,
                None => true,
            }
        }
}

/// The region's children form a DAG under the wire dependencies: some valid
/// topological order exists.
pub open spec fn region_acyclic(r: DfgRegion) -> bool {
    exists|ord: Seq<usize>| valid_topo_order(r, ord)
}

// ---------------------------------------------------------------------------
// When emission succeeds: a static predicate of the region and the handlers.
// ---------------------------------------------------------------------------
/// Whether one child lowers without an error under the given handlers: its
/// arities are consistent, the types it builds map, its handlers are
/// registered, and its nested regions lower in turn.
pub open spec fn child_ok(
    types: Seq<(CustomTypeKey, LLVMType)>,
    ops: Seq<(ExtensionOpKey, OpHandler)>,
    consts: Seq<(u64, ConstHandler)>,
    child: DfgChild,
) -> bool
    decreases child, 0int,
{
    match child.op {
        OpKind::MakeTuple { row } => child.num_outputs == 1 && child.in_wires@.len() == row@.len()
            && spec_map_row(types, row@) is Ok,
        OpKind::UnpackTuple { row } => child.num_outputs == row@.len() && child.in_wires@.len()
            == 1 && spec_map_row(types, row@) is Ok,
        OpKind::Tag { tag, sum_type } => child.num_outputs == 1 && spec_map_variants(
            types,
            sum_type.variants@,
        ) is Ok && tag < sum_type.variants@.len() && child.in_wires@.len()
            == sum_type.variants@[tag as int]@.len(),
        OpKind::LoadConstant { value } => child.num_outputs == 1 && const_ok(types, consts, value),
        OpKind::Call { func, type_params } => type_params == 0,
        OpKind::ExtensionOp { extension, name } => op_handler_get(
            ops,
            ExtensionOpKey { extension, name },
        ) is Some,
        OpKind::Dfg(inner) => region_acyclic(*inner) && region_ok(types, ops, consts, *inner)
            && child.in_wires@.len() == inner.num_inputs && inner.output_wires@.len()
            == child.num_outputs,
        OpKind::Conditional { sum_type, cases } => cases@.len() == sum_type.variants@.len()
            && child.in_wires@.len() >= 1 && spec_map_variants(types, sum_type.variants@) is Ok
            && cases_ok(
            types,
            ops,
            consts,
            cases@,
            sum_type.variants@,
            child.in_wires@.len() - 1,
            child.num_outputs as int,
            cases@.len() as int,
        ),
        OpKind::Cfg(cfg) => cfg.blocks@.len() >= 1 && child.in_wires@.len()
            == cfg.blocks@[0].body.num_inputs && child.num_outputs == cfg.exit_row_len && cfg_ok(
            types,
            ops,
            consts,
            *cfg,
        ),
    }
}

/// Whether the first `k` children of the region all lower without an error.
pub open spec fn children_ok(
    types: Seq<(CustomTypeKey, LLVMType)>,
    ops: Seq<(ExtensionOpKey, OpHandler)>,
    consts: Seq<(u64, ConstHandler)>,
    r: DfgRegion,
    k: int,
) -> bool
    decreases r, k,
{
    k <= 0 || (k <= r.children@.len() && children_ok(types, ops, consts, r, k - 1) && child_ok(
        types,
        ops,
        consts,
        r.children@[k - 1],
    ))
}

/// Whether every child of the straight-line region lowers without an error.
pub open spec fn region_ok(
    types: Seq<(CustomTypeKey, LLVMType)>,
    ops: Seq<(ExtensionOpKey, OpHandler)>,
    consts: Seq<(u64, ConstHandler)>,
    r: DfgRegion,
) -> bool
    decreases r, r.children@.len() + 1,
{
    children_ok(types, ops, consts, r, r.children@.len() as int)
}

/// Whether the first `k` cases of a conditional lower without an error: each
/// case body takes its variant's fields plus the passthrough inputs, writes
/// the conditional's output row, and lowers in turn.
pub open spec fn cases_ok(
    types: Seq<(CustomTypeKey, LLVMType)>,
    ops: Seq<(ExtensionOpKey, OpHandler)>,
    consts: Seq<(u64, ConstHandler)>,
    cases: Seq<DfgRegion>,
    variants: Seq<Vec<HugrType>>,
    passthrough: int,
    num_outputs: int,
    k: int,
) -> bool
    decreases cases, k,
{
    k <= 0 || (k <= cases.len() && k <= variants.len() && cases_ok(
        types,
        ops,
        consts,
        cases,
        variants,
        passthrough,
        num_outputs,
        k - 1,
    ) && {
        let c = cases[k - 1];
        &&& region_acyclic(c)
        &&& region_ok(types, ops, consts, c)
        &&& c.num_inputs == variants[k - 1]@.len() + passthrough
        &&& c.output_wires@.len() == num_outputs
    })
}

/// Whether the first `k` basic-block children of a control-flow graph lower
/// without an error: each body lowers, its control sum maps and has one
/// variant per successor edge, and each edge's carried row plus the
/// passthrough outputs fit the successor's input row.
pub open spec fn cfg_blocks_ok(
    types: Seq<(CustomTypeKey, LLVMType)>,
    ops: Seq<(ExtensionOpKey, OpHandler)>,
    consts: Seq<(u64, ConstHandler)>,
    cfg: CfgRegion,
    k: int,
) -> bool
    decreases cfg, k,
{
    k <= 0 || (k <= cfg.blocks@.len() && cfg_blocks_ok(types, ops, consts, cfg, k - 1) && {
        let b = cfg.blocks@[k - 1];
        &&& region_acyclic(b.body)
        &&& region_ok(types, ops, consts, b.body)
        &&& b.successors@.len() == b.sum_rows@.len()
        &&& spec_map_variants(types, b.sum_rows@) is Ok
        &&& b.body.output_wires@.len() >= 1
        &&& forall|t: int|
            0 <= t < b.successors@.len() ==> {
                let dest = #[trigger] b.successors@[t];
                &&& dest <= cfg.blocks@.len()
                &&& b.sum_rows@[t]@.len() + b.body.output_wires@.len() - 1 == (if dest
                    == cfg.blocks@.len() {
                    cfg.exit_row_len as int
                } else {
                    cfg.blocks@[dest as int].body.num_inputs as int
                })
            }
    })
}

/// Whether every basic-block child of the control-flow graph lowers without
/// an error.
pub open spec fn cfg_ok(
    types: Seq<(CustomTypeKey, LLVMType)>,
    ops: Seq<(ExtensionOpKey, OpHandler)>,
    consts: Seq<(u64, ConstHandler)>,
    cfg: CfgRegion,
) -> bool
    decreases cfg, cfg.blocks@.len() + 1,
{
    cfg_blocks_ok(types, ops, consts, cfg, cfg.blocks@.len() as int)
}

/// Whether a constant materialises without an error: its native leaves have
/// registered handlers, its sums are in shape, and their types map.
pub open spec fn const_ok(
    types: Seq<(CustomTypeKey, LLVMType)>,
    consts: Seq<(u64, ConstHandler)>,
    cv: ConstValue,
) -> bool
    decreases cv, 0int,
{
    match cv {
        ConstValue::Extension { konst } => const_handler_get(consts, konst) is Some,
        ConstValue::Tuple { values } => const_list_ok(types, consts, values@, values@.len() as int),
        ConstValue::Sum { tag, values, sum_type } => {
            &&& spec_map_variants(types, sum_type.variants@) is Ok
            &&& tag < sum_type.variants@.len()
            &&& values@.len() == sum_type.variants@[tag as int]@.len()
            &&& const_list_ok(types, consts, values@, values@.len() as int)
        },
        ConstValue::Function => false,
    }
}

/// Whether the first `k` constants of a row materialise without an error.
pub open spec fn const_list_ok(
    types: Seq<(CustomTypeKey, LLVMType)>,
    consts: Seq<(u64, ConstHandler)>,
    vs: Seq<ConstValue>,
    k: int,
) -> bool
    decreases vs, k,
{
    k <= 0 || (k <= vs.len() && const_list_ok(types, consts, vs, k - 1) && const_ok(
        types,
        consts,
        vs[k - 1],
    ))
}

/// The first `k` children are fine exactly when each of them is.
pub proof fn lemma_children_ok_iff(
    types: Seq<(CustomTypeKey, LLVMType)>,
    ops: Seq<(ExtensionOpKey, OpHandler)>,
    consts: Seq<(u64, ConstHandler)>,
    r: DfgRegion,
    k: int,
)
    requires
        0 <= k <= r.children@.len(),
    ensures
        children_ok(types, ops, consts, r, k) <==> (forall|j: int|
            0 <= j < k ==> child_ok(types, ops, consts, #[trigger] r.children@[j])),
    decreases k,
{
    if k > 0 {
        lemma_children_ok_iff(types, ops, consts, r, k - 1);
    }
}

/// The first `k` cases are fine exactly when each of them is.
pub proof fn lemma_cases_ok_iff(
    types: Seq<(CustomTypeKey, LLVMType)>,
    ops: Seq<(ExtensionOpKey, OpHandler)>,
    consts: Seq<(u64, ConstHandler)>,
    cases: Seq<DfgRegion>,
    variants: Seq<Vec<HugrType>>,
    passthrough: int,
    num_outputs: int,
    k: int,
)
    requires
        0 <= k <= cases.len(),
        k <= variants.len(),
    ensures
        cases_ok(types, ops, consts, cases, variants, passthrough, num_outputs, k) <==> (forall|
            j: int,
        |
            0 <= j < k ==> {
                let c = #[trigger] cases[j];
                &&& region_acyclic(c)
                &&& region_ok(types, ops, consts, c)
                &&& c.num_inputs == variants[j]@.len() + passthrough
                &&& c.output_wires@.len() == num_outputs
            }),
    decreases k,
{
    if k > 0 {
        lemma_cases_ok_iff(types, ops, consts, cases, variants, passthrough, num_outputs, k - 1);
    }
}

/// The first `k` blocks are fine exactly when each of them is.
pub proof fn lemma_cfg_blocks_ok_iff(
    types: Seq<(CustomTypeKey, LLVMType)>,
    ops: Seq<(ExtensionOpKey, OpHandler)>,
    consts: Seq<(u64, ConstHandler)>,
    cfg: CfgRegion,
    k: int,
)
    requires
        0 <= k <= cfg.blocks@.len(),
    ensures
        cfg_blocks_ok(types, ops, consts, cfg, k) <==> (forall|j: int|
            0 <= j < k ==> {
                let b = #[trigger] cfg.blocks@[j];
                &&& region_acyclic(b.body)
                &&& region_ok(types, ops, consts, b.body)
                &&& b.successors@.len() == b.sum_rows@.len()
                &&& spec_map_variants(types, b.sum_rows@) is Ok
                &&& b.body.output_wires@.len() >= 1
                &&& forall|t: int|
                    0 <= t < b.successors@.len() ==> {
                        let dest = #[trigger] b.successors@[t];
                        &&& dest <= cfg.blocks@.len()
                        &&& b.sum_rows@[t]@.len() + b.body.output_wires@.len() - 1 == (if dest
                            == cfg.blocks@.len() {
                            cfg.exit_row_len as int
                        } else {
                            cfg.blocks@[dest as int].body.num_inputs as int
                        })
                    }
            }),
    decreases k,
{
    if k > 0 {
        lemma_cfg_blocks_ok_iff(types, ops, consts, cfg, k - 1);
    }
}

/// The first `k` constants are fine exactly when each of them is.
pub proof fn lemma_const_list_ok_iff(
    types: Seq<(CustomTypeKey, LLVMType)>,
    consts: Seq<(u64, ConstHandler)>,
    vs: Seq<ConstValue>,
    k: int,
)
    requires
        0 <= k <= vs.len(),
    ensures
        const_list_ok(types, consts, vs, k) <==> (forall|j: int|
            0 <= j < k ==> const_ok(types, consts, #[trigger] vs[j])),
    decreases k,
{
    if k > 0 {
        lemma_const_list_ok_iff(types, consts, vs, k - 1);
    }
}

/// The values of a constant row are taken constant by constant.
pub proof fn lemma_const_row_vals_index(
    consts: Seq<(u64, ConstHandler)>,
    vs: Seq<ConstValue>,
    k: int,
)
    requires
        0 <= k <= vs.len(),
    ensures
        const_row_vals(consts, vs, k).len() == k,
        forall|j: int|
            0 <= j < k ==> const_row_vals(consts, vs, k)[j] == const_val(consts, #[trigger] vs[j]),
    decreases k,
{
    if k > 0 {
        lemma_const_row_vals_index(consts, vs, k - 1);
    }
}

/// Order-independence: emitting a straight-line region's children in any two
/// valid topological orders produces the same value flow. The row a child
/// settles to at its position in one order equals the row at its position in
/// any other order, and both equal the row at full fuel — the row
/// [`emit_dataflow_parent`] leaves in the child's mailbox. Only the physical
/// instruction order may differ between the two emissions.
pub proof fn lemma_order_independence(
    r: DfgRegion,
    consts: Seq<(u64, ConstHandler)>,
    inputs: Seq<LLVMValueV>,
    ord1: Seq<usize>,
    ord2: Seq<usize>,
    k1: int,
    k2: int,
)
    requires
        valid_topo_order(r, ord1),
        valid_topo_order(r, ord2),
        0 <= k1 < ord1.len(),
        0 <= k2 < ord2.len(),
        ord1[k1] == ord2[k2],
    ensures
        child_out_row(r, consts, inputs, ord1[k1] as int, (k1 + 1) as nat) == child_out_row(
            r,
            consts,
            inputs,
            ord2[k2] as int,
            (k2 + 1) as nat,
        ),
        child_out_row(r, consts, inputs, ord1[k1] as int, (k1 + 1) as nat) == child_out_row(
            r,
            consts,
            inputs,
            ord1[k1] as int,
            r.children@.len() as nat,
        ),
{
    let n = r.children@.len() as nat;
    let j = ord1[k1] as int;
    lemma_topo_defined(r, consts, ord1, k1);
    lemma_topo_defined(r, consts, ord2, k2);
    lemma_fuel_mono(r, consts, inputs, j, (k1 + 1) as nat, n);
    lemma_fuel_mono(r, consts, inputs, j, (k2 + 1) as nat, n);
}

/// In a valid topological order, the child at position `k` is evaluable with
/// `k + 1` dependency steps.
pub proof fn lemma_topo_defined(r: DfgRegion, consts: Seq<(u64, ConstHandler)>, ord: Seq<usize>, k: int)
    requires
        valid_topo_order(r, ord),
        0 <= k < ord.len(),
    ensures
        child_defined(r, ord[k] as int, (k + 1) as nat),
    decreases k,
{
    let j = ord[k] as int;
    assert forall|t: int| 0 <= t < r.children@[j].in_wires@.len() implies {
        let w = #[trigger] r.children@[j].in_wires@[t];
        match w {
            WireSrc::Input(_) => true,
            WireSrc::Child(i, p) => {
                (i < r.children@.len() && p < r.children@[i as int].num_outputs) ==> ((k + 1) as nat
                    > 0 && child_defined(r, i as int, k as nat))
            }
        }
    } by {
        let w = r.children@[j].in_wires@[t];
        match w {
            WireSrc::Input(_) => {}
            WireSrc::Child(i, p) => {
                if i < r.children@.len() && p < r.children@[i as int].num_outputs {
                    assert(wire_dep(w) == Some(i));
                    let m = choose|m: int| 0 <= m < k && ord[m] == i;
                    lemma_topo_defined(r, consts, ord, m);
                    lemma_fuel_mono(
                        r,
                        consts,
                        Seq::empty(),
                        i as int,
                        (m + 1) as nat,
                        k as nat,
                    );
                }
            }
        }
    }
}

// ---------------------------------------------------------------------------
// Topological sorting of the dependency DAG.
// ---------------------------------------------------------------------------
/// `ord` is a topological order of the `n`-node graph with the given edges:
/// a permutation of all nodes in which every edge's source comes before its
/// target.
pub open spec fn topo_order_ok(n: int, edges: Seq<(usize, usize)>, ord: Seq<usize>) -> bool {
    &&& ord.len() == n
    &&& forall|k: int| 0 <= k < ord.len() ==> (#[trigger] ord[k]) < n
    &&& forall|k1: int, k2: int| 0 <= k1 < k2 < ord.len() ==> ord[k1] != ord[k2]
    &&& forall|v: usize| v < n ==> ord.contains(v)
    &&& forall|e: int, p: int, q: int|
        #![trigger edges[e], ord[p], ord[q]]
        0 <= e < edges.len() && 0 <= p < ord.len() && 0 <= q < ord.len() && ord[p] == edges[e].0
            && ord[q] == edges[e].1 ==> p < q
}

/// There is a wire of child `b` depending on child `a`.
pub open spec fn wire_edge(r: DfgRegion, a: usize, b: usize) -> bool {
    &&& (a as int) < r.children@.len()
    &&& (b as int) < r.children@.len()
    &&& exists|t: int|
        0 <= t < r.children@[b as int].in_wires@.len() && wire_dep(
            #[trigger] r.children@[b as int].in_wires@[t],
        ) == Some(a)
}

/// `edges` lists exactly the region's wire dependencies: every edge is one,
/// and every in-range wire dependency appears.
pub open spec fn edges_characterize(r: DfgRegion, edges: Seq<(usize, usize)>) -> bool {
    &&& forall|e: int|
        0 <= e < edges.len() ==> wire_edge(r, (#[trigger] edges[e]).0, edges[e].1)
    &&& forall|b: int, t: int|
        0 <= b < r.children@.len() && 0 <= t < r.children@[b].in_wires@.len() ==> match wire_dep(
            #[trigger] r.children@[b].in_wires@[t],
        ) {
            Some(i) => (i as int) < r.children@.len() ==> edges.contains((i, b as usize)),
            None => true,
        }
}

/// Collects the region's wire-dependency edges.
fn build_dep_edges(r: &DfgRegion) -> (edges: Vec<(usize, usize)>)
    ensures
        edges_characterize(*r, edges@),
{
    let n = r.children.len();
    let mut edges: Vec<(usize, usize)> = Vec::new();
    let mut b: usize = 0;
    while b < n
        invariant
            b <= n,
            n == r.children@.len(),
            forall|e: int|
                0 <= e < edges@.len() ==> wire_edge(*r, (#[trigger] edges@[e]).0, edges@[e].1),
            forall|b2: int, t: int|
                0 <= b2 < b && 0 <= t < r.children@[b2].in_wires@.len() ==> match wire_dep(
                    #[trigger] r.children@[b2].in_wires@[t],
                ) {
                    Some(i) => (i as int) < r.children@.len() ==> edges@.contains(
                        (i, b2 as usize),
                    ),
                    None => true,
                },
        decreases n - b,
    {
        let wires = &r.children[b].in_wires;
        let m = wires.len();
        let mut t: usize = 0;
        while t < m
            invariant
                t <= m,
                b < n,
                n == r.children@.len(),
                m == r.children@[b as int].in_wires@.len(),
                forall|e: int|
                    0 <= e < edges@.len() ==> wire_edge(*r, (#[trigger] edges@[e]).0, edges@[e].1),
                forall|b2: int, t2: int|
                    0 <= b2 < b && 0 <= t2 < r.children@[b2].in_wires@.len() ==> match wire_dep(
                        #[trigger] r.children@[b2].in_wires@[t2],
                    ) {
                        Some(i) => (i as int) < r.children@.len() ==> edges@.contains(
                            (i, b2 as usize),
                        ),
                        None => true,
                    },
                forall|t2: int|
                    0 <= t2 < t ==> match wire_dep(
                        #[trigger] r.children@[b as int].in_wires@[t2],
                    ) {
                        Some(i) => (i as int) < r.children@.len() ==> edges@.contains(
                            (i, b as usize),
                        ),
                        None => true,
                    },
            decreases m - t,
        {
            let ghost edges0 = edges@;
            match r.children[b].in_wires[t] {
                WireSrc::Child(i, _) => {
                    if i < n {
                        edges.push((i, b));
                        proof {
                            assert(edges@ == edges0.push((i, b)));
                            assert(edges@.last() == (i, b));
                            assert(wire_dep(r.children@[b as int].in_wires@[t as int]) == Some(i));
                            assert(wire_edge(*r, i, b));
                            assert forall|x: (usize, usize)| edges0.contains(x) implies edges@.contains(
                                x,
                            ) by {
                                let e = choose|e: int| 0 <= e < edges0.len() && edges0[e] == x;
                                assert(edges@[e] == x);
                            }
                            assert(edges@.contains((i, b)));
                        }
                    }
                }
                WireSrc::Input(_) => {}
            }
            t = t + 1;
        }
        b = b + 1;
    }
    edges
}

/// Relies on petgraph::algo::toposort: on an acyclic graph it returns every
/// node exactly once, each node ordered before its successors; on a cyclic
/// graph it returns an error. A set of edges admitting a topological order
/// is acyclic, so such a set is never answered with an error.
///
/// The graph is usize-indexed, so the index limits of `Graph::add_node` and
/// `Graph::add_edge` do not apply; `add_edge` cannot panic on node bounds
/// either, since every edge endpoint is below the node count.
#[verifier::external_body]
fn petgraph_toposort(n: usize, edges: &Vec<(usize, usize)>) -> (r: Result<
    Vec<usize>,
    CodegenError,
>)
    requires
        forall|e: int| 0 <= e < edges@.len() ==> (#[trigger] edges@[e]).0 < n && edges@[e].1 < n,
    ensures
        r matches Ok(ord) ==> topo_order_ok(n as int, edges@, ord@),
        (exists|ord: Seq<usize>| topo_order_ok(n as int, edges@, ord)) ==> r is Ok,
        r matches Err(e) ==> e == CodegenError::ShapeError,
{
    let mut g = petgraph::graph::DiGraph::<(), (), usize>::default();
    for _ in 0..n {
        g.add_node(());
    }
    for e in edges {
        g.add_edge(petgraph::graph::NodeIndex::new(e.0), petgraph::graph::NodeIndex::new(e.1), ());
    }
    match petgraph::algo::toposort(&g, None) {
        Ok(ord) => Ok(ord.into_iter().map(|ix| ix.index()).collect()),
        Err(_) => Err(CodegenError::ShapeError),
    }
}

/// A topological order of the wire-dependency edges is a valid order of the
/// region's children.
proof fn lemma_topo_to_valid(r: DfgRegion, edges: Seq<(usize, usize)>, ord: Seq<usize>)
    requires
        edges_characterize(r, edges),
        topo_order_ok(r.children@.len() as int, edges, ord),
    ensures
        valid_topo_order(r, ord),
{
    assert forall|k: int, t: int|
        0 <= k < ord.len() && 0 <= t < r.children@[ord[k] as int].in_wires@.len() implies {
        let w = #[trigger] r.children@[ord[k] as int].in_wires@[t];
        match wire_dep(w) {
            Some(i) => i < r.children@.len() ==> exists|m: int| 0 <= m < k && ord[m] == i,
            None => true,
        }
    } by {
        let j = ord[k];
        let w = r.children@[j as int].in_wires@[t];
        match wire_dep(w) {
            Some(i) => {
                if i < r.children@.len() {
                    assert(edges.contains((i, j)));
                    let e = choose|e: int| 0 <= e < edges.len() && edges[e] == (i, j);
                    assert(ord.contains(i));
                    let m = choose|m: int| 0 <= m < ord.len() && ord[m] == i;
                    assert(ord[m] == edges[e].0 && ord[k] == edges[e].1);
                    assert(m < k);
                    assert(exists|m2: int| 0 <= m2 < k && ord[m2] == i);
                }
            }
            None => {}
        }
    }
}

/// A valid order of the region's children is a topological order of the
/// wire-dependency edges.
proof fn lemma_valid_to_topo(r: DfgRegion, edges: Seq<(usize, usize)>, ord: Seq<usize>)
    requires
        edges_characterize(r, edges),
        valid_topo_order(r, ord),
    ensures
        topo_order_ok(r.children@.len() as int, edges, ord),
{
    assert forall|e: int, p: int, q: int|
        #![trigger edges[e], ord[p], ord[q]]
        0 <= e < edges.len() && 0 <= p < ord.len() && 0 <= q < ord.len() && ord[p] == edges[e].0
            && ord[q] == edges[e].1 implies p < q by {
        let a = edges[e].0;
        let b = edges[e].1;
        assert(wire_edge(r, a, b));
        let t = choose|t: int|
            0 <= t < r.children@[b as int].in_wires@.len() && wire_dep(
                r.children@[b as int].in_wires@[t],
            ) == Some(a);
        assert(ord[q] == b);
        let m = choose|m: int| 0 <= m < q && ord[m] == a;
        if m != p {
            assert(ord[m] != ord[p]);
        }
        assert(m == p);
    }
}

/// If every child's output row has its declared width, this one does too.
proof fn lemma_child_result_len(
    consts: Seq<(u64, ConstHandler)>,
    child: DfgChild,
    ins: Seq<LLVMValueV>,
    types: Seq<(CustomTypeKey, LLVMType)>,
    ops: Seq<(ExtensionOpKey, OpHandler)>,
)
    requires
        child_ok(types, ops, consts, child),
    ensures
        child_result(consts, child, ins).len() == child.num_outputs,
{
}

/// Materialises a constant of the graph IR: native leaves are routed to the
/// first registered handler of their kind that accepts them (recorded as a
/// load at the cursor); tuples and sums become their tagged-all-variants
/// value over the materialised parts; function constants are not lowered.
pub fn emit_value(
    ctx: &mut EmitFuncContext,
    exts: &CodegenExtsMap,
    node: u64,
    v: &ConstValue,
) -> (r: Result<LLVMValue, CodegenError>)
    requires
        old(ctx).wf(),
    ensures
        final(ctx).wf(),
        final(ctx).mailboxes@ == old(ctx).mailboxes@,
        final(ctx).blocks@.len() == old(ctx).blocks@.len(),
        final(ctx).cur == old(ctx).cur,
        forall|i: int|
            0 <= i < old(ctx).blocks@.len() && i != old(ctx).cur as int ==> (
            #[trigger] final(ctx).blocks@[i])@ == (old(ctx).blocks@[i])@,
        r is Ok <==> const_ok(exts.type_handlers@, exts.const_handlers@, *v),
        r matches Ok(val) ==> val@ == const_val(exts.const_handlers@, *v),
        *v is Extension && r is Err ==> r == Err::<LLVMValue, CodegenError>(
            CodegenError::LookupError,
        ),
        *v is Function ==> r == Err::<LLVMValue, CodegenError>(CodegenError::UnsupportedConstruct),
    decreases *v,
{
    match v {
        ConstValue::Extension { konst } => match exts.load_constant(*konst) {
            Ok(h) => {
                let ghost e0 = *ctx;
                ctx.append_instr(Instr::LoadConst { node, handler: h.id, konst: *konst });
                proof {
                    assert forall|q: int|
                        0 <= q < old(ctx).blocks@.len() && q != old(ctx).cur as int implies (
                    #[trigger] ctx.blocks@[q])@ == (old(ctx).blocks@[q])@ by {
                        assert((ctx.blocks@[q])@ == (e0.blocks@[q])@);
                    }
                }
                Ok(LLVMValue::ConstVal(h.id, konst.concrete))
            }
            Err(e) => Err(e),
        },
        ConstValue::Tuple { values } => {
            match emit_value_row(ctx, exts, node, values) {
                Ok(fields) => {
                    let ghost fields_v = view_value_row(fields@);
                    let mut outer: Vec<LLVMValue> = Vec::new();
                    outer.push(LLVMValue::Agg(fields));
                    let r = LLVMValue::Agg(outer);
                    proof {
                        lemma_view_value_row(outer@);
                        assert(view_value_row(outer@) =~= crate::sum::sum_variant_slots(
                            1,
                            0,
                            fields_v,
                        ));
                    }
                    Ok(r)
                }
                Err(e) => Err(e),
            }
        }
        ConstValue::Sum { tag, values, sum_type } => {
            let session = TypingSession::new(exts);
            let lst = match session.llvm_variants(&sum_type.variants) {
                Ok(lst) => lst,
                Err(e) => {
                    return Err(e);
                }
            };
            match emit_value_row(ctx, exts, node, values) {
                Ok(fields) => {
                    let ghost fields_v = view_value_row(fields@);
                    proof {
                        lemma_view_value_row(fields@);
                        lemma_const_row_vals_index(
                            exts.const_handlers@,
                            values@,
                            values@.len() as int,
                        );
                        assert(fields@.len() == values@.len());
                        assert(lst.spec_num_variants() == sum_type.variants@.len());
                        if (*tag as int) < sum_type.variants@.len() {
                            assert(lst.variant_types@[*tag as int]@.len()
                                == sum_type.variants@[*tag as int]@.len());
                            assert(lst.spec_num_fields(*tag)
                                == sum_type.variants@[*tag as int]@.len());
                        }
                    }
                    match lst.build_tag(*tag, fields) {
                        Ok(val) => Ok(val),
                        Err(e) => Err(e),
                    }
                }
                Err(e) => Err(e),
            }
        }
        ConstValue::Function => Err(CodegenError::UnsupportedConstruct),
    }
}

/// Materialises a row of constants, stopping at the first error.
fn emit_value_row(
    ctx: &mut EmitFuncContext,
    exts: &CodegenExtsMap,
    node: u64,
    values: &Vec<ConstValue>,
) -> (r: Result<Vec<LLVMValue>, CodegenError>)
    requires
        old(ctx).wf(),
    ensures
        final(ctx).wf(),
        final(ctx).mailboxes@ == old(ctx).mailboxes@,
        final(ctx).blocks@.len() == old(ctx).blocks@.len(),
        final(ctx).cur == old(ctx).cur,
        r is Ok <==> const_list_ok(
            exts.type_handlers@,
            exts.const_handlers@,
            values@,
            values@.len() as int,
        ),
        r matches Ok(fields) ==> view_value_row(fields@) == const_row_vals(
            exts.const_handlers@,
            values@,
            values@.len() as int,
        ),
        forall|q: int|
            0 <= q < old(ctx).blocks@.len() && q != old(ctx).cur as int ==> (
            #[trigger] final(ctx).blocks@[q])@ == (old(ctx).blocks@[q])@,
    decreases values@,
{
    let mut out: Vec<LLVMValue> = Vec::new();
    let mut i: usize = 0;
    let n = values.len();
    while i < n
        invariant
            i <= n,
            n == values@.len(),
            ctx.wf(),
            ctx.mailboxes@ == old(ctx).mailboxes@,
            ctx.blocks@.len() == old(ctx).blocks@.len(),
            ctx.cur == old(ctx).cur,
            out@.len() == i,
            const_list_ok(exts.type_handlers@, exts.const_handlers@, values@, i as int),
            view_value_row(out@) == const_row_vals(exts.const_handlers@, values@, i as int),
            forall|q: int|
                0 <= q < old(ctx).blocks@.len() && q != old(ctx).cur as int ==> (
                #[trigger] ctx.blocks@[q])@ == (old(ctx).blocks@[q])@,
        decreases n - i,
    {
        let ghost out0 = out@;
        let ghost ev0 = *ctx;
        match emit_value(ctx, exts, node, &values[i]) {
            Ok(val) => {
                out.push(val);
                proof {
                    assert(out@.drop_last() =~= out0);
                    assert(out@.last() == val);
                    assert forall|q: int|
                        0 <= q < old(ctx).blocks@.len() && q != old(ctx).cur as int implies (
                    #[trigger] ctx.blocks@[q])@ == (old(ctx).blocks@[q])@ by {
                        assert((ctx.blocks@[q])@ == (ev0.blocks@[q])@);
                    }
                }
                i = i + 1;
            }
            Err(e) => {
                proof {
                    assert forall|q: int|
                        0 <= q < old(ctx).blocks@.len() && q != old(ctx).cur as int implies (
                    #[trigger] ctx.blocks@[q])@ == (old(ctx).blocks@[q])@ by {
                        assert((ctx.blocks@[q])@ == (ev0.blocks@[q])@);
                    }
                    lemma_const_list_ok_iff(
                        exts.type_handlers@,
                        exts.const_handlers@,
                        values@,
                        values@.len() as int,
                    );
                }
                return Err(e);
            }
        }
    }
    Ok(out)
}

/// What a wire reads at one point of emission: a region input, or the row
/// stored in the producing child's mailbox.
pub open spec fn wire_read(
    ctx: EmitFuncContext,
    mb_base: int,
    r: DfgRegion,
    inputs: Seq<LLVMValueV>,
    w: WireSrc,
) -> LLVMValueV {
    match w {
        WireSrc::Input(p) => {
            if p < inputs.len() {
                inputs[p as int]
            } else {
                LLVMValueV::Undef
            }
        }
        WireSrc::Child(i, p) => {
            if i < r.children@.len() {
                let row = spec_mailbox_read(ctx.mb(mb_base + i));
                if p < row.len() {
                    row[p as int]
                } else {
                    LLVMValueV::Undef
                }
            } else {
                LLVMValueV::Undef
            }
        }
    }
}

/// Reads the row of values the given wires carry: region inputs directly,
/// sibling outputs from their mailboxes.
fn gather_wires(
    ctx: &EmitFuncContext,
    r: &DfgRegion,
    inputs: &Vec<LLVMValue>,
    wires: &Vec<WireSrc>,
    mb_base: usize,
) -> (out: Vec<LLVMValue>)
    requires
        ctx.wf(),
        mb_base + r.children@.len() <= ctx.mailboxes@.len(),
        forall|i: int|
            0 <= i < r.children@.len() ==> (#[trigger] ctx.mb(mb_base + i)).row_len
                == r.children@[i].num_outputs,
    ensures
        out@.len() == wires@.len(),
        forall|t: int|
            0 <= t < wires@.len() ==> out@[t]@ == wire_read(
                *ctx,
                mb_base as int,
                *r,
                view_value_row(inputs@),
                wires@[t],
            ),
{
    let n = r.children.len();
    let ml = ctx.mailboxes.len();
    let mut out: Vec<LLVMValue> = Vec::new();
    let mut t: usize = 0;
    proof {
        lemma_view_value_row(inputs@);
    }
    while t < wires.len()
        invariant
            t <= wires@.len(),
            n == r.children@.len(),
            ml == ctx.mailboxes@.len(),
            mb_base + n <= ml,
            ctx.wf(),
            forall|i: int|
                0 <= i < r.children@.len() ==> (#[trigger] ctx.mb(mb_base + i)).row_len
                    == r.children@[i].num_outputs,
            out@.len() == t,
            forall|t2: int|
                0 <= t2 < t ==> out@[t2]@ == wire_read(
                    *ctx,
                    mb_base as int,
                    *r,
                    view_value_row(inputs@),
                    wires@[t2],
                ),
        decreases wires@.len() - t,
    {
        let ghost gw = wire_read(*ctx, mb_base as int, *r, view_value_row(inputs@), wires@[t as int]);
        let v: LLVMValue = match wires[t] {
            WireSrc::Input(p) => {
                proof {
                    lemma_view_value_row(inputs@);
                }
                if p < inputs.len() {
                    let c = clone_value(&inputs[p]);
                    proof {
                        assert(c@ == gw);
                    }
                    c
                } else {
                    LLVMValue::Undef
                }
            }
            WireSrc::Child(i, p) => {
                if i < n {
                    let rmb = RowMailBox { id: mb_base + i, row_len: r.children[i].num_outputs };
                    let row = ctx.read_mailbox(rmb);
                    proof {
                        lemma_view_value_row(row@);
                        assert(view_value_row(row@) == spec_mailbox_read(
                            ctx.mb(mb_base + i as int),
                        ));
                    }
                    if p < row.len() {
                        let c = clone_value(&row[p]);
                        proof {
                            assert(c@ == gw);
                        }
                        c
                    } else {
                        proof {
                            assert(gw == LLVMValueV::Undef);
                        }
                        LLVMValue::Undef
                    }
                } else {
                    LLVMValue::Undef
                }
            }
        };
        proof {
            assert(v@ == gw);
        }
        out.push(v);
        t = t + 1;
    }
    out
}

/// A row of one merged name per output port.
pub fn node_out_row(node: u64, n: usize) -> (r: Vec<LLVMValue>)
    ensures
        view_value_row(r@) == node_out_vals(node, n as nat),
{
    let mut r: Vec<LLVMValue> = Vec::new();
    let mut p: usize = 0;
    while p < n
        invariant
            p <= n,
            r@.len() == p,
            forall|q: int| 0 <= q < p ==> r@[q] == LLVMValue::NodeOut(node, q as usize),
        decreases n - p,
    {
        r.push(LLVMValue::NodeOut(node, p));
        p = p + 1;
    }
    proof {
        lemma_view_value_row(r@);
        assert(view_value_row(r@) =~= node_out_vals(node, n as nat));
    }
    r
}

/// Whether this child is a call to a type-parametric function — a construct
/// the engine does not lower.
pub open spec fn call_with_type_params(child: DfgChild) -> bool {
    match child.op {
        OpKind::Call { func, type_params } => type_params > 0,
        _ => false,
    }
}

/// Whether this child is an extension op, routed through the registry.
pub open spec fn op_is_extension(child: DfgChild) -> bool {
    child.op is ExtensionOp
}

/// Whether this child is a plain op: one that lowers in place, without
/// allocating basic blocks of its own.
pub open spec fn child_flat(child: DfgChild) -> bool {
    match child.op {
        OpKind::Dfg(inner) => false,
        OpKind::Conditional { sum_type, cases } => false,
        OpKind::Cfg(cfg) => false,
        _ => true,
    }
}

/// Whether every child of the region is a plain op: lowering such a region
/// allocates no basic blocks.
pub open spec fn region_flat(r: DfgRegion) -> bool {
    forall|j: int| 0 <= j < r.children@.len() ==> child_flat(#[trigger] r.children@[j])
}

/// The instructions a conditional records at the entry position: one write
/// per case, filling the case's pre-allocated mailbox (the first at index
/// `mb_start`) with its row, then the multi-way branch on the selector's tag
/// targeting the pre-allocated case blocks (the first at index `bb_start`).
pub open spec fn conditional_entry_delta(
    mb_start: int,
    bb_start: int,
    variants: Seq<Vec<HugrType>>,
    ins: Seq<LLVMValueV>,
) -> Seq<InstrV> {
    Seq::new(
        variants.len(),
        |i: int|
            InstrV::MailboxWrite {
                mailbox: (mb_start + i) as usize,
                values: conditional_case_row(variants, i, ins),
            },
    ).push(
        InstrV::Switch {
            scrutinee: crate::sum::sum_get_tag_value(variants.len(), ins[0]),
            targets: Seq::new(variants.len(), |i: int| (bb_start + i) as usize),
        },
    )
}

/// The row a conditional's case receives in its mailbox: its variant's
/// fields untagged from the selector (the first input), then the passthrough
/// inputs.
pub open spec fn conditional_case_row(
    variants: Seq<Vec<HugrType>>,
    i: int,
    ins: Seq<LLVMValueV>,
) -> Seq<LLVMValueV> {
    sum_untag_row(variants.len(), variants[i]@.len(), i as usize, ins[0]) + ins.skip(1)
}

/// Lowers one non-boundary child of a straight-line region, given the values
/// of its input ports; returns the values it leaves on its output ports.
///
/// Succeeds exactly when [`child_ok`] holds of the child under the
/// registered handlers; a call to a type-parametric function is answered
/// with `UnsupportedConstruct`.
pub fn emit_node(
    ctx: &mut EmitFuncContext,
    exts: &CodegenExtsMap,
    child: &DfgChild,
    ins: Vec<LLVMValue>,
) -> (r: Result<Vec<LLVMValue>, CodegenError>)
    requires
        old(ctx).wf(),
        ins@.len() == child.in_wires@.len(),
    ensures
        final(ctx).wf(),
        final(ctx).mailboxes@.len() >= old(ctx).mailboxes@.len(),
        final(ctx).blocks@.len() >= old(ctx).blocks@.len(),
        forall|i: int| 0 <= i < old(ctx).mailboxes@.len() ==> final(ctx).mb(i) == old(ctx).mb(i),
        final(ctx).cur == old(ctx).cur || final(ctx).cur >= old(ctx).blocks@.len(),
        forall|i: int|
            0 <= i < old(ctx).blocks@.len() && i != old(ctx).cur as int ==> (
            #[trigger] final(ctx).blocks@[i])@ == (old(ctx).blocks@[i])@,
        r is Ok <==> child_ok(
            exts.type_handlers@,
            exts.op_handlers@,
            exts.const_handlers@,
            *child,
        ),
        r matches Ok(outs) ==> view_value_row(outs@) == child_result(
            exts.const_handlers@,
            *child,
            view_value_row(ins@),
        ),
        call_with_type_params(*child) ==> r == Err::<Vec<LLVMValue>, CodegenError>(
            CodegenError::UnsupportedConstruct,
        ),
        op_is_extension(*child) && r is Err ==> r == Err::<Vec<LLVMValue>, CodegenError>(
            CodegenError::LookupError,
        ) && *final(ctx) == *old(ctx),
        child_flat(*child) ==> final(ctx).blocks@.len() == old(ctx).blocks@.len(),
    decreases *child,
{
    let ghost insv = view_value_row(ins@);
    proof {
        lemma_view_value_row(ins@);
    }
    match &child.op {
        OpKind::MakeTuple { row } => {
            if child.num_outputs != 1 {
                return Err(CodegenError::ShapeError);
            }
            let session = TypingSession::new(exts);
            let rowts = match session.llvm_row(row) {
                Ok(v) => v,
                Err(e) => {
                    return Err(e);
                }
            };
            proof {
                crate::types::lemma_view_llvm_type_row(rowts@);
                crate::type_map::lemma_spec_map_row_index(
                    exts.type_handlers@,
                    row@,
                    crate::types::view_llvm_type_row(rowts@),
                );
            }
            let mut vt: Vec<Vec<LLVMType>> = Vec::new();
            vt.push(rowts);
            let lst = LLVMSumType { variant_types: vt };
            match lst.build_tag(0, ins) {
                Ok(v) => {
                    let ghost vv = v@;
                    let mut out: Vec<LLVMValue> = Vec::new();
                    out.push(v);
                    proof {
                        lemma_view_value_row(out@);
                        assert(view_value_row(out@) =~= seq![vv]);
                    }
                    Ok(out)
                }
                Err(e) => Err(e),
            }
        }
        OpKind::UnpackTuple { row } => {
            if child.num_outputs != row.len() {
                return Err(CodegenError::ShapeError);
            }
            if ins.len() != 1 {
                return Err(CodegenError::ShapeError);
            }
            let session = TypingSession::new(exts);
            let rowts = match session.llvm_row(row) {
                Ok(v) => v,
                Err(e) => {
                    return Err(e);
                }
            };
            proof {
                crate::types::lemma_view_llvm_type_row(rowts@);
                crate::type_map::lemma_spec_map_row_index(
                    exts.type_handlers@,
                    row@,
                    crate::types::view_llvm_type_row(rowts@),
                );
            }
            let mut vt: Vec<Vec<LLVMType>> = Vec::new();
            vt.push(rowts);
            let lst = LLVMSumType { variant_types: vt };
            match lst.build_untag(0, &ins[0]) {
                Ok(out) => {
                    proof {
                        assert(view_value_row(out@) =~= child_result(
                            exts.const_handlers@,
                            *child,
                            insv,
                        ));
                    }
                    Ok(out)
                }
                Err(e) => {
                    proof {
                        assert(false);
                    }
                    Err(e)
                }
            }
        }
        OpKind::Tag { tag, sum_type } => {
            if child.num_outputs != 1 {
                return Err(CodegenError::ShapeError);
            }
            let session = TypingSession::new(exts);
            let lst = match session.llvm_variants(&sum_type.variants) {
                Ok(l) => l,
                Err(e) => {
                    return Err(e);
                }
            };
            proof {
                if (*tag as int) < sum_type.variants@.len() {
                    assert(lst.variant_types@[*tag as int]@.len()
                        == sum_type.variants@[*tag as int]@.len());
                }
            }
            match lst.build_tag(*tag, ins) {
                Ok(v) => {
                    let ghost vv = v@;
                    let mut out: Vec<LLVMValue> = Vec::new();
                    out.push(v);
                    proof {
                        lemma_view_value_row(out@);
                        assert(view_value_row(out@) =~= seq![vv]);
                    }
                    Ok(out)
                }
                Err(e) => Err(e),
            }
        }
        OpKind::LoadConstant { value } => {
            if child.num_outputs != 1 {
                return Err(CodegenError::ShapeError);
            }
            let ghost d0 = *ctx;
            let rr = emit_value(ctx, exts, child.node, value);
            proof {
                assert forall|q: int|
                    0 <= q < old(ctx).blocks@.len() && q != old(ctx).cur as int implies (
                #[trigger] ctx.blocks@[q])@ == (old(ctx).blocks@[q])@ by {
                    assert((ctx.blocks@[q])@ == (d0.blocks@[q])@);
                }
            }
            match rr {
                Ok(val) => {
                    let ghost vv = val@;
                    let mut out: Vec<LLVMValue> = Vec::new();
                    out.push(val);
                    proof {
                        lemma_view_value_row(out@);
                        assert(view_value_row(out@) =~= seq![vv]);
                    }
                    Ok(out)
                }
                Err(e) => Err(e),
            }
        }
        OpKind::Call { func, type_params } => {
            if *type_params > 0 {
                return Err(CodegenError::UnsupportedConstruct);
            }
            let ghost d0 = *ctx;
            ctx.append_instr(Instr::CallFn { node: child.node, func: *func, inputs: ins });
            proof {
                assert forall|q: int|
                    0 <= q < old(ctx).blocks@.len() && q != old(ctx).cur as int implies (
                #[trigger] ctx.blocks@[q])@ == (old(ctx).blocks@[q])@ by {
                    assert((ctx.blocks@[q])@ == (d0.blocks@[q])@);
                }
            }
            Ok(node_out_row(child.node, child.num_outputs))
        }
        OpKind::ExtensionOp { extension, name } => {
            match exts.lookup_op(ExtensionOpKey { extension: *extension, name: *name }) {
                Ok(h) => {
                    let ghost d0 = *ctx;
                    ctx.append_instr(
                        Instr::CustomOp { node: child.node, handler: h.id, inputs: ins },
                    );
                    proof {
                        assert forall|q: int|
                            0 <= q < old(ctx).blocks@.len() && q != old(ctx).cur as int implies (
                        #[trigger] ctx.blocks@[q])@ == (old(ctx).blocks@[q])@ by {
                            assert((ctx.blocks@[q])@ == (d0.blocks@[q])@);
                        }
                    }
                    Ok(node_out_row(child.node, child.num_outputs))
                }
                Err(e) => Err(e),
            }
        }
        OpKind::Dfg(inner) => {
            let mb = ctx.new_row_mail_box(child.num_outputs);
            let ghost d0 = *ctx;
            let rr = emit_dataflow_parent(ctx, exts, inner, ins, mb.promise());
            proof {
                assert forall|q: int|
                    0 <= q < old(ctx).blocks@.len() && q != old(ctx).cur as int implies (
                #[trigger] ctx.blocks@[q])@ == (old(ctx).blocks@[q])@ by {
                    assert((ctx.blocks@[q])@ == (d0.blocks@[q])@);
                }
            }
            match rr {
                Ok(()) => Ok(node_out_row(child.node, child.num_outputs)),
                Err(e) => Err(e),
            }
        }
        OpKind::Conditional { sum_type, cases } => {
            let ghost d0 = *ctx;
            let rr = emit_conditional(
                ctx,
                exts,
                child.node,
                child.num_outputs,
                sum_type,
                cases,
                ins,
            );
            proof {
                assert forall|q: int|
                    0 <= q < old(ctx).blocks@.len() && q != old(ctx).cur as int implies (
                #[trigger] ctx.blocks@[q])@ == (old(ctx).blocks@[q])@ by {
                    assert((ctx.blocks@[q])@ == (d0.blocks@[q])@);
                }
            }
            rr
        }
        OpKind::Cfg(cfg) => {
            if child.num_outputs != cfg.exit_row_len {
                return Err(CodegenError::ShapeError);
            }
            let mb = ctx.new_row_mail_box(child.num_outputs);
            let ghost d0 = *ctx;
            let rr = crate::emit::ops::cfg::emit_cfg(ctx, exts, child.node, cfg, ins, mb.promise());
            proof {
                assert forall|q: int|
                    0 <= q < old(ctx).blocks@.len() && q != old(ctx).cur as int implies (
                #[trigger] ctx.blocks@[q])@ == (old(ctx).blocks@[q])@ by {
                    assert((ctx.blocks@[q])@ == (d0.blocks@[q])@);
                }
            }
            match rr {
                Ok(()) => Ok(node_out_row(child.node, child.num_outputs)),
                Err(e) => Err(e),
            }
        }
    }
}

/// Lowers a straight-line region: sorts the children topologically, lowers
/// each child in that order — reading its inputs from the mailboxes its
/// wires name and writing its outputs into its own mailbox — and fulfils the
/// region's outbound promise from the output wires.
///
/// Succeeds exactly when the input row has the region's arity, the wires
/// form a DAG, every child lowers ([`region_ok`]), and the output row fits
/// the promise. On success the promise's mailbox holds
/// [`region_out_vals`] — a function of the region, handlers, and inputs
/// alone, whatever topological order was taken.
#[verifier::loop_isolation(false)]
#[verifier::rlimit(100)]
pub fn emit_dataflow_parent(
    ctx: &mut EmitFuncContext,
    exts: &CodegenExtsMap,
    r: &DfgRegion,
    inputs: Vec<LLVMValue>,
    outputs: RowPromise,
) -> (res: Result<(), CodegenError>)
    requires
        old(ctx).wf(),
        outputs.mailbox.id < old(ctx).mailboxes@.len(),
        old(ctx).mb(outputs.mailbox.id as int).row_len == outputs.mailbox.row_len,
    ensures
        final(ctx).wf(),
        final(ctx).mailboxes@.len() >= old(ctx).mailboxes@.len(),
        final(ctx).blocks@.len() >= old(ctx).blocks@.len(),
        forall|i: int|
            0 <= i < old(ctx).mailboxes@.len() && i != outputs.mailbox.id as int ==> final(ctx).mb(
                i,
            ) == old(ctx).mb(i),
        final(ctx).cur == old(ctx).cur || final(ctx).cur >= old(ctx).blocks@.len(),
        forall|i: int|
            0 <= i < old(ctx).blocks@.len() && i != old(ctx).cur as int ==> (
            #[trigger] final(ctx).blocks@[i])@ == (old(ctx).blocks@[i])@,
        res is Ok <==> (inputs@.len() == r.num_inputs && region_acyclic(*r) && region_ok(
            exts.type_handlers@,
            exts.op_handlers@,
            exts.const_handlers@,
            *r,
        ) && r.output_wires@.len() == outputs.mailbox.row_len),
        res is Ok ==> final(ctx).mb(outputs.mailbox.id as int) == (MailboxV {
            row_len: outputs.mailbox.row_len as nat,
            slot: Some(
                region_out_vals(*r, exts.const_handlers@, view_value_row(inputs@)),
            ),
        }),
        res is Err ==> final(ctx).mb(outputs.mailbox.id as int) == old(ctx).mb(
            outputs.mailbox.id as int,
        ),
        inputs@.len() != r.num_inputs ==> res == Err::<(), CodegenError>(CodegenError::ShapeError),
        region_flat(*r) ==> final(ctx).blocks@.len() == old(ctx).blocks@.len(),
    decreases *r,
{
    let ghost t_s = exts.type_handlers@;
    let ghost o_s = exts.op_handlers@;
    let ghost c_s = exts.const_handlers@;
    let ghost iv = view_value_row(inputs@);
    let n = r.children.len();
    if inputs.len() != r.num_inputs {
        return Err(CodegenError::ShapeError);
    }
    let mb_base = ctx.mailboxes.len();
    let mut i: usize = 0;
    while i < n
        invariant
            i <= n,
            n == r.children@.len(),
            ctx.wf(),
            ctx.mailboxes@.len() == mb_base + i,
            ctx.blocks@ == old(ctx).blocks@,
            ctx.cur == old(ctx).cur,
            forall|q: int| 0 <= q < mb_base ==> ctx.mb(q) == old(ctx).mb(q),
            forall|k: int|
                0 <= k < i ==> ctx.mb(mb_base + k) == (MailboxV {
                    row_len: r.children@[k].num_outputs as nat,
                    slot: None::<Seq<LLVMValueV>>,
                }),
        decreases n - i,
    {
        let _ = ctx.new_row_mail_box(r.children[i].num_outputs);
        i = i + 1;
    }
    let edges = build_dep_edges(r);
    proof {
        assert forall|e: int| 0 <= e < edges@.len() implies (#[trigger] edges@[e]).0 < n
            && edges@[e].1 < n by {
            assert(wire_edge(*r, edges@[e].0, edges@[e].1));
        }
    }
    let order = match petgraph_toposort(n, &edges) {
        Ok(o) => o,
        Err(e) => {
            proof {
                assert(!region_acyclic(*r)) by {
                    if region_acyclic(*r) {
                        let ord = choose|ord: Seq<usize>| valid_topo_order(*r, ord);
                        lemma_valid_to_topo(*r, edges@, ord);
                    }
                }
            }
            return Err(e);
        }
    };
    proof {
        lemma_topo_to_valid(*r, edges@, order@);
    }
    let mut k: usize = 0;
    while k < order.len()
        invariant
            n == r.children@.len(),
            order@.len() == n,
            valid_topo_order(*r, order@),
            iv == view_value_row(inputs@),
            inputs@.len() == r.num_inputs,
            k <= n,
            ctx.wf(),
            mb_base + n <= ctx.mailboxes@.len(),
            ctx.blocks@.len() >= old(ctx).blocks@.len(),
            region_flat(*r) ==> ctx.blocks@.len() == old(ctx).blocks@.len(),
            ctx.cur == old(ctx).cur || ctx.cur >= old(ctx).blocks@.len(),
            forall|q: int|
                0 <= q < old(ctx).blocks@.len() && q != old(ctx).cur as int ==> (
                #[trigger] ctx.blocks@[q])@ == (old(ctx).blocks@[q])@,
            forall|q: int| 0 <= q < mb_base ==> ctx.mb(q) == old(ctx).mb(q),
            mb_base >= old(ctx).mailboxes@.len(),
            forall|j2: int|
                0 <= j2 < n ==> (#[trigger] ctx.mb(mb_base + j2)).row_len
                    == r.children@[j2].num_outputs,
            forall|m: int|
                0 <= m < k ==> ctx.mb(mb_base + order@[m] as int) == (MailboxV {
                    row_len: r.children@[order@[m] as int].num_outputs as nat,
                    slot: Some(child_out_row(*r, c_s, iv, order@[m] as int, n as nat)),
                }),
            forall|m: int|
                0 <= m < k ==> child_ok(t_s, o_s, c_s, #[trigger] r.children@[order@[m] as int]),
        decreases n - k,
    {
        let j = order[k];
        let ins = gather_wires(ctx, r, &inputs, &r.children[j].in_wires, mb_base);
        let ghost insv = view_value_row(ins@);
        proof {
            lemma_view_value_row(ins@);
            assert forall|t: int| 0 <= t < r.children@[j as int].in_wires@.len() implies insv[t]
                == wire_val(*r, c_s, iv, r.children@[j as int].in_wires@[t], n as nat) by {
                let w = r.children@[j as int].in_wires@[t];
                assert(insv[t] == ins@[t]@);
                match w {
                    WireSrc::Input(p) => {}
                    WireSrc::Child(i2, p) => {
                        if i2 < n {
                            assert(wire_dep(w) == Some(i2));
                            let m = choose|m: int| 0 <= m < k && order@[m] == i2;
                            lemma_child_result_len(
                                c_s,
                                r.children@[i2 as int],
                                child_in_vals(*r, c_s, iv, i2 as int, n as nat),
                                t_s,
                                o_s,
                            );
                            lemma_topo_defined(*r, c_s, order@, m);
                            if n >= 1 {
                                lemma_fuel_mono(
                                    *r,
                                    c_s,
                                    iv,
                                    i2 as int,
                                    (m + 1) as nat,
                                    (n - 1) as nat,
                                );
                                lemma_fuel_mono(*r, c_s, iv, i2 as int, (m + 1) as nat, n as nat);
                                lemma_child_result_len(
                                    c_s,
                                    r.children@[i2 as int],
                                    child_in_vals(*r, c_s, iv, i2 as int, (n - 1) as nat),
                                    t_s,
                                    o_s,
                                );
                            }
                        }
                    }
                }
            }
            assert(insv =~= child_in_vals(*r, c_s, iv, j as int, n as nat));
        }
        let ghost en0 = *ctx;
        let outs_r = emit_node(ctx, exts, &r.children[j], ins);
        proof {
            assert forall|q: int|
                0 <= q < old(ctx).blocks@.len() && q != old(ctx).cur as int implies (
            #[trigger] ctx.blocks@[q])@ == (old(ctx).blocks@[q])@ by {
                assert((ctx.blocks@[q])@ == (en0.blocks@[q])@);
            }
        }
        let outs = match outs_r {
            Ok(o) => o,
            Err(e) => {
                proof {
                    lemma_children_ok_iff(t_s, o_s, c_s, *r, n as int);
                    assert(ctx.mb(outputs.mailbox.id as int) == old(ctx).mb(
                        outputs.mailbox.id as int,
                    ));
                }
                return Err(e);
            }
        };
        proof {
            assert(view_value_row(outs@) == child_result(
                c_s,
                r.children@[j as int],
                insv,
            ));
            assert(insv == child_in_vals(*r, c_s, iv, j as int, n as nat));
            assert(view_value_row(outs@) == child_out_row(*r, c_s, iv, j as int, n as nat));
            lemma_child_result_len(
                c_s,
                r.children@[j as int],
                child_in_vals(*r, c_s, iv, j as int, n as nat),
                t_s,
                o_s,
            );
            lemma_view_value_row(outs@);
        }
        let ml = ctx.mailboxes.len();
        proof {
            assert(mb_base + j < ml);
        }
        let mbj = RowMailBox { id: mb_base + j, row_len: r.children[j].num_outputs };
        let ghost wr0 = *ctx;
        match ctx.write_mailbox(mbj, outs) {
            Ok(()) => {}
            Err(e) => {
                proof {
                    assert(false);
                }
                return Err(e);
            }
        }
        proof {
            assert forall|q: int|
                0 <= q < old(ctx).blocks@.len() && q != old(ctx).cur as int implies (
            #[trigger] ctx.blocks@[q])@ == (old(ctx).blocks@[q])@ by {
                assert((ctx.blocks@[q])@ == (wr0.blocks@[q])@);
            }
        }
        proof {
            assert forall|m: int| 0 <= m < k + 1 implies ctx.mb(mb_base + order@[m] as int) == (
            MailboxV {
                row_len: r.children@[order@[m] as int].num_outputs as nat,
                slot: Some(child_out_row(*r, c_s, iv, order@[m] as int, n as nat)),
            }) by {
                if m < k {
                    assert(order@[m] != order@[k as int]);
                }
            }
        }
        k = k + 1;
    }
    proof {
        assert forall|j2: int| 0 <= j2 < n implies child_ok(
            t_s,
            o_s,
            c_s,
            #[trigger] r.children@[j2],
        ) by {
            let v: usize = j2 as usize;
            assert(order@.contains(v));
            let m = choose|m: int| 0 <= m < order@.len() && order@[m] == v;
        }
        lemma_children_ok_iff(t_s, o_s, c_s, *r, n as int);
        assert(region_ok(t_s, o_s, c_s, *r));
        assert(region_acyclic(*r));
    }
    let outs = gather_wires(ctx, r, &inputs, &r.output_wires, mb_base);
    proof {
        lemma_view_value_row(outs@);
        assert forall|t: int| 0 <= t < r.output_wires@.len() implies outs@[t]@ == wire_val(
            *r,
            c_s,
            iv,
            r.output_wires@[t],
            (n + 1) as nat,
        ) by {
            let w = r.output_wires@[t];
            match w {
                WireSrc::Input(p) => {}
                WireSrc::Child(i2, p) => {
                    if i2 < n {
                        let v2: usize = i2;
                        assert(order@.contains(v2));
                        let m = choose|m: int| 0 <= m < order@.len() && order@[m] == v2;
                        lemma_child_result_len(
                            c_s,
                            r.children@[i2 as int],
                            child_in_vals(*r, c_s, iv, i2 as int, n as nat),
                            t_s,
                            o_s,
                        );
                    }
                }
            }
        }
        assert(view_value_row(outs@) =~= region_out_vals(*r, c_s, iv));
    }
    let ghost fn0 = *ctx;
    let fin_r = outputs.finish(ctx, outs);
    proof {
        assert forall|q: int|
            0 <= q < old(ctx).blocks@.len() && q != old(ctx).cur as int implies (
        #[trigger] ctx.blocks@[q])@ == (old(ctx).blocks@[q])@ by {
            assert((ctx.blocks@[q])@ == (fn0.blocks@[q])@);
        }
    }
    match fin_r {
        Ok(()) => Ok(()),
        Err(e) => Err(e),
    }
}

/// Lowers a conditional: a case dispatch over a sum-typed selector (the
/// first input) plus passthrough inputs.
///
/// A pre-pass allocates one mailbox and block pair per case and one exit
/// pair for the merged outputs. At the entry position, case `i`'s mailbox
/// receives its variant's fields untagged from the selector plus the
/// passthrough inputs ([`conditional_case_row`]), and a multi-way branch on
/// the selector's tag targets the case blocks in tag order — the entry
/// block's recorded delta is exactly those writes followed by that switch.
/// Each case's body is then emitted into its block, writes the shared exit
/// mailbox, and branches to the exit block; the cursor ends at the exit
/// block. A case count different from the selector's variant count is a
/// `ShapeError`.
#[verifier::loop_isolation(false)]
#[verifier::rlimit(100)]
pub fn emit_conditional(
    ctx: &mut EmitFuncContext,
    exts: &CodegenExtsMap,
    node: u64,
    num_outputs: usize,
    sum_type: &HugrSumType,
    cases: &Vec<DfgRegion>,
    ins: Vec<LLVMValue>,
) -> (r: Result<Vec<LLVMValue>, CodegenError>)
    requires
        old(ctx).wf(),
    ensures
        final(ctx).wf(),
        final(ctx).mailboxes@.len() >= old(ctx).mailboxes@.len(),
        final(ctx).blocks@.len() >= old(ctx).blocks@.len(),
        forall|i: int| 0 <= i < old(ctx).mailboxes@.len() ==> final(ctx).mb(i) == old(ctx).mb(i),
        final(ctx).cur == old(ctx).cur || final(ctx).cur >= old(ctx).blocks@.len(),
        forall|i: int|
            0 <= i < old(ctx).blocks@.len() && i != old(ctx).cur as int ==> (
            #[trigger] final(ctx).blocks@[i])@ == (old(ctx).blocks@[i])@,
        cases@.len() != sum_type.variants@.len() ==> r == Err::<Vec<LLVMValue>, CodegenError>(
            CodegenError::ShapeError,
        ),
        r is Ok <==> (cases@.len() == sum_type.variants@.len() && ins@.len() >= 1
            && spec_map_variants(exts.type_handlers@, sum_type.variants@) is Ok && cases_ok(
            exts.type_handlers@,
            exts.op_handlers@,
            exts.const_handlers@,
            cases@,
            sum_type.variants@,
            ins@.len() - 1,
            num_outputs as int,
            cases@.len() as int,
        )),
        r matches Ok(outs) ==> view_value_row(outs@) == node_out_vals(node, num_outputs as nat),
        r is Ok ==> final(ctx).cur == old(ctx).blocks@.len(),
        r is Ok ==> forall|i: int|
            0 <= i < cases@.len() ==> final(ctx).mb(old(ctx).mailboxes@.len() + 1 + i) == (
            MailboxV {
                row_len: (#[trigger] cases@[i]).num_inputs as nat,
                slot: Some(conditional_case_row(sum_type.variants@, i, view_value_row(ins@))),
            }),
        r is Ok && cases@.len() >= 1 ==> final(ctx).mb(old(ctx).mailboxes@.len() as int) == (
        MailboxV {
            row_len: num_outputs as nat,
            slot: Some(
                region_out_vals(
                    cases@[cases@.len() - 1],
                    exts.const_handlers@,
                    conditional_case_row(
                        sum_type.variants@,
                        cases@.len() - 1,
                        view_value_row(ins@),
                    ),
                ),
            ),
        }),
        r is Ok && (forall|i: int| 0 <= i < cases@.len() ==> region_flat(#[trigger] cases@[i]))
            ==> final(ctx).blocks@.len() == old(ctx).blocks@.len() + 1 + cases@.len(),
        r is Ok ==> (final(ctx).blocks@[old(ctx).cur as int])@ == (old(ctx).blocks@[old(
            ctx,
        ).cur as int])@ + conditional_entry_delta(
            old(ctx).mailboxes@.len() as int + 1,
            old(ctx).blocks@.len() as int + 1,
            sum_type.variants@,
            view_value_row(ins@),
        ),
    decreases cases@,
{
    let ghost t_s = exts.type_handlers@;
    let ghost o_s = exts.op_handlers@;
    let ghost c_s = exts.const_handlers@;
    let ghost oml = old(ctx).mailboxes@.len() as int;
    let ghost obl = old(ctx).blocks@.len() as int;
    let ghost oc = old(ctx).cur as int;
    let ghost iv = view_value_row(ins@);
    proof {
        lemma_view_value_row(ins@);
    }
    let ncases = cases.len();
    if ncases != sum_type.num_variants() {
        return Err(CodegenError::ShapeError);
    }
    if ins.len() == 0 {
        return Err(CodegenError::ShapeError);
    }
    let session = TypingSession::new(exts);
    let lst = match session.llvm_variants(&sum_type.variants) {
        Ok(l) => l,
        Err(e) => {
            return Err(e);
        }
    };
    // Pre-pass: the exit mailbox and block, then one mailbox and block pair
    // per case, all before any case body is emitted.
    let exit_mb = ctx.new_row_mail_box(num_outputs);
    let exit_bb = ctx.new_basic_block();
    let mut case_blocks: Vec<usize> = Vec::new();
    let mut i: usize = 0;
    while i < ncases
        invariant
            i <= ncases,
            ctx.wf(),
            ctx.cur == old(ctx).cur,
            ctx.mailboxes@.len() == oml + 1 + i,
            ctx.blocks@.len() == obl + 1 + i,
            case_blocks@.len() == i,
            forall|k: int| 0 <= k < i ==> #[trigger] case_blocks@[k] == obl + 1 + k,
            forall|q: int| 0 <= q < oml ==> ctx.mb(q) == old(ctx).mb(q),
            forall|q: int|
                0 <= q < obl ==> (#[trigger] ctx.blocks@[q])@ == (old(ctx).blocks@[q])@,
            ctx.mb(oml) == (MailboxV { row_len: num_outputs as nat, slot: None::<Seq<LLVMValueV>> }),
            forall|k: int|
                0 <= k < i ==> #[trigger] ctx.mb(oml + 1 + k) == (MailboxV {
                    row_len: cases@[k].num_inputs as nat,
                    slot: None::<Seq<LLVMValueV>>,
                }),
        decreases ncases - i,
    {
        let ghost pre = *ctx;
        let mbx = ctx.new_row_mail_box(cases[i].num_inputs);
        let ghost mid = *ctx;
        let bbx = ctx.new_basic_block();
        case_blocks.push(bbx);
        proof {
            assert(mbx.id == oml + 1 + i);
            assert(bbx == obl + 1 + i);
            assert(ctx.mb(oml + 1 + i as int) == (MailboxV {
                row_len: cases@[i as int].num_inputs as nat,
                slot: None::<Seq<LLVMValueV>>,
            }));
            assert(mid.mb(oml) == pre.mb(oml));
            assert(ctx.mb(oml) == mid.mb(oml));
            assert forall|q: int| 0 <= q < oml implies ctx.mb(q) == old(ctx).mb(q) by {
                assert(mid.mb(q) == pre.mb(q));
                assert(ctx.mb(q) == mid.mb(q));
            }
            assert forall|q: int| 0 <= q < obl implies (#[trigger] ctx.blocks@[q])@ == (old(
                ctx,
            ).blocks@[q])@ by {
                assert((mid.blocks@[q])@ == (pre.blocks@[q])@);
                assert((ctx.blocks@[q])@ == (mid.blocks@[q])@);
            }
            assert forall|k: int| 0 <= k < i implies #[trigger] ctx.mb(oml + 1 + k) == (MailboxV {
                row_len: cases@[k].num_inputs as nat,
                slot: None::<Seq<LLVMValueV>>,
            }) by {
                assert(mid.mb(oml + 1 + k) == pre.mb(oml + 1 + k));
                assert(ctx.mb(oml + 1 + k) == mid.mb(oml + 1 + k));
            }
        }
        i = i + 1;
    }
    // At the entry position: fill every case's mailbox with its variant's
    // fields plus the passthrough inputs, then branch on the selector's tag.
    let ghost entry_delta = conditional_entry_delta(oml + 1, obl + 1, sum_type.variants@, iv);
    let ghost case_writes = entry_delta.drop_last();
    proof {
        assert(case_writes =~= Seq::new(
            ncases as nat,
            |m: int|
                InstrV::MailboxWrite {
                    mailbox: (oml + 1 + m) as usize,
                    values: conditional_case_row(sum_type.variants@, m, iv),
                },
        ));
    }
    let mut i: usize = 0;
    while i < ncases
        invariant
            i <= ncases,
            ncases == cases@.len(),
            ncases == sum_type.variants@.len(),
            ins@.len() >= 1,
            iv == view_value_row(ins@),
            ctx.wf(),
            ctx.cur == old(ctx).cur,
            oc < obl,
            exit_bb == obl,
            exit_mb.id == oml,
            exit_mb.row_len == num_outputs,
            lst.spec_num_variants() == ncases,
            forall|m: int|
                0 <= m < ncases ==> (#[trigger] lst.variant_types@[m])@.len()
                    == sum_type.variants@[m]@.len(),
            ctx.mailboxes@.len() == oml + 1 + ncases,
            ctx.blocks@.len() == obl + 1 + ncases,
            case_blocks@.len() == ncases,
            forall|k: int| 0 <= k < ncases ==> #[trigger] case_blocks@[k] == obl + 1 + k,
            forall|q: int| 0 <= q < oml ==> ctx.mb(q) == old(ctx).mb(q),
            forall|q: int|
                0 <= q < obl && q != oc ==> (#[trigger] ctx.blocks@[q])@ == (old(
                    ctx,
                ).blocks@[q])@,
            (ctx.blocks@[oc])@ == (old(ctx).blocks@[oc])@ + case_writes.subrange(0, i as int),
            ctx.mb(oml) == (MailboxV { row_len: num_outputs as nat, slot: None::<Seq<LLVMValueV>> }),
            forall|k: int|
                i <= k < ncases ==> #[trigger] ctx.mb(oml + 1 + k) == (MailboxV {
                    row_len: cases@[k].num_inputs as nat,
                    slot: None::<Seq<LLVMValueV>>,
                }),
            forall|m: int|
                0 <= m < i ==> #[trigger] ctx.mb(oml + 1 + m) == (MailboxV {
                    row_len: cases@[m].num_inputs as nat,
                    slot: Some(conditional_case_row(sum_type.variants@, m, iv)),
                }),
            forall|m: int|
                0 <= m < i ==> cases@[m].num_inputs == sum_type.variants@[m]@.len() + (ins@.len()
                    - 1),
        decreases ncases - i,
    {
        let ghost cs0 = *ctx;
        let ml_now = ctx.mailboxes.len();
        proof {
            assert(oml + 1 + i < ml_now);
        }
        let case_mb = RowMailBox { id: exit_mb.id + 1 + i, row_len: cases[i].num_inputs };
        let mut fields = match lst.build_untag(i, &ins[0]) {
            Ok(f) => f,
            Err(e) => {
                proof {
                    assert(false);
                }
                return Err(e);
            }
        };
        let ghost arity = lst.spec_num_fields(i);
        proof {
            assert(view_value_row(fields@) == sum_untag_row(
                sum_type.variants@.len(),
                sum_type.variants@[i as int]@.len(),
                i,
                iv[0],
            ));
        }
        let mut p: usize = 1;
        while p < ins.len()
            invariant
                1 <= p <= ins@.len(),
                fields@.len() == arity + p - 1,
                view_value_row(fields@) == sum_untag_row(
                    sum_type.variants@.len(),
                    sum_type.variants@[i as int]@.len(),
                    i,
                    iv[0],
                ) + iv.subrange(1, p as int),
            decreases ins@.len() - p,
        {
            let ghost f0 = fields@;
            let c = clone_value(&ins[p]);
            let ghost cv = c@;
            fields.push(c);
            proof {
                lemma_view_value_row(ins@);
                assert(iv[p as int] == ins@[p as int]@);
                assert(fields@.drop_last() =~= f0);
                assert(fields@.last()@ == cv);
                assert(view_value_row(fields@) == view_value_row(f0).push(iv[p as int]));
                assert(iv.subrange(1, p as int + 1) =~= iv.subrange(1, p as int).push(
                    iv[p as int],
                ));
                assert(view_value_row(fields@) =~= sum_untag_row(
                    sum_type.variants@.len(),
                    sum_type.variants@[i as int]@.len(),
                    i,
                    iv[0],
                ) + iv.subrange(1, p as int + 1));
            }
            p = p + 1;
        }
        proof {
            assert(iv.subrange(1, ins@.len() as int) =~= iv.skip(1));
            assert(view_value_row(fields@) == conditional_case_row(
                sum_type.variants@,
                i as int,
                iv,
            ));
        }
        match ctx.write_mailbox(case_mb, fields) {
            Ok(()) => {}
            Err(e) => {
                proof {
                    lemma_cases_ok_iff(
                        t_s,
                        o_s,
                        c_s,
                        cases@,
                        sum_type.variants@,
                        ins@.len() - 1,
                        num_outputs as int,
                        ncases as int,
                    );
                    assert(cases@[i as int].num_inputs != sum_type.variants@[i as int]@.len() + (
                    ins@.len() - 1));
                }
                return Err(e);
            }
        }
        proof {
            assert(case_writes[i as int] == InstrV::MailboxWrite {
                mailbox: case_mb.id,
                values: conditional_case_row(sum_type.variants@, i as int, iv),
            });
            assert(case_writes.subrange(0, i as int + 1) =~= case_writes.subrange(
                0,
                i as int,
            ).push(case_writes[i as int]));
            assert((ctx.blocks@[oc])@ =~= (old(ctx).blocks@[oc])@ + case_writes.subrange(
                0,
                i as int + 1,
            ));
            assert forall|q: int| 0 <= q < oml implies ctx.mb(q) == old(ctx).mb(q) by {
                assert(ctx.mb(q) == cs0.mb(q));
            }
            assert forall|q: int|
                0 <= q < obl && q != oc implies (#[trigger] ctx.blocks@[q])@ == (old(
                ctx,
            ).blocks@[q])@ by {
                assert((ctx.blocks@[q])@ == (cs0.blocks@[q])@);
            }
            assert(ctx.mb(oml) == cs0.mb(oml));
            assert forall|k: int| i + 1 <= k < ncases implies #[trigger] ctx.mb(oml + 1 + k) == (
            MailboxV {
                row_len: cases@[k].num_inputs as nat,
                slot: None::<Seq<LLVMValueV>>,
            }) by {
                assert(ctx.mb(oml + 1 + k) == cs0.mb(oml + 1 + k));
            }
            assert forall|m: int| 0 <= m < i + 1 implies #[trigger] ctx.mb(oml + 1 + m) == (
            MailboxV {
                row_len: cases@[m].num_inputs as nat,
                slot: Some(conditional_case_row(sum_type.variants@, m, iv)),
            }) by {
                if m < i {
                    assert(ctx.mb(oml + 1 + m) == cs0.mb(oml + 1 + m));
                }
            }
        }
        i = i + 1;
    }
    let tag_v = lst.build_get_tag(&ins[0]);
    let ghost switch_instr = entry_delta.last();
    proof {
        assert(case_blocks@ =~= Seq::new(ncases as nat, |m: int| (obl + 1 + m) as usize));
        assert(case_writes.subrange(0, ncases as int) =~= case_writes);
        assert(switch_instr == InstrV::Switch {
            scrutinee: crate::sum::sum_get_tag_value(sum_type.variants@.len(), iv[0]),
            targets: case_blocks@,
        });
    }
    let sw = Instr::Switch { scrutinee: tag_v, targets: case_blocks };
    proof {
        assert(sw@ == switch_instr);
    }
    let ghost cs_sw = *ctx;
    ctx.append_instr(sw);
    proof {
        assert(entry_delta =~= case_writes.push(switch_instr));
        assert((ctx.blocks@[oc])@ =~= (old(ctx).blocks@[oc])@ + entry_delta);
        assert(ctx.mb(oml) == cs_sw.mb(oml));
        assert forall|q: int| 0 <= q < oml implies ctx.mb(q) == old(ctx).mb(q) by {
            assert(ctx.mb(q) == cs_sw.mb(q));
        }
        assert forall|m: int| 0 <= m < ncases implies #[trigger] ctx.mb(oml + 1 + m) == (MailboxV {
            row_len: cases@[m].num_inputs as nat,
            slot: Some(conditional_case_row(sum_type.variants@, m, iv)),
        }) by {
            assert(ctx.mb(oml + 1 + m) == cs_sw.mb(oml + 1 + m));
        }
        assert forall|q: int|
            0 <= q < obl && q != oc implies (#[trigger] ctx.blocks@[q])@ == (old(
            ctx,
        ).blocks@[q])@ by {
            assert((ctx.blocks@[q])@ == (cs_sw.blocks@[q])@);
        }
    }
    // Emit every case's body into its pre-allocated block; each writes the
    // shared exit mailbox and branches to the exit block.
    let mut i: usize = 0;
    while i < ncases
        invariant
            i <= ncases,
            ncases == cases@.len(),
            ncases == sum_type.variants@.len(),
            ins@.len() >= 1,
            iv == view_value_row(ins@),
            ctx.wf(),
            oc < obl,
            exit_bb == obl,
            exit_mb.id == oml,
            exit_mb.row_len == num_outputs,
            obl < ctx.blocks@.len(),
            ctx.mailboxes@.len() >= oml + 1 + ncases,
            ctx.blocks@.len() >= obl + 1 + ncases,
            (forall|m: int| 0 <= m < ncases ==> region_flat(#[trigger] cases@[m]))
                ==> ctx.blocks@.len() == obl + 1 + ncases,
            forall|q: int| 0 <= q < oml ==> ctx.mb(q) == old(ctx).mb(q),
            forall|q: int|
                0 <= q < obl && q != oc ==> (#[trigger] ctx.blocks@[q])@ == (old(
                    ctx,
                ).blocks@[q])@,
            (ctx.blocks@[oc])@ == (old(ctx).blocks@[oc])@ + entry_delta,
            ctx.mb(oml).row_len == num_outputs,
            forall|m: int|
                0 <= m < ncases ==> #[trigger] ctx.mb(oml + 1 + m) == (MailboxV {
                    row_len: cases@[m].num_inputs as nat,
                    slot: Some(conditional_case_row(sum_type.variants@, m, iv)),
                }),
            forall|m: int|
                0 <= m < ncases ==> cases@[m].num_inputs == sum_type.variants@[m]@.len() + (
                ins@.len() - 1),
            i >= 1 ==> ctx.mb(oml) == (MailboxV {
                row_len: num_outputs as nat,
                slot: Some(
                    region_out_vals(
                        cases@[i - 1],
                        c_s,
                        conditional_case_row(sum_type.variants@, i - 1, iv),
                    ),
                ),
            }),
            forall|m: int|
                0 <= m < i ==> {
                    let c = #[trigger] cases@[m];
                    &&& region_acyclic(c)
                    &&& region_ok(t_s, o_s, c_s, c)
                    &&& c.output_wires@.len() == num_outputs
                },
        decreases ncases - i,
    {
        let ghost cs0 = *ctx;
        let bl_now = ctx.blocks.len();
        let ml_now = ctx.mailboxes.len();
        proof {
            assert(obl + 1 + i < bl_now);
            assert(oml + 1 + i < ml_now);
        }
        let bb = exit_bb + 1 + i;
        ctx.position_at_end(bb);
        let case_mb = RowMailBox { id: exit_mb.id + 1 + i, row_len: cases[i].num_inputs };
        proof {
            assert(ctx.mb(case_mb.id as int) == cs0.mb(case_mb.id as int));
            assert(crate::emit::func::mailbox_wf(ctx.mb(case_mb.id as int)));
        }
        let ghost cs1 = *ctx;
        let read_back = ctx.read_mailbox(case_mb);
        proof {
            assert(read_back@.len() == cases@[i as int].num_inputs);
            assert(view_value_row(read_back@) == conditional_case_row(
                sum_type.variants@,
                i as int,
                iv,
            ));
        }
        let edp_r = emit_dataflow_parent(ctx, exts, &cases[i], read_back, exit_mb.promise());
        let ghost cs3 = *ctx;
        match edp_r {
            Ok(()) => {}
            Err(e) => {
                proof {
                    assert(!(region_acyclic(cases@[i as int]) && region_ok(
                        t_s,
                        o_s,
                        c_s,
                        cases@[i as int],
                    ) && cases@[i as int].output_wires@.len() == num_outputs));
                    lemma_cases_ok_iff(
                        t_s,
                        o_s,
                        c_s,
                        cases@,
                        sum_type.variants@,
                        ins@.len() - 1,
                        num_outputs as int,
                        ncases as int,
                    );
                }
                return Err(e);
            }
        }
        ctx.append_instr(Instr::Br { target: exit_bb });
        proof {
            assert(ctx.mb(oml) == cs3.mb(oml));
            assert forall|q: int| 0 <= q < oml implies ctx.mb(q) == old(ctx).mb(q) by {
                assert(cs3.mb(q) == cs1.mb(q));
                assert(ctx.mb(q) == cs3.mb(q));
            }
            assert forall|m: int| 0 <= m < ncases implies #[trigger] ctx.mb(oml + 1 + m) == (
            MailboxV {
                row_len: cases@[m].num_inputs as nat,
                slot: Some(conditional_case_row(sum_type.variants@, m, iv)),
            }) by {
                assert(cs3.mb(oml + 1 + m) == cs1.mb(oml + 1 + m));
                assert(ctx.mb(oml + 1 + m) == cs3.mb(oml + 1 + m));
            }
            assert forall|q: int|
                0 <= q < obl && q != oc implies (#[trigger] ctx.blocks@[q])@ == (old(
                ctx,
            ).blocks@[q])@ by {
                assert((cs1.blocks@[q])@ == (cs0.blocks@[q])@);
                assert((cs3.blocks@[q])@ == (cs1.blocks@[q])@);
                assert((ctx.blocks@[q])@ == (cs3.blocks@[q])@);
            }
            assert((cs1.blocks@[oc])@ == (cs0.blocks@[oc])@);
            assert((cs3.blocks@[oc])@ == (cs1.blocks@[oc])@);
            assert((ctx.blocks@[oc])@ == (cs3.blocks@[oc])@);
        }
        i = i + 1;
    }
    let bl_fin = ctx.blocks.len();
    proof {
        assert(obl < bl_fin);
    }
    let ghost cs_fin = *ctx;
    ctx.position_at_end(exit_bb);
    let outs = node_out_row(node, num_outputs);
    proof {
        lemma_cases_ok_iff(
            t_s,
            o_s,
            c_s,
            cases@,
            sum_type.variants@,
            ins@.len() - 1,
            num_outputs as int,
            ncases as int,
        );
        assert forall|q: int| 0 <= q < oml implies ctx.mb(q) == old(ctx).mb(q) by {
            assert(ctx.mb(q) == cs_fin.mb(q));
        }
        assert forall|m: int| 0 <= m < ncases implies #[trigger] ctx.mb(oml + 1 + m) == (MailboxV {
            row_len: cases@[m].num_inputs as nat,
            slot: Some(conditional_case_row(sum_type.variants@, m, iv)),
        }) by {
            assert(ctx.mb(oml + 1 + m) == cs_fin.mb(oml + 1 + m));
        }
        if ncases >= 1 {
            assert(ctx.mb(oml) == cs_fin.mb(oml));
        }
        assert forall|q: int|
            0 <= q < obl && q != oc implies (#[trigger] ctx.blocks@[q])@ == (old(
            ctx,
        ).blocks@[q])@ by {
            assert((ctx.blocks@[q])@ == (cs_fin.blocks@[q])@);
        }
        assert((ctx.blocks@[oc])@ == (cs_fin.blocks@[oc])@);
    }
    Ok(outs)
}

} // verus!
