//! The model of the graph IR consumed by the engine: a queryable, read-only
//! view of nodes, their ordered ports, and their hierarchy.
//!
//! A region is a sub-graph with an input boundary and an output boundary,
//! lowered as a unit. A straight-line (dataflow) region lists its
//! non-boundary children, each with the wires feeding its input ports; the
//! input boundary is implicit (a wire may read one of the region's inputs),
//! and the output boundary is the region's `output_wires`. Control-flow
//! regions carry their cases (conditionals) or their basic-block children
//! and explicit successor edges (control-flow graphs).

use vstd::prelude::*;

use crate::custom::NativeConst;
use crate::types::{HugrSumType, HugrType};

verus! {

/// The source feeding one input port: one of the enclosing region's inputs,
/// or an output port of a sibling child.
#[derive(Clone, Copy)]
pub enum WireSrc {
    /// The region's input at the given position.
    Input(usize),
    /// Output port `1` of sibling child `0`.
    Child(usize, usize),
}

/// A non-boundary child of a straight-line region.
pub struct DfgChild {
    /// The node's stable identifier, unique across the graph.
    pub node: u64,
    /// The node's operation.
    pub op: OpKind,
    /// The wires feeding the node's input ports, in port order.
    pub in_wires: Vec<WireSrc>,
    /// The number of the node's output ports.
    pub num_outputs: usize,
}

/// The operation of a non-boundary child.
pub enum OpKind {
    /// Packs the inputs into a tuple (a one-variant sum) of the given row.
    MakeTuple { row: Vec<HugrType> },
    /// Unpacks a tuple of the given row into its fields.
    UnpackTuple { row: Vec<HugrType> },
    /// Builds variant `tag` of `sum_type` from the inputs.
    Tag { tag: usize, sum_type: HugrSumType },
    /// Materialises a constant.
    LoadConstant { value: ConstValue },
    /// Calls the function declared under the symbol `func`; a call with type
    /// parameters is not lowered.
    Call { func: u64, type_params: usize },
    /// An extension op, routed to the registered handler.
    ExtensionOp { extension: u64, name: u64 },
    /// A nested straight-line region.
    Dfg(Box<DfgRegion>),
    /// A case dispatch over a sum-typed selector (the first input) plus
    /// passthrough inputs; one case body per variant of `sum_type`.
    Conditional { sum_type: HugrSumType, cases: Vec<DfgRegion> },
    /// A nested graph of basic blocks.
    Cfg(Box<CfgRegion>),
}

/// A constant value of the graph IR.
pub enum ConstValue {
    /// A native constant, materialised by a registered constant handler.
    Extension { konst: NativeConst },
    /// A tuple of constants.
    Tuple { values: Vec<ConstValue> },
    /// A sum constant: variant `tag` of `sum_type` holding `values`.
    Sum { tag: usize, values: Vec<ConstValue>, sum_type: HugrSumType },
    /// A function constant; the engine does not lower these.
    Function,
}

/// A straight-line region: its children form a DAG under the data-dependency
/// wires; the boundary input row has `num_inputs` values and the boundary
/// output row is fed by `output_wires`.
pub struct DfgRegion {
    pub num_inputs: usize,
    pub children: Vec<DfgChild>,
    pub output_wires: Vec<WireSrc>,
}

/// A basic-block child of a control-flow-graph region. Its body's first
/// output is a control-selector sum value with one variant per successor
/// edge (`sum_rows` are the variants' carried rows); the body's remaining
/// outputs are passed to every successor.
pub struct CfgBlock {
    /// The node's stable identifier.
    pub node: u64,
    /// The block's dataflow body.
    pub body: DfgRegion,
    /// The rows carried by the control-selector sum, one per successor.
    pub sum_rows: Vec<Vec<HugrType>>,
    /// The successor of each selector variant: the index of a sibling block,
    /// or the block count to name the region's exit.
    pub successors: Vec<usize>,
}

/// A control-flow-graph region, cycles allowed. The entry child is
/// `blocks[0]`; the distinguished exit child is named by the successor index
/// `blocks.len()` and carries a row of `exit_row_len` values out of the
/// region.
pub struct CfgRegion {
    pub blocks: Vec<CfgBlock>,
    pub exit_row_len: usize,
}

/// A function definition of the module: its body is a straight-line region.
pub struct FuncDefn {
    /// The node's stable identifier; the function's parameters are this
    /// node's output ports.
    pub node: u64,
    /// The symbol the function is defined under.
    pub name: u64,
    /// The function's body.
    pub body: DfgRegion,
}

/// A module of the graph IR: its top-level function definitions.
pub struct ModuleGraph {
    pub funcs: Vec<FuncDefn>,
}

} // verus!
