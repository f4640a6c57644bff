//! The control-flow-graph emitter: lowers a region whose children form a
//! real control-flow graph, cycles allowed.
//!
//! A pre-pass allocates a real basic block and an input mailbox for every
//! child before any body is emitted, because the children may be mutually
//! referential. The entry child receives the region's inputs, written into
//! its mailbox before an unconditional branch from the caller's position.
//! The exit child's mailbox is the region's output source. Every other
//! child, after its body is emitted, produces a control-selector sum value
//! that is destructured: each branch writes that edge's carried row
//! (re-appending the passthrough outputs) into the successor's pre-allocated
//! mailbox and branches to its pre-allocated block — concurrent in-edges are
//! exactly multiple writes to that one mailbox. A block with a single
//! successor selects it unconditionally, with no extra block.

use vstd::prelude::*;

use crate::custom::{CodegenExtsMap, ConstHandler};
use crate::emit::func::{EmitFuncContext, Instr, InstrV, MailboxV, RowMailBox, RowPromise};
use crate::emit::ops::{
    cfg_ok, emit_dataflow_parent, lemma_cfg_blocks_ok_iff, node_out_row, node_out_vals,
    region_flat, region_out_vals,
};
use crate::graph::{CfgBlock, CfgRegion};
use crate::sum::{
    clone_value, lemma_view_value_row, sum_untag_row, view_value_row, LLVMValue, LLVMValueV,
};
use crate::type_map::TypingSession;
use crate::types::CodegenError;

verus! {

broadcast use crate::sum::lemma_view_value_row;

/// The row a basic-block child sends along its successor edge of tag `t`:
/// that edge's carried fields untagged from the control-selector sum (the
/// body's first output), then the body's remaining outputs, re-appended.
pub open spec fn cfg_edge_row(
    blk: CfgBlock,
    consts: Seq<(u64, ConstHandler)>,
    entry_inputs: Seq<LLVMValueV>,
    t: int,
) -> Seq<LLVMValueV> {
    let outs = region_out_vals(blk.body, consts, entry_inputs);
    sum_untag_row(blk.sum_rows@.len(), blk.sum_rows@[t]@.len(), t as usize, outs[0]) + outs.skip(1)
}

/// The two-child shape: one basic-block child whose sole successor edge
/// selects the region's exit.
pub open spec fn cfg_single_edge_to_exit(cfg: CfgRegion) -> bool {
    &&& cfg.blocks@.len() == 1
    &&& cfg.blocks@[0].successors@.len() == 1
    &&& cfg.blocks@[0].successors@[0] == 1
}

/// Whether every basic-block child selects at most one successor and has a
/// flat body: lowering such a region allocates no block beyond the
/// pre-allocated per-child blocks and the exit block.
pub open spec fn cfg_all_single_flat(cfg: CfgRegion) -> bool {
    forall|b: int|
        0 <= b < cfg.blocks@.len() ==> (#[trigger] cfg.blocks@[b]).successors@.len() <= 1
            && region_flat(cfg.blocks@[b].body)
}

/// The input row block `b` reads from its pre-allocated mailbox under the
/// mailbox state `state`: the stored row, or undefined values where no
/// predecessor has written yet.
pub open spec fn cfg_entry_row(
    cfg: CfgRegion,
    state: Seq<Option<Seq<LLVMValueV>>>,
    b: int,
) -> Seq<LLVMValueV> {
    match state[b] {
        Some(v) => v,
        None => Seq::new(cfg.blocks@[b].body.num_inputs as nat, |i: int| LLVMValueV::Undef),
    }
}

/// The mailbox state after block `b`'s first `t` successor edges have
/// written their rows into their targets' mailboxes, starting from `state`
/// (the state the block's own input row was read under).
pub open spec fn cfg_block_writes(
    cfg: CfgRegion,
    consts: Seq<(u64, ConstHandler)>,
    state: Seq<Option<Seq<LLVMValueV>>>,
    b: int,
    t: int,
) -> Seq<Option<Seq<LLVMValueV>>>
    decreases t,
{
    if t <= 0 {
        state
    } else {
        let prev = cfg_block_writes(cfg, consts, state, b, t - 1);
        let dest = cfg.blocks@[b].successors@[t - 1] as int;
        if 0 <= dest < state.len() {
            prev.update(
                dest,
                Some(cfg_edge_row(cfg.blocks@[b], consts, cfg_entry_row(cfg, state, b), t - 1)),
            )
        } else {
            prev
        }
    }
}

/// The mailbox contents of the region's children after the blocks at
/// indexes below `b` have been emitted in index order, each sending its edge
/// rows in edge order. Index `d` below the block count is block `d`'s input
/// mailbox; index `blocks.len()` is the exit-source mailbox; the entry child
/// starts holding the region's input row.
pub open spec fn cfg_mailboxes(
    cfg: CfgRegion,
    consts: Seq<(u64, ConstHandler)>,
    iv: Seq<LLVMValueV>,
    b: int,
) -> Seq<Option<Seq<LLVMValueV>>>
    decreases b,
{
    if b <= 0 {
        Seq::new(
            cfg.blocks@.len() + 1,
            |d: int| if d == 0 { Some(iv) } else { None::<Seq<LLVMValueV>> },
        )
    } else {
        let state = cfg_mailboxes(cfg, consts, iv, b - 1);
        cfg_block_writes(cfg, consts, state, b - 1, cfg.blocks@[b - 1].successors@.len() as int)
    }
}

/// Edge writes do not change how many mailboxes the state covers.
pub proof fn lemma_cfg_block_writes_len(
    cfg: CfgRegion,
    consts: Seq<(u64, ConstHandler)>,
    state: Seq<Option<Seq<LLVMValueV>>>,
    b: int,
    t: int,
)
    ensures
        cfg_block_writes(cfg, consts, state, b, t).len() == state.len(),
    decreases t,
{
    if t > 0 {
        lemma_cfg_block_writes_len(cfg, consts, state, b, t - 1);
    }
}

/// The mailbox state always covers one slot per child plus the exit source.
pub proof fn lemma_cfg_mailboxes_len(
    cfg: CfgRegion,
    consts: Seq<(u64, ConstHandler)>,
    iv: Seq<LLVMValueV>,
    b: int,
)
    ensures
        cfg_mailboxes(cfg, consts, iv, b).len() == cfg.blocks@.len() + 1,
    decreases b,
{
    if b > 0 {
        lemma_cfg_mailboxes_len(cfg, consts, iv, b - 1);
        lemma_cfg_block_writes_len(
            cfg,
            consts,
            cfg_mailboxes(cfg, consts, iv, b - 1),
            b - 1,
            cfg.blocks@[b - 1].successors@.len() as int,
        );
    }
}

/// Lowers a control-flow-graph region, branching into it from the cursor;
/// afterwards the cursor is at the end of the region's exit block (the first
/// block allocated), and the region's outbound promise is fulfilled with one
/// merged name per output port, the moral phi of the exit child's mailbox.
///
/// The caller's block records exactly the write of the input row into the
/// entry child's mailbox and the unconditional branch to the entry block.
/// The blocks are emitted in index order, each sending its edge rows in edge
/// order, so every child's mailbox ends holding [`cfg_mailboxes`] of the
/// region, the handlers, and the input row — in particular, for the
/// two-child shape of [`cfg_single_edge_to_exit`], the exit-source mailbox
/// ends holding exactly the row the entry sent along its sole edge. Succeeds
/// exactly when the input row has the entry child's arity and every child
/// lowers ([`cfg_ok`]); where every child selects at most one successor and
/// has a flat body, no block beyond the pre-allocated ones is created.
#[verifier::loop_isolation(false)]
#[verifier::rlimit(100)]
pub fn emit_cfg(
    ctx: &mut EmitFuncContext,
    exts: &CodegenExtsMap,
    node: u64,
    cfg: &CfgRegion,
    ins: Vec<LLVMValue>,
    outputs: RowPromise,
) -> (r: Result<(), CodegenError>)
    requires
        old(ctx).wf(),
        outputs.mailbox.id < old(ctx).mailboxes@.len(),
        old(ctx).mb(outputs.mailbox.id as int).row_len == outputs.mailbox.row_len,
    ensures
        final(ctx).wf(),
        final(ctx).mailboxes@.len() >= old(ctx).mailboxes@.len(),
        final(ctx).blocks@.len() >= old(ctx).blocks@.len(),
        forall|i: int|
            0 <= i < old(ctx).mailboxes@.len() && i != outputs.mailbox.id as int ==> final(ctx).mb(
                i,
            ) == old(ctx).mb(i),
        final(ctx).cur == old(ctx).cur || final(ctx).cur >= old(ctx).blocks@.len(),
        forall|q: int|
            0 <= q < old(ctx).blocks@.len() && q != old(ctx).cur as int ==> (
            #[trigger] final(ctx).blocks@[q])@ == (old(ctx).blocks@[q])@,
        r is Ok <==> (cfg.blocks@.len() >= 1 && ins@.len() == cfg.blocks@[0].body.num_inputs
            && cfg_ok(exts.type_handlers@, exts.op_handlers@, exts.const_handlers@, *cfg)),
        r is Ok ==> final(ctx).mb(outputs.mailbox.id as int) == (MailboxV {
            row_len: outputs.mailbox.row_len as nat,
            slot: Some(node_out_vals(node, outputs.mailbox.row_len as nat)),
        }),
        r is Err ==> final(ctx).mb(outputs.mailbox.id as int) == old(ctx).mb(
            outputs.mailbox.id as int,
        ),
        r is Ok ==> final(ctx).cur == old(ctx).blocks@.len(),
        r is Ok ==> (final(ctx).blocks@[old(ctx).cur as int])@ == (old(ctx).blocks@[old(
            ctx,
        ).cur as int])@ + seq![
            InstrV::MailboxWrite {
                mailbox: (old(ctx).mailboxes@.len() as int + 1) as usize,
                values: view_value_row(ins@),
            },
            InstrV::Br { target: (old(ctx).blocks@.len() as int + 1) as usize },
        ],
        r is Ok ==> forall|d: int|
            0 <= d < cfg.blocks@.len() ==> (#[trigger] final(ctx).mb(
                old(ctx).mailboxes@.len() as int + 1 + d,
            )).slot == cfg_mailboxes(
                *cfg,
                exts.const_handlers@,
                view_value_row(ins@),
                cfg.blocks@.len() as int,
            )[d],
        r is Ok ==> final(ctx).mb(old(ctx).mailboxes@.len() as int).slot == cfg_mailboxes(
            *cfg,
            exts.const_handlers@,
            view_value_row(ins@),
            cfg.blocks@.len() as int,
        )[cfg.blocks@.len() as int],
        r is Ok && cfg_single_edge_to_exit(*cfg) ==> final(ctx).mb(
            old(ctx).mailboxes@.len() as int,
        ) == (MailboxV {
            row_len: cfg.exit_row_len as nat,
            slot: Some(
                cfg_edge_row(cfg.blocks@[0], exts.const_handlers@, view_value_row(ins@), 0),
            ),
        }),
        r is Ok && cfg_single_edge_to_exit(*cfg) ==> final(ctx).mb(
            old(ctx).mailboxes@.len() as int + 1,
        ) == (MailboxV {
            row_len: cfg.blocks@[0].body.num_inputs as nat,
            slot: Some(view_value_row(ins@)),
        }),
        r is Ok && cfg_all_single_flat(*cfg) ==> final(ctx).blocks@.len() == old(
            ctx,
        ).blocks@.len() + 1 + cfg.blocks@.len(),
    decreases *cfg,
{
    let ghost t_s = exts.type_handlers@;
    let ghost o_s = exts.op_handlers@;
    let ghost c_s = exts.const_handlers@;
    let ghost iv = view_value_row(ins@);
    let ghost oml = old(ctx).mailboxes@.len() as int;
    let ghost obl = old(ctx).blocks@.len() as int;
    let ghost oc = old(ctx).cur as int;
    proof {
        lemma_view_value_row(ins@);
    }
    let nblocks = cfg.blocks.len();
    if nblocks == 0 {
        return Err(CodegenError::ShapeError);
    }
    // Pre-pass: the region's output mailbox, the exit block, and one block
    // and input mailbox per child, all before any body is emitted.
    let out_mb = ctx.new_row_mail_box(cfg.exit_row_len);
    let exit_bb = ctx.new_basic_block();
    let mb_base = ctx.mailboxes.len();
    let bb_base = ctx.blocks.len();
    let mut i: usize = 0;
    while i < nblocks
        invariant
            i <= nblocks,
            nblocks == cfg.blocks@.len(),
            ctx.wf(),
            ctx.mailboxes@.len() == mb_base + i,
            ctx.blocks@.len() == bb_base + i,
            mb_base == oml + 1,
            bb_base == obl + 1,
            out_mb.id == oml,
            out_mb.row_len == cfg.exit_row_len,
            exit_bb == obl,
            oc < obl,
            ctx.cur == old(ctx).cur,
            forall|q: int| 0 <= q < oml ==> ctx.mb(q) == old(ctx).mb(q),
            forall|q: int|
                0 <= q < obl ==> (#[trigger] ctx.blocks@[q])@ == (old(ctx).blocks@[q])@,
            ctx.mb(oml) == (MailboxV {
                row_len: cfg.exit_row_len as nat,
                slot: None::<Seq<LLVMValueV>>,
            }),
            forall|k: int|
                0 <= k < i ==> (#[trigger] ctx.mb(mb_base + k)) == (MailboxV {
                    row_len: cfg.blocks@[k].body.num_inputs as nat,
                    slot: None::<Seq<LLVMValueV>>,
                }),
        decreases nblocks - i,
    {
        let ghost pre = *ctx;
        let bbx = ctx.new_basic_block();
        let ghost mid = *ctx;
        let mbx = ctx.new_row_mail_box(cfg.blocks[i].body.num_inputs);
        proof {
            assert(bbx == bb_base + i);
            assert(mbx.id == mb_base + i);
            assert(ctx.mb(mb_base + i as int) == (MailboxV {
                row_len: cfg.blocks@[i as int].body.num_inputs as nat,
                slot: None::<Seq<LLVMValueV>>,
            }));
            assert(mid.mb(oml) == pre.mb(oml));
            assert(ctx.mb(oml) == mid.mb(oml));
            assert forall|q: int| 0 <= q < oml implies ctx.mb(q) == old(ctx).mb(q) by {
                assert(mid.mb(q) == pre.mb(q));
                assert(ctx.mb(q) == mid.mb(q));
            }
            assert forall|q: int| 0 <= q < obl implies (#[trigger] ctx.blocks@[q])@ == (old(
                ctx,
            ).blocks@[q])@ by {
                assert((mid.blocks@[q])@ == (pre.blocks@[q])@);
                assert((ctx.blocks@[q])@ == (mid.blocks@[q])@);
            }
            assert forall|k: int| 0 <= k < i implies (#[trigger] ctx.mb(mb_base + k)) == (MailboxV {
                row_len: cfg.blocks@[k].body.num_inputs as nat,
                slot: None::<Seq<LLVMValueV>>,
            }) by {
                assert(mid.mb(mb_base + k) == pre.mb(mb_base + k));
                assert(ctx.mb(mb_base + k) == mid.mb(mb_base + k));
            }
        }
        i = i + 1;
    }
    // The region's inputs flow into the entry child's mailbox, and control
    // branches to its block; both are recorded at the caller's position.
    proof {
        assert(ctx.mb(mb_base + 0).row_len == cfg.blocks@[0].body.num_inputs);
    }
    let entry_mb = RowMailBox { id: mb_base, row_len: cfg.blocks[0].body.num_inputs };
    let ghost cw0 = *ctx;
    match ctx.write_mailbox(entry_mb, ins) {
        Ok(()) => {}
        Err(e) => {
            return Err(e);
        }
    }
    let ghost cw1 = *ctx;
    ctx.append_instr(Instr::Br { target: bb_base });
    let ghost entry_delta = seq![
        InstrV::MailboxWrite { mailbox: (oml + 1) as usize, values: iv },
        InstrV::Br { target: (obl + 1) as usize },
    ];
    proof {
        assert forall|q: int| 0 <= q < oml implies ctx.mb(q) == old(ctx).mb(q) by {
            assert(cw1.mb(q) == cw0.mb(q));
            assert(ctx.mb(q) == cw1.mb(q));
        }
        assert(cw1.mb(oml) == cw0.mb(oml));
        assert(ctx.mb(oml) == cw1.mb(oml));
        assert forall|q: int| 0 <= q < obl && q != oc implies (#[trigger] ctx.blocks@[q])@ == (old(
            ctx,
        ).blocks@[q])@ by {
            assert((cw1.blocks@[q])@ == (cw0.blocks@[q])@);
            assert((ctx.blocks@[q])@ == (cw1.blocks@[q])@);
        }
        assert((cw1.blocks@[oc])@ == (cw0.blocks@[oc])@.push(entry_delta[0]));
        assert((ctx.blocks@[oc])@ == (cw1.blocks@[oc])@.push(entry_delta[1]));
        assert((ctx.blocks@[oc])@ =~= (old(ctx).blocks@[oc])@ + entry_delta);
        assert forall|k: int| 0 <= k < nblocks implies (#[trigger] ctx.mb(mb_base + k)).row_len
            == cfg.blocks@[k].body.num_inputs && crate::emit::func::mailbox_wf(
            ctx.mb(mb_base + k),
        ) by {
            if mb_base + k != entry_mb.id as int {
                assert(cw1.mb(mb_base + k) == cw0.mb(mb_base + k));
            }
            assert(ctx.mb(mb_base + k) == cw1.mb(mb_base + k));
        }
        assert forall|d: int| 0 <= d < nblocks implies (#[trigger] ctx.mb(mb_base + d)).slot
            == cfg_mailboxes(*cfg, c_s, iv, 0)[d] by {
            if d != 0 {
                assert(cw1.mb(mb_base + d) == cw0.mb(mb_base + d));
                assert(ctx.mb(mb_base + d) == cw1.mb(mb_base + d));
            }
        }
        assert(ctx.mb(oml).slot == cfg_mailboxes(*cfg, c_s, iv, 0)[nblocks as int]);
    }
    // Emit every child's body into its pre-allocated block, then send its
    // edge rows into its successors' pre-allocated mailboxes, in edge order.
    let mut b: usize = 0;
    while b < nblocks
        invariant
            b <= nblocks,
            nblocks == cfg.blocks@.len(),
            nblocks >= 1,
            iv == view_value_row(ins@),
            ctx.wf(),
            ctx.mailboxes@.len() >= mb_base + nblocks,
            ctx.blocks@.len() >= bb_base + nblocks,
            mb_base == oml + 1,
            bb_base == obl + 1,
            out_mb.id == oml,
            out_mb.row_len == cfg.exit_row_len,
            exit_bb == obl,
            oc < obl,
            outputs.mailbox.id < oml,
            ctx.cur == old(ctx).cur || ctx.cur >= obl,
            forall|q: int| 0 <= q < oml ==> ctx.mb(q) == old(ctx).mb(q),
            forall|q: int|
                0 <= q < obl && q != oc ==> (#[trigger] ctx.blocks@[q])@ == (old(
                    ctx,
                ).blocks@[q])@,
            (ctx.blocks@[oc])@ == (old(ctx).blocks@[oc])@ + entry_delta,
            forall|k: int|
                0 <= k < nblocks ==> (#[trigger] ctx.mb(mb_base + k)).row_len
                    == cfg.blocks@[k].body.num_inputs,
            ctx.mb(oml).row_len == cfg.exit_row_len,
            crate::emit::func::mailbox_wf(ctx.mb(oml)),
            forall|k: int|
                0 <= k < nblocks ==> crate::emit::func::mailbox_wf(#[trigger] ctx.mb(mb_base + k)),
            forall|d: int|
                0 <= d < nblocks ==> (#[trigger] ctx.mb(mb_base + d)).slot == cfg_mailboxes(
                    *cfg,
                    c_s,
                    iv,
                    b as int,
                )[d],
            ctx.mb(oml).slot == cfg_mailboxes(*cfg, c_s, iv, b as int)[nblocks as int],
            cfg_all_single_flat(*cfg) ==> ctx.blocks@.len() == bb_base + nblocks,
            forall|m: int|
                0 <= m < b ==> {
                    let blk = #[trigger] cfg.blocks@[m];
                    &&& crate::emit::ops::region_acyclic(blk.body)
                    &&& crate::emit::ops::region_ok(t_s, o_s, c_s, blk.body)
                    &&& blk.successors@.len() == blk.sum_rows@.len()
                    &&& crate::type_map::spec_map_variants(t_s, blk.sum_rows@) is Ok
                    &&& blk.body.output_wires@.len() >= 1
                    &&& forall|t: int|
                        0 <= t < blk.successors@.len() ==> {
                            let dest = #[trigger] blk.successors@[t];
                            &&& dest <= cfg.blocks@.len()
                            &&& blk.sum_rows@[t]@.len() + blk.body.output_wires@.len() - 1 == (
                            if dest == cfg.blocks@.len() {
                                cfg.exit_row_len as int
                            } else {
                                cfg.blocks@[dest as int].body.num_inputs as int
                            })
                        }
                },
        decreases nblocks - b,
    {
        let blk = &cfg.blocks[b];
        if blk.successors.len() != blk.sum_rows.len() {
            proof {
                lemma_cfg_blocks_ok_iff(t_s, o_s, c_s, *cfg, nblocks as int);
            }
            return Err(CodegenError::ShapeError);
        }
        let ghost state_b = cfg_mailboxes(*cfg, c_s, iv, b as int);
        let ghost entry_row_b = cfg_entry_row(*cfg, state_b, b as int);
        proof {
            lemma_cfg_mailboxes_len(*cfg, c_s, iv, b as int);
        }
        let ghost cb0 = *ctx;
        let bl_now = ctx.blocks.len();
        let ml_now = ctx.mailboxes.len();
        proof {
            assert(bb_base + b < bl_now);
            assert(mb_base + b < ml_now);
        }
        ctx.position_at_end(bb_base + b);
        proof {
            assert(ctx.mb(mb_base + b as int) == cb0.mb(mb_base + b as int));
        }
        let in_mb = RowMailBox { id: mb_base + b, row_len: blk.body.num_inputs };
        let row = ctx.read_mailbox(in_mb);
        proof {
            lemma_view_value_row(row@);
            assert(view_value_row(row@) == entry_row_b);
        }
        let ghost cb1 = *ctx;
        let body_mb = ctx.new_row_mail_box(blk.body.output_wires.len());
        let ghost cb2 = *ctx;
        match emit_dataflow_parent(ctx, exts, &blk.body, row, body_mb.promise()) {
            Ok(()) => {}
            Err(e) => {
                proof {
                    lemma_cfg_blocks_ok_iff(t_s, o_s, c_s, *cfg, nblocks as int);
                    assert forall|q: int| 0 <= q < oml implies ctx.mb(q) == old(ctx).mb(q) by {
                        assert(cb2.mb(q) == cb1.mb(q));
                        assert(ctx.mb(q) == cb2.mb(q));
                    }
                    assert forall|q: int|
                        0 <= q < obl && q != oc implies (#[trigger] ctx.blocks@[q])@ == (old(
                    ctx,
                    ).blocks@[q])@ by {
                        assert((cb1.blocks@[q])@ == (cb0.blocks@[q])@);
                        assert((cb2.blocks@[q])@ == (cb1.blocks@[q])@);
                        assert((ctx.blocks@[q])@ == (cb2.blocks@[q])@);
                    }
                }
                return Err(e);
            }
        }
        let ghost cb3 = *ctx;
        proof {
            assert(ctx.mb(body_mb.id as int).row_len == body_mb.row_len);
            assert(crate::emit::func::mailbox_wf(ctx.mb(body_mb.id as int)));
        }
        let outs = ctx.read_mailbox(body_mb);
        let ghost outs_v = view_value_row(outs@);
        proof {
            lemma_view_value_row(outs@);
            assert(outs@.len() == blk.body.output_wires@.len());
            assert(outs_v == region_out_vals(blk.body, c_s, entry_row_b));
            assert forall|q: int| 0 <= q < oml implies ctx.mb(q) == old(ctx).mb(q) by {
                assert(cb2.mb(q) == cb1.mb(q));
                assert(ctx.mb(q) == cb2.mb(q));
            }
            assert(cb2.mb(oml) == cb1.mb(oml));
            assert(ctx.mb(oml) == cb2.mb(oml));
            assert forall|q: int|
                0 <= q < obl && q != oc implies (#[trigger] ctx.blocks@[q])@ == (old(
                ctx,
            ).blocks@[q])@ by {
                assert((cb1.blocks@[q])@ == (cb0.blocks@[q])@);
                assert((cb2.blocks@[q])@ == (cb1.blocks@[q])@);
                assert((ctx.blocks@[q])@ == (cb2.blocks@[q])@);
            }
            assert((cb1.blocks@[oc])@ == (cb0.blocks@[oc])@);
            assert((cb2.blocks@[oc])@ == (cb1.blocks@[oc])@);
            assert((ctx.blocks@[oc])@ == (cb2.blocks@[oc])@);
            assert forall|k: int| 0 <= k < nblocks implies (#[trigger] ctx.mb(mb_base + k)).row_len
                == cfg.blocks@[k].body.num_inputs && crate::emit::func::mailbox_wf(
                ctx.mb(mb_base + k),
            ) by {
                assert(cb2.mb(mb_base + k) == cb1.mb(mb_base + k));
                assert(ctx.mb(mb_base + k) == cb2.mb(mb_base + k));
            }
            assert forall|d: int| 0 <= d < nblocks implies (#[trigger] ctx.mb(mb_base + d)).slot
                == state_b[d] by {
                assert(cb2.mb(mb_base + d) == cb1.mb(mb_base + d));
                assert(ctx.mb(mb_base + d) == cb2.mb(mb_base + d));
            }
        }
        if outs.len() == 0 {
            proof {
                lemma_cfg_blocks_ok_iff(t_s, o_s, c_s, *cfg, nblocks as int);
            }
            return Err(CodegenError::ShapeError);
        }
        let session = TypingSession::new(exts);
        let lst = match session.llvm_variants(&blk.sum_rows) {
            Ok(l) => l,
            Err(e) => {
                proof {
                    lemma_cfg_blocks_ok_iff(t_s, o_s, c_s, *cfg, nblocks as int);
                }
                return Err(e);
            }
        };
        let nsucc = blk.successors.len();
        let single = nsucc == 1;
        let mut targets: Vec<usize> = Vec::new();
        let mut t: usize = 0;
        while t < nsucc
            invariant
                t <= nsucc,
                nsucc == blk.successors@.len(),
                nsucc == blk.sum_rows@.len(),
                nblocks == cfg.blocks@.len(),
                b < nblocks,
                *blk == cfg.blocks@[b as int],
                iv == view_value_row(ins@),
                outs@.len() >= 1,
                outs@.len() == blk.body.output_wires@.len(),
                outs_v == view_value_row(outs@),
                outs_v == region_out_vals(blk.body, c_s, entry_row_b),
                state_b == cfg_mailboxes(*cfg, c_s, iv, b as int),
                entry_row_b == cfg_entry_row(*cfg, state_b, b as int),
                lst.spec_num_variants() == nsucc,
                forall|m: int|
                    0 <= m < nsucc ==> (#[trigger] lst.variant_types@[m])@.len()
                        == blk.sum_rows@[m]@.len(),
                ctx.wf(),
                ctx.mailboxes@.len() >= mb_base + nblocks,
                ctx.blocks@.len() >= bb_base + nblocks,
                mb_base == oml + 1,
                bb_base == obl + 1,
                out_mb.id == oml,
                out_mb.row_len == cfg.exit_row_len,
                exit_bb == obl,
                oc < obl,
                ctx.cur >= obl,
                forall|q: int| 0 <= q < oml ==> ctx.mb(q) == old(ctx).mb(q),
                forall|q: int|
                    0 <= q < obl && q != oc ==> (#[trigger] ctx.blocks@[q])@ == (old(
                        ctx,
                    ).blocks@[q])@,
                (ctx.blocks@[oc])@ == (old(ctx).blocks@[oc])@ + entry_delta,
                forall|k: int|
                    0 <= k < nblocks ==> (#[trigger] ctx.mb(mb_base + k)).row_len
                        == cfg.blocks@[k].body.num_inputs,
                ctx.mb(oml).row_len == cfg.exit_row_len,
                crate::emit::func::mailbox_wf(ctx.mb(oml)),
                forall|k: int|
                    0 <= k < nblocks ==> crate::emit::func::mailbox_wf(
                        #[trigger] ctx.mb(mb_base + k),
                    ),
                forall|d: int|
                    0 <= d < nblocks ==> (#[trigger] ctx.mb(mb_base + d)).slot == cfg_block_writes(
                        *cfg,
                        c_s,
                        state_b,
                        b as int,
                        t as int,
                    )[d],
                ctx.mb(oml).slot == cfg_block_writes(*cfg, c_s, state_b, b as int, t as int)[
                    nblocks as int],
                cfg_all_single_flat(*cfg) ==> ctx.blocks@.len() == bb_base + nblocks,
                targets@.len() == t,
                forall|t2: int|
                    0 <= t2 < t ==> {
                        let dest = #[trigger] blk.successors@[t2];
                        &&& dest <= cfg.blocks@.len()
                        &&& blk.sum_rows@[t2]@.len() + outs@.len() - 1 == (if dest
                            == cfg.blocks@.len() {
                            cfg.exit_row_len as int
                        } else {
                            cfg.blocks@[dest as int].body.num_inputs as int
                        })
                    },
            decreases nsucc - t,
        {
            let dest = blk.successors[t];
            if dest > nblocks {
                proof {
                    lemma_cfg_blocks_ok_iff(t_s, o_s, c_s, *cfg, nblocks as int);
                }
                return Err(CodegenError::ShapeError);
            }
            let mut vals = match lst.build_untag(t, &outs[0]) {
                Ok(v) => v,
                Err(e) => {
                    proof {
                        assert(false);
                    }
                    return Err(e);
                }
            };
            let ghost arity = lst.spec_num_fields(t);
            proof {
                lemma_view_value_row(vals@);
                assert(outs_v[0] == outs@[0]@);
                assert(view_value_row(vals@) == sum_untag_row(
                    blk.sum_rows@.len(),
                    blk.sum_rows@[t as int]@.len(),
                    t,
                    outs_v[0],
                ));
            }
            let mut p: usize = 1;
            while p < outs.len()
                invariant
                    1 <= p <= outs@.len(),
                    vals@.len() == arity + p - 1,
                    view_value_row(vals@) == sum_untag_row(
                        blk.sum_rows@.len(),
                        blk.sum_rows@[t as int]@.len(),
                        t,
                        outs_v[0],
                    ) + outs_v.subrange(1, p as int),
                decreases outs@.len() - p,
            {
                let ghost f0 = vals@;
                let cpy = clone_value(&outs[p]);
                let ghost cv = cpy@;
                vals.push(cpy);
                proof {
                    lemma_view_value_row(outs@);
                    assert(outs_v[p as int] == outs@[p as int]@);
                    assert(vals@.drop_last() =~= f0);
                    assert(vals@.last()@ == cv);
                    assert(view_value_row(vals@) == view_value_row(f0).push(outs_v[p as int]));
                    assert(outs_v.subrange(1, p as int + 1) =~= outs_v.subrange(1, p as int).push(
                        outs_v[p as int],
                    ));
                    assert(view_value_row(vals@) =~= sum_untag_row(
                        blk.sum_rows@.len(),
                        blk.sum_rows@[t as int]@.len(),
                        t,
                        outs_v[0],
                    ) + outs_v.subrange(1, p as int + 1));
                }
                p = p + 1;
            }
            let ghost edge_row = cfg_edge_row(cfg.blocks@[b as int], c_s, entry_row_b, t as int);
            proof {
                assert(outs_v.subrange(1, outs@.len() as int) =~= outs_v.skip(1));
                assert(view_value_row(vals@) == edge_row);
            }
            let ml2 = ctx.mailboxes.len();
            let bl2 = ctx.blocks.len();
            proof {
                assert(mb_base + dest <= ml2);
                assert(bb_base + dest <= bl2);
            }
            let (dest_mb, dest_bb) = if dest == nblocks {
                (out_mb, exit_bb)
            } else {
                (
                    RowMailBox { id: mb_base + dest, row_len: cfg.blocks[dest].body.num_inputs },
                    bb_base + dest,
                )
            };
            let ghost ci0 = *ctx;
            if !single {
                let branch_bb = ctx.new_basic_block();
                ctx.position_at_end(branch_bb);
                targets.push(branch_bb);
            } else {
                targets.push(dest_bb);
            }
            let ghost ci1 = *ctx;
            proof {
                if dest < nblocks {
                    assert(ci0.mb(mb_base + dest as int).row_len == cfg.blocks@[
                        dest as int].body.num_inputs);
                    assert(ctx.mb(mb_base + dest as int) == ci0.mb(mb_base + dest as int));
                } else {
                    assert(ctx.mb(oml) == ci0.mb(oml));
                }
            }
            match ctx.write_mailbox(dest_mb, vals) {
                Ok(()) => {}
                Err(e) => {
                    proof {
                        lemma_cfg_blocks_ok_iff(t_s, o_s, c_s, *cfg, nblocks as int);
                        assert forall|q: int| 0 <= q < oml implies ctx.mb(q) == old(ctx).mb(
                            q,
                        ) by {
                            assert(ci1.mb(q) == ci0.mb(q));
                            assert(ctx.mb(q) == ci1.mb(q));
                        }
                        assert forall|q: int|
                            0 <= q < obl && q != oc implies (#[trigger] ctx.blocks@[q])@ == (old(
                        ctx,
                        ).blocks@[q])@ by {
                            assert((ci1.blocks@[q])@ == (ci0.blocks@[q])@);
                            assert((ctx.blocks@[q])@ == (ci1.blocks@[q])@);
                        }
                    }
                    return Err(e);
                }
            }
            let ghost ci2 = *ctx;
            ctx.append_instr(Instr::Br { target: dest_bb });
            if !single {
                let bl3 = ctx.blocks.len();
                proof {
                    assert(bb_base + b < bl3);
                }
                ctx.position_at_end(bb_base + b);
            }
            proof {
                lemma_cfg_block_writes_len(*cfg, c_s, state_b, b as int, t as int);
                lemma_cfg_block_writes_len(*cfg, c_s, state_b, b as int, t as int + 1);
                assert(blk.successors@[t as int] == dest);
                assert(cfg_block_writes(*cfg, c_s, state_b, b as int, t as int) == cfg_block_writes(
                    *cfg,
                    c_s,
                    state_b,
                    b as int,
                    (t as int + 1) - 1,
                ));
                assert forall|q: int| 0 <= q < oml implies ctx.mb(q) == old(ctx).mb(q) by {
                    assert(ci1.mb(q) == ci0.mb(q));
                    assert(ci2.mb(q) == ci1.mb(q));
                    assert(ctx.mb(q) == ci2.mb(q));
                }
                assert forall|q: int|
                    0 <= q < obl && q != oc implies (#[trigger] ctx.blocks@[q])@ == (old(
                    ctx,
                ).blocks@[q])@ by {
                    assert((ci1.blocks@[q])@ == (ci0.blocks@[q])@);
                    assert((ci2.blocks@[q])@ == (ci1.blocks@[q])@);
                    assert((ctx.blocks@[q])@ == (ci2.blocks@[q])@);
                }
                assert((ci1.blocks@[oc])@ == (ci0.blocks@[oc])@);
                assert((ci2.blocks@[oc])@ == (ci1.blocks@[oc])@);
                assert((ctx.blocks@[oc])@ == (ci2.blocks@[oc])@);
                if dest_mb.id as int != out_mb.id as int {
                    assert(ci2.mb(oml) == ci1.mb(oml));
                }
                assert(ci1.mb(oml) == ci0.mb(oml));
                assert(ctx.mb(oml) == ci2.mb(oml));
                assert(ctx.mb(oml).row_len == cfg.exit_row_len);
                assert(crate::emit::func::mailbox_wf(ctx.mb(oml)));
                assert forall|k: int| 0 <= k < nblocks implies (#[trigger] ctx.mb(
                    mb_base + k,
                )).row_len == cfg.blocks@[k].body.num_inputs && crate::emit::func::mailbox_wf(
                    ctx.mb(mb_base + k),
                ) by {
                    assert(ci1.mb(mb_base + k) == ci0.mb(mb_base + k));
                    if mb_base + k != dest_mb.id as int {
                        assert(ci2.mb(mb_base + k) == ci1.mb(mb_base + k));
                    }
                    assert(ctx.mb(mb_base + k) == ci2.mb(mb_base + k));
                }
                assert(cfg_block_writes(*cfg, c_s, state_b, b as int, t as int + 1)
                    == cfg_block_writes(*cfg, c_s, state_b, b as int, t as int).update(
                    dest as int,
                    Some(
                        cfg_edge_row(
                            cfg.blocks@[b as int],
                            c_s,
                            cfg_entry_row(*cfg, state_b, b as int),
                            t as int,
                        ),
                    ),
                ));
                assert(cfg_block_writes(*cfg, c_s, state_b, b as int, t as int + 1)
                    == cfg_block_writes(*cfg, c_s, state_b, b as int, t as int).update(
                    dest as int,
                    Some(edge_row),
                ));
                if dest == nblocks {
                    assert(ctx.mb(oml) == ci2.mb(oml));
                    assert(ci2.mb(oml).slot == Some(edge_row));
                } else {
                    assert(ctx.mb(mb_base + dest as int) == ci2.mb(mb_base + dest as int));
                    assert(ci2.mb(mb_base + dest as int).slot == Some(edge_row));
                }
                assert forall|d: int| 0 <= d < nblocks implies (#[trigger] ctx.mb(
                    mb_base + d,
                )).slot == cfg_block_writes(*cfg, c_s, state_b, b as int, t as int + 1)[d] by {
                    assert(ci1.mb(mb_base + d) == ci0.mb(mb_base + d));
                    if mb_base + d != dest_mb.id as int {
                        assert(ci2.mb(mb_base + d) == ci1.mb(mb_base + d));
                    }
                    assert(ctx.mb(mb_base + d) == ci2.mb(mb_base + d));
                }
                assert(ctx.mb(oml).slot == cfg_block_writes(
                    *cfg,
                    c_s,
                    state_b,
                    b as int,
                    t as int + 1,
                )[nblocks as int]);
            }
            t = t + 1;
        }
        let ghost cb4 = *ctx;
        if !single {
            let tag_v = lst.build_get_tag(&outs[0]);
            ctx.append_instr(Instr::Switch { scrutinee: tag_v, targets });
        }
        proof {
            assert(cfg_mailboxes(*cfg, c_s, iv, b as int + 1) == cfg_block_writes(
                *cfg,
                c_s,
                state_b,
                b as int,
                nsucc as int,
            ));
            assert forall|q: int| 0 <= q < oml implies ctx.mb(q) == old(ctx).mb(q) by {
                assert(ctx.mb(q) == cb4.mb(q));
            }
            assert(ctx.mb(oml) == cb4.mb(oml));
            assert forall|q: int|
                0 <= q < obl && q != oc implies (#[trigger] ctx.blocks@[q])@ == (old(
                ctx,
            ).blocks@[q])@ by {
                assert((ctx.blocks@[q])@ == (cb4.blocks@[q])@);
            }
            assert((ctx.blocks@[oc])@ == (cb4.blocks@[oc])@);
            assert forall|k: int| 0 <= k < nblocks implies (#[trigger] ctx.mb(mb_base + k)).row_len
                == cfg.blocks@[k].body.num_inputs && crate::emit::func::mailbox_wf(
                ctx.mb(mb_base + k),
            ) by {
                assert(ctx.mb(mb_base + k) == cb4.mb(mb_base + k));
            }
            assert forall|d: int| 0 <= d < nblocks implies (#[trigger] ctx.mb(mb_base + d)).slot
                == cfg_mailboxes(*cfg, c_s, iv, b as int + 1)[d] by {
                assert(ctx.mb(mb_base + d) == cb4.mb(mb_base + d));
            }
        }
        b = b + 1;
    }
    let ghost cs5 = *ctx;
    ctx.position_at_end(exit_bb);
    let toks = node_out_row(node, outputs.mailbox.row_len);
    proof {
        lemma_view_value_row(toks@);
    }
    let ghost cs6 = *ctx;
    match outputs.finish(ctx, toks) {
        Ok(()) => {}
        Err(e) => {
            proof {
                assert(false);
            }
            return Err(e);
        }
    }
    proof {
        lemma_cfg_blocks_ok_iff(t_s, o_s, c_s, *cfg, nblocks as int);
        assert forall|q: int|
            0 <= q < oml && q != outputs.mailbox.id as int implies ctx.mb(q) == old(ctx).mb(
            q,
        ) by {
            assert(cs6.mb(q) == cs5.mb(q));
            assert(ctx.mb(q) == cs6.mb(q));
        }
        assert forall|q: int|
            0 <= q < obl && q != oc implies (#[trigger] ctx.blocks@[q])@ == (old(
            ctx,
        ).blocks@[q])@ by {
            assert((cs6.blocks@[q])@ == (cs5.blocks@[q])@);
            assert((ctx.blocks@[q])@ == (cs6.blocks@[q])@);
        }
        assert((cs6.blocks@[oc])@ == (cs5.blocks@[oc])@);
        assert((ctx.blocks@[oc])@ == (cs6.blocks@[oc])@);
        assert(cs6.mb(oml) == cs5.mb(oml));
        assert(ctx.mb(oml) == cs6.mb(oml));
        assert forall|d: int| 0 <= d < nblocks implies (#[trigger] ctx.mb(mb_base + d)).slot
            == cfg_mailboxes(*cfg, c_s, iv, nblocks as int)[d] by {
            assert(cs6.mb(mb_base + d) == cs5.mb(mb_base + d));
            assert(ctx.mb(mb_base + d) == cs6.mb(mb_base + d));
        }
        if cfg_single_edge_to_exit(*cfg) {
            lemma_cfg_mailboxes_len(*cfg, c_s, iv, 0);
            lemma_cfg_mailboxes_len(*cfg, c_s, iv, 1);
            assert(cfg_mailboxes(*cfg, c_s, iv, 0)[0] == Some(iv));
            assert(cfg_entry_row(*cfg, cfg_mailboxes(*cfg, c_s, iv, 0), 0) == iv);
            assert(cfg_block_writes(*cfg, c_s, cfg_mailboxes(*cfg, c_s, iv, 0), 0, 0)
                == cfg_mailboxes(*cfg, c_s, iv, 0));
            assert(cfg_mailboxes(*cfg, c_s, iv, 1) == cfg_block_writes(
                *cfg,
                c_s,
                cfg_mailboxes(*cfg, c_s, iv, 0),
                0,
                1,
            ));
            assert(cfg_mailboxes(*cfg, c_s, iv, 1) == cfg_mailboxes(*cfg, c_s, iv, 0).update(
                1int,
                Some(cfg_edge_row(cfg.blocks@[0], c_s, iv, 0)),
            ));
            assert(cfg_mailboxes(*cfg, c_s, iv, 1)[1] == Some(
                cfg_edge_row(cfg.blocks@[0], c_s, iv, 0),
            ));
            assert(cfg_mailboxes(*cfg, c_s, iv, 1)[0] == Some(iv));
        }
    }
    Ok(())
}

} // verus!
