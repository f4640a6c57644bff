//! The function context: the mutable state threaded through the emission of
//! one function — the basic blocks being built, the builder cursor (the block
//! instructions are currently inserted into), and the row mailboxes.
//!
//! A row mailbox is a unit of storage sized to one row, created once per
//! control-flow merge point. It supports `write` (row-length-checked) any
//! number of times from distinct incoming control edges, and `read` any
//! number of times after the writes on the active path have occurred. A
//! *promise* is the capability to perform exactly the eventual write.

use vstd::prelude::*;

use crate::custom::NativeConst;
use crate::sum::{clone_value_row, view_value_row, LLVMValue, LLVMValueV};
use crate::types::CodegenError;

verus! {

/// The mathematical view of one recorded instruction.
#[verifier::ext_equal]
pub enum InstrV {
    CustomOp { node: u64, handler: u64, inputs: Seq<LLVMValueV> },
    CallFn { node: u64, func: u64, inputs: Seq<LLVMValueV> },
    LoadConst { node: u64, handler: u64, konst: NativeConst },
    MailboxWrite { mailbox: usize, values: Seq<LLVMValueV> },
    Br { target: usize },
    Switch { scrutinee: LLVMValueV, targets: Seq<usize> },
}

/// One instruction recorded in a basic block. Mailbox traffic and branches
/// are recorded alongside the routed operations, so the physical shape of
/// the emitted code can be inspected.
#[derive(Debug)]
pub enum Instr {
    /// An extension op routed to the registered handler.
    CustomOp { node: u64, handler: u64, inputs: Vec<LLVMValue> },
    /// A direct call to the function with the given symbol.
    CallFn { node: u64, func: u64, inputs: Vec<LLVMValue> },
    /// A native constant materialised by the registered handler.
    LoadConst { node: u64, handler: u64, konst: NativeConst },
    /// A row written into a mailbox.
    MailboxWrite { mailbox: usize, values: Vec<LLVMValue> },
    /// An unconditional branch.
    Br { target: usize },
    /// A multi-way branch on a tag value: one target block per tag.
    Switch { scrutinee: LLVMValue, targets: Vec<usize> },
}

impl View for Instr {
    type V = InstrV;

    open spec fn view(&self) -> InstrV {
        match self {
            Instr::CustomOp { node, handler, inputs } => InstrV::CustomOp {
                node: *node,
                handler: *handler,
                inputs: view_value_row(inputs@),
            },
            Instr::CallFn { node, func, inputs } => InstrV::CallFn {
                node: *node,
                func: *func,
                inputs: view_value_row(inputs@),
            },
            Instr::LoadConst { node, handler, konst } => InstrV::LoadConst {
                node: *node,
                handler: *handler,
                konst: *konst,
            },
            Instr::MailboxWrite { mailbox, values } => InstrV::MailboxWrite {
                mailbox: *mailbox,
                values: view_value_row(values@),
            },
            Instr::Br { target } => InstrV::Br { target: *target },
            Instr::Switch { scrutinee, targets } => InstrV::Switch {
                scrutinee: scrutinee@,
                targets: targets@,
            },
        }
    }
}

/// The view of a list of recorded instructions, instruction by instruction.
pub open spec fn view_instr_row(instrs: Seq<Instr>) -> Seq<InstrV>
    decreases instrs,
{
    if instrs.len() == 0 {
        Seq::empty()
    } else {
        view_instr_row(instrs.drop_last()).push(instrs.last()@)
    }
}

/// The view of a list of instructions is taken instruction by instruction.
pub broadcast proof fn lemma_view_instr_row(instrs: Seq<Instr>)
    ensures
        (#[trigger] view_instr_row(instrs)).len() == instrs.len(),
        forall|i: int| 0 <= i < instrs.len() ==> view_instr_row(instrs)[i] == instrs[i]@,
    decreases instrs,
{
    if instrs.len() > 0 {
        lemma_view_instr_row(instrs.drop_last());
        assert forall|i: int| 0 <= i < instrs.len() implies view_instr_row(instrs)[i]
            == instrs[i]@ by {
            if i < instrs.len() - 1 {
                assert(instrs.drop_last()[i] == instrs[i]);
            }
        }
    }
}

/// A basic block being built: its recorded instructions, in insertion order.
#[derive(Debug)]
pub struct BlockData {
    pub instrs: Vec<Instr>,
}

impl View for BlockData {
    type V = Seq<InstrV>;

    open spec fn view(&self) -> Seq<InstrV> {
        view_instr_row(self.instrs@)
    }
}

/// The mathematical view of one mailbox: its row length and its contents,
/// `None` until the first write.
pub struct MailboxV {
    pub row_len: nat,
    pub slot: Option<Seq<LLVMValueV>>,
}

/// The storage of one mailbox.
#[derive(Debug)]
pub struct MailboxData {
    pub row_len: usize,
    pub slot: Option<Vec<LLVMValue>>,
}

impl View for MailboxData {
    type V = MailboxV;

    open spec fn view(&self) -> MailboxV {
        MailboxV {
            row_len: self.row_len as nat,
            slot: match self.slot {
                Some(vs) => Some(view_value_row(vs@)),
                None => None,
            },
        }
    }
}

/// What `read` returns of a mailbox: the stored row, or a row of undefined
/// values where no write has occurred. An empty-row mailbox therefore reads
/// as the empty row without requiring a prior write.
pub open spec fn spec_mailbox_read(m: MailboxV) -> Seq<LLVMValueV> {
    match m.slot {
        Some(vs) => vs,
        None => Seq::new(m.row_len, |i: int| LLVMValueV::Undef),
    }
}

/// Mailbox fidelity: a `write` of a row of the mailbox's length followed by
/// a `read` yields that row unchanged; and an empty-row mailbox reads as the
/// empty row without any prior write.
pub proof fn lemma_mailbox_fidelity(m: MailboxV, vs: Seq<LLVMValueV>)
    requires
        mailbox_wf(m),
    ensures
        spec_mailbox_read(MailboxV { row_len: m.row_len, slot: Some(vs) }) == vs,
        m.row_len == 0 ==> spec_mailbox_read(m) =~= Seq::<LLVMValueV>::empty(),
{
}

/// A handle to a mailbox of the function context: its index and the row
/// length it was created with.
#[derive(Clone, Copy)]
pub struct RowMailBox {
    pub id: usize,
    pub row_len: usize,
}

/// The capability to perform the eventual write of one mailbox, handed to a
/// producer that need not know the mailbox's identity.
#[derive(Clone, Copy)]
pub struct RowPromise {
    pub mailbox: RowMailBox,
}

impl RowMailBox {
    /// The promise to fulfil this mailbox.
    pub fn promise(&self) -> (r: RowPromise)
        ensures
            r.mailbox == *self,
    {
        RowPromise { mailbox: *self }
    }
}

/// The mutable state of the emission of one function. It is passed by
/// exclusive reference through the whole recursive descent, so at most one
/// region emitter inserts instructions at a time.
#[derive(Debug)]
pub struct EmitFuncContext {
    /// The basic blocks built so far; a block handle is an index here.
    pub blocks: Vec<BlockData>,
    /// The builder cursor: the block instructions are inserted into.
    pub cur: usize,
    /// The mailboxes created so far; a `RowMailBox` handle is an index here.
    pub mailboxes: Vec<MailboxData>,
}

/// A mailbox is well-formed when its stored row, if any, has the row length
/// the mailbox was created with.
pub open spec fn mailbox_wf(m: MailboxV) -> bool {
    m.slot matches Some(vs) ==> vs.len() == m.row_len
}

impl EmitFuncContext {
    /// The context is well-formed: the cursor points at an existing block.
    pub open spec fn wf(&self) -> bool {
        self.cur < self.blocks@.len()
    }

    /// The view of mailbox `i`.
    pub open spec fn mb(&self, i: int) -> MailboxV {
        self.mailboxes@[i]@
    }

    /// The recorded instructions of block `i`.
    pub open spec fn blk(&self, i: int) -> Seq<InstrV> {
        self.blocks@[i]@
    }

    /// A fresh context: one entry block, the cursor on it, no mailboxes.
    pub fn new() -> (r: EmitFuncContext)
        ensures
            r.wf(),
            r.blocks@.len() == 1,
            r.cur == 0,
            r.mailboxes@.len() == 0,
    {
        let mut blocks: Vec<BlockData> = Vec::new();
        blocks.push(BlockData { instrs: Vec::new() });
        EmitFuncContext { blocks, cur: 0, mailboxes: Vec::new() }
    }

    /// Appends a fresh, empty basic block; the cursor does not move.
    pub fn new_basic_block(&mut self) -> (bb: usize)
        requires
            old(self).wf(),
        ensures
            final(self).wf(),
            bb == old(self).blocks@.len(),
            final(self).blocks@.len() == old(self).blocks@.len() + 1,
            (final(self).blocks@[bb as int])@ == Seq::<InstrV>::empty(),
            forall|i: int|
                0 <= i < old(self).blocks@.len() ==> (#[trigger] final(self).blocks@[i])@ == (old(
                    self,
                ).blocks@[i])@,
            final(self).cur == old(self).cur,
            final(self).mailboxes@ == old(self).mailboxes@,
    {
        let bb = self.blocks.len();
        self.blocks.push(BlockData { instrs: Vec::new() });
        proof {
            assert((self.blocks@[bb as int])@ =~= Seq::<InstrV>::empty());
            assert forall|i: int| 0 <= i < old(self).blocks@.len() implies (
            #[trigger] self.blocks@[i])@ == (old(self).blocks@[i])@ by {
                assert(self.blocks@[i] == old(self).blocks@[i]);
            }
        }
        bb
    }

    /// Moves the cursor to the end of block `bb`.
    pub fn position_at_end(&mut self, bb: usize)
        requires
            old(self).wf(),
            bb < old(self).blocks@.len(),
        ensures
            final(self).wf(),
            final(self).cur == bb,
            final(self).blocks@ == old(self).blocks@,
            final(self).mailboxes@ == old(self).mailboxes@,
    {
        self.cur = bb;
    }

    /// Records an instruction at the cursor.
    pub fn append_instr(&mut self, instr: Instr)
        requires
            old(self).wf(),
        ensures
            final(self).wf(),
            final(self).cur == old(self).cur,
            final(self).blocks@.len() == old(self).blocks@.len(),
            final(self).mailboxes@ == old(self).mailboxes@,
            (final(self).blocks@[old(self).cur as int])@ == (old(self).blocks@[old(
                self,
            ).cur as int])@.push(instr@),
            forall|i: int|
                0 <= i < old(self).blocks@.len() && i != old(self).cur as int ==> (
                #[trigger] final(self).blocks@[i])@ == (old(self).blocks@[i])@,
    {
        let cur = self.cur;
        let blocks_len = self.blocks.len();
        let ghost iv = instr@;
        if cur < blocks_len {
            let b = &mut self.blocks[cur];
            b.instrs.push(instr);
        }
        proof {
            assert(self.blocks@[cur as int].instrs@.drop_last() =~= old(self).blocks@[
                cur as int].instrs@);
            assert(self.blocks@[cur as int].instrs@.last()@ == iv);
            assert((self.blocks@[cur as int])@ == (old(self).blocks@[cur as int])@.push(iv));
            assert forall|i: int|
                0 <= i < old(self).blocks@.len() && i != old(self).cur as int implies (
            #[trigger] self.blocks@[i])@ == (old(self).blocks@[i])@ by {
                assert(self.blocks@[i] == old(self).blocks@[i]);
            }
        }
    }

    /// Creates a mailbox sized to a row of `row_len` values, not yet written.
    pub fn new_row_mail_box(&mut self, row_len: usize) -> (r: RowMailBox)
        requires
            old(self).wf(),
        ensures
            final(self).wf(),
            r.id == old(self).mailboxes@.len(),
            r.row_len == row_len,
            final(self).mailboxes@.len() == old(self).mailboxes@.len() + 1,
            final(self).mailboxes@ == old(self).mailboxes@.push(
                MailboxData { row_len, slot: None },
            ),
            forall|i: int|
                0 <= i < old(self).mailboxes@.len() ==> (#[trigger] final(self).mailboxes@[i])@
                    == old(self).mailboxes@[i]@,
            final(self).mb(r.id as int) == (MailboxV { row_len: row_len as nat, slot: None }),
            final(self).blocks@ == old(self).blocks@,
            final(self).cur == old(self).cur,
    {
        let id = self.mailboxes.len();
        self.mailboxes.push(MailboxData { row_len, slot: None });
        proof {
            assert forall|i: int| 0 <= i < old(self).mailboxes@.len() implies (
            #[trigger] self.mailboxes@[i])@ == old(self).mailboxes@[i]@ by {
                assert(self.mailboxes@[i] == old(self).mailboxes@[i]);
            }
        }
        RowMailBox { id, row_len }
    }

    /// Writes a row into mailbox `mbox`, row-length-checked: a row of any
    /// other length than the mailbox's is a `ShapeError` and leaves the
    /// mailbox unchanged. The write is recorded at the cursor.
    pub fn write_mailbox(&mut self, mbox: RowMailBox, values: Vec<LLVMValue>) -> (r: Result<
        (),
        CodegenError,
    >)
        requires
            old(self).wf(),
            mbox.id < old(self).mailboxes@.len(),
            old(self).mb(mbox.id as int).row_len == mbox.row_len,
        ensures
            final(self).wf(),
            r is Ok <==> values@.len() == mbox.row_len,
            r matches Err(e) ==> e == CodegenError::ShapeError,
            final(self).cur == old(self).cur,
            final(self).blocks@.len() == old(self).blocks@.len(),
            final(self).mailboxes@.len() == old(self).mailboxes@.len(),
            forall|i: int|
                0 <= i < old(self).mailboxes@.len() && i != mbox.id as int ==> (#[trigger] final(self).mb(i)) == old(self).mb(i),
            r is Ok ==> final(self).mb(mbox.id as int) == (MailboxV {
                row_len: mbox.row_len as nat,
                slot: Some(view_value_row(values@)),
            }),
            r is Err ==> final(self).mb(mbox.id as int) == old(self).mb(mbox.id as int),
            r is Ok ==> (final(self).blocks@[old(self).cur as int])@ == (old(self).blocks@[old(
                self,
            ).cur as int])@.push(
                InstrV::MailboxWrite { mailbox: mbox.id, values: view_value_row(values@) },
            ),
            r is Err ==> final(self).blocks@ == old(self).blocks@,
            forall|i: int|
                0 <= i < old(self).blocks@.len() && i != old(self).cur as int ==> (
                #[trigger] final(self).blocks@[i])@ == (old(self).blocks@[i])@,
    {
        if values.len() != mbox.row_len {
            return Err(CodegenError::ShapeError);
        }
        let recorded = clone_value_row(&values);
        proof {
            crate::sum::lemma_view_value_row(recorded@);
            crate::sum::lemma_view_value_row(values@);
            assert(view_value_row(recorded@) =~= view_value_row(values@));
        }
        self.append_instr(Instr::MailboxWrite { mailbox: mbox.id, values: recorded });
        let ghost mid_st = *self;
        let ghost pre = self.mailboxes@;
        let id = mbox.id;
        let len_ok = id < self.mailboxes.len();
        if len_ok {
            let m = &mut self.mailboxes[id];
            m.slot = Some(values);
        }
        proof {
            assert(self.mailboxes@ =~= pre.update(
                id as int,
                MailboxData { row_len: mbox.row_len, slot: self.mailboxes@[id as int].slot },
            ));
            assert forall|i: int|
                0 <= i < old(self).mailboxes@.len() && i != mbox.id as int implies (
            #[trigger] self.mailboxes@[i])@ == old(self).mailboxes@[i]@ by {
                assert(self.mailboxes@[i] == old(self).mailboxes@[i]);
            }
            assert(self.blocks@ == mid_st.blocks@);
            assert((self.blocks@[old(self).cur as int])@ == (old(self).blocks@[old(
                self,
            ).cur as int])@.push(
                InstrV::MailboxWrite { mailbox: mbox.id, values: view_value_row(values@) },
            ));
            assert forall|i: int|
                0 <= i < old(self).blocks@.len() && i != old(self).cur as int implies (
            #[trigger] self.blocks@[i])@ == (old(self).blocks@[i])@ by {
                assert((mid_st.blocks@[i])@ == (old(self).blocks@[i])@);
            }
        }
        Ok(())
    }

    /// Reads the row of mailbox `mbox`: the row stored by the writes on the
    /// path taken, or a row of undefined values where no write has occurred.
    pub fn read_mailbox(&self, mbox: RowMailBox) -> (r: Vec<LLVMValue>)
        requires
            self.wf(),
            mbox.id < self.mailboxes@.len(),
            self.mb(mbox.id as int).row_len == mbox.row_len,
        ensures
            view_value_row(r@) == spec_mailbox_read(self.mb(mbox.id as int)),
            mailbox_wf(self.mb(mbox.id as int)) ==> r@.len() == mbox.row_len,
    {
        match &self.mailboxes[mbox.id].slot {
            Some(vs) => {
                let r = clone_value_row(vs);
                proof {
                    crate::sum::lemma_view_value_row(r@);
                    crate::sum::lemma_view_value_row(vs@);
                    assert(view_value_row(r@) =~= view_value_row(vs@));
                }
                r
            }
            None => {
                let mut r: Vec<LLVMValue> = Vec::new();
                let mut i: usize = 0;
                while i < mbox.row_len
                    invariant
                        i <= mbox.row_len,
                        r@.len() == i,
                        forall|j: int| 0 <= j < i ==> r@[j] == LLVMValue::Undef,
                    decreases mbox.row_len - i,
                {
                    r.push(LLVMValue::Undef);
                    i = i + 1;
                }
                proof {
                    crate::sum::lemma_view_value_row(r@);
                    assert(view_value_row(r@) =~= spec_mailbox_read(self.mb(mbox.id as int)));
                }
                r
            }
        }
    }
}

impl RowPromise {
    /// Fulfils the promise: writes `values` into the promised mailbox,
    /// row-length-checked.
    pub fn finish(self, ctx: &mut EmitFuncContext, values: Vec<LLVMValue>) -> (r: Result<
        (),
        CodegenError,
    >)
        requires
            old(ctx).wf(),
            self.mailbox.id < old(ctx).mailboxes@.len(),
            old(ctx).mb(self.mailbox.id as int).row_len == self.mailbox.row_len,
        ensures
            final(ctx).wf(),
            r is Ok <==> values@.len() == self.mailbox.row_len,
            r matches Err(e) ==> e == CodegenError::ShapeError,
            final(ctx).cur == old(ctx).cur,
            final(ctx).blocks@.len() == old(ctx).blocks@.len(),
            final(ctx).mailboxes@.len() == old(ctx).mailboxes@.len(),
            forall|i: int|
                0 <= i < old(ctx).mailboxes@.len() && i != self.mailbox.id as int ==> (
                #[trigger] final(ctx).mailboxes@[i])@ == old(ctx).mailboxes@[i]@,
            r is Ok ==> final(ctx).mb(self.mailbox.id as int) == (MailboxV {
                row_len: self.mailbox.row_len as nat,
                slot: Some(view_value_row(values@)),
            }),
            r is Err ==> final(ctx).mb(self.mailbox.id as int) == old(ctx).mb(
                self.mailbox.id as int,
            ),
            r is Ok ==> (final(ctx).blocks@[old(ctx).cur as int])@ == (old(ctx).blocks@[old(
                ctx,
            ).cur as int])@.push(
                InstrV::MailboxWrite {
                    mailbox: self.mailbox.id,
                    values: view_value_row(values@),
                },
            ),
            r is Err ==> final(ctx).blocks@ == old(ctx).blocks@,
            forall|i: int|
                0 <= i < old(ctx).blocks@.len() && i != old(ctx).cur as int ==> (
                #[trigger] final(ctx).blocks@[i])@ == (old(ctx).blocks@[i])@,
    {
        let ghost vv = view_value_row(values@);
        let ghost c0 = *ctx;
        let r = ctx.write_mailbox(self.mailbox, values);
        let ghost c1 = *ctx;
        proof {
            assert forall|i: int|
                0 <= i < old(ctx).mailboxes@.len() && i != self.mailbox.id as int implies (
            #[trigger] ctx.mailboxes@[i])@ == old(ctx).mailboxes@[i]@ by {
                assert(ctx.mb(i) == old(ctx).mb(i));
            }
            if r is Ok {
                assert((ctx.blocks@[old(ctx).cur as int])@ == (old(ctx).blocks@[old(
                    ctx,
                ).cur as int])@.push(
                    InstrV::MailboxWrite { mailbox: self.mailbox.id, values: vv },
                ));
            }
            assert forall|i: int|
                0 <= i < old(ctx).blocks@.len() && i != old(ctx).cur as int implies (
            #[trigger] ctx.blocks@[i])@ == (old(ctx).blocks@[i])@ by {
            }
        }
        r
    }
}

} // verus!
