//! The type mapper: turns graph-IR types into target value representations.
//!
//! Dispatch is on the type's shape: a leaf extension type is delegated to the
//! registered type handler (a `LookupError` if none is registered); a sum
//! type maps every field of every variant and builds the tagged-all-variants
//! representation; a function type maps its inputs and outputs and, used as a
//! value, is a pointer-sized indirect-call representation; anything else is
//! an `UnsupportedConstruct`.
//!
//! Mapping is deterministic: the result is a mathematical function —
//! [`spec_map_type`] — of the registered handlers and the type alone, so
//! identical graph types map to structurally identical representations
//! within one compilation.

use vstd::prelude::*;

use crate::custom::{type_handler_get, CodegenExtsMap};
use crate::sum::LLVMSumType;
use crate::types::{
    clone_llvm_type_row, lemma_view_llvm_type_row, view_llvm_type_row, CodegenError, CustomTypeKey,
    HugrFuncType, HugrSumType, HugrType, LLVMFuncType, LLVMType, LLVMTypeV,
};

verus! {

/// The view of a list of rows of target representations, row by row.
pub open spec fn view_llvm_type_rows(rows: Seq<Vec<LLVMType>>) -> Seq<Seq<LLVMTypeV>>
    decreases rows,
{
    if rows.len() == 0 {
        Seq::empty()
    } else {
        view_llvm_type_rows(rows.drop_last()).push(view_llvm_type_row(rows.last()@))
    }
}

/// The view of a list of rows is taken row by row.
pub proof fn lemma_view_llvm_type_rows(rows: Seq<Vec<LLVMType>>)
    ensures
        view_llvm_type_rows(rows).len() == rows.len(),
        forall|i: int|
            0 <= i < rows.len() ==> view_llvm_type_rows(rows)[i] == view_llvm_type_row(rows[i]@),
    decreases rows,
{
    if rows.len() > 0 {
        lemma_view_llvm_type_rows(rows.drop_last());
        assert forall|i: int| 0 <= i < rows.len() implies view_llvm_type_rows(rows)[i]
            == view_llvm_type_row(rows[i]@) by {
            if i < rows.len() - 1 {
                assert(rows.drop_last()[i] == rows[i]);
            }
        }
    }
}

/// The per-variant storage slots of the tagged-all-variants layout: one
/// struct per variant's row.
pub open spec fn spec_sum_slots(rows: Seq<Seq<LLVMTypeV>>) -> Seq<LLVMTypeV> {
    Seq::new(rows.len(), |i: int| LLVMTypeV::Agg(rows[i]))
}

/// The tagged-all-variants representation of a sum type whose variant rows
/// map to `rows`: storage for an `i32` tag when there are at least two
/// variants, then one struct per variant's row, co-resident.
pub open spec fn spec_sum_repr(rows: Seq<Seq<LLVMTypeV>>) -> LLVMTypeV {
    if rows.len() >= 2 {
        LLVMTypeV::Agg(seq![LLVMTypeV::Int(32)] + spec_sum_slots(rows))
    } else {
        LLVMTypeV::Agg(spec_sum_slots(rows))
    }
}

impl LLVMSumType {
    /// The layout struct this sum type is realised as.
    pub fn as_llvm_type(&self) -> (r: LLVMType)
        ensures
            r@ == spec_sum_repr(view_llvm_type_rows(self.variant_types@)),
    {
        let n = self.variant_types.len();
        let mut slots: Vec<LLVMType> = Vec::new();
        if n >= 2 {
            slots.push(LLVMType::Int(32));
        }
        let ghost prefix_len: int = slots@.len() as int;
        let mut i: usize = 0;
        while i < n
            invariant
                i <= n,
                n == self.variant_types@.len(),
                slots@.len() == prefix_len + i,
                prefix_len == if n >= 2 {
                    1int
                } else {
                    0int
                },
                prefix_len == 1 ==> slots@[0]@ == LLVMTypeV::Int(32),
                forall|j: int|
                    prefix_len <= j < prefix_len + i ==> #[trigger] slots@[j]@ == LLVMTypeV::Agg(
                        view_llvm_type_row(self.variant_types@[j - prefix_len]@),
                    ),
            decreases n - i,
        {
            let row = clone_llvm_type_row(&self.variant_types[i]);
            proof {
                lemma_view_llvm_type_row(row@);
                lemma_view_llvm_type_row(self.variant_types@[i as int]@);
                assert(view_llvm_type_row(row@) =~= view_llvm_type_row(
                    self.variant_types@[i as int]@,
                ));
            }
            slots.push(LLVMType::Agg(row));
            i = i + 1;
        }
        let r = LLVMType::Agg(slots);
        let ghost rows = view_llvm_type_rows(self.variant_types@);
        proof {
            lemma_view_llvm_type_row(slots@);
            lemma_view_llvm_type_rows(self.variant_types@);
            if n >= 2 {
                assert(view_llvm_type_row(slots@) =~= seq![LLVMTypeV::Int(32)] + spec_sum_slots(
                    rows,
                ));
            } else {
                assert(view_llvm_type_row(slots@) =~= spec_sum_slots(rows));
            }
        }
        r
    }
}

impl LLVMSumType {
    /// Attempts to create the representation of `sum_type` under `session`:
    /// every field of every variant mapped, stopping at the first error.
    pub fn try_new(session: &TypingSession, sum_type: &HugrSumType) -> (r: Result<
        LLVMSumType,
        CodegenError,
    >)
        ensures
            r matches Ok(lst) ==> spec_map_variants(session.exts.type_handlers@, sum_type.variants@)
                == Ok::<Seq<Seq<LLVMTypeV>>, CodegenError>(
                view_llvm_type_rows(lst.variant_types@),
            ),
            r matches Err(e) ==> spec_map_variants(session.exts.type_handlers@, sum_type.variants@)
                == Err::<Seq<Seq<LLVMTypeV>>, CodegenError>(e),
    {
        session.llvm_sum_type(sum_type)
    }
}

/// What the type mapper returns for `t` under the type handlers `s`.
pub open spec fn spec_map_type(s: Seq<(CustomTypeKey, LLVMType)>, t: HugrType) -> Result<
    LLVMTypeV,
    CodegenError,
>
    decreases t,
{
    match t {
        HugrType::Extension(key) => match type_handler_get(s, key) {
            Some(v) => Ok(v),
            None => Err(CodegenError::LookupError),
        },
        HugrType::Sum(st) => match spec_map_variants(s, st.variants@) {
            Ok(rows) => Ok(spec_sum_repr(rows)),
            Err(e) => Err(e),
        },
        HugrType::Function(ft) => match spec_map_row(s, ft.inputs@) {
            Ok(_) => match spec_map_row(s, ft.outputs@) {
                Ok(_) => Ok(LLVMTypeV::Ptr),
                Err(e) => Err(e),
            },
            Err(e) => Err(e),
        },
        HugrType::Variable(_) => Err(CodegenError::UnsupportedConstruct),
    }
}

/// What the type mapper returns for a row of types: the mapped row, or the
/// first error in row order.
pub open spec fn spec_map_row(s: Seq<(CustomTypeKey, LLVMType)>, row: Seq<HugrType>) -> Result<
    Seq<LLVMTypeV>,
    CodegenError,
>
    decreases row,
{
    if row.len() == 0 {
        Ok(Seq::empty())
    } else {
        match spec_map_row(s, row.drop_last()) {
            Ok(prefix) => match spec_map_type(s, row.last()) {
                Ok(v) => Ok(prefix.push(v)),
                Err(e) => Err(e),
            },
            Err(e) => Err(e),
        }
    }
}

/// What the type mapper returns for the variant rows of a sum type: every
/// variant's mapped row, or the first error in variant order.
pub open spec fn spec_map_variants(
    s: Seq<(CustomTypeKey, LLVMType)>,
    variants: Seq<Vec<HugrType>>,
) -> Result<Seq<Seq<LLVMTypeV>>, CodegenError>
    decreases variants,
{
    if variants.len() == 0 {
        Ok(Seq::empty())
    } else {
        match spec_map_variants(s, variants.drop_last()) {
            Ok(prefix) => match spec_map_row(s, variants.last()@) {
                Ok(v) => Ok(prefix.push(v)),
                Err(e) => Err(e),
            },
            Err(e) => Err(e),
        }
    }
}

/// Type-mapping determinism: mapping the same graph type twice under the
/// same registered handlers yields structurally identical representations.
/// [`TypingSession::llvm_type`] pins each run to [`spec_map_type`], a
/// mathematical function of the handlers and the type alone, so any two
/// successful runs agree.
pub proof fn lemma_type_mapping_deterministic(
    s: Seq<(CustomTypeKey, LLVMType)>,
    t: HugrType,
    r1: LLVMTypeV,
    r2: LLVMTypeV,
)
    requires
        spec_map_type(s, t) == Ok::<LLVMTypeV, CodegenError>(r1),
        spec_map_type(s, t) == Ok::<LLVMTypeV, CodegenError>(r2),
    ensures
        r1 == r2,
{
}

/// A target of the type mapper: how the mapped variant rows of a sum type
/// aggregate into one representation, and how a function type is realised
/// when used as a value rather than called.
pub trait TypeMappable {
    /// The representation the mapping produces.
    type OutV;

    /// Aggregates the mapped variant rows of a sum type.
    fn aggregate_variants(&self, sum_type: LLVMSumType) -> Self::OutV;

    /// Realises a function type used as a value.
    fn func_as_value(&self, signature: LLVMFuncType) -> Self::OutV;
}

/// A typing session: read-only access to the registered type handlers, under
/// which graph-IR types are mapped.
pub struct TypingSession<'c> {
    pub exts: &'c CodegenExtsMap,
}

impl<'c> TypingSession<'c> {
    /// Opens a typing session over the given registry.
    pub fn new(exts: &'c CodegenExtsMap) -> (r: TypingSession<'c>)
        ensures
            r.exts == exts,
    {
        TypingSession { exts }
    }

    /// Maps a graph-IR type to its target representation:
    /// [`spec_map_type`] of the registered handlers and the type.
    pub fn llvm_type(&self, t: &HugrType) -> (r: Result<LLVMType, CodegenError>)
        ensures
            r matches Ok(v) ==> spec_map_type(self.exts.type_handlers@, *t) == Ok::<
                LLVMTypeV,
                CodegenError,
            >(v@),
            r matches Err(e) ==> spec_map_type(self.exts.type_handlers@, *t) == Err::<
                LLVMTypeV,
                CodegenError,
            >(e),
        decreases *t,
    {
        match t {
            HugrType::Extension(key) => self.exts.lookup_type(*key),
            HugrType::Sum(st) => {
                match self.llvm_sum_type(st) {
                    Ok(lst) => Ok(crate::custom::types::LLVMTypeMapping.aggregate_variants(lst)),
                    Err(e) => Err(e),
                }
            }
            HugrType::Function(ft) => {
                match self.llvm_row(&ft.inputs) {
                    Ok(params) => match self.llvm_row(&ft.outputs) {
                        Ok(results) => Ok(
                            crate::custom::types::LLVMTypeMapping.func_as_value(
                                LLVMFuncType { params, results },
                            ),
                        ),
                        Err(e) => Err(e),
                    },
                    Err(e) => Err(e),
                }
            }
            HugrType::Variable(_) => Err(CodegenError::UnsupportedConstruct),
        }
    }

    /// Maps a row of graph-IR types, stopping at the first error.
    pub fn llvm_row(&self, row: &Vec<HugrType>) -> (r: Result<Vec<LLVMType>, CodegenError>)
        ensures
            r matches Ok(v) ==> spec_map_row(self.exts.type_handlers@, row@) == Ok::<
                Seq<LLVMTypeV>,
                CodegenError,
            >(view_llvm_type_row(v@)),
            r matches Err(e) ==> spec_map_row(self.exts.type_handlers@, row@) == Err::<
                Seq<LLVMTypeV>,
                CodegenError,
            >(e),
        decreases row@,
    {
        let mut out: Vec<LLVMType> = Vec::new();
        let mut i: usize = 0;
        proof {
            assert(row@.subrange(0, 0) =~= Seq::<HugrType>::empty());
        }
        while i < row.len()
            invariant
                i <= row@.len(),
                spec_map_row(self.exts.type_handlers@, row@.subrange(0, i as int)) == Ok::<
                    Seq<LLVMTypeV>,
                    CodegenError,
                >(view_llvm_type_row(out@)),
            decreases row@.len() - i,
        {
            let ghost out0 = out@;
            match self.llvm_type(&row[i]) {
                Ok(v) => {
                    out.push(v);
                    proof {
                        assert(row@.subrange(0, i + 1).drop_last() =~= row@.subrange(0, i as int));
                        assert(row@.subrange(0, i + 1).last() == row@[i as int]);
                        assert(out@.drop_last() =~= out0);
                        assert(out@.last() == v);
                    }
                    i = i + 1;
                }
                Err(e) => {
                    proof {
                        assert(row@.subrange(0, i + 1).drop_last() =~= row@.subrange(0, i as int));
                        assert(row@.subrange(0, i + 1).last() == row@[i as int]);
                        lemma_spec_map_row_error_propagates(self.exts.type_handlers@, row@, i as int);
                        assert(row@.subrange(0, row@.len() as int) =~= row@);
                    }
                    return Err(e);
                }
            }
        }
        proof {
            assert(row@.subrange(0, row@.len() as int) =~= row@);
        }
        Ok(out)
    }

    /// Maps a sum type to its [`LLVMSumType`]: every field of every variant
    /// mapped, stopping at the first error.
    pub fn llvm_sum_type(&self, st: &HugrSumType) -> (r: Result<LLVMSumType, CodegenError>)
        ensures
            r matches Ok(lst) ==> spec_map_variants(self.exts.type_handlers@, st.variants@) == Ok::<
                Seq<Seq<LLVMTypeV>>,
                CodegenError,
            >(view_llvm_type_rows(lst.variant_types@)),
            r matches Err(e) ==> spec_map_variants(self.exts.type_handlers@, st.variants@) == Err::<
                Seq<Seq<LLVMTypeV>>,
                CodegenError,
            >(e),
        decreases *st,
    {
        self.llvm_variants(&st.variants)
    }

    /// Maps a list of variant rows to its [`LLVMSumType`]: every field of
    /// every variant mapped, stopping at the first error.
    pub fn llvm_variants(&self, variants: &Vec<Vec<HugrType>>) -> (r: Result<
        LLVMSumType,
        CodegenError,
    >)
        ensures
            r matches Ok(lst) ==> spec_map_variants(self.exts.type_handlers@, variants@) == Ok::<
                Seq<Seq<LLVMTypeV>>,
                CodegenError,
            >(view_llvm_type_rows(lst.variant_types@)),
            r matches Ok(lst) ==> lst.variant_types@.len() == variants@.len() && forall|i: int|
                0 <= i < variants@.len() ==> (#[trigger] lst.variant_types@[i])@.len()
                    == variants@[i]@.len(),
            r matches Err(e) ==> spec_map_variants(self.exts.type_handlers@, variants@) == Err::<
                Seq<Seq<LLVMTypeV>>,
                CodegenError,
            >(e),
        decreases variants@,
    {
        let mut out: Vec<Vec<LLVMType>> = Vec::new();
        let mut i: usize = 0;
        proof {
            assert(variants@.subrange(0, 0) =~= Seq::<Vec<HugrType>>::empty());
            assert(view_llvm_type_rows(out@) =~= Seq::<Seq<LLVMTypeV>>::empty());
        }
        while i < variants.len()
            invariant
                i <= variants@.len(),
                out@.len() == i,
                spec_map_variants(self.exts.type_handlers@, variants@.subrange(0, i as int))
                    == Ok::<Seq<Seq<LLVMTypeV>>, CodegenError>(view_llvm_type_rows(out@)),
                forall|j: int|
                    0 <= j < i ==> (#[trigger] out@[j])@.len() == variants@[j]@.len(),
            decreases variants@.len() - i,
        {
            let ghost out0 = out@;
            match self.llvm_row(&variants[i]) {
                Ok(v) => {
                    proof {
                        lemma_view_llvm_type_rows(out0.push(v));
                        lemma_view_llvm_type_rows(out0);
                        lemma_view_llvm_type_row(v@);
                        lemma_spec_map_row_index(
                            self.exts.type_handlers@,
                            variants@[i as int]@,
                            view_llvm_type_row(v@),
                        );
                    }
                    out.push(v);
                    proof {
                        assert(variants@.subrange(0, i + 1).drop_last() =~= variants@.subrange(
                            0,
                            i as int,
                        ));
                        assert(variants@.subrange(0, i + 1).last() == variants@[i as int]);
                        assert(out@.drop_last() =~= out0);
                        assert(out@.last() == v);
                    }
                    i = i + 1;
                }
                Err(e) => {
                    proof {
                        assert(variants@.subrange(0, i + 1).drop_last() =~= variants@.subrange(
                            0,
                            i as int,
                        ));
                        assert(variants@.subrange(0, i + 1).last() == variants@[i as int]);
                        lemma_spec_map_variants_error_propagates(
                            self.exts.type_handlers@,
                            variants@,
                            i as int,
                        );
                        assert(variants@.subrange(0, variants@.len() as int) =~= variants@);
                    }
                    return Err(e);
                }
            }
        }
        proof {
            assert(variants@.subrange(0, variants@.len() as int) =~= variants@);
        }
        Ok(LLVMSumType { variant_types: out })
    }

    /// Maps a function type to its direct callable signature, stopping at
    /// the first error.
    pub fn llvm_func_type(&self, ft: &HugrFuncType) -> (r: Result<LLVMFuncType, CodegenError>)
        ensures
            r matches Ok(sig) ==> {
                &&& spec_map_row(self.exts.type_handlers@, ft.inputs@) == Ok::<
                    Seq<LLVMTypeV>,
                    CodegenError,
                >(view_llvm_type_row(sig.params@))
                &&& spec_map_row(self.exts.type_handlers@, ft.outputs@) == Ok::<
                    Seq<LLVMTypeV>,
                    CodegenError,
                >(view_llvm_type_row(sig.results@))
            },
            r matches Err(e) ==> spec_map_row(self.exts.type_handlers@, ft.inputs@) == Err::<
                Seq<LLVMTypeV>,
                CodegenError,
            >(e) || (spec_map_row(self.exts.type_handlers@, ft.inputs@) is Ok && spec_map_row(
                self.exts.type_handlers@,
                ft.outputs@,
            ) == Err::<Seq<LLVMTypeV>, CodegenError>(e)),
    {
        match self.llvm_row(&ft.inputs) {
            Ok(params) => match self.llvm_row(&ft.outputs) {
                Ok(results) => Ok(LLVMFuncType { params, results }),
                Err(e) => Err(e),
            },
            Err(e) => Err(e),
        }
    }
}

/// A mapped row has one representation per type, in order.
pub proof fn lemma_spec_map_row_index(
    s: Seq<(CustomTypeKey, LLVMType)>,
    row: Seq<HugrType>,
    out: Seq<LLVMTypeV>,
)
    requires
        spec_map_row(s, row) == Ok::<Seq<LLVMTypeV>, CodegenError>(out),
    ensures
        out.len() == row.len(),
        forall|i: int|
            0 <= i < row.len() ==> spec_map_type(s, row[i]) == Ok::<LLVMTypeV, CodegenError>(
                #[trigger] out[i],
            ),
    decreases row,
{
    if row.len() > 0 {
        let prefix = spec_map_row(s, row.drop_last()).unwrap();
        lemma_spec_map_row_index(s, row.drop_last(), prefix);
        assert forall|i: int| 0 <= i < row.len() implies spec_map_type(s, row[i]) == Ok::<
            LLVMTypeV,
            CodegenError,
        >(out[i]) by {
            if i < row.len() - 1 {
                assert(row.drop_last()[i] == row[i]);
            }
        }
    }
}

/// Mapped variant rows have one mapped row per variant, in order.
pub proof fn lemma_spec_map_variants_index(
    s: Seq<(CustomTypeKey, LLVMType)>,
    variants: Seq<Vec<HugrType>>,
    out: Seq<Seq<LLVMTypeV>>,
)
    requires
        spec_map_variants(s, variants) == Ok::<Seq<Seq<LLVMTypeV>>, CodegenError>(out),
    ensures
        out.len() == variants.len(),
        forall|i: int|
            0 <= i < variants.len() ==> spec_map_row(s, variants[i]@) == Ok::<
                Seq<LLVMTypeV>,
                CodegenError,
            >(#[trigger] out[i]),
    decreases variants,
{
    if variants.len() > 0 {
        let prefix = spec_map_variants(s, variants.drop_last()).unwrap();
        lemma_spec_map_variants_index(s, variants.drop_last(), prefix);
        assert forall|i: int| 0 <= i < variants.len() implies spec_map_row(s, variants[i]@) == Ok::<
            Seq<LLVMTypeV>,
            CodegenError,
        >(out[i]) by {
            if i < variants.len() - 1 {
                assert(variants.drop_last()[i] == variants[i]);
            }
        }
    }
}

/// If mapping the row fails on the element at `i` after an error-free prefix,
/// then mapping the whole row fails with that element's error.
proof fn lemma_spec_map_row_error_propagates(
    s: Seq<(CustomTypeKey, LLVMType)>,
    row: Seq<HugrType>,
    i: int,
)
    requires
        0 <= i < row.len(),
        spec_map_row(s, row.subrange(0, i + 1)) is Err,
    ensures
        spec_map_row(s, row) == spec_map_row(s, row.subrange(0, i + 1)),
    decreases row.len() - i,
{
    if i + 1 == row.len() {
        assert(row.subrange(0, i + 1) =~= row);
    } else {
        assert(row.subrange(0, i + 2).drop_last() =~= row.subrange(0, i + 1));
        lemma_spec_map_row_error_propagates(s, row, i + 1);
    }
}

/// If mapping the variant rows fails on the variant at `i` after an
/// error-free prefix, then mapping all variants fails with that error.
proof fn lemma_spec_map_variants_error_propagates(
    s: Seq<(CustomTypeKey, LLVMType)>,
    variants: Seq<Vec<HugrType>>,
    i: int,
)
    requires
        0 <= i < variants.len(),
        spec_map_variants(s, variants.subrange(0, i + 1)) is Err,
    ensures
        spec_map_variants(s, variants) == spec_map_variants(s, variants.subrange(0, i + 1)),
    decreases variants.len() - i,
{
    if i + 1 == variants.len() {
        assert(variants.subrange(0, i + 1) =~= variants);
    } else {
        assert(variants.subrange(0, i + 2).drop_last() =~= variants.subrange(0, i + 1));
        lemma_spec_map_variants_error_propagates(s, variants, i + 1);
    }
}

} // verus!
