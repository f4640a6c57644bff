//! The sum encoder: the tagged-all-variants representation of graph-IR sum
//! types, and the tag / untag / get-tag / destructure operations over it.
//!
//! A sum value's physical layout holds storage for the tag (an `i32`; present
//! only when there are at least two variants) and for every variant's row,
//! co-resident and not overlapping, so that any variant's fields can be
//! extracted or inserted with ordinary field projection.
//!
//! Values of the emitted module are modelled by [`LLVMValue`]: integer
//! constants, struct aggregates, undefined storage, the opaque results of
//! plugin-emitted operations ([`LLVMValue::NodeOut`]), and symbolic field
//! projections from such opaque values ([`LLVMValue::Proj`]).

use vstd::prelude::*;

use crate::types::{clone_llvm_type_row, CodegenError, LLVMType, LLVMTypeV};

verus! {

/// The mathematical view of a value of the emitted module.
#[verifier::ext_equal]
pub enum LLVMValueV {
    Num(u64),
    Undef,
    NodeOut(u64, usize),
    ConstVal(u64, u64),
    Agg(Seq<LLVMValueV>),
    Proj(Box<LLVMValueV>, usize),
}

/// A value of the emitted module.
///
/// `Num` is an integer constant; `Agg` a struct aggregate; `Undef` undefined
/// storage; `NodeOut(node, port)` the opaque result a node's lowering left on
/// one of its output ports; `ConstVal(handler, concrete)` the value a
/// registered constant handler materialised for a native constant; `Proj(v,
/// i)` the symbolic projection of field `i` out of a value whose fields are
/// not statically known.
#[derive(Debug, PartialEq, Eq)]
pub enum LLVMValue {
    Num(u64),
    Undef,
    NodeOut(u64, usize),
    ConstVal(u64, u64),
    Agg(Vec<LLVMValue>),
    Proj(Box<LLVMValue>, usize),
}

/// The view of a row of values, element by element.
pub open spec fn view_value_row(row: Seq<LLVMValue>) -> Seq<LLVMValueV>
    decreases row,
{
    if row.len() == 0 {
        Seq::empty()
    } else {
        view_value_row(row.drop_last()).push(row.last()@)
    }
}

impl View for LLVMValue {
    type V = LLVMValueV;

    open spec fn view(&self) -> LLVMValueV
        decreases self,
    {
        match self {
            LLVMValue::Num(x) => LLVMValueV::Num(*x),
            LLVMValue::Undef => LLVMValueV::Undef,
            LLVMValue::NodeOut(n, p) => LLVMValueV::NodeOut(*n, *p),
            LLVMValue::ConstVal(h, c) => LLVMValueV::ConstVal(*h, *c),
            LLVMValue::Agg(fields) => LLVMValueV::Agg(view_value_row(fields@)),
            LLVMValue::Proj(base, i) => LLVMValueV::Proj(Box::new((**base)@), *i),
        }
    }
}

/// The view of a row of values is taken element by element.
pub broadcast proof fn lemma_view_value_row(row: Seq<LLVMValue>)
    ensures
        (#[trigger] view_value_row(row)).len() == row.len(),
        forall|i: int| 0 <= i < row.len() ==> view_value_row(row)[i] == row[i]@,
    decreases row,
{
    if row.len() > 0 {
        lemma_view_value_row(row.drop_last());
        assert(view_value_row(row) == view_value_row(row.drop_last()).push(row.last()@));
        assert forall|i: int| 0 <= i < row.len() implies view_value_row(row)[i] == row[i]@ by {
            if i < row.len() - 1 {
                assert(row.drop_last()[i] == row[i]);
            }
        }
    }
}

impl Clone for LLVMValue {
    fn clone(&self) -> (r: Self)
        ensures
            r@ == self@,
    {
        clone_value(self)
    }
}

/// Clones a value, preserving its view exactly.
pub fn clone_value(v: &LLVMValue) -> (r: LLVMValue)
    ensures
        r@ == v@,
    decreases *v,
{
    match v {
        LLVMValue::Num(x) => LLVMValue::Num(*x),
        LLVMValue::Undef => LLVMValue::Undef,
        LLVMValue::NodeOut(n, p) => LLVMValue::NodeOut(*n, *p),
        LLVMValue::ConstVal(h, c) => LLVMValue::ConstVal(*h, *c),
        LLVMValue::Agg(fields) => {
            let fs = clone_value_row(fields);
            proof {
                broadcast use lemma_view_value_row;

                assert(view_value_row(fs@) =~= view_value_row(fields@));
            }
            LLVMValue::Agg(fs)
        }
        LLVMValue::Proj(base, i) => LLVMValue::Proj(Box::new(clone_value(base)), *i),
    }
}

/// Clones a row of values, preserving its views exactly.
pub fn clone_value_row(row: &Vec<LLVMValue>) -> (r: Vec<LLVMValue>)
    ensures
        r@.len() == row@.len(),
        forall|i: int| 0 <= i < row@.len() ==> r@[i]@ == row@[i]@,
    decreases row@,
{
    let mut r: Vec<LLVMValue> = Vec::new();
    let mut i: usize = 0;
    while i < row.len()
        invariant
            i <= row@.len(),
            r@.len() == i,
            forall|j: int| 0 <= j < i ==> r@[j]@ == row@[j]@,
        decreases row@.len() - i,
    {
        let e = clone_value(&row[i]);
        r.push(e);
        i = i + 1;
    }
    r
}

/// Projecting field `i` out of a value: direct on a struct aggregate whose
/// field `i` exists, symbolic otherwise.
pub open spec fn spec_extract(v: LLVMValueV, i: int) -> LLVMValueV {
    match v {
        LLVMValueV::Agg(fields) => {
            if 0 <= i < fields.len() {
                fields[i]
            } else {
                LLVMValueV::Undef
            }
        }
        _ => LLVMValueV::Proj(Box::new(v), i as usize),
    }
}

/// Projects field `i` out of `v`.
pub fn extract_field(v: &LLVMValue, i: usize) -> (r: LLVMValue)
    ensures
        r@ == spec_extract(v@, i as int),
{
    match v {
        LLVMValue::Agg(fields) => {
            proof {
                lemma_view_value_row(fields@);
            }
            if i < fields.len() {
                clone_value(&fields[i])
            } else {
                LLVMValue::Undef
            }
        }
        _ => {
            let base = clone_value(v);
            LLVMValue::Proj(Box::new(base), i)
        }
    }
}

/// Whether a sum of `n` variants carries a stored tag field.
pub open spec fn sum_has_tag_field(n: nat) -> bool {
    n >= 2
}

/// The index of variant `tag`'s row inside the layout struct of a sum of `n`
/// variants.
pub open spec fn sum_variant_index(n: nat, tag: usize) -> int {
    if sum_has_tag_field(n) {
        tag + 1
    } else {
        tag as int
    }
}

/// The per-variant storage slots of a tagged value of a sum of `n` variants:
/// variant `tag`'s row filled with `fields`, every other variant's storage
/// undefined.
pub open spec fn sum_variant_slots(n: nat, tag: usize, fields: Seq<LLVMValueV>) -> Seq<LLVMValueV> {
    Seq::new(n, |i: int| if i == tag as int { LLVMValueV::Agg(fields) } else { LLVMValueV::Undef })
}

/// The value built for variant `tag` of a sum of `n` variants: the stored
/// tag (when present), variant `tag`'s row filled with `fields`, every other
/// variant's storage undefined.
pub open spec fn sum_tag_value(n: nat, tag: usize, fields: Seq<LLVMValueV>) -> LLVMValueV {
    if sum_has_tag_field(n) {
        LLVMValueV::Agg(seq![LLVMValueV::Num(tag as u64)] + sum_variant_slots(n, tag, fields))
    } else {
        LLVMValueV::Agg(sum_variant_slots(n, tag, fields))
    }
}

/// The tag read from a value of a sum of `n` variants: the stored tag where
/// the layout has one, and the constant `0` otherwise.
pub open spec fn sum_get_tag_value(n: nat, v: LLVMValueV) -> LLVMValueV {
    if sum_has_tag_field(n) {
        spec_extract(v, 0)
    } else {
        LLVMValueV::Num(0)
    }
}

/// Variant `tag`'s row of arity `arity`, projected out of a value of a sum
/// of `n` variants, field by field.
pub open spec fn sum_untag_row(n: nat, arity: nat, tag: usize, v: LLVMValueV) -> Seq<LLVMValueV> {
    Seq::new(arity, |k: int| spec_extract(spec_extract(v, sum_variant_index(n, tag)), k))
}

/// The target representation of a graph-IR sum type: the lowered field types
/// of every variant's row, realised as the tagged-all-variants struct.
#[derive(Debug)]
pub struct LLVMSumType {
    /// The lowered row of each variant, in variant order.
    pub variant_types: Vec<Vec<LLVMType>>,
}

impl LLVMSumType {
    /// The number of variants.
    pub open spec fn spec_num_variants(&self) -> nat {
        self.variant_types@.len()
    }

    /// Whether the layout carries a stored tag field: only sums with at
    /// least two variants are tagged.
    pub open spec fn spec_has_tag_field(&self) -> bool {
        sum_has_tag_field(self.spec_num_variants())
    }

    /// The index of variant `tag`'s row inside the layout struct.
    pub open spec fn spec_variant_index(&self, tag: usize) -> int {
        sum_variant_index(self.spec_num_variants(), tag)
    }

    /// The arity of variant `tag`'s row.
    pub open spec fn spec_num_fields(&self, tag: usize) -> nat {
        self.variant_types@[tag as int]@.len()
    }

    /// The per-variant storage slots of the value built by `build_tag`:
    /// variant `tag`'s row filled with `fields`, every other variant's
    /// storage undefined.
    pub open spec fn spec_variant_slots(&self, tag: usize, fields: Seq<LLVMValueV>) -> Seq<
        LLVMValueV,
    > {
        sum_variant_slots(self.spec_num_variants(), tag, fields)
    }

    /// The value built by `build_tag`: the stored tag (when present),
    /// variant `tag`'s row filled with `fields`, and every other variant's
    /// storage left undefined.
    pub open spec fn spec_build_tag(&self, tag: usize, fields: Seq<LLVMValueV>) -> LLVMValueV {
        sum_tag_value(self.spec_num_variants(), tag, fields)
    }

    /// The tag read by `build_get_tag`: the stored tag where the layout has
    /// one, and the constant `0` otherwise.
    pub open spec fn spec_get_tag(&self, v: LLVMValueV) -> LLVMValueV {
        sum_get_tag_value(self.spec_num_variants(), v)
    }

    /// The row read by `build_untag`: variant `tag`'s row projected out of
    /// the layout, field by field.
    pub open spec fn spec_untag(&self, tag: usize, v: LLVMValueV) -> Seq<LLVMValueV> {
        sum_untag_row(self.spec_num_variants(), self.spec_num_fields(tag), tag, v)
    }

    /// The number of variants.
    pub fn num_variants(&self) -> (n: usize)
        ensures
            n == self.spec_num_variants(),
    {
        self.variant_types.len()
    }

    fn has_tag_field(&self) -> (r: bool)
        ensures
            r == self.spec_has_tag_field(),
    {
        self.variant_types.len() >= 2
    }

    fn get_variant_index(&self, tag: usize) -> (r: usize)
        requires
            tag < self.spec_num_variants(),
            self.spec_num_variants() <= usize::MAX,
        ensures
            r == self.spec_variant_index(tag),
    {
        if self.has_tag_field() {
            tag + 1
        } else {
            tag
        }
    }

    /// The arity of variant `tag`'s row, or a `ShapeError` for a tag out of
    /// range.
    pub fn num_fields(&self, tag: usize) -> (r: Result<usize, CodegenError>)
        ensures
            r is Ok <==> tag < self.spec_num_variants(),
            r matches Ok(n) ==> n == self.spec_num_fields(tag),
            r matches Err(e) ==> e == CodegenError::ShapeError,
    {
        if tag < self.variant_types.len() {
            Ok(self.variant_types[tag].len())
        } else {
            Err(CodegenError::ShapeError)
        }
    }

    /// An undefined value of this sum's layout.
    pub fn get_undef(&self) -> (r: LLVMValue)
        ensures
            r@ == LLVMValueV::Undef,
    {
        LLVMValue::Undef
    }

    /// A poison value of this sum's layout; the model does not distinguish
    /// poison from undefined storage.
    pub fn get_poison(&self) -> (r: LLVMValue)
        ensures
            r@ == LLVMValueV::Undef,
    {
        LLVMValue::Undef
    }

    /// The type of the value returned by `build_get_tag`.
    pub fn get_tag_type(&self) -> (r: LLVMType)
        ensures
            r@ == LLVMTypeV::Int(32),
    {
        LLVMType::Int(32)
    }

    /// Builds a value of this sum type being of variant `tag`, holding
    /// `fields` as that variant's row.
    ///
    /// `fields.len()` must equal variant `tag`'s row length, else a
    /// `ShapeError`; the built value stores the tag (when the layout has a
    /// tag field) and variant `tag`'s row, and leaves every other variant's
    /// storage undefined.
    pub fn build_tag(&self, tag: usize, fields: Vec<LLVMValue>) -> (r: Result<
        LLVMValue,
        CodegenError,
    >)
        ensures
            r is Ok <==> tag < self.spec_num_variants() && fields@.len() == self.spec_num_fields(
                tag,
            ),
            r matches Ok(v) ==> v@ == self.spec_build_tag(tag, view_value_row(fields@)),
            r matches Err(e) ==> e == CodegenError::ShapeError,
    {
        let n = self.variant_types.len();
        if tag >= n {
            return Err(CodegenError::ShapeError);
        }
        if fields.len() != self.variant_types[tag].len() {
            return Err(CodegenError::ShapeError);
        }
        let mut slots: Vec<LLVMValue> = Vec::new();
        if self.has_tag_field() {
            slots.push(LLVMValue::Num(tag as u64));
        }
        let ghost prefix_len: int = slots@.len() as int;
        let mut i: usize = 0;
        while i < n
            invariant
                i <= n,
                n == self.spec_num_variants(),
                tag < n,
                slots@.len() == prefix_len + i,
                prefix_len == if self.spec_has_tag_field() {
                    1int
                } else {
                    0int
                },
                prefix_len == 1 ==> slots@[0]@ == LLVMValueV::Num(tag as u64),
                forall|j: int|
                    prefix_len <= j < prefix_len + i ==> #[trigger] slots@[j]@ == (if j - prefix_len
                        == tag as int {
                        LLVMValueV::Agg(view_value_row(fields@))
                    } else {
                        LLVMValueV::Undef
                    }),
            decreases n - i,
        {
            if i == tag {
                let fs = clone_value_row(&fields);
                proof {
                    lemma_view_value_row(fs@);
                    lemma_view_value_row(fields@);
                    assert(view_value_row(fs@) =~= view_value_row(fields@));
                }
                slots.push(LLVMValue::Agg(fs));
            } else {
                slots.push(LLVMValue::Undef);
            }
            i = i + 1;
        }
        let r = LLVMValue::Agg(slots);
        let ghost inner = self.spec_variant_slots(tag, view_value_row(fields@));
        proof {
            lemma_view_value_row(slots@);
            if self.spec_has_tag_field() {
                assert(view_value_row(slots@) =~= seq![LLVMValueV::Num(tag as u64)] + inner);
            } else {
                assert(view_value_row(slots@) =~= inner);
            }
            assert(r@ =~= self.spec_build_tag(tag, view_value_row(fields@)));
        }
        Ok(r)
    }

    /// Reads the stored tag of `v`, or the constant `0` if the layout has no
    /// tag field.
    pub fn build_get_tag(&self, v: &LLVMValue) -> (r: LLVMValue)
        ensures
            r@ == self.spec_get_tag(v@),
    {
        if self.has_tag_field() {
            extract_field(v, 0)
        } else {
            LLVMValue::Num(0)
        }
    }

    /// Reads variant `tag`'s row out of `v`, on the caller's assertion that
    /// `v`'s runtime tag equals `tag`.
    ///
    /// If the runtime tag differs, the fields read are undefined: this is a
    /// documented hazard, not a checked error. A tag at or beyond the number
    /// of variants is a `ShapeError`.
    pub fn build_untag(&self, tag: usize, v: &LLVMValue) -> (r: Result<
        Vec<LLVMValue>,
        CodegenError,
    >)
        ensures
            r is Ok <==> tag < self.spec_num_variants(),
            r matches Ok(row) ==> view_value_row(row@) == self.spec_untag(tag, v@),
            r matches Err(e) ==> e == CodegenError::ShapeError,
    {
        let n = self.variant_types.len();
        if tag >= n {
            return Err(CodegenError::ShapeError);
        }
        let slot = extract_field(v, self.get_variant_index(tag));
        let arity = self.variant_types[tag].len();
        let mut row: Vec<LLVMValue> = Vec::new();
        let mut k: usize = 0;
        while k < arity
            invariant
                k <= arity,
                arity == self.spec_num_fields(tag),
                slot@ == spec_extract(v@, self.spec_variant_index(tag)),
                row@.len() == k,
                forall|j: int|
                    0 <= j < k ==> #[trigger] row@[j]@ == spec_extract(
                        spec_extract(v@, self.spec_variant_index(tag)),
                        j,
                    ),
            decreases arity - k,
        {
            let f = extract_field(&slot, k);
            row.push(f);
            k = k + 1;
        }
        proof {
            lemma_view_value_row(row@);
            assert(view_value_row(row@) =~= self.spec_untag(tag, v@));
        }
        Ok(row)
    }
}

/// Round trip: for every sum type, every variant `tag`, and every row
/// `fields` of that variant's arity, reading variant `tag`'s row out of the
/// value built for variant `tag` yields `fields` unchanged.
pub proof fn lemma_sum_round_trip(st: LLVMSumType, tag: usize, fields: Seq<LLVMValueV>)
    requires
        tag < st.spec_num_variants(),
        fields.len() == st.spec_num_fields(tag),
    ensures
        st.spec_untag(tag, st.spec_build_tag(tag, fields)) == fields,
{
    let v = st.spec_build_tag(tag, fields);
    assert(spec_extract(v, st.spec_variant_index(tag)) == LLVMValueV::Agg(fields));
    assert(st.spec_untag(tag, v) =~= fields);
}

/// Tag fidelity: the tag read from the value built for variant `tag` is the
/// constant `tag` — read from the stored tag field when the sum is tagged,
/// and the defined constant `0` for a sum of fewer than two variants.
pub proof fn lemma_tag_fidelity(st: LLVMSumType, tag: usize, fields: Seq<LLVMValueV>)
    requires
        tag < st.spec_num_variants(),
    ensures
        st.spec_get_tag(st.spec_build_tag(tag, fields)) == LLVMValueV::Num(tag as u64),
{
    if st.spec_has_tag_field() {
        let v = st.spec_build_tag(tag, fields);
        assert(spec_extract(v, 0) == LLVMValueV::Num(tag as u64));
    } else {
        assert(tag == 0);
    }
}

/// Tag fidelity for one-variant sums: such a sum is never tagged, and its
/// implicit tag is the constant `0`, whatever the value.
pub proof fn lemma_single_variant_tag(st: LLVMSumType, v: LLVMValueV)
    requires
        st.spec_num_variants() == 1,
    ensures
        st.spec_get_tag(v) == LLVMValueV::Num(0),
{
}

/// A value of a known sum type, on which the runtime case split of
/// `build_destructure` can be modelled.
pub struct LLVMSumValue {
    pub value: LLVMValue,
    pub sum_type: LLVMSumType,
}

impl LLVMSumValue {
    /// Pairs a value with its sum type.
    pub fn try_new(value: LLVMValue, sum_type: LLVMSumType) -> (r: LLVMSumValue)
        ensures
            r.value == value,
            r.sum_type == sum_type,
    {
        LLVMSumValue { value, sum_type }
    }

    /// The runtime meaning of the case split emitted over this value: the
    /// multi-way branch on the stored tag enters exactly the branch of that
    /// tag, handing it the untagged row of that variant.
    ///
    /// Defined only when the stored tag is a statically known constant below
    /// the variant count; a value whose tag is opaque cannot be split by
    /// this model function.
    pub fn build_destructure(&self) -> (r: Result<(usize, Vec<LLVMValue>), CodegenError>)
        ensures
            r is Ok <==> (exists|t: u64|
                self.sum_type.spec_get_tag(self.value@) == LLVMValueV::Num(t) && t
                    < self.sum_type.spec_num_variants()),
            r matches Ok((tag, row)) ==> {
                &&& self.sum_type.spec_get_tag(self.value@) == LLVMValueV::Num(tag as u64)
                &&& view_value_row(row@) == self.sum_type.spec_untag(tag, self.value@)
            },
            r matches Err(e) ==> e == CodegenError::UnsupportedConstruct,
    {
        let tag_v = self.sum_type.build_get_tag(&self.value);
        let n = self.sum_type.num_variants();
        match tag_v {
            LLVMValue::Num(t) => {
                if t < n as u64 {
                    let tag = t as usize;
                    match self.sum_type.build_untag(tag, &self.value) {
                        Ok(row) => Ok((tag, row)),
                        Err(_) => Err(CodegenError::UnsupportedConstruct),
                    }
                } else {
                    Err(CodegenError::UnsupportedConstruct)
                }
            }
            _ => Err(CodegenError::UnsupportedConstruct),
        }
    }
}

} // verus!
