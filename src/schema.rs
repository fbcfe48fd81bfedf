//! The type lattice of attribute values and the per-key inference record.
use vstd::prelude::*;
use itertools::Itertools;
use crate::model::{AttributeValue, Number};

verus! {

/// The column type inferred for an attribute key.
#[derive(PartialEq, Eq, Structural, Debug, Clone, Copy)]
pub enum FieldType {
    U64,
    I64,
    F64,
    String,
    Bool,
}

pub open spec fn i64_max() -> int {
    0x7fff_ffff_ffff_ffff
}

/// The type a value sets when it is the first non-null value of its key;
/// `None` for the values that inference ignores (null, arrays, objects).
pub open spec fn value_type(v: AttributeValue) -> Option<FieldType> {
    match v {
        AttributeValue::Bool(_) => Some(FieldType::Bool),
        AttributeValue::Number(Number::PosInt(_), _) => Some(FieldType::U64),
        AttributeValue::Number(Number::NegInt(_), _) => Some(FieldType::I64),
        AttributeValue::Number(Number::Float, _) => Some(FieldType::F64),
        AttributeValue::String(_) => Some(FieldType::String),
        _ => None,
    }
}

/// One step of the lattice: the type after value `v` is seen in state `t`.
///   U64 -> I64 on a negative integer, -> F64 on a float;
///   I64 -> F64 on a float; any integer keeps I64 (one beyond the signed
///   range is null in the column);
///   any numeric type -> String on a string or a bool;
///   Bool -> String on anything but a bool; String stays String.
/// Nulls, arrays and objects change nothing.
pub open spec fn promote(t: FieldType, v: AttributeValue) -> FieldType {
    match v {
        AttributeValue::Bool(_) => if t == FieldType::Bool {
            FieldType::Bool
        } else {
            FieldType::String
        },
        AttributeValue::Number(n, _) => match t {
            FieldType::U64 => match n {
                Number::PosInt(_) => FieldType::U64,
                Number::NegInt(_) => FieldType::I64,
                Number::Float => FieldType::F64,
            },
            FieldType::I64 => match n {
                Number::Float => FieldType::F64,
                _ => FieldType::I64,
            },
            FieldType::F64 => FieldType::F64,
            _ => FieldType::String,
        },
        AttributeValue::String(_) => FieldType::String,
        _ => t,
    }
}

/// Promotion does not depend on the order of values: two values seen in
/// either order lead from any state to the same type.
pub proof fn lemma_promote_commutes(t: FieldType, a: AttributeValue, b: AttributeValue)
    ensures
        promote(promote(t, a), b) == promote(promote(t, b), a),
{
}

/// A key's first two non-null values give the same type in either order.
pub proof fn lemma_first_values_commute(a: AttributeValue, b: AttributeValue)
    requires
        value_type(a) is Some,
        value_type(b) is Some,
    ensures
        promote(value_type(a)->Some_0, b) == promote(value_type(b)->Some_0, a),
{
}

/// The type that `value_type` gives, computed.
pub fn value_type_of(v: &AttributeValue) -> (r: Option<FieldType>)
    ensures
        r == value_type(*v),
{
    match v {
        AttributeValue::Bool(_) => Some(FieldType::Bool),
        AttributeValue::Number(Number::PosInt(_), _) => Some(FieldType::U64),
        AttributeValue::Number(Number::NegInt(_), _) => Some(FieldType::I64),
        AttributeValue::Number(Number::Float, _) => Some(FieldType::F64),
        AttributeValue::String(_) => Some(FieldType::String),
        _ => None,
    }
}

/// The lattice step, computed.
pub fn promote_type(t: FieldType, v: &AttributeValue) -> (r: FieldType)
    ensures
        r == promote(t, *v),
{
    match v {
        AttributeValue::Bool(_) => if t == FieldType::Bool {
            FieldType::Bool
        } else {
            FieldType::String
        },
        AttributeValue::Number(n, _) => match t {
            FieldType::U64 => match n {
                Number::PosInt(_) => FieldType::U64,
                Number::NegInt(_) => FieldType::I64,
                Number::Float => FieldType::F64,
            },
            FieldType::I64 => match n {
                Number::Float => FieldType::F64,
                _ => FieldType::I64,
            },
            FieldType::F64 => FieldType::F64,
            _ => FieldType::String,
        },
        AttributeValue::String(_) => FieldType::String,
        _ => t,
    }
}

/// What inference has gathered on one key.
#[derive(Debug)]
pub struct FieldInfo {
    /// Number of non-null values seen.
    pub non_null_count: usize,
    pub field_type: FieldType,
    /// Every string value seen, in order; the dictionary is its set of distinct values.
    pub dictionary_values: Vec<String>,
}

/// The mathematical content of a `FieldInfo`.
pub struct FieldInfoModel {
    pub non_null: nat,
    pub ty: FieldType,
    pub strings: Seq<Seq<char>>,
}

pub open spec fn string_views(v: Seq<String>) -> Seq<Seq<char>> {
    v.map_values(|s: String| s@)
}

/// The distinct strings of a sequence.
pub open spec fn distinct_views(v: Seq<String>) -> Set<Seq<char>> {
    string_views(v).to_set()
}

impl FieldInfo {
    pub open spec fn model(&self) -> FieldInfoModel {
        FieldInfoModel {
            non_null: self.non_null_count as nat,
            ty: self.field_type,
            strings: string_views(self.dictionary_values@),
        }
    }

    /// Whether the key's column is dictionary-encoded: fewer than one distinct value
    /// for each five non-null values.
    pub fn is_dictionary(&self) -> (r: bool)
        ensures
            r == (5 * self.model().strings.to_set().len() < self.non_null_count),
    {
        let d = count_distinct(self.dictionary_values.as_slice());
        proof {
            string_views(self.dictionary_values@).lemma_cardinality_of_set();
        }
        if self.non_null_count / 5 < d {
            false
        } else {
            if d * 5 < self.non_null_count {
                true
            } else {
                false
            }
        }
    }
}

/// The state after the first non-null value `v` of a key.
pub open spec fn first_observation(v: AttributeValue) -> FieldInfoModel {
    FieldInfoModel {
        non_null: 1,
        ty: value_type(v)->Some_0,
        strings: match v {
            AttributeValue::String(s) => seq![s@],
            _ => Seq::empty(),
        },
    }
}

/// The state after one more non-null value `v`.
pub open spec fn observe(m: FieldInfoModel, v: AttributeValue) -> FieldInfoModel {
    FieldInfoModel {
        non_null: m.non_null + 1,
        ty: promote(m.ty, v),
        strings: match v {
            AttributeValue::String(s) => m.strings.push(s@),
            _ => m.strings,
        },
    }
}

/// Relies on itertools::Itertools::unique, which yields each distinct item once
/// (by `Eq` and `Hash`, which compare strings by their characters): the count
/// of what it yields is the number of distinct strings.
#[verifier::external_body]
pub(crate) fn count_distinct(values: &[String]) -> (r: usize)
    ensures
        r == distinct_views(values@).len(),
{
    values.iter().unique().count()
}

} // verus!
