//! The structural wire form: an ordered set of named fields whose payloads
//! are the raw shapes the transport distinguishes, and the classifier that
//! resolves a raw scalar payload into a value envelope.

use vstd::prelude::*;
use crate::binary64::WireNumber;
use crate::digits::{dec_digits, dec_val, is_canonical_dec, parse_canonical_u64};

verus! {

/// A raw wire payload, as the structural reader hands it over.
///
/// `List` is a sequence of nested structural maps (the only list shape this
/// codec reads); `Other` stands for any payload shape the codec does not
/// distinguish — such a payload can sit under an unrecognized key and be
/// skipped, but never satisfies a recognized field.
#[derive(Debug, PartialEq, Eq)]
pub enum WireValue {
    Bool(bool),
    Int(i64),
    Number(WireNumber),
    Text(String),
    List(Vec<WireMap>),
    Other,
}

/// One named field of a structural map.
#[derive(Debug, PartialEq, Eq)]
pub struct WireField {
    pub key: String,
    pub value: WireValue,
}

/// A structural map: named fields in wire order. Duplicate keys are
/// representable — rejecting duplicates of recognized keys is the decoder's
/// job, not the map's.
#[derive(Debug, PartialEq, Eq)]
pub struct WireMap {
    pub fields: Vec<WireField>,
}

/// Mathematical form of a raw wire payload.
#[verifier::ext_equal]
pub enum WireValueModel {
    Bool(bool),
    Int(i64),
    Number(WireNumber),
    Text(Seq<char>),
    List(Seq<Seq<WireFieldModel>>),
    Other,
}

/// Mathematical form of one named field.
#[verifier::ext_equal]
pub struct WireFieldModel {
    pub key: Seq<char>,
    pub value: WireValueModel,
}

/// Mathematical form of a sequence of nested structural maps, in order.
pub open spec fn wire_maps_model(ms: Seq<WireMap>) -> Seq<Seq<WireFieldModel>>
    decreases ms,
{
    if ms.len() == 0 {
        Seq::empty()
    } else {
        wire_maps_model(ms.drop_last()).push(wire_map_model(ms.last()))
    }
}

/// Mathematical form of a sequence of fields, in order.
pub open spec fn wire_fields_model(fs: Seq<WireField>) -> Seq<WireFieldModel>
    decreases fs,
{
    if fs.len() == 0 {
        Seq::empty()
    } else {
        wire_fields_model(fs.drop_last()).push(wire_field_model(fs.last()))
    }
}

/// Mathematical form of a raw payload.
pub open spec fn wire_value_model(v: WireValue) -> WireValueModel
    decreases v,
{
    match v {
        WireValue::Bool(b) => WireValueModel::Bool(b),
        WireValue::Int(i) => WireValueModel::Int(i),
        WireValue::Number(n) => WireValueModel::Number(n),
        WireValue::Text(s) => WireValueModel::Text(s@),
        WireValue::List(ms) => WireValueModel::List(wire_maps_model(ms@)),
        WireValue::Other => WireValueModel::Other,
    }
}

/// Mathematical form of one field.
pub open spec fn wire_field_model(f: WireField) -> WireFieldModel
    decreases f,
{
    WireFieldModel { key: f.key@, value: wire_value_model(f.value) }
}

/// Mathematical form of a structural map: its fields in wire order.
pub open spec fn wire_map_model(m: WireMap) -> Seq<WireFieldModel>
    decreases m,
{
    wire_fields_model(m.fields@)
}

/// The mathematical form of a field sequence indexes pointwise.
pub proof fn lemma_wire_fields_model(fs: Seq<WireField>)
    ensures
        wire_fields_model(fs).len() == fs.len(),
        forall|i: int| 0 <= i < fs.len() ==> wire_fields_model(fs)[i] == wire_field_model(fs[i]),
    decreases fs.len(),
{
    if fs.len() > 0 {
        lemma_wire_fields_model(fs.drop_last());
        assert(forall|i: int|
            0 <= i < fs.len() - 1 ==> fs.drop_last()[i] == #[trigger] fs[i]);
    }
}

/// The mathematical form of a map sequence indexes pointwise.
pub proof fn lemma_wire_maps_model(ms: Seq<WireMap>)
    ensures
        wire_maps_model(ms).len() == ms.len(),
        forall|i: int| 0 <= i < ms.len() ==> wire_maps_model(ms)[i] == wire_map_model(ms[i]),
    decreases ms.len(),
{
    if ms.len() > 0 {
        lemma_wire_maps_model(ms.drop_last());
        assert(forall|i: int|
            0 <= i < ms.len() - 1 ==> ms.drop_last()[i] == #[trigger] ms[i]);
    }
}

/// The classified form of a scalar payload, after the fixed precedence
/// order has been applied.
#[derive(Debug, PartialEq, Eq)]
pub enum ValueEnvelope {
    Boolean(bool),
    Integer(i64),
    Number(WireNumber),
    Id(u64),
    String(String),
}

/// Mathematical form of a classified payload.
#[verifier::ext_equal]
pub enum EnvelopeModel {
    Boolean(bool),
    Integer(i64),
    Number(WireNumber),
    Id(u64),
    String(Seq<char>),
}

/// Mathematical form of an envelope.
pub open spec fn envelope_model(e: ValueEnvelope) -> EnvelopeModel {
    match e {
        ValueEnvelope::Boolean(b) => EnvelopeModel::Boolean(b),
        ValueEnvelope::Integer(i) => EnvelopeModel::Integer(i),
        ValueEnvelope::Number(n) => EnvelopeModel::Number(n),
        ValueEnvelope::Id(id) => EnvelopeModel::Id(id),
        ValueEnvelope::String(s) => EnvelopeModel::String(s@),
    }
}

/// The category a classified payload fell into, named for error reports.
#[derive(Clone, Copy, Debug, PartialEq, Eq, Structural)]
pub enum ValueShape {
    Boolean,
    Integer,
    Number,
    Id,
    String,
}

impl ValueShape {
    /// The text this category reports as, in error messages.
    pub open spec fn spec_description(self) -> Seq<char> {
        match self {
            ValueShape::Boolean => "boolean"@,
            ValueShape::Integer => "integer"@,
            ValueShape::Number => "floating point number"@,
            ValueShape::Id => "ID"@,
            ValueShape::String => "string"@,
        }
    }

    /// A human-readable name of the category, for error reports.
    pub fn description(self) -> (r: &'static str)
        ensures
            r@ == self.spec_description(),
    {
        match self {
            ValueShape::Boolean => "boolean",
            ValueShape::Integer => "integer",
            ValueShape::Number => "floating point number",
            ValueShape::Id => "ID",
            ValueShape::String => "string",
        }
    }
}

/// The category of an envelope.
pub open spec fn envelope_shape(e: EnvelopeModel) -> ValueShape {
    match e {
        EnvelopeModel::Boolean(_) => ValueShape::Boolean,
        EnvelopeModel::Integer(_) => ValueShape::Integer,
        EnvelopeModel::Number(_) => ValueShape::Number,
        EnvelopeModel::Id(_) => ValueShape::Id,
        EnvelopeModel::String(_) => ValueShape::String,
    }
}

/// Whether text is lexically an identifier token: the canonical decimal
/// form of a 64-bit unsigned value.
pub open spec fn text_is_id(s: Seq<char>) -> bool {
    is_canonical_dec(s) && dec_val(s) <= u64::MAX
}

/// The classification precedence, centrally stated:
/// a boolean payload is Boolean, an integer payload is Integer, a binary64
/// payload is Number, and a textual payload is Id before it is String —
/// text that is lexically an identifier token is always read as Id.
/// Non-scalar payloads have no classification.
pub open spec fn classify_model(v: WireValueModel) -> Option<EnvelopeModel> {
    match v {
        WireValueModel::Bool(b) => Some(EnvelopeModel::Boolean(b)),
        WireValueModel::Int(i) => Some(EnvelopeModel::Integer(i)),
        WireValueModel::Number(n) => Some(EnvelopeModel::Number(n)),
        WireValueModel::Text(s) => if text_is_id(s) {
            Some(EnvelopeModel::Id(dec_val(s) as u64))
        } else {
            Some(EnvelopeModel::String(s))
        },
        WireValueModel::List(_) => None,
        WireValueModel::Other => None,
    }
}

/// Classify a raw payload into its envelope.
pub fn classify(v: &WireValue) -> (r: Option<ValueEnvelope>)
    ensures
        match r {
            Some(e) => classify_model(wire_value_model(*v)) == Some(envelope_model(e)),
            None => classify_model(wire_value_model(*v)) is None,
        },
{
    match v {
        WireValue::Bool(b) => Some(ValueEnvelope::Boolean(*b)),
        WireValue::Int(i) => Some(ValueEnvelope::Integer(*i)),
        WireValue::Number(n) => Some(ValueEnvelope::Number(*n)),
        WireValue::Text(s) => match parse_canonical_u64(s.as_str()) {
            Some(id) => {
                proof {
                    crate::digits::lemma_dec_digits_wf(id as nat);
                }
                Some(ValueEnvelope::Id(id))
            },
            None => {
                proof {
                    if text_is_id(s@) {
                        crate::digits::lemma_canonical_to_digits(s@);
                        let n = dec_val(s@) as u64;
                        assert(s@ == dec_digits(n as nat));
                    }
                }
                Some(ValueEnvelope::String(s.clone()))
            },
        },
        WireValue::List(_) => None,
        WireValue::Other => None,
    }
}

} // verus!
