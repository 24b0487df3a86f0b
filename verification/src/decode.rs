//! The decoder: consume a structural map and produce one option, or a
//! typed decode failure.
//!
//! The mathematical decoder is [`decode_map_model`]; the executable decoder
//! [`decode_option`] returns exactly what it prescribes. Field scanning is
//! strict on recognized keys (a repeated one is a duplicate-field error)
//! and tolerant of unrecognized ones (their payloads are skipped); the
//! payload of the `value` field is classified and then coerced as the
//! discriminant directs.

use vstd::prelude::*;
use crate::binary64::{binary64_bits_of_i64, widen_i64_to_binary64, WireNumber};
use crate::digits::dec_digits;
use crate::kind::CommandOptionType;
use crate::option::{
    opts_model, option_model, value_model, CommandDataOption, CommandOptionValue, OptionModel,
    ValueModel,
};
use crate::wire::{
    classify, classify_model, envelope_model, envelope_shape, lemma_wire_fields_model,
    lemma_wire_maps_model, wire_field_model, wire_map_model, wire_maps_model, EnvelopeModel,
    ValueEnvelope, ValueShape, WireMap, WireValue, WireFieldModel,
};
use vstd::string::StringExecFns;

verus! {

/// The recognized wire fields.
#[derive(Clone, Copy, Debug, PartialEq, Eq, Structural)]
pub enum FieldName {
    Name,
    Type,
    Value,
    Options,
    Focused,
}

/// A terminal decode failure.
///
/// `InvalidType` reports the discriminant whose expected shape the payload
/// missed, and the shape the payload actually classified as.
/// `UnrecognizedDiscriminant` carries a `type` code outside the closed set.
/// `MalformedField` names a recognized field whose raw payload is not even
/// the right wire shape for that field.
#[derive(Clone, Copy, Debug, PartialEq, Eq, Structural)]
pub enum DecodeError {
    DuplicateField(FieldName),
    MissingField(FieldName),
    InvalidType(CommandOptionType, ValueShape),
    UnrecognizedDiscriminant(i64),
    MalformedField(FieldName),
}

/// Which recognized field a key names, if any.
pub open spec fn field_of_key(k: Seq<char>) -> Option<FieldName> {
    if k == "name"@ {
        Some(FieldName::Name)
    } else if k == "type"@ {
        Some(FieldName::Type)
    } else if k == "value"@ {
        Some(FieldName::Value)
    } else if k == "options"@ {
        Some(FieldName::Options)
    } else if k == "focused"@ {
        Some(FieldName::Focused)
    } else {
        None
    }
}

/// The five recognized keys resolve to their fields: the key texts are
/// pairwise distinct, so each falls through the earlier checks.
pub proof fn lemma_recognized_keys()
    ensures
        field_of_key("name"@) == Some(FieldName::Name),
        field_of_key("type"@) == Some(FieldName::Type),
        field_of_key("value"@) == Some(FieldName::Value),
        field_of_key("options"@) == Some(FieldName::Options),
        field_of_key("focused"@) == Some(FieldName::Focused),
{
    reveal_strlit("name");
    reveal_strlit("type");
    reveal_strlit("value");
    reveal_strlit("options");
    reveal_strlit("focused");
    assert("name"@.len() == 4);
    assert("type"@.len() == 4);
    assert("value"@.len() == 5);
    assert("options"@.len() == 7);
    assert("focused"@.len() == 7);
    assert("name"@[0] == 'n');
    assert("type"@[0] == 't');
    assert("options"@[0] == 'o');
    assert("focused"@[0] == 'f');
}

/// The decoder's accumulator: which logical fields have been captured, and
/// with what. Nested options are decoded at capture time, so `options`
/// already holds decoded entities; it doubles as its own presence flag —
/// a second `options` field is a duplicate only if the first captured a
/// non-empty sequence.
#[verifier::ext_equal]
pub struct DecodeAcc {
    pub name: Option<Seq<char>>,
    pub kind: Option<CommandOptionType>,
    pub value: Option<EnvelopeModel>,
    pub options: Seq<OptionModel>,
    pub focused: Option<bool>,
}

/// The accumulator before any field is read.
pub open spec fn empty_acc() -> DecodeAcc {
    DecodeAcc { name: None, kind: None, value: None, options: Seq::empty(), focused: None }
}

/// Process one recognized-or-not field against the accumulator: capture,
/// skip, or fail.
pub open spec fn step_field(f: WireFieldModel, acc: DecodeAcc) -> Result<DecodeAcc, DecodeError>
    decreases f, 3nat,
{
    match field_of_key(f.key) {
        None => Ok(acc),
        Some(FieldName::Name) => if acc.name is Some {
            Err(DecodeError::DuplicateField(FieldName::Name))
        } else {
            match f.value {
                crate::wire::WireValueModel::Text(s) => Ok(DecodeAcc { name: Some(s), ..acc }),
                _ => Err(DecodeError::MalformedField(FieldName::Name)),
            }
        },
        Some(FieldName::Type) => if acc.kind is Some {
            Err(DecodeError::DuplicateField(FieldName::Type))
        } else {
            match f.value {
                crate::wire::WireValueModel::Int(code) => match CommandOptionType::spec_from_code(
                    code,
                ) {
                    Some(k) => Ok(DecodeAcc { kind: Some(k), ..acc }),
                    None => Err(DecodeError::UnrecognizedDiscriminant(code)),
                },
                _ => Err(DecodeError::MalformedField(FieldName::Type)),
            }
        },
        Some(FieldName::Value) => if acc.value is Some {
            Err(DecodeError::DuplicateField(FieldName::Value))
        } else {
            match classify_model(f.value) {
                Some(env) => Ok(DecodeAcc { value: Some(env), ..acc }),
                None => Err(DecodeError::MalformedField(FieldName::Value)),
            }
        },
        Some(FieldName::Options) => if acc.options.len() > 0 {
            Err(DecodeError::DuplicateField(FieldName::Options))
        } else {
            match f.value {
                crate::wire::WireValueModel::List(ms) => match decode_list(ms) {
                    Ok(os) => Ok(DecodeAcc { options: os, ..acc }),
                    Err(e) => Err(e),
                },
                _ => Err(DecodeError::MalformedField(FieldName::Options)),
            }
        },
        Some(FieldName::Focused) => if acc.focused is Some {
            Err(DecodeError::DuplicateField(FieldName::Focused))
        } else {
            match f.value {
                crate::wire::WireValueModel::Bool(b) => Ok(DecodeAcc { focused: Some(b), ..acc }),
                _ => Err(DecodeError::MalformedField(FieldName::Focused)),
            }
        },
    }
}

/// Scan the fields in wire order, capturing recognized ones into the
/// accumulator, skipping unrecognized ones, and failing on a duplicate, a
/// malformed payload, an unrecognized discriminant code, or a failing
/// nested decode.
pub open spec fn decode_fields(fs: Seq<WireFieldModel>, acc: DecodeAcc) -> Result<
    DecodeAcc,
    DecodeError,
>
    decreases fs, 0nat,
{
    if fs.len() == 0 {
        Ok(acc)
    } else {
        match step_field(fs[0], acc) {
            Ok(a) => decode_fields(fs.drop_first(), a),
            Err(e) => Err(e),
        }
    }
}

/// Decode a sequence of nested structural maps, in wire order, failing on
/// the first failing element.
pub open spec fn decode_list(ms: Seq<Seq<WireFieldModel>>) -> Result<Seq<OptionModel>, DecodeError>
    decreases ms, 2nat,
{
    if ms.len() == 0 {
        Ok(Seq::empty())
    } else {
        match decode_map_model(ms[0]) {
            Err(e) => Err(e),
            Ok(o) => match decode_list(ms.drop_first()) {
                Err(e) => Err(e),
                Ok(os) => Ok(seq![o] + os),
            },
        }
    }
}

/// Resolve a completed accumulator into an option: check the required
/// fields, then dispatch on the discriminant to coerce the classified
/// payload into the variant it demands.
pub open spec fn finish_decode(acc: DecodeAcc) -> Result<OptionModel, DecodeError> {
    if acc.name is None {
        Err(DecodeError::MissingField(FieldName::Name))
    } else if acc.kind is None {
        Err(DecodeError::MissingField(FieldName::Type))
    } else {
        let name = acc.name->0;
        let kind = acc.kind->0;
        let focused = if acc.focused is Some {
            acc.focused->0
        } else {
            false
        };
        if kind == CommandOptionType::SubCommand {
            Ok(OptionModel { focused, name, value: ValueModel::SubCommand(acc.options) })
        } else if kind == CommandOptionType::SubCommandGroup {
            Ok(OptionModel { focused, name, value: ValueModel::SubCommandGroup(acc.options) })
        } else {
            match acc.value {
                None => Err(DecodeError::MissingField(FieldName::Value)),
                Some(env) => match finish_scalar(kind, env) {
                    Ok(v) => Ok(OptionModel { focused, name, value: v }),
                    Err(e) => Err(e),
                },
            }
        }
    }
}

/// Coerce a classified payload under a scalar discriminant.
///
/// Identifier discriminants demand an Id envelope; Number widens an
/// integer envelope losslessly to the binary64 payload; String accepts
/// text directly and re-renders an Id envelope to its canonical decimal
/// text — the documented reversal, for the string discriminant only, of
/// the identifier-before-string classification precedence.
pub open spec fn finish_scalar(kind: CommandOptionType, env: EnvelopeModel) -> Result<
    ValueModel,
    DecodeError,
> {
    match kind {
        CommandOptionType::Attachment => match env {
            EnvelopeModel::Id(id) => Ok(ValueModel::Attachment(id)),
            _ => Err(DecodeError::InvalidType(kind, envelope_shape(env))),
        },
        CommandOptionType::Boolean => match env {
            EnvelopeModel::Boolean(b) => Ok(ValueModel::Boolean(b)),
            _ => Err(DecodeError::InvalidType(kind, envelope_shape(env))),
        },
        CommandOptionType::Channel => match env {
            EnvelopeModel::Id(id) => Ok(ValueModel::Channel(id)),
            _ => Err(DecodeError::InvalidType(kind, envelope_shape(env))),
        },
        CommandOptionType::Integer => match env {
            EnvelopeModel::Integer(i) => Ok(ValueModel::Integer(i)),
            _ => Err(DecodeError::InvalidType(kind, envelope_shape(env))),
        },
        CommandOptionType::Mentionable => match env {
            EnvelopeModel::Id(id) => Ok(ValueModel::Mentionable(id)),
            _ => Err(DecodeError::InvalidType(kind, envelope_shape(env))),
        },
        CommandOptionType::Number => match env {
            EnvelopeModel::Integer(i) => Ok(
                ValueModel::Number(WireNumber { bits: binary64_bits_of_i64(i) }),
            ),
            EnvelopeModel::Number(n) => Ok(ValueModel::Number(n)),
            _ => Err(DecodeError::InvalidType(kind, envelope_shape(env))),
        },
        CommandOptionType::Role => match env {
            EnvelopeModel::Id(id) => Ok(ValueModel::Role(id)),
            _ => Err(DecodeError::InvalidType(kind, envelope_shape(env))),
        },
        CommandOptionType::String => match env {
            EnvelopeModel::String(s) => Ok(ValueModel::String(s)),
            EnvelopeModel::Id(id) => Ok(ValueModel::String(dec_digits(id as nat))),
            _ => Err(DecodeError::InvalidType(kind, envelope_shape(env))),
        },
        CommandOptionType::User => match env {
            EnvelopeModel::Id(id) => Ok(ValueModel::User(id)),
            _ => Err(DecodeError::InvalidType(kind, envelope_shape(env))),
        },
        CommandOptionType::SubCommand => Err(DecodeError::MissingField(FieldName::Value)),
        CommandOptionType::SubCommandGroup => Err(DecodeError::MissingField(FieldName::Value)),
    }
}

/// The whole mathematical decoder: scan the fields, then resolve.
pub open spec fn decode_map_model(fs: Seq<WireFieldModel>) -> Result<OptionModel, DecodeError>
    decreases fs, 1nat,
{
    match decode_fields(fs, empty_acc()) {
        Ok(acc) => finish_decode(acc),
        Err(e) => Err(e),
    }
}

/// Mathematical form of an optional captured name.
pub open spec fn opt_str_model(o: Option<String>) -> Option<Seq<char>> {
    match o {
        Some(s) => Some(s@),
        None => None,
    }
}

/// Mathematical form of an optional captured envelope.
pub open spec fn opt_env_model(o: Option<ValueEnvelope>) -> Option<EnvelopeModel> {
    match o {
        Some(e) => Some(envelope_model(e)),
        None => None,
    }
}

/// Mathematical form of a decode outcome.
pub open spec fn res_model(r: Result<CommandDataOption, DecodeError>) -> Result<
    OptionModel,
    DecodeError,
> {
    match r {
        Ok(o) => Ok(option_model(o)),
        Err(e) => Err(e),
    }
}

/// Which recognized field a key names.
fn key_field(key: &String) -> (r: Option<FieldName>)
    ensures
        r == field_of_key(key@),
{
    if *key == String::from_str("name") {
        Some(FieldName::Name)
    } else if *key == String::from_str("type") {
        Some(FieldName::Type)
    } else if *key == String::from_str("value") {
        Some(FieldName::Value)
    } else if *key == String::from_str("options") {
        Some(FieldName::Options)
    } else if *key == String::from_str("focused") {
        Some(FieldName::Focused)
    } else {
        None
    }
}

/// The category an envelope classified as.
fn shape_of(e: &ValueEnvelope) -> (r: ValueShape)
    ensures
        r == envelope_shape(envelope_model(*e)),
{
    match e {
        ValueEnvelope::Boolean(_) => ValueShape::Boolean,
        ValueEnvelope::Integer(_) => ValueShape::Integer,
        ValueEnvelope::Number(_) => ValueShape::Number,
        ValueEnvelope::Id(_) => ValueShape::Id,
        ValueEnvelope::String(_) => ValueShape::String,
    }
}

/// Decode every nested map of `options`, in wire order.
fn decode_options_list(ms: &Vec<WireMap>) -> (r: Result<Vec<CommandDataOption>, DecodeError>)
    ensures
        match r {
            Ok(v) => decode_list(wire_maps_model(ms@)) == Ok::<Seq<OptionModel>, DecodeError>(
                opts_model(v@),
            ),
            Err(e) => decode_list(wire_maps_model(ms@)) == Err::<Seq<OptionModel>, DecodeError>(e),
        },
    decreases ms@, 0nat,
{
    let ghost lm = wire_maps_model(ms@);
    proof {
        lemma_wire_maps_model(ms@);
    }
    let n = ms.len();
    let mut out: Vec<CommandDataOption> = Vec::new();
    let mut i: usize = 0;
    proof {
        assert(lm.subrange(0, n as int) =~= lm);
        assert(out@ =~= Seq::<CommandDataOption>::empty());
        assert(opts_model(out@) =~= Seq::<OptionModel>::empty());
        assert forall|t: Seq<OptionModel>| #[trigger] (opts_model(out@) + t) == t by {
            assert(opts_model(out@) + t =~= t);
        }
    }
    while i < n
        invariant
            n == ms@.len(),
            lm == wire_maps_model(ms@),
            lm.len() == n,
            forall|k: int| 0 <= k < n ==> lm[k] == wire_map_model(ms@[k]),
            i <= n,
            decode_list(lm) == (match decode_list(lm.subrange(i as int, n as int)) {
                Ok(t) => Ok::<Seq<OptionModel>, DecodeError>(opts_model(out@) + t),
                Err(e) => Err::<Seq<OptionModel>, DecodeError>(e),
            }),
        decreases n - i,
    {
        let ghost suf = lm.subrange(i as int, n as int);
        proof {
            assert(suf[0] == lm[i as int]);
            assert(suf.drop_first() =~= lm.subrange(i as int + 1, n as int));
        }
        let elem = &ms[i];
        proof {
            assert(decreases_to!(ms@ => ms@[i as int]));
        }
        match decode_option(elem) {
            Err(e) => {
                return Err(e);
            },
            Ok(o) => {
                let ghost before = out@;
                out.push(o);
                proof {
                    assert(out@ =~= before.push(o));
                    assert(out@.drop_last() =~= before);
                    assert(out@.last() == o);
                    assert(opts_model(out@) == opts_model(before).push(option_model(o)));
                    assert forall|t: Seq<OptionModel>| #[trigger] (opts_model(out@) + t)
                        == opts_model(before) + (seq![option_model(o)] + t) by {
                        assert(opts_model(out@) + t =~= opts_model(before) + (seq![option_model(o)]
                            + t));
                    }
                }
                i = i + 1;
            },
        }
    }
    proof {
        assert(lm.subrange(n as int, n as int) =~= Seq::<Seq<WireFieldModel>>::empty());
        assert(opts_model(out@) + Seq::<OptionModel>::empty() =~= opts_model(out@));
    }
    Ok(out)
}

/// Decode one structural map into an option, exactly as the mathematical
/// decoder [`decode_map_model`] prescribes on the map's wire form.
pub fn decode_option(map: &WireMap) -> (r: Result<CommandDataOption, DecodeError>)
    ensures
        res_model(r) == decode_map_model(wire_map_model(*map)),
    decreases *map, 1nat,
{
    let ghost w = wire_map_model(*map);
    proof {
        lemma_wire_fields_model(map.fields@);
    }
    let n = map.fields.len();
    let mut name_opt: Option<String> = None;
    let mut kind_opt: Option<CommandOptionType> = None;
    let mut value_opt: Option<ValueEnvelope> = None;
    let mut options: Vec<CommandDataOption> = Vec::new();
    let mut focused: Option<bool> = None;
    let mut i: usize = 0;
    proof {
        assert(w.subrange(0, n as int) =~= w);
        assert(options@ =~= Seq::<CommandDataOption>::empty());
        assert(opts_model(options@) =~= Seq::<OptionModel>::empty());
        assert(DecodeAcc {
            name: opt_str_model(name_opt),
            kind: kind_opt,
            value: opt_env_model(value_opt),
            options: opts_model(options@),
            focused,
        } =~= empty_acc());
    }
    while i < n
        invariant
            n == map.fields@.len(),
            w == wire_map_model(*map),
            w.len() == n,
            forall|k: int| 0 <= k < n ==> w[k] == wire_field_model(map.fields@[k]),
            i <= n,
            decode_fields(w, empty_acc()) == decode_fields(
                w.subrange(i as int, n as int),
                DecodeAcc {
                    name: opt_str_model(name_opt),
                    kind: kind_opt,
                    value: opt_env_model(value_opt),
                    options: opts_model(options@),
                    focused,
                },
            ),
        decreases n - i,
    {
        let ghost acc_now = DecodeAcc {
            name: opt_str_model(name_opt),
            kind: kind_opt,
            value: opt_env_model(value_opt),
            options: opts_model(options@),
            focused,
        };
        let ghost suf = w.subrange(i as int, n as int);
        proof {
            assert(suf[0] == w[i as int]);
            assert(suf.drop_first() =~= w.subrange(i as int + 1, n as int));
            assert(decode_fields(suf, acc_now) == (match step_field(suf[0], acc_now) {
                Ok(a) => decode_fields(suf.drop_first(), a),
                Err(e) => Err(e),
            }));
        }
        let f = &map.fields[i];
        match key_field(&f.key) {
            None => {
                i = i + 1;
            },
            Some(FieldName::Name) => {
                if name_opt.is_some() {
                    return Err(DecodeError::DuplicateField(FieldName::Name));
                }
                match &f.value {
                    WireValue::Text(s) => {
                        name_opt = Some(s.clone());
                        i = i + 1;
                    },
                    _ => {
                        return Err(DecodeError::MalformedField(FieldName::Name));
                    },
                }
            },
            Some(FieldName::Type) => {
                if kind_opt.is_some() {
                    return Err(DecodeError::DuplicateField(FieldName::Type));
                }
                match &f.value {
                    WireValue::Int(code) => match CommandOptionType::from_code(*code) {
                        Some(k) => {
                            kind_opt = Some(k);
                            i = i + 1;
                        },
                        None => {
                            return Err(DecodeError::UnrecognizedDiscriminant(*code));
                        },
                    },
                    _ => {
                        return Err(DecodeError::MalformedField(FieldName::Type));
                    },
                }
            },
            Some(FieldName::Value) => {
                if value_opt.is_some() {
                    return Err(DecodeError::DuplicateField(FieldName::Value));
                }
                match classify(&f.value) {
                    Some(env) => {
                        value_opt = Some(env);
                        i = i + 1;
                    },
                    None => {
                        return Err(DecodeError::MalformedField(FieldName::Value));
                    },
                }
            },
            Some(FieldName::Options) => {
                if options.len() > 0 {
                    return Err(DecodeError::DuplicateField(FieldName::Options));
                }
                match &f.value {
                    WireValue::List(ms) => {
                        proof {
                            assert(decreases_to!(*map => map.fields));
                            assert(decreases_to!(map.fields@ => map.fields@[i as int]));
                            assert(decreases_to!(*map => ms@));
                        }
                        match decode_options_list(ms) {
                            Ok(v) => {
                                proof {
                                    assert(opts_model(options@) =~= Seq::<OptionModel>::empty());
                                }
                                options = v;
                                i = i + 1;
                            },
                            Err(e) => {
                                return Err(e);
                            },
                        }
                    },
                    _ => {
                        return Err(DecodeError::MalformedField(FieldName::Options));
                    },
                }
            },
            Some(FieldName::Focused) => {
                if focused.is_some() {
                    return Err(DecodeError::DuplicateField(FieldName::Focused));
                }
                match &f.value {
                    WireValue::Bool(b) => {
                        focused = Some(*b);
                        i = i + 1;
                    },
                    _ => {
                        return Err(DecodeError::MalformedField(FieldName::Focused));
                    },
                }
            },
        }
    }
    proof {
        assert(w.subrange(n as int, n as int) =~= Seq::<WireFieldModel>::empty());
    }
    let name = match name_opt {
        Some(nm) => nm,
        None => {
            return Err(DecodeError::MissingField(FieldName::Name));
        },
    };
    let kind = match kind_opt {
        Some(k) => k,
        None => {
            return Err(DecodeError::MissingField(FieldName::Type));
        },
    };
    let is_focused = match focused {
        Some(b) => b,
        None => false,
    };
    let value: CommandOptionValue = match kind {
        CommandOptionType::SubCommand => CommandOptionValue::SubCommand(options),
        CommandOptionType::SubCommandGroup => CommandOptionValue::SubCommandGroup(options),
        _ => {
            let env = match value_opt {
                Some(env) => env,
                None => {
                    return Err(DecodeError::MissingField(FieldName::Value));
                },
            };
            match decode_scalar(kind, env) {
                Ok(v) => v,
                Err(e) => {
                    return Err(e);
                },
            }
        },
    };
    let r = CommandDataOption { focused: is_focused, name, value };
    proof {
        assert(option_model(r) =~= (match decode_map_model(w) {
            Ok(m) => m,
            Err(_) => option_model(r),
        }));
    }
    Ok(r)
}

/// Coerce a classified payload under a scalar discriminant, exactly as
/// [`finish_scalar`] prescribes.
fn decode_scalar(kind: CommandOptionType, env: ValueEnvelope) -> (r: Result<
    CommandOptionValue,
    DecodeError,
>)
    requires
        kind != CommandOptionType::SubCommand,
        kind != CommandOptionType::SubCommandGroup,
    ensures
        match r {
            Ok(v) => finish_scalar(kind, envelope_model(env)) == Ok::<ValueModel, DecodeError>(
                value_model(v),
            ),
            Err(e) => finish_scalar(kind, envelope_model(env)) == Err::<ValueModel, DecodeError>(e),
        },
{
    match kind {
        CommandOptionType::Attachment => match env {
            ValueEnvelope::Id(id) => Ok(CommandOptionValue::Attachment(id)),
            other => Err(DecodeError::InvalidType(kind, shape_of(&other))),
        },
        CommandOptionType::Boolean => match env {
            ValueEnvelope::Boolean(b) => Ok(CommandOptionValue::Boolean(b)),
            other => Err(DecodeError::InvalidType(kind, shape_of(&other))),
        },
        CommandOptionType::Channel => match env {
            ValueEnvelope::Id(id) => Ok(CommandOptionValue::Channel(id)),
            other => Err(DecodeError::InvalidType(kind, shape_of(&other))),
        },
        CommandOptionType::Integer => match env {
            ValueEnvelope::Integer(i) => Ok(CommandOptionValue::Integer(i)),
            other => Err(DecodeError::InvalidType(kind, shape_of(&other))),
        },
        CommandOptionType::Mentionable => match env {
            ValueEnvelope::Id(id) => Ok(CommandOptionValue::Mentionable(id)),
            other => Err(DecodeError::InvalidType(kind, shape_of(&other))),
        },
        CommandOptionType::Number => match env {
            ValueEnvelope::Integer(i) => Ok(CommandOptionValue::Number(widen_i64_to_binary64(i))),
            ValueEnvelope::Number(nb) => Ok(CommandOptionValue::Number(nb)),
            other => Err(DecodeError::InvalidType(kind, shape_of(&other))),
        },
        CommandOptionType::Role => match env {
            ValueEnvelope::Id(id) => Ok(CommandOptionValue::Role(id)),
            other => Err(DecodeError::InvalidType(kind, shape_of(&other))),
        },
        CommandOptionType::String => match env {
            ValueEnvelope::String(s) => Ok(CommandOptionValue::String(s)),
            ValueEnvelope::Id(id) => Ok(CommandOptionValue::String(crate::digits::render_u64(id))),
            other => Err(DecodeError::InvalidType(kind, shape_of(&other))),
        },
        CommandOptionType::User => match env {
            ValueEnvelope::Id(id) => Ok(CommandOptionValue::User(id)),
            other => Err(DecodeError::InvalidType(kind, shape_of(&other))),
        },
        CommandOptionType::SubCommand => Err(DecodeError::MissingField(FieldName::Value)),
        CommandOptionType::SubCommandGroup => Err(DecodeError::MissingField(FieldName::Value)),
    }
}

} // verus!
