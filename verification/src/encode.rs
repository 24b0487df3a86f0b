//! The encoder: project an option onto its conditional wire field set.
//!
//! Emission is deterministic and order-fixed: `focused` first and only when
//! `true`, then `name`, then the discriminant as `type`, then the payload —
//! `value` for every scalar variant, `options` for a sub-grouping variant
//! only when its sequence is non-empty. The mathematical encoder is
//! [`encode_option_model`]; the executable encoder returns exactly what it
//! prescribes.

use vstd::prelude::*;
use crate::digits::{dec_digits, render_u64};
use crate::option::{
    lemma_opts_model, option_model, opts_model, value_kind, CommandDataOption, CommandOptionValue,
    OptionModel, ValueModel,
};
use crate::wire::{
    lemma_wire_fields_model, wire_map_model, wire_maps_model, WireField, WireFieldModel, WireMap,
    WireValue, WireValueModel,
};
use vstd::string::StringExecFns;

verus! {

/// A wire field, by key and payload.
pub open spec fn wfield(key: Seq<char>, value: WireValueModel) -> WireFieldModel {
    WireFieldModel { key, value }
}

/// The payload fields a value contributes: one `value` field for a scalar
/// variant; one `options` field for a sub-grouping variant with a
/// non-empty sequence; nothing for an empty one.
pub open spec fn encode_value_fields(v: ValueModel) -> Seq<WireFieldModel>
    decreases v, 0nat,
{
    match v {
        ValueModel::Attachment(id) => seq![
            wfield("value"@, WireValueModel::Text(dec_digits(id as nat))),
        ],
        ValueModel::Boolean(b) => seq![wfield("value"@, WireValueModel::Bool(b))],
        ValueModel::Channel(id) => seq![
            wfield("value"@, WireValueModel::Text(dec_digits(id as nat))),
        ],
        ValueModel::Integer(i) => seq![wfield("value"@, WireValueModel::Int(i))],
        ValueModel::Mentionable(id) => seq![
            wfield("value"@, WireValueModel::Text(dec_digits(id as nat))),
        ],
        ValueModel::Number(n) => seq![wfield("value"@, WireValueModel::Number(n))],
        ValueModel::Role(id) => seq![
            wfield("value"@, WireValueModel::Text(dec_digits(id as nat))),
        ],
        ValueModel::String(s) => seq![wfield("value"@, WireValueModel::Text(s))],
        ValueModel::SubCommand(os) => if os.len() == 0 {
            Seq::empty()
        } else {
            seq![wfield("options"@, WireValueModel::List(encode_list_model(os)))]
        },
        ValueModel::SubCommandGroup(os) => if os.len() == 0 {
            Seq::empty()
        } else {
            seq![wfield("options"@, WireValueModel::List(encode_list_model(os)))]
        },
        ValueModel::User(id) => seq![wfield("value"@, WireValueModel::Text(dec_digits(id as nat)))],
    }
}

/// The full field set of one option, in emission order.
pub open spec fn encode_option_model(m: OptionModel) -> Seq<WireFieldModel>
    decreases m, 1nat,
{
    (if m.focused {
        seq![wfield("focused"@, WireValueModel::Bool(true))]
    } else {
        Seq::empty()
    }) + seq![
        wfield("name"@, WireValueModel::Text(m.name)),
        wfield("type"@, WireValueModel::Int(value_kind(m.value).spec_code())),
    ] + encode_value_fields(m.value)
}

/// The encoded maps of a sequence of options, in order.
pub open spec fn encode_list_model(os: Seq<OptionModel>) -> Seq<Seq<WireFieldModel>>
    decreases os, 2nat,
{
    if os.len() == 0 {
        Seq::empty()
    } else {
        seq![encode_option_model(os[0])] + encode_list_model(os.drop_first())
    }
}

/// The encoder declares exactly the fields it emits: two always, one more
/// for the payload unless a sub-grouping sequence is empty, one more when
/// the option is focused.
pub proof fn lemma_encoded_len(m: OptionModel)
    ensures
        encode_option_model(m).len() == 2 + (if m.focused {
            1int
        } else {
            0int
        }) + (match m.value {
            ValueModel::SubCommand(os) => if os.len() == 0 {
                0int
            } else {
                1int
            },
            ValueModel::SubCommandGroup(os) => if os.len() == 0 {
                0int
            } else {
                1int
            },
            _ => 1int,
        }),
{
}

/// Encode every option of a sub-grouping sequence, in order.
fn encode_options_list(os: &Vec<CommandDataOption>) -> (r: Vec<WireMap>)
    ensures
        wire_maps_model(r@) == encode_list_model(opts_model(os@)),
    decreases os@, 0nat,
{
    let ghost om = opts_model(os@);
    proof {
        lemma_opts_model(os@);
    }
    let n = os.len();
    let mut out: Vec<WireMap> = Vec::new();
    let mut i: usize = 0;
    proof {
        assert(om.subrange(0, n as int) =~= om);
        assert(out@ =~= Seq::<WireMap>::empty());
        assert(wire_maps_model(out@) =~= Seq::<Seq<WireFieldModel>>::empty());
        assert(wire_maps_model(out@) + encode_list_model(om) =~= encode_list_model(om));
    }
    while i < n
        invariant
            n == os@.len(),
            om == opts_model(os@),
            om.len() == n,
            forall|k: int| 0 <= k < n ==> om[k] == option_model(os@[k]),
            i <= n,
            encode_list_model(om) == wire_maps_model(out@) + encode_list_model(
                om.subrange(i as int, n as int),
            ),
        decreases n - i,
    {
        let ghost suf = om.subrange(i as int, n as int);
        proof {
            assert(suf[0] == om[i as int]);
            assert(suf.drop_first() =~= om.subrange(i as int + 1, n as int));
            assert(decreases_to!(os@ => os@[i as int]));
        }
        let m = encode_option(&os[i]);
        let ghost before = out@;
        out.push(m);
        proof {
            assert(out@ =~= before.push(m));
            assert(out@.drop_last() =~= before);
            assert(out@.last() == m);
            assert(wire_maps_model(out@) == wire_maps_model(before).push(wire_map_model(m)));
            assert(wire_maps_model(out@) + encode_list_model(om.subrange(i as int + 1, n as int))
                =~= wire_maps_model(before) + (seq![encode_option_model(om[i as int])]
                + encode_list_model(om.subrange(i as int + 1, n as int))));
        }
        i = i + 1;
    }
    proof {
        assert(om.subrange(n as int, n as int) =~= Seq::<OptionModel>::empty());
        assert(encode_list_model(om.subrange(n as int, n as int)) =~= Seq::<
            Seq<WireFieldModel>,
        >::empty());
        assert(wire_maps_model(out@) + encode_list_model(om.subrange(n as int, n as int))
            =~= wire_maps_model(out@));
    }
    out
}

/// Encode one option into its structural map, exactly as the mathematical
/// encoder [`encode_option_model`] prescribes.
pub fn encode_option(o: &CommandDataOption) -> (r: WireMap)
    ensures
        wire_map_model(r) == encode_option_model(option_model(*o)),
    decreases *o, 1nat,
{
    let mut fields: Vec<WireField> = Vec::new();
    if o.focused {
        fields.push(
            WireField { key: String::from_str("focused"), value: WireValue::Bool(true) },
        );
    }
    fields.push(
        WireField { key: String::from_str("name"), value: WireValue::Text(o.name.clone()) },
    );
    fields.push(
        WireField { key: String::from_str("type"), value: WireValue::Int(o.value.kind().code()) },
    );
    match &o.value {
        CommandOptionValue::Attachment(id) => {
            fields.push(
                WireField {
                    key: String::from_str("value"),
                    value: WireValue::Text(render_u64(*id)),
                },
            );
        },
        CommandOptionValue::Boolean(b) => {
            fields.push(
                WireField { key: String::from_str("value"), value: WireValue::Bool(*b) },
            );
        },
        CommandOptionValue::Channel(id) => {
            fields.push(
                WireField {
                    key: String::from_str("value"),
                    value: WireValue::Text(render_u64(*id)),
                },
            );
        },
        CommandOptionValue::Integer(i) => {
            fields.push(WireField { key: String::from_str("value"), value: WireValue::Int(*i) });
        },
        CommandOptionValue::Mentionable(id) => {
            fields.push(
                WireField {
                    key: String::from_str("value"),
                    value: WireValue::Text(render_u64(*id)),
                },
            );
        },
        CommandOptionValue::Number(n) => {
            fields.push(
                WireField { key: String::from_str("value"), value: WireValue::Number(*n) },
            );
        },
        CommandOptionValue::Role(id) => {
            fields.push(
                WireField {
                    key: String::from_str("value"),
                    value: WireValue::Text(render_u64(*id)),
                },
            );
        },
        CommandOptionValue::String(s) => {
            fields.push(
                WireField { key: String::from_str("value"), value: WireValue::Text(s.clone()) },
            );
        },
        CommandOptionValue::SubCommand(os) => {
            if os.len() > 0 {
                proof {
                    assert(decreases_to!(*o => o.value));
                    assert(decreases_to!(*o => os@));
                }
                let l = encode_options_list(os);
                fields.push(
                    WireField { key: String::from_str("options"), value: WireValue::List(l) },
                );
            }
        },
        CommandOptionValue::SubCommandGroup(os) => {
            if os.len() > 0 {
                proof {
                    assert(decreases_to!(*o => o.value));
                    assert(decreases_to!(*o => os@));
                }
                let l = encode_options_list(os);
                fields.push(
                    WireField { key: String::from_str("options"), value: WireValue::List(l) },
                );
            }
        },
        CommandOptionValue::User(id) => {
            fields.push(
                WireField {
                    key: String::from_str("value"),
                    value: WireValue::Text(render_u64(*id)),
                },
            );
        },
    }
    let r = WireMap { fields };
    proof {
        lemma_wire_fields_model(r.fields@);
        assert(wire_map_model(r) =~= encode_option_model(option_model(*o)));
    }
    r
}

} // verus!
