//! The codec's laws: what encoding and decoding guarantee together.

use vstd::prelude::*;
use crate::binary64::{binary64_bits_of_i64, WireNumber};
use crate::decode::{
    decode_fields, decode_list, decode_map_model, empty_acc, field_of_key, finish_scalar,
    lemma_recognized_keys, step_field, DecodeAcc, DecodeError, FieldName,
};
use crate::digits::{
    dec_digits, dec_val, lemma_canonical_to_digits, lemma_dec_digits_wf,
};
use crate::encode::{encode_list_model, encode_option_model, encode_value_fields, wfield};
use crate::kind::CommandOptionType;
use crate::option::{value_kind, OptionModel, ValueModel};
use crate::wire::{classify_model, text_is_id, EnvelopeModel, WireFieldModel, WireValueModel};

verus! {

/// Decoding inverts encoding: every option's encoded field set decodes
/// back to exactly that option. This holds for every variant, every
/// nesting depth, and both focused states — the conditional omissions of
/// `focused` and of an empty `options` sequence are exactly compensated by
/// the decoder's defaults, and the string discriminant's re-rendering of
/// identifier-classified text reproduces the original text exactly.
pub proof fn lemma_encode_decode_identity(m: OptionModel)
    ensures
        decode_map_model(encode_option_model(m)) == Ok::<OptionModel, DecodeError>(m),
    decreases m, 1nat,
{
    lemma_recognized_keys();
    let fs = encode_option_model(m);
    let name_f = wfield("name"@, WireValueModel::Text(m.name));
    let type_f = wfield("type"@, WireValueModel::Int(value_kind(m.value).spec_code()));
    let vfs = encode_value_fields(m.value);
    let base = seq![name_f, type_f] + vfs;
    let acc1 = if m.focused {
        DecodeAcc { focused: Some(true), ..empty_acc() }
    } else {
        empty_acc()
    };
    assert(decode_fields(fs, empty_acc()) == decode_fields(base, acc1)) by {
        if m.focused {
            assert(fs[0] == wfield("focused"@, WireValueModel::Bool(true)));
            assert(field_of_key("focused"@) == Some(FieldName::Focused));
            assert(step_field(fs[0], empty_acc()) == Ok::<DecodeAcc, DecodeError>(acc1));
            assert(fs.drop_first() =~= base);
        } else {
            assert(fs =~= base);
        }
    }
    let acc2 = DecodeAcc { name: Some(m.name), ..acc1 };
    let after_name = seq![type_f] + vfs;
    assert(decode_fields(base, acc1) == decode_fields(after_name, acc2)) by {
        assert(base[0] == name_f);
        assert(field_of_key("name"@) == Some(FieldName::Name));
        assert(step_field(base[0], acc1) == Ok::<DecodeAcc, DecodeError>(acc2));
        assert(base.drop_first() =~= after_name);
    }
    let k = value_kind(m.value);
    let acc3 = DecodeAcc { kind: Some(k), ..acc2 };
    assert(decode_fields(after_name, acc2) == decode_fields(vfs, acc3)) by {
        assert(after_name[0] == type_f);
        assert(field_of_key("type"@) == Some(FieldName::Type));
        crate::kind::lemma_code_round_trip(k);
        assert(step_field(after_name[0], acc2) == Ok::<DecodeAcc, DecodeError>(acc3));
        assert(after_name.drop_first() =~= vfs);
    }
    match m.value {
        ValueModel::Attachment(id) => {
            lemma_scalar_id_payload(m, acc3, vfs, id);
        },
        ValueModel::Boolean(b) => {
            let env = EnvelopeModel::Boolean(b);
            let acc4 = DecodeAcc { value: Some(env), ..acc3 };
            assert(vfs[0] == wfield("value"@, WireValueModel::Bool(b)));
            let rest = vfs.drop_first();
            assert(rest =~= Seq::<WireFieldModel>::empty());
            assert(decode_fields(rest, acc4) == Ok::<DecodeAcc, DecodeError>(acc4));
            assert(step_field(vfs[0], acc3) == Ok::<DecodeAcc, DecodeError>(acc4));
            assert(decode_fields(vfs, acc3) == decode_fields(rest, acc4));
            assert(decode_fields(vfs, acc3) == Ok::<DecodeAcc, DecodeError>(acc4));
        },
        ValueModel::Channel(id) => {
            lemma_scalar_id_payload(m, acc3, vfs, id);
        },
        ValueModel::Integer(i) => {
            let env = EnvelopeModel::Integer(i);
            let acc4 = DecodeAcc { value: Some(env), ..acc3 };
            assert(vfs[0] == wfield("value"@, WireValueModel::Int(i)));
            let rest = vfs.drop_first();
            assert(rest =~= Seq::<WireFieldModel>::empty());
            assert(decode_fields(rest, acc4) == Ok::<DecodeAcc, DecodeError>(acc4));
            assert(step_field(vfs[0], acc3) == Ok::<DecodeAcc, DecodeError>(acc4));
            assert(decode_fields(vfs, acc3) == decode_fields(rest, acc4));
            assert(decode_fields(vfs, acc3) == Ok::<DecodeAcc, DecodeError>(acc4));
        },
        ValueModel::Mentionable(id) => {
            lemma_scalar_id_payload(m, acc3, vfs, id);
        },
        ValueModel::Number(n) => {
            let env = EnvelopeModel::Number(n);
            let acc4 = DecodeAcc { value: Some(env), ..acc3 };
            assert(vfs[0] == wfield("value"@, WireValueModel::Number(n)));
            let rest = vfs.drop_first();
            assert(rest =~= Seq::<WireFieldModel>::empty());
            assert(decode_fields(rest, acc4) == Ok::<DecodeAcc, DecodeError>(acc4));
            assert(step_field(vfs[0], acc3) == Ok::<DecodeAcc, DecodeError>(acc4));
            assert(decode_fields(vfs, acc3) == decode_fields(rest, acc4));
            assert(decode_fields(vfs, acc3) == Ok::<DecodeAcc, DecodeError>(acc4));
        },
        ValueModel::Role(id) => {
            lemma_scalar_id_payload(m, acc3, vfs, id);
        },
        ValueModel::String(s) => {
            assert(vfs[0] == wfield("value"@, WireValueModel::Text(s)));
            assert(vfs.drop_first() =~= Seq::<WireFieldModel>::empty());
            if text_is_id(s) {
                let id = dec_val(s) as u64;
                let acc4 = DecodeAcc { value: Some(EnvelopeModel::Id(id)), ..acc3 };
                assert(classify_model(vfs[0].value) == Some(EnvelopeModel::Id(id)));
                let rest = vfs.drop_first();
                assert(rest =~= Seq::<WireFieldModel>::empty());
                assert(decode_fields(rest, acc4) == Ok::<DecodeAcc, DecodeError>(acc4));
                assert(step_field(vfs[0], acc3) == Ok::<DecodeAcc, DecodeError>(acc4));
            assert(decode_fields(vfs, acc3) == decode_fields(rest, acc4));
                assert(decode_fields(vfs, acc3) == Ok::<DecodeAcc, DecodeError>(acc4));
                lemma_canonical_to_digits(s);
                assert(dec_digits(id as nat) == s);
            } else {
                let acc4 = DecodeAcc { value: Some(EnvelopeModel::String(s)), ..acc3 };
                assert(classify_model(vfs[0].value) == Some(EnvelopeModel::String(s)));
                let rest = vfs.drop_first();
                assert(rest =~= Seq::<WireFieldModel>::empty());
                assert(decode_fields(rest, acc4) == Ok::<DecodeAcc, DecodeError>(acc4));
                assert(step_field(vfs[0], acc3) == Ok::<DecodeAcc, DecodeError>(acc4));
            assert(decode_fields(vfs, acc3) == decode_fields(rest, acc4));
                assert(decode_fields(vfs, acc3) == Ok::<DecodeAcc, DecodeError>(acc4));
            }
        },
        ValueModel::SubCommand(os) => {
            lemma_subgroup_payload(m, acc3, vfs, os);
        },
        ValueModel::SubCommandGroup(os) => {
            lemma_subgroup_payload(m, acc3, vfs, os);
        },
        ValueModel::User(id) => {
            lemma_scalar_id_payload(m, acc3, vfs, id);
        },
    }
    assert(decode_map_model(fs) == Ok::<OptionModel, DecodeError>(m));
}

/// An identifier payload encodes as its canonical decimal text, which the
/// classifier reads back as exactly that identifier.
proof fn lemma_scalar_id_payload(m: OptionModel, acc3: DecodeAcc, vfs: Seq<WireFieldModel>, id: u64)
    requires
        vfs == encode_value_fields(m.value),
        acc3.value is None,
        m.value == ValueModel::Attachment(id) || m.value == ValueModel::Channel(id) || m.value
            == ValueModel::Mentionable(id) || m.value == ValueModel::Role(id) || m.value
            == ValueModel::User(id),
    ensures
        decode_fields(vfs, acc3) == Ok::<DecodeAcc, DecodeError>(
            DecodeAcc { value: Some(EnvelopeModel::Id(id)), ..acc3 },
        ),
{
    lemma_recognized_keys();
    lemma_dec_digits_wf(id as nat);
    assert(vfs[0] == wfield("value"@, WireValueModel::Text(dec_digits(id as nat))));
    assert(text_is_id(dec_digits(id as nat)));
    assert(classify_model(vfs[0].value) == Some(EnvelopeModel::Id(id)));
    let acc4 = DecodeAcc { value: Some(EnvelopeModel::Id(id)), ..acc3 };
    let rest = vfs.drop_first();
    assert(rest =~= Seq::<WireFieldModel>::empty());
    assert(decode_fields(rest, acc4) == Ok::<DecodeAcc, DecodeError>(acc4));
    assert(step_field(vfs[0], acc3) == Ok::<DecodeAcc, DecodeError>(acc4));
    assert(decode_fields(vfs, acc3) == decode_fields(rest, acc4));
}

/// A sub-grouping payload round-trips: an empty sequence is omitted and
/// decodes back to empty; a non-empty one is emitted as a list of encoded
/// maps that decode back element for element.
proof fn lemma_subgroup_payload(
    m: OptionModel,
    acc3: DecodeAcc,
    vfs: Seq<WireFieldModel>,
    os: Seq<OptionModel>,
)
    requires
        vfs == encode_value_fields(m.value),
        acc3.options == Seq::<OptionModel>::empty(),
        m.value == ValueModel::SubCommand(os) || m.value == ValueModel::SubCommandGroup(os),
    ensures
        decode_fields(vfs, acc3) == Ok::<DecodeAcc, DecodeError>(
            DecodeAcc { options: os, ..acc3 },
        ),
    decreases os, 3nat,
{
    lemma_recognized_keys();
    if os.len() == 0 {
        assert(vfs =~= Seq::<WireFieldModel>::empty());
        assert(decode_fields(vfs, acc3) == Ok::<DecodeAcc, DecodeError>(acc3));
        assert(DecodeAcc { options: os, ..acc3 } =~= acc3) by {
            assert(os =~= Seq::<OptionModel>::empty());
        }
    } else {
        assert(vfs[0] == wfield("options"@, WireValueModel::List(encode_list_model(os))));
        assert(field_of_key("options"@) == Some(FieldName::Options));
        lemma_encode_decode_list(os);
        let acc4 = DecodeAcc { options: os, ..acc3 };
        let rest = vfs.drop_first();
        assert(rest =~= Seq::<WireFieldModel>::empty());
        assert(decode_fields(rest, acc4) == Ok::<DecodeAcc, DecodeError>(acc4));
        assert(step_field(vfs[0], acc3) == Ok::<DecodeAcc, DecodeError>(acc4));
        assert(decode_fields(vfs, acc3) == decode_fields(rest, acc4));
    }
}

/// Decoding inverts encoding on whole sub-grouping sequences, in order.
pub proof fn lemma_encode_decode_list(os: Seq<OptionModel>)
    ensures
        decode_list(encode_list_model(os)) == Ok::<Seq<OptionModel>, DecodeError>(os),
    decreases os, 2nat,
{
    if os.len() == 0 {
        assert(encode_list_model(os) =~= Seq::<Seq<WireFieldModel>>::empty());
        assert(Seq::<OptionModel>::empty() =~= os);
    } else {
        let el = encode_list_model(os);
        assert(el[0] == encode_option_model(os[0]));
        assert(el.drop_first() =~= encode_list_model(os.drop_first()));
        lemma_encode_decode_identity(os[0]);
        lemma_encode_decode_list(os.drop_first());
        assert(seq![os[0]] + os.drop_first() =~= os);
    }
}

/// Encoding a sub-grouping option whose payload sequence is empty emits
/// no `options` field at all, and decoding that output yields the
/// empty-payload option back.
pub proof fn lemma_empty_subcommand_omission(m: OptionModel)
    requires
        m.value matches ValueModel::SubCommand(os) && os.len() == 0,
    ensures
        forall|i: int|
            0 <= i < encode_option_model(m).len() ==> (#[trigger] encode_option_model(m)[i]).key
                != "options"@,
        decode_map_model(encode_option_model(m)) == Ok::<OptionModel, DecodeError>(m),
{
    lemma_recognized_keys();
    lemma_encode_decode_identity(m);
    let fs = encode_option_model(m);
    assert(encode_value_fields(m.value) =~= Seq::<WireFieldModel>::empty());
    let name_f = wfield("name"@, WireValueModel::Text(m.name));
    let type_f = wfield("type"@, WireValueModel::Int(value_kind(m.value).spec_code()));
    if m.focused {
        assert(fs =~= seq![wfield("focused"@, WireValueModel::Bool(true)), name_f, type_f]);
    } else {
        assert(fs =~= seq![name_f, type_f]);
    }
    assert forall|i: int| 0 <= i < fs.len() implies (#[trigger] fs[i]).key != "options"@ by {
        assert(fs[i].key == "focused"@ || fs[i].key == "name"@ || fs[i].key == "type"@);
    }
}

/// Decoding a three-field scalar map: the payload is classified, then
/// coerced under the discriminant; the result is unfocused and named as
/// given.
pub proof fn lemma_decode_scalar_map(
    name: Seq<char>,
    kind: CommandOptionType,
    payload: WireValueModel,
)
    requires
        classify_model(payload) is Some,
        kind != CommandOptionType::SubCommand,
        kind != CommandOptionType::SubCommandGroup,
    ensures
        decode_map_model(
            seq![
                wfield("name"@, WireValueModel::Text(name)),
                wfield("type"@, WireValueModel::Int(kind.spec_code())),
                wfield("value"@, payload),
            ],
        ) == (match finish_scalar(kind, classify_model(payload)->0) {
            Ok(v) => Ok::<OptionModel, DecodeError>(OptionModel { focused: false, name, value: v }),
            Err(e) => Err::<OptionModel, DecodeError>(e),
        }),
{
    lemma_recognized_keys();
    let name_f = wfield("name"@, WireValueModel::Text(name));
    let type_f = wfield("type"@, WireValueModel::Int(kind.spec_code()));
    let value_f = wfield("value"@, payload);
    let fs = seq![name_f, type_f, value_f];
    let acc1 = DecodeAcc { name: Some(name), ..empty_acc() };
    let acc2 = DecodeAcc { kind: Some(kind), ..acc1 };
    let env = classify_model(payload)->0;
    let acc3 = DecodeAcc { value: Some(env), ..acc2 };
    assert(step_field(fs[0], empty_acc()) == Ok::<DecodeAcc, DecodeError>(acc1));
    assert(fs.drop_first() =~= seq![type_f, value_f]);
    assert(decode_fields(fs, empty_acc()) == decode_fields(seq![type_f, value_f], acc1));
    crate::kind::lemma_code_round_trip(kind);
    assert(step_field(type_f, acc1) == Ok::<DecodeAcc, DecodeError>(acc2));
    assert(seq![type_f, value_f].drop_first() =~= seq![value_f]);
    assert(decode_fields(seq![type_f, value_f], acc1) == decode_fields(seq![value_f], acc2));
    assert(step_field(value_f, acc2) == Ok::<DecodeAcc, DecodeError>(acc3));
    assert(seq![value_f].drop_first() =~= Seq::<WireFieldModel>::empty());
    assert(decode_fields(Seq::<WireFieldModel>::empty(), acc3) == Ok::<DecodeAcc, DecodeError>(
        acc3,
    ));
    assert(decode_fields(seq![value_f], acc2) == Ok::<DecodeAcc, DecodeError>(acc3));
}

/// The identifier-over-string precedence, and its reversal for the string
/// discriminant: numeric text under an identifier discriminant decodes to
/// that identifier; the same text under the string discriminant decodes to
/// the literal text, preserved exactly.
pub proof fn lemma_id_before_string(name: Seq<char>, n: u64)
    ensures
        decode_map_model(
            seq![
                wfield("name"@, WireValueModel::Text(name)),
                wfield("type"@, WireValueModel::Int(CommandOptionType::User.spec_code())),
                wfield("value"@, WireValueModel::Text(dec_digits(n as nat))),
            ],
        ) == Ok::<OptionModel, DecodeError>(
            OptionModel { focused: false, name, value: ValueModel::User(n) },
        ),
        decode_map_model(
            seq![
                wfield("name"@, WireValueModel::Text(name)),
                wfield("type"@, WireValueModel::Int(CommandOptionType::String.spec_code())),
                wfield("value"@, WireValueModel::Text(dec_digits(n as nat))),
            ],
        ) == Ok::<OptionModel, DecodeError>(
            OptionModel { focused: false, name, value: ValueModel::String(dec_digits(n as nat)) },
        ),
{
    lemma_dec_digits_wf(n as nat);
    let payload = WireValueModel::Text(dec_digits(n as nat));
    assert(classify_model(payload) == Some(EnvelopeModel::Id(n)));
    lemma_decode_scalar_map(name, CommandOptionType::User, payload);
    lemma_decode_scalar_map(name, CommandOptionType::String, payload);
}

/// An integer payload under the number discriminant decodes identically to
/// the binary64 payload it widens to.
pub proof fn lemma_integer_widens_to_number(name: Seq<char>, i: i64)
    ensures
        decode_map_model(
            seq![
                wfield("name"@, WireValueModel::Text(name)),
                wfield("type"@, WireValueModel::Int(CommandOptionType::Number.spec_code())),
                wfield("value"@, WireValueModel::Int(i)),
            ],
        ) == decode_map_model(
            seq![
                wfield("name"@, WireValueModel::Text(name)),
                wfield("type"@, WireValueModel::Int(CommandOptionType::Number.spec_code())),
                wfield(
                    "value"@,
                    WireValueModel::Number(WireNumber { bits: binary64_bits_of_i64(i) }),
                ),
            ],
        ),
{
    lemma_decode_scalar_map(name, CommandOptionType::Number, WireValueModel::Int(i));
    lemma_decode_scalar_map(
        name,
        CommandOptionType::Number,
        WireValueModel::Number(WireNumber { bits: binary64_bits_of_i64(i) }),
    );
}

/// Once a name is captured, any later `name` field makes the scan fail.
proof fn lemma_name_seen_again(fs: Seq<WireFieldModel>, acc: DecodeAcc, k: int)
    requires
        acc.name is Some,
        0 <= k < fs.len(),
        fs[k].key == "name"@,
    ensures
        decode_fields(fs, acc) is Err,
    decreases fs.len(),
{
    let f = fs[0];
    let rest = fs.drop_first();
    assert(decode_fields(fs, acc) == (match step_field(f, acc) {
        Ok(a) => decode_fields(rest, a),
        Err(e) => Err(e),
    }));
    match step_field(f, acc) {
        Err(_) => {},
        Ok(a) => {
            assert(a.name is Some);
            if k == 0 {
                assert(field_of_key(f.key) == Some(FieldName::Name));
                assert(false);
            } else {
                assert(rest[k - 1] == fs[k]);
                lemma_name_seen_again(rest, a, k - 1);
            }
        },
    }
}

/// A scan over fields holding two `name` keys fails, from any accumulator.
proof fn lemma_two_names_err(fs: Seq<WireFieldModel>, acc: DecodeAcc, i: int, j: int)
    requires
        0 <= i < j < fs.len(),
        fs[i].key == "name"@,
        fs[j].key == "name"@,
    ensures
        decode_fields(fs, acc) is Err,
    decreases fs.len(),
{
    let f = fs[0];
    let rest = fs.drop_first();
    assert(decode_fields(fs, acc) == (match step_field(f, acc) {
        Ok(a) => decode_fields(rest, a),
        Err(e) => Err(e),
    }));
    match step_field(f, acc) {
        Err(_) => {},
        Ok(a) => {
            assert(rest[j - 1] == fs[j]);
            if i == 0 {
                assert(field_of_key(f.key) == Some(FieldName::Name));
                assert(a.name is Some);
                lemma_name_seen_again(rest, a, j - 1);
            } else {
                assert(rest[i - 1] == fs[i]);
                lemma_two_names_err(rest, a, i - 1, j - 1);
            }
        },
    }
}

/// Duplicate rejection: a structural map holding two `name` fields never
/// decodes, whatever stands at or between the two occurrences.
pub proof fn lemma_duplicate_name_rejected(fs: Seq<WireFieldModel>, i: int, j: int)
    requires
        0 <= i < j < fs.len(),
        fs[i].key == "name"@,
        fs[j].key == "name"@,
    ensures
        decode_map_model(fs) is Err,
{
    lemma_two_names_err(fs, empty_acc(), i, j);
}

/// Skipping is invisible: a field with an unrecognized key changes nothing
/// about the scan, wherever it stands.
proof fn lemma_skip_unknown_scan(
    fs1: Seq<WireFieldModel>,
    u: WireFieldModel,
    fs2: Seq<WireFieldModel>,
    acc: DecodeAcc,
)
    requires
        field_of_key(u.key) is None,
    ensures
        decode_fields(fs1 + seq![u] + fs2, acc) == decode_fields(fs1 + fs2, acc),
    decreases fs1.len(),
{
    let lhs = fs1 + seq![u] + fs2;
    let rhs = fs1 + fs2;
    if fs1.len() == 0 {
        assert(lhs[0] == u);
        assert(step_field(u, acc) == Ok::<DecodeAcc, DecodeError>(acc));
        assert(lhs.drop_first() =~= fs2);
        assert(decode_fields(lhs, acc) == decode_fields(fs2, acc));
        assert(rhs =~= fs2);
    } else {
        let f = fs1[0];
        assert(lhs[0] == f);
        assert(rhs[0] == f);
        assert(lhs.drop_first() =~= fs1.drop_first() + seq![u] + fs2);
        assert(rhs.drop_first() =~= fs1.drop_first() + fs2);
        assert(decode_fields(lhs, acc) == (match step_field(f, acc) {
            Ok(a) => decode_fields(lhs.drop_first(), a),
            Err(e) => Err(e),
        }));
        assert(decode_fields(rhs, acc) == (match step_field(f, acc) {
            Ok(a) => decode_fields(rhs.drop_first(), a),
            Err(e) => Err(e),
        }));
        match step_field(f, acc) {
            Err(_) => {},
            Ok(a) => {
                lemma_skip_unknown_scan(fs1.drop_first(), u, fs2, a);
            },
        }
    }
}

/// Unknown-field tolerance: inserting a field with an unrecognized key at
/// any position leaves the decode result unchanged.
pub proof fn lemma_unknown_field_ignored(
    fs1: Seq<WireFieldModel>,
    u: WireFieldModel,
    fs2: Seq<WireFieldModel>,
)
    requires
        field_of_key(u.key) is None,
    ensures
        decode_map_model(fs1 + seq![u] + fs2) == decode_map_model(fs1 + fs2),
{
    lemma_skip_unknown_scan(fs1, u, fs2, empty_acc());
}

/// Without a `focused` field the scan leaves the captured flag untouched.
proof fn lemma_no_focused_scan(fs: Seq<WireFieldModel>, acc: DecodeAcc)
    requires
        forall|k: int| 0 <= k < fs.len() ==> (#[trigger] fs[k]).key != "focused"@,
    ensures
        decode_fields(fs, acc) matches Ok(a) ==> a.focused == acc.focused,
    decreases fs.len(),
{
    if fs.len() > 0 {
        let f = fs[0];
        let rest = fs.drop_first();
        assert(decode_fields(fs, acc) == (match step_field(f, acc) {
            Ok(a) => decode_fields(rest, a),
            Err(e) => Err(e),
        }));
        match step_field(f, acc) {
            Err(_) => {},
            Ok(a) => {
                assert(a.focused == acc.focused) by {
                    if field_of_key(f.key) == Some(FieldName::Focused) {
                        assert(f.key == "focused"@);
                        assert(false);
                    }
                }
                assert(forall|k: int|
                    0 <= k < rest.len() ==> (#[trigger] rest[k]).key != "focused"@);
                lemma_no_focused_scan(rest, a);
            },
        }
    }
}

/// Focused default: a map without a `focused` field that decodes at all
/// decodes to an unfocused option.
pub proof fn lemma_focused_defaults_false(fs: Seq<WireFieldModel>)
    requires
        forall|k: int| 0 <= k < fs.len() ==> (#[trigger] fs[k]).key != "focused"@,
    ensures
        decode_map_model(fs) matches Ok(m) ==> m.focused == false,
{
    lemma_no_focused_scan(fs, empty_acc());
}

/// Focused emission: a focused option always opens with the `focused`
/// field; an unfocused one never carries it at all.
pub proof fn lemma_focused_emission(m: OptionModel)
    ensures
        m.focused ==> encode_option_model(m)[0] == wfield("focused"@, WireValueModel::Bool(true)),
        !m.focused ==> forall|i: int|
            0 <= i < encode_option_model(m).len() ==> (#[trigger] encode_option_model(m)[i]).key
                != "focused"@,
{
    lemma_recognized_keys();
    let fs = encode_option_model(m);
    let vfs = encode_value_fields(m.value);
    if m.focused {
        assert(fs[0] == wfield("focused"@, WireValueModel::Bool(true)));
    } else {
        let name_f = wfield("name"@, WireValueModel::Text(m.name));
        let type_f = wfield("type"@, WireValueModel::Int(value_kind(m.value).spec_code()));
        assert(fs =~= seq![name_f, type_f] + vfs);
        assert(vfs.len() <= 1);
        assert(vfs.len() == 1 ==> vfs[0].key == "value"@ || vfs[0].key == "options"@);
        assert forall|i: int| 0 <= i < fs.len() implies (#[trigger] fs[i]).key != "focused"@ by {
            assert(fs[i].key == "name"@ || fs[i].key == "type"@ || fs[i].key == "value"@ || fs[i].key
                == "options"@);
        }
    }
}

} // verus!
