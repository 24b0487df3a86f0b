//! Decode/encode behaviour of the option codec on concrete wire maps.

use option_codec::{
    decode_option, encode_option, widen_i64_to_binary64, CommandDataOption, CommandOptionType,
    CommandOptionValue, DecodeError, FieldName, ValueShape, WireField, WireMap, WireNumber,
    WireValue,
};

fn fld(key: &str, value: WireValue) -> WireField {
    WireField { key: key.to_string(), value }
}

fn wmap(fields: Vec<WireField>) -> WireMap {
    WireMap { fields }
}

fn text(s: &str) -> WireValue {
    WireValue::Text(s.to_string())
}

fn num(bits: u64) -> WireValue {
    WireValue::Number(WireNumber { bits })
}

fn opt(focused: bool, name: &str, value: CommandOptionValue) -> CommandDataOption {
    CommandDataOption {
        focused,
        name: name.to_string(),
        value,
    }
}

fn scalar_map(name: &str, kind: CommandOptionType, value: WireValue) -> WireMap {
    wmap(vec![
        fld("name", text(name)),
        fld("type", WireValue::Int(kind.code())),
        fld("value", value),
    ])
}

#[test]
fn numbers() {
    let decoded = decode_option(&wmap(vec![
        fld("name", text("opt")),
        fld("type", WireValue::Int(CommandOptionType::Number.code())),
        fld("value", WireValue::Int(5)),
    ]))
    .unwrap();
    let expected = opt(
        false,
        "opt",
        CommandOptionValue::Number(WireNumber {
            bits: (5.0f64).to_bits(),
        }),
    );
    assert_eq!(decoded, expected);
}

#[test]
fn subcommand_without_option() {
    let value = opt(false, "cat", CommandOptionValue::SubCommand(Vec::new()));
    let encoded = encode_option(&value);
    assert_eq!(encoded.fields.len(), 2);
    assert_eq!(encoded.fields[0], fld("name", text("cat")));
    assert_eq!(
        encoded.fields[1],
        fld("type", WireValue::Int(CommandOptionType::SubCommand.code()))
    );
    let redecoded = decode_option(&encoded).unwrap();
    assert_eq!(redecoded, value);
}

fn assert_round_trip(value: CommandOptionValue) {
    let original = opt(false, "opt", value);
    let redecoded = decode_option(&encode_option(&original)).unwrap();
    assert_eq!(redecoded, original);
}

#[test]
fn round_trip_attachment() {
    assert_round_trip(CommandOptionValue::Attachment(400));
}

#[test]
fn round_trip_boolean() {
    assert_round_trip(CommandOptionValue::Boolean(true));
    assert_round_trip(CommandOptionValue::Boolean(false));
}

#[test]
fn round_trip_channel() {
    assert_round_trip(CommandOptionValue::Channel(100));
}

#[test]
fn round_trip_integer() {
    assert_round_trip(CommandOptionValue::Integer(-42));
    assert_round_trip(CommandOptionValue::Integer(i64::MIN));
    assert_round_trip(CommandOptionValue::Integer(i64::MAX));
}

#[test]
fn round_trip_mentionable() {
    assert_round_trip(CommandOptionValue::Mentionable(200));
}

#[test]
fn round_trip_number() {
    assert_round_trip(CommandOptionValue::Number(WireNumber {
        bits: (10.0f64).to_bits(),
    }));
    assert_round_trip(CommandOptionValue::Number(WireNumber {
        bits: (-0.5f64).to_bits(),
    }));
}

#[test]
fn round_trip_role() {
    assert_round_trip(CommandOptionValue::Role(2));
}

#[test]
fn round_trip_string() {
    assert_round_trip(CommandOptionValue::String("hello world".to_string()));
    // Text that is lexically an identifier still round-trips as a string.
    assert_round_trip(CommandOptionValue::String("123456789012345678".to_string()));
}

#[test]
fn round_trip_user() {
    assert_round_trip(CommandOptionValue::User(300));
}

#[test]
fn round_trip_subcommand() {
    assert_round_trip(CommandOptionValue::SubCommand(Vec::new()));
    assert_round_trip(CommandOptionValue::SubCommand(vec![opt(
        false,
        "leaf",
        CommandOptionValue::Integer(7),
    )]));
}

#[test]
fn round_trip_subcommand_group() {
    assert_round_trip(CommandOptionValue::SubCommandGroup(Vec::new()));
    assert_round_trip(CommandOptionValue::SubCommandGroup(vec![opt(
        true,
        "sub",
        CommandOptionValue::SubCommand(Vec::new()),
    )]));
}

#[test]
fn recursive_nesting_round_trips() {
    let leaf = opt(false, "leaf", CommandOptionValue::String("x".to_string()));
    let sub = opt(false, "sub", CommandOptionValue::SubCommand(vec![leaf]));
    let group = opt(false, "group", CommandOptionValue::SubCommandGroup(vec![sub]));
    let once = encode_option(&group);
    let decoded = decode_option(&once).unwrap();
    assert_eq!(decoded, group);
    let twice = encode_option(&decoded);
    assert_eq!(twice, once);
    assert_eq!(decode_option(&twice).unwrap(), group);
}

#[test]
fn identifier_over_string_precedence() {
    let id_text = "123456789012345678";
    let under_user = decode_option(&scalar_map("opt", CommandOptionType::User, text(id_text)))
        .unwrap();
    assert_eq!(
        under_user,
        opt(false, "opt", CommandOptionValue::User(123456789012345678))
    );
    let under_string = decode_option(&scalar_map("opt", CommandOptionType::String, text(id_text)))
        .unwrap();
    assert_eq!(
        under_string,
        opt(
            false,
            "opt",
            CommandOptionValue::String(id_text.to_string())
        )
    );
}

#[test]
fn integer_widens_to_number() {
    let from_int = decode_option(&scalar_map(
        "opt",
        CommandOptionType::Number,
        WireValue::Int(5),
    ))
    .unwrap();
    let from_number = decode_option(&scalar_map(
        "opt",
        CommandOptionType::Number,
        num((5.0f64).to_bits()),
    ))
    .unwrap();
    assert_eq!(from_int, from_number);
}

#[test]
fn widening_matches_hardware_rounding() {
    for &i in &[
        0i64,
        1,
        -1,
        5,
        i64::MAX,
        i64::MIN,
        (1i64 << 53) + 1,
        (1i64 << 53) - 1,
        -((1i64 << 60) + 12345),
        987654321987654321,
    ] {
        let widened = widen_i64_to_binary64(i);
        assert_eq!(widened.bits, (i as f64).to_bits(), "widening {i}");
    }
}

#[test]
fn boolean_mismatch_is_invalid_type() {
    let err = decode_option(&scalar_map("opt", CommandOptionType::Boolean, text("true")))
        .unwrap_err();
    assert_eq!(
        err,
        DecodeError::InvalidType(CommandOptionType::Boolean, ValueShape::String)
    );
}

#[test]
fn integer_mismatch_is_invalid_type() {
    let err = decode_option(&scalar_map(
        "opt",
        CommandOptionType::Integer,
        num((1.5f64).to_bits()),
    ))
    .unwrap_err();
    assert_eq!(
        err,
        DecodeError::InvalidType(CommandOptionType::Integer, ValueShape::Number)
    );
}

#[test]
fn user_mismatch_reports_actual_shape() {
    let err = decode_option(&scalar_map(
        "opt",
        CommandOptionType::User,
        WireValue::Bool(true),
    ))
    .unwrap_err();
    assert_eq!(
        err,
        DecodeError::InvalidType(CommandOptionType::User, ValueShape::Boolean)
    );
}

#[test]
fn duplicate_name_rejected_adjacent() {
    let err = decode_option(&wmap(vec![
        fld("name", text("a")),
        fld("name", text("b")),
        fld("type", WireValue::Int(CommandOptionType::Boolean.code())),
        fld("value", WireValue::Bool(true)),
    ]))
    .unwrap_err();
    assert_eq!(err, DecodeError::DuplicateField(FieldName::Name));
}

#[test]
fn duplicate_name_rejected_separated() {
    let err = decode_option(&wmap(vec![
        fld("name", text("a")),
        fld("type", WireValue::Int(CommandOptionType::Boolean.code())),
        fld("value", WireValue::Bool(true)),
        fld("name", text("b")),
    ]))
    .unwrap_err();
    assert_eq!(err, DecodeError::DuplicateField(FieldName::Name));
}

#[test]
fn duplicate_value_rejected() {
    let err = decode_option(&wmap(vec![
        fld("name", text("a")),
        fld("type", WireValue::Int(CommandOptionType::Integer.code())),
        fld("value", WireValue::Int(1)),
        fld("value", WireValue::Int(2)),
    ]))
    .unwrap_err();
    assert_eq!(err, DecodeError::DuplicateField(FieldName::Value));
}

#[test]
fn unknown_fields_are_skipped() {
    let with_extra = decode_option(&wmap(vec![
        fld("shiny_new_field", WireValue::Other),
        fld("name", text("opt")),
        fld("another", WireValue::Bool(false)),
        fld("type", WireValue::Int(CommandOptionType::Integer.code())),
        fld("value", WireValue::Int(3)),
        fld("trailing", text("junk")),
    ]))
    .unwrap();
    assert_eq!(with_extra, opt(false, "opt", CommandOptionValue::Integer(3)));
}

#[test]
fn focused_defaults_to_false() {
    let decoded = decode_option(&scalar_map(
        "opt",
        CommandOptionType::Integer,
        WireValue::Int(9),
    ))
    .unwrap();
    assert!(!decoded.focused);
}

#[test]
fn focused_true_round_trips_and_leads() {
    let original = opt(true, "opt", CommandOptionValue::Boolean(false));
    let encoded = encode_option(&original);
    assert_eq!(encoded.fields.len(), 4);
    assert_eq!(encoded.fields[0], fld("focused", WireValue::Bool(true)));
    assert_eq!(decode_option(&encoded).unwrap(), original);
}

#[test]
fn focused_false_is_never_emitted() {
    let encoded = encode_option(&opt(false, "opt", CommandOptionValue::Integer(1)));
    assert!(encoded.fields.iter().all(|f| f.key != "focused"));
    assert_eq!(encoded.fields.len(), 3);
}

#[test]
fn missing_name_rejected() {
    let err = decode_option(&wmap(vec![
        fld("type", WireValue::Int(CommandOptionType::Boolean.code())),
        fld("value", WireValue::Bool(true)),
    ]))
    .unwrap_err();
    assert_eq!(err, DecodeError::MissingField(FieldName::Name));
}

#[test]
fn missing_type_rejected() {
    let err = decode_option(&wmap(vec![fld("name", text("a"))])).unwrap_err();
    assert_eq!(err, DecodeError::MissingField(FieldName::Type));
}

#[test]
fn missing_value_rejected_for_scalars() {
    let err = decode_option(&wmap(vec![
        fld("name", text("a")),
        fld("type", WireValue::Int(CommandOptionType::String.code())),
    ]))
    .unwrap_err();
    assert_eq!(err, DecodeError::MissingField(FieldName::Value));
}

#[test]
fn unrecognized_discriminant_rejected() {
    let err = decode_option(&wmap(vec![
        fld("name", text("a")),
        fld("type", WireValue::Int(99)),
        fld("value", WireValue::Bool(true)),
    ]))
    .unwrap_err();
    assert_eq!(err, DecodeError::UnrecognizedDiscriminant(99));
}

#[test]
fn malformed_known_fields_rejected() {
    let bad_name = decode_option(&wmap(vec![fld("name", WireValue::Int(5))])).unwrap_err();
    assert_eq!(bad_name, DecodeError::MalformedField(FieldName::Name));

    let bad_type = decode_option(&wmap(vec![
        fld("name", text("a")),
        fld("type", text("1")),
    ]))
    .unwrap_err();
    assert_eq!(bad_type, DecodeError::MalformedField(FieldName::Type));

    let bad_focused = decode_option(&wmap(vec![
        fld("name", text("a")),
        fld("focused", text("yes")),
    ]))
    .unwrap_err();
    assert_eq!(bad_focused, DecodeError::MalformedField(FieldName::Focused));

    let bad_options = decode_option(&wmap(vec![
        fld("name", text("a")),
        fld("options", WireValue::Other),
    ]))
    .unwrap_err();
    assert_eq!(bad_options, DecodeError::MalformedField(FieldName::Options));

    let bad_value = decode_option(&wmap(vec![
        fld("name", text("a")),
        fld("value", WireValue::List(Vec::new())),
    ]))
    .unwrap_err();
    assert_eq!(bad_value, DecodeError::MalformedField(FieldName::Value));
}

#[test]
fn scalar_ignores_options_and_subcommand_ignores_value() {
    // A scalar option with a stray (well-formed) options field decodes by
    // its value; a sub-grouping one with a stray scalar value ignores it.
    let scalar = decode_option(&wmap(vec![
        fld("name", text("a")),
        fld("type", WireValue::Int(CommandOptionType::Integer.code())),
        fld("value", WireValue::Int(7)),
        fld("options", WireValue::List(Vec::new())),
    ]))
    .unwrap();
    assert_eq!(scalar, opt(false, "a", CommandOptionValue::Integer(7)));

    let sub = decode_option(&wmap(vec![
        fld("name", text("a")),
        fld("type", WireValue::Int(CommandOptionType::SubCommand.code())),
        fld("value", WireValue::Int(7)),
    ]))
    .unwrap();
    assert_eq!(sub, opt(false, "a", CommandOptionValue::SubCommand(Vec::new())));
}

#[test]
fn nested_decode_error_propagates() {
    let inner = wmap(vec![
        fld("name", text("inner")),
        fld("type", WireValue::Int(CommandOptionType::Boolean.code())),
        fld("value", WireValue::Int(1)),
    ]);
    let err = decode_option(&wmap(vec![
        fld("name", text("outer")),
        fld("type", WireValue::Int(CommandOptionType::SubCommand.code())),
        fld("options", WireValue::List(vec![inner])),
    ]))
    .unwrap_err();
    assert_eq!(
        err,
        DecodeError::InvalidType(CommandOptionType::Boolean, ValueShape::Integer)
    );
}

#[test]
fn kind_derives_discriminant() {
    assert_eq!(
        CommandOptionValue::Attachment(1).kind(),
        CommandOptionType::Attachment
    );
    assert_eq!(
        CommandOptionValue::String("s".to_string()).kind(),
        CommandOptionType::String
    );
    assert_eq!(
        CommandOptionValue::SubCommandGroup(Vec::new()).kind(),
        CommandOptionType::SubCommandGroup
    );
    assert_eq!(CommandOptionType::SubCommand.code(), 1);
    assert_eq!(CommandOptionType::Attachment.code(), 11);
    assert_eq!(
        CommandOptionType::from_code(10),
        Some(CommandOptionType::Number)
    );
    assert_eq!(CommandOptionType::from_code(0), None);
}

#[test]
fn shape_descriptions() {
    assert_eq!(ValueShape::Id.description(), "ID");
    assert_eq!(ValueShape::Number.description(), "floating point number");
    assert_eq!(CommandOptionType::Attachment.expected_shape(), "attachment id");
    assert_eq!(CommandOptionType::Boolean.expected_shape(), "boolean");
}

#[test]
fn duplicate_options_only_when_first_nonempty() {
    fn one() -> WireMap {
        wmap(vec![
            fld("name", text("leaf")),
            fld("type", WireValue::Int(CommandOptionType::Boolean.code())),
            fld("value", WireValue::Bool(true)),
        ])
    }
    // An empty first capture does not populate the accumulator, so a second
    // options field replaces it.
    let replaced = decode_option(&wmap(vec![
        fld("name", text("a")),
        fld("type", WireValue::Int(CommandOptionType::SubCommand.code())),
        fld("options", WireValue::List(Vec::new())),
        fld("options", WireValue::List(vec![one()])),
    ]))
    .unwrap();
    assert_eq!(
        replaced,
        opt(
            false,
            "a",
            CommandOptionValue::SubCommand(vec![opt(
                false,
                "leaf",
                CommandOptionValue::Boolean(true)
            )])
        )
    );
    let err = decode_option(&wmap(vec![
        fld("name", text("a")),
        fld("type", WireValue::Int(CommandOptionType::SubCommand.code())),
        fld("options", WireValue::List(vec![one()])),
        fld("options", WireValue::List(vec![one()])),
    ]))
    .unwrap_err();
    assert_eq!(err, DecodeError::DuplicateField(FieldName::Options));
}
