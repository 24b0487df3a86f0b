//! The in-memory form: a strict tagged union of typed payloads, plus the
//! derivation of each variant's discriminant.

use vstd::prelude::*;
use crate::binary64::WireNumber;
use crate::kind::CommandOptionType;

verus! {

/// Data received when a user fills in a command option.
#[derive(Debug, PartialEq, Eq)]
pub struct CommandDataOption {
    /// `true` if this autocomplete option is currently highlighted.
    pub focused: bool,
    pub name: String,
    pub value: CommandOptionValue,
}

/// Value of a [`CommandDataOption`].
///
/// Identifier payloads are 64-bit unsigned handles, scoped by the variant
/// that carries them; the two sub-grouping variants carry an ordered — and
/// possibly empty — sequence of nested options.
#[derive(Debug, PartialEq, Eq)]
pub enum CommandOptionValue {
    Attachment(u64),
    Boolean(bool),
    Channel(u64),
    Integer(i64),
    Mentionable(u64),
    Number(WireNumber),
    Role(u64),
    String(String),
    SubCommand(Vec<CommandDataOption>),
    SubCommandGroup(Vec<CommandDataOption>),
    User(u64),
}

/// Mathematical form of an option.
#[verifier::ext_equal]
pub struct OptionModel {
    pub focused: bool,
    pub name: Seq<char>,
    pub value: ValueModel,
}

/// Mathematical form of an option's value.
#[verifier::ext_equal]
pub enum ValueModel {
    Attachment(u64),
    Boolean(bool),
    Channel(u64),
    Integer(i64),
    Mentionable(u64),
    Number(WireNumber),
    Role(u64),
    String(Seq<char>),
    SubCommand(Seq<OptionModel>),
    SubCommandGroup(Seq<OptionModel>),
    User(u64),
}

/// Mathematical form of a sequence of options, in order.
pub open spec fn opts_model(os: Seq<CommandDataOption>) -> Seq<OptionModel>
    decreases os,
{
    if os.len() == 0 {
        Seq::empty()
    } else {
        opts_model(os.drop_last()).push(option_model(os.last()))
    }
}

/// The mathematical form of an option sequence indexes pointwise.
pub proof fn lemma_opts_model(os: Seq<CommandDataOption>)
    ensures
        opts_model(os).len() == os.len(),
        forall|i: int| 0 <= i < os.len() ==> opts_model(os)[i] == option_model(os[i]),
    decreases os.len(),
{
    if os.len() > 0 {
        lemma_opts_model(os.drop_last());
        assert(forall|i: int|
            0 <= i < os.len() - 1 ==> os.drop_last()[i] == #[trigger] os[i]);
    }
}

/// Mathematical form of an option value.
pub open spec fn value_model(v: CommandOptionValue) -> ValueModel
    decreases v,
{
    match v {
        CommandOptionValue::Attachment(id) => ValueModel::Attachment(id),
        CommandOptionValue::Boolean(b) => ValueModel::Boolean(b),
        CommandOptionValue::Channel(id) => ValueModel::Channel(id),
        CommandOptionValue::Integer(i) => ValueModel::Integer(i),
        CommandOptionValue::Mentionable(id) => ValueModel::Mentionable(id),
        CommandOptionValue::Number(n) => ValueModel::Number(n),
        CommandOptionValue::Role(id) => ValueModel::Role(id),
        CommandOptionValue::String(s) => ValueModel::String(s@),
        CommandOptionValue::SubCommand(os) => ValueModel::SubCommand(opts_model(os@)),
        CommandOptionValue::SubCommandGroup(os) => ValueModel::SubCommandGroup(opts_model(os@)),
        CommandOptionValue::User(id) => ValueModel::User(id),
    }
}

/// Mathematical form of an option.
pub open spec fn option_model(o: CommandDataOption) -> OptionModel
    decreases o,
{
    OptionModel { focused: o.focused, name: o.name@, value: value_model(o.value) }
}

/// The discriminant a value carries: derived from the variant, never stored.
pub open spec fn value_kind(m: ValueModel) -> CommandOptionType {
    match m {
        ValueModel::Attachment(_) => CommandOptionType::Attachment,
        ValueModel::Boolean(_) => CommandOptionType::Boolean,
        ValueModel::Channel(_) => CommandOptionType::Channel,
        ValueModel::Integer(_) => CommandOptionType::Integer,
        ValueModel::Mentionable(_) => CommandOptionType::Mentionable,
        ValueModel::Number(_) => CommandOptionType::Number,
        ValueModel::Role(_) => CommandOptionType::Role,
        ValueModel::String(_) => CommandOptionType::String,
        ValueModel::SubCommand(_) => CommandOptionType::SubCommand,
        ValueModel::SubCommandGroup(_) => CommandOptionType::SubCommandGroup,
        ValueModel::User(_) => CommandOptionType::User,
    }
}

impl CommandOptionValue {
    /// The discriminant of this value's variant.
    pub fn kind(&self) -> (r: CommandOptionType)
        ensures
            r == value_kind(value_model(*self)),
    {
        match self {
            CommandOptionValue::Attachment(_) => CommandOptionType::Attachment,
            CommandOptionValue::Boolean(_) => CommandOptionType::Boolean,
            CommandOptionValue::Channel(_) => CommandOptionType::Channel,
            CommandOptionValue::Integer(_) => CommandOptionType::Integer,
            CommandOptionValue::Mentionable(_) => CommandOptionType::Mentionable,
            CommandOptionValue::Number(_) => CommandOptionType::Number,
            CommandOptionValue::Role(_) => CommandOptionType::Role,
            CommandOptionValue::String(_) => CommandOptionType::String,
            CommandOptionValue::SubCommand(_) => CommandOptionType::SubCommand,
            CommandOptionValue::SubCommandGroup(_) => CommandOptionType::SubCommandGroup,
            CommandOptionValue::User(_) => CommandOptionType::User,
        }
    }
}

} // verus!
