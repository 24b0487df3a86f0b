//! The closed set of option-type discriminants and its wire codes.

use vstd::prelude::*;

verus! {

/// Discriminant naming the typed variant an option's payload must decode to.
///
/// On the wire the discriminant travels as a small integer code; the mapping
/// in both directions is given by [`CommandOptionType::code`] and
/// [`CommandOptionType::from_code`].
#[derive(Clone, Copy, Debug, PartialEq, Eq, Structural)]
pub enum CommandOptionType {
    SubCommand,
    SubCommandGroup,
    String,
    Integer,
    Boolean,
    User,
    Channel,
    Role,
    Mentionable,
    Number,
    Attachment,
}

impl CommandOptionType {
    /// The integer code this discriminant is written as on the wire.
    pub open spec fn spec_code(self) -> i64 {
        match self {
            CommandOptionType::SubCommand => 1,
            CommandOptionType::SubCommandGroup => 2,
            CommandOptionType::String => 3,
            CommandOptionType::Integer => 4,
            CommandOptionType::Boolean => 5,
            CommandOptionType::User => 6,
            CommandOptionType::Channel => 7,
            CommandOptionType::Role => 8,
            CommandOptionType::Mentionable => 9,
            CommandOptionType::Number => 10,
            CommandOptionType::Attachment => 11,
        }
    }

    /// The discriminant a wire code stands for, if the code is in the closed set.
    pub open spec fn spec_from_code(code: i64) -> Option<CommandOptionType> {
        if code == 1 {
            Some(CommandOptionType::SubCommand)
        } else if code == 2 {
            Some(CommandOptionType::SubCommandGroup)
        } else if code == 3 {
            Some(CommandOptionType::String)
        } else if code == 4 {
            Some(CommandOptionType::Integer)
        } else if code == 5 {
            Some(CommandOptionType::Boolean)
        } else if code == 6 {
            Some(CommandOptionType::User)
        } else if code == 7 {
            Some(CommandOptionType::Channel)
        } else if code == 8 {
            Some(CommandOptionType::Role)
        } else if code == 9 {
            Some(CommandOptionType::Mentionable)
        } else if code == 10 {
            Some(CommandOptionType::Number)
        } else if code == 11 {
            Some(CommandOptionType::Attachment)
        } else {
            None
        }
    }

    /// Render the discriminant as its wire code.
    pub fn code(self) -> (r: i64)
        ensures
            r == self.spec_code(),
    {
        match self {
            CommandOptionType::SubCommand => 1,
            CommandOptionType::SubCommandGroup => 2,
            CommandOptionType::String => 3,
            CommandOptionType::Integer => 4,
            CommandOptionType::Boolean => 5,
            CommandOptionType::User => 6,
            CommandOptionType::Channel => 7,
            CommandOptionType::Role => 8,
            CommandOptionType::Mentionable => 9,
            CommandOptionType::Number => 10,
            CommandOptionType::Attachment => 11,
        }
    }

    /// Recover a discriminant from its wire code; codes outside the closed
    /// set yield `None`.
    pub fn from_code(code: i64) -> (r: Option<CommandOptionType>)
        ensures
            r == CommandOptionType::spec_from_code(code),
    {
        if code == 1 {
            Some(CommandOptionType::SubCommand)
        } else if code == 2 {
            Some(CommandOptionType::SubCommandGroup)
        } else if code == 3 {
            Some(CommandOptionType::String)
        } else if code == 4 {
            Some(CommandOptionType::Integer)
        } else if code == 5 {
            Some(CommandOptionType::Boolean)
        } else if code == 6 {
            Some(CommandOptionType::User)
        } else if code == 7 {
            Some(CommandOptionType::Channel)
        } else if code == 8 {
            Some(CommandOptionType::Role)
        } else if code == 9 {
            Some(CommandOptionType::Mentionable)
        } else if code == 10 {
            Some(CommandOptionType::Number)
        } else if code == 11 {
            Some(CommandOptionType::Attachment)
        } else {
            None
        }
    }
}

impl CommandOptionType {
    /// The payload shape this discriminant demands, as error reports name
    /// it. The two sub-grouping discriminants demand no scalar payload and
    /// name their nested sequence instead.
    pub open spec fn spec_expected_shape(self) -> Seq<char> {
        match self {
            CommandOptionType::SubCommand => "options"@,
            CommandOptionType::SubCommandGroup => "options"@,
            CommandOptionType::String => "string"@,
            CommandOptionType::Integer => "integer"@,
            CommandOptionType::Boolean => "boolean"@,
            CommandOptionType::User => "user id"@,
            CommandOptionType::Channel => "channel id"@,
            CommandOptionType::Role => "role id"@,
            CommandOptionType::Mentionable => "mentionable id"@,
            CommandOptionType::Number => "number"@,
            CommandOptionType::Attachment => "attachment id"@,
        }
    }

    /// A human-readable name of the demanded payload shape.
    pub fn expected_shape(self) -> (r: &'static str)
        ensures
            r@ == self.spec_expected_shape(),
    {
        match self {
            CommandOptionType::SubCommand => "options",
            CommandOptionType::SubCommandGroup => "options",
            CommandOptionType::String => "string",
            CommandOptionType::Integer => "integer",
            CommandOptionType::Boolean => "boolean",
            CommandOptionType::User => "user id",
            CommandOptionType::Channel => "channel id",
            CommandOptionType::Role => "role id",
            CommandOptionType::Mentionable => "mentionable id",
            CommandOptionType::Number => "number",
            CommandOptionType::Attachment => "attachment id",
        }
    }
}

/// The two mapping directions between discriminants and wire codes invert
/// each other: every discriminant's code maps back to that discriminant.
pub proof fn lemma_code_round_trip(t: CommandOptionType)
    ensures
        CommandOptionType::spec_from_code(t.spec_code()) == Some(t),
{
}

} // verus!
