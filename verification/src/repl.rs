use vstd::prelude::*;

use crate::text;

verus! {

/// A shell meta command, introduced by a leading dot.
#[derive(Debug, PartialEq, Eq, Structural, Clone, Copy)]
pub enum MetaCommand {
    Exit,
    Help,
    Cls,
    Unknown,
}

/// The meta command named by the first whitespace-separated word of the
/// input.
pub open spec fn spec_meta_of(s: Seq<char>) -> MetaCommand {
    let t = text::first_token_spec(s);
    if t == ".exit"@ {
        MetaCommand::Exit
    } else if t == ".help"@ {
        MetaCommand::Help
    } else if t == ".cls"@ {
        MetaCommand::Cls
    } else {
        MetaCommand::Unknown
    }
}

impl MetaCommand {
    /// Classifies a meta command by its first word.
    pub fn new(command: String) -> (r: MetaCommand)
        ensures
            r == spec_meta_of(command@),
    {
        proof {
            reveal_strlit(".exit");
            reveal_strlit(".help");
            reveal_strlit(".cls");
            assert(".exit"@[1] == 'e' && ".help"@[1] == 'h' && ".cls"@[1] == 'c');
            assert(".exit"@ != ".help"@ && ".exit"@ != ".cls"@ && ".help"@ != ".cls"@);
        }
        let tok = text::first_token(command.as_str());
        if text::str_eq(tok, ".exit") {
            MetaCommand::Exit
        } else if text::str_eq(tok, ".help") {
            MetaCommand::Help
        } else if text::str_eq(tok, ".cls") {
            MetaCommand::Cls
        } else {
            MetaCommand::Unknown
        }
    }

    /// The text a meta command shows as.
    pub fn display_string(&self) -> (r: String)
        ensures
            *self == MetaCommand::Exit ==> r@ == ".exit"@,
            *self == MetaCommand::Help ==> r@ == ".help"@,
            *self == MetaCommand::Cls ==> r@ == ".cls"@,
            *self == MetaCommand::Unknown ==> r@ == "Unknown Command"@,
    {
        match self {
            MetaCommand::Exit => ".exit".to_owned(),
            MetaCommand::Help => ".help".to_owned(),
            MetaCommand::Cls => ".cls".to_owned(),
            MetaCommand::Unknown => "Unknown Command".to_owned(),
        }
    }
}

/// The kind of input the shell reads. For now there is only one kind of
/// command beyond SQL text, but more can be added.
#[derive(Debug, PartialEq, Eq, Structural, Clone, Copy)]
pub enum CommandType {
    MetaCommand(MetaCommand),
}

/// Classifies shell input: text starting with a dot is a meta command;
/// anything else is not a command of the shell itself.
pub fn get_command_type(input: &String) -> (r: core::result::Result<CommandType, &'static str>)
    ensures
        input@.len() > 0 && input@[0] == '.' ==> (r matches Ok(c) && c
            == CommandType::MetaCommand(spec_meta_of(input@))),
        !(input@.len() > 0 && input@[0] == '.') ==> (r matches Err(e) && e@
            == "Invalid command type."@),
{
    let s = input.as_str();
    let len = s.unicode_len();
    if len > 0 && s.get_char(0) == '.' {
        Ok(CommandType::MetaCommand(MetaCommand::new(input.clone())))
    } else {
        Err("Invalid command type.")
    }
}

} // verus!
