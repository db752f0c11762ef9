//! The data model of the guy-management commands: what each command
//! carries, the export formats, and the message roles a caller may ask
//! for. Argument parsing itself lives outside the library.

use vstd::prelude::*;

use crate::openai::ChatCompletionRole;

verus! {

/// A guy-management command and its options.
#[derive(Clone, Debug)]
pub enum GuysCommands {
    Apply { reset: bool, dry_run: bool, template: Option<String> },
    Delete {},
    Edit { editor: Option<String> },
    List {},
    Get { output: Option<GuyGetOutputFormat> },
    Ask { role: GuyAskRole, message: Option<String>, interactive: bool, completion: bool },
}

/// The format a guy is exported in.
#[derive(Copy, Clone, PartialEq, Eq, Structural, Debug)]
pub enum GuyGetOutputFormat {
    Yaml,
    Json,
}

/// The role under which an asked message enters the history.
#[derive(Copy, Clone, PartialEq, Eq, Structural, Debug)]
pub enum GuyAskRole {
    System,
    User,
    Assistant,
    Function,
}

/// The chat role a requested ask-role stands for.
pub open spec fn role_of(r: GuyAskRole) -> ChatCompletionRole {
    match r {
        GuyAskRole::System => ChatCompletionRole::System,
        GuyAskRole::User => ChatCompletionRole::User,
        GuyAskRole::Assistant => ChatCompletionRole::Assistant,
        GuyAskRole::Function => ChatCompletionRole::Function,
    }
}

impl From<GuyAskRole> for ChatCompletionRole {
    fn from(r: GuyAskRole) -> (c: ChatCompletionRole) {
        match r {
            GuyAskRole::System => ChatCompletionRole::System,
            GuyAskRole::User => ChatCompletionRole::User,
            GuyAskRole::Assistant => ChatCompletionRole::Assistant,
            GuyAskRole::Function => ChatCompletionRole::Function,
        }
    }
}

impl vstd::std_specs::convert::FromSpecImpl<GuyAskRole> for ChatCompletionRole {
    open spec fn obeys_from_spec() -> bool {
        true
    }

    open spec fn from_spec(r: GuyAskRole) -> ChatCompletionRole {
        role_of(r)
    }
}

} // verus!
