//! Chat-completion data model: the profile, messages, function
//! declarations and response fragments exchanged with a chat-completion
//! service. The HTTP transport lives outside the library; these types
//! carry the plain data.

use vstd::prelude::*;
use vstd::string::StringExecFns;

verus! {

/// The speaker of one chat message.
#[derive(Clone, Copy, Debug, PartialEq, Eq, Structural)]
pub enum ChatCompletionRole {
    System,
    User,
    Assistant,
    Function,
}

/// One chat message: who spoke, and what.
#[derive(Clone, Debug)]
pub struct ChatCompletionMessage {
    pub role: ChatCompletionRole,
    pub content: String,
}

/// A property of a function-call parameter object.
#[derive(Clone, Debug)]
pub struct ChatCompletionFunctionProperty {
    pub kind: String,
    pub description: String,
}

/// The parameter object of a declared function: its type, its named
/// properties in declaration order, and the required property names.
#[derive(Clone, Debug)]
pub struct ChatCompletionFunctionParameters {
    pub kind: String,
    pub properties: Vec<(String, ChatCompletionFunctionProperty)>,
    pub required: Vec<String>,
}

/// A function the assistant may call.
#[derive(Clone, Debug)]
pub struct ChatCompletionFunction {
    pub name: String,
    pub description: String,
    pub parameters: ChatCompletionFunctionParameters,
}

/// One completion choice of a response.
#[derive(Clone, Debug)]
pub struct ChatCompletionChoice {
    pub message: ChatCompletionMessage,
    pub index: u64,
    pub finish_reason: String,
}

/// The error payload of a failed completion.
#[derive(Clone, Debug)]
pub struct ChatCompletionError {
    pub error: ChatCompletionErrorContent,
}

/// What a failed completion reports: a message and a code.
#[derive(Clone, Debug)]
pub struct ChatCompletionErrorContent {
    pub message: String,
    pub code: String,
}

/// Where chat completions are requested.
#[derive(Clone, Debug)]
pub struct ChatGptProfile {
    pub api_endpoint: String,
}

impl Default for ChatGptProfile {
    /// The default profile points at the public chat-completions
    /// endpoint.
    fn default() -> (r: Self)
        ensures
            r.api_endpoint@ == "https://api.openai.com/v1/chat/completions"@,
    {
        ChatGptProfile {
            api_endpoint: String::from_str("https://api.openai.com/v1/chat/completions"),
        }
    }
}

} // verus!
