//! A chat participant ("guy"): a named message history plus declared
//! functions, seeded from a template. Reading template files and talking
//! to the completion service happen outside the library; here the
//! history and the template application are exact.

use vstd::prelude::*;

use crate::openai::{
    ChatCompletionFunction, ChatCompletionFunctionParameters, ChatCompletionFunctionProperty,
    ChatCompletionMessage, ChatCompletionRole,
};

verus! {

/// A template property of a declared function.
#[derive(Clone, Debug)]
pub struct ChatCompletionFunctionPropertyTemplate {
    pub kind: String,
    pub description: String,
}

/// A template parameter object of a declared function.
#[derive(Clone, Debug)]
pub struct ChatCompletionFunctionParametersTemplate {
    pub kind: String,
    pub properties: Vec<(String, ChatCompletionFunctionPropertyTemplate)>,
    pub required: Vec<String>,
}

/// A template of a declared function.
#[derive(Clone, Debug)]
pub struct ChatCompletionFunctionTemplate {
    pub name: String,
    pub description: String,
    pub parameters: ChatCompletionFunctionParametersTemplate,
}

/// One templated history message: inline text under a role, or a user
/// message read from a file.
#[derive(Clone, Debug)]
pub enum ChatCompletionMessageTemplate {
    User(String),
    UserFromFile(String),
    System(String),
    Assistant(String),
}

/// A guy template: an optional name and description, the seed history,
/// and the declared functions.
#[derive(Clone, Debug)]
pub struct GuyTemplate {
    pub name: Option<String>,
    pub description: Option<String>,
    pub history: Vec<ChatCompletionMessageTemplate>,
    pub functions: Vec<ChatCompletionFunctionTemplate>,
}

/// The function property a template declares.
pub open spec fn property_of(
    t: ChatCompletionFunctionPropertyTemplate,
) -> ChatCompletionFunctionProperty {
    ChatCompletionFunctionProperty { kind: t.kind, description: t.description }
}

/// The converted parameters carry the template's type, properties and
/// required names unchanged.
pub open spec fn parameters_match(
    p: ChatCompletionFunctionParameters,
    t: ChatCompletionFunctionParametersTemplate,
) -> bool {
    &&& p.kind == t.kind
    &&& p.required@ == t.required@
    &&& p.properties@ == t.properties@.map_values(
        |q: (String, ChatCompletionFunctionPropertyTemplate)| (q.0, property_of(q.1)),
    )
}

/// The converted function carries the template's name, description and
/// parameters unchanged.
pub open spec fn function_matches(
    f: ChatCompletionFunction,
    t: ChatCompletionFunctionTemplate,
) -> bool {
    f.name == t.name && f.description == t.description && parameters_match(
        f.parameters,
        t.parameters,
    )
}

/// An element-wise copy of a string vector.
fn clone_string_vec(v: &Vec<String>) -> (r: Vec<String>)
    ensures
        r@ == v@,
{
    let mut r: Vec<String> = Vec::new();
    let mut i: usize = 0;
    while i < v.len()
        invariant
            i <= v@.len(),
            r@ == v@.take(i as int),
        decreases v@.len() - i,
    {
        r.push(v[i].clone());
        proof {
            assert(r@ =~= v@.take(i + 1));
        }
        i += 1;
    }
    proof {
        assert(v@.take(v@.len() as int) =~= v@);
    }
    r
}

impl ChatCompletionFunctionPropertyTemplate {
    /// The declared property this template stands for.
    pub fn to_property(&self) -> (r: ChatCompletionFunctionProperty)
        ensures
            r == property_of(*self),
    {
        ChatCompletionFunctionProperty {
            kind: self.kind.clone(),
            description: self.description.clone(),
        }
    }
}

impl ChatCompletionFunctionParametersTemplate {
    /// The declared parameter object this template stands for.
    pub fn to_parameters(&self) -> (r: ChatCompletionFunctionParameters)
        ensures
            parameters_match(r, *self),
    {
        let mut properties: Vec<(String, ChatCompletionFunctionProperty)> = Vec::new();
        let mut i: usize = 0;
        while i < self.properties.len()
            invariant
                i <= self.properties@.len(),
                properties@ == self.properties@.take(i as int).map_values(
                    |q: (String, ChatCompletionFunctionPropertyTemplate)| (q.0, property_of(q.1)),
                ),
            decreases self.properties@.len() - i,
        {
            let pair = &self.properties[i];
            properties.push((pair.0.clone(), pair.1.to_property()));
            proof {
                assert(properties@ =~= self.properties@.take(i + 1).map_values(
                    |q: (String, ChatCompletionFunctionPropertyTemplate)| (q.0, property_of(q.1)),
                ));
            }
            i += 1;
        }
        proof {
            assert(self.properties@.take(self.properties@.len() as int) =~= self.properties@);
        }
        ChatCompletionFunctionParameters {
            kind: self.kind.clone(),
            properties,
            required: clone_string_vec(&self.required),
        }
    }
}

impl ChatCompletionFunctionTemplate {
    /// The declared function this template stands for.
    pub fn to_function(&self) -> (r: ChatCompletionFunction)
        ensures
            function_matches(r, *self),
    {
        ChatCompletionFunction {
            name: self.name.clone(),
            description: self.description.clone(),
            parameters: self.parameters.to_parameters(),
        }
    }
}

/// How many template messages are read from a file.
pub open spec fn from_file_count(ms: Seq<ChatCompletionMessageTemplate>) -> int
    decreases ms.len(),
{
    if ms.len() == 0 {
        0
    } else {
        from_file_count(ms.drop_last()) + match ms.last() {
            ChatCompletionMessageTemplate::UserFromFile(_) => 1int,
            _ => 0int,
        }
    }
}

/// The messages a template seeds, with the file-read entries replaced by
/// the given file contents in order.
pub open spec fn resolved_messages(
    ms: Seq<ChatCompletionMessageTemplate>,
    files: Seq<String>,
) -> Seq<ChatCompletionMessage>
    decreases ms.len(),
{
    if ms.len() == 0 {
        Seq::empty()
    } else {
        let rest = resolved_messages(ms.drop_last(), files);
        match ms.last() {
            ChatCompletionMessageTemplate::User(s) => rest.push(
                ChatCompletionMessage { role: ChatCompletionRole::User, content: s },
            ),
            ChatCompletionMessageTemplate::System(s) => rest.push(
                ChatCompletionMessage { role: ChatCompletionRole::System, content: s },
            ),
            ChatCompletionMessageTemplate::Assistant(s) => rest.push(
                ChatCompletionMessage { role: ChatCompletionRole::Assistant, content: s },
            ),
            ChatCompletionMessageTemplate::UserFromFile(_) => rest.push(
                ChatCompletionMessage {
                    role: ChatCompletionRole::User,
                    content: files[from_file_count(ms.drop_last())],
                },
            ),
        }
    }
}

/// Prefix counts never exceed the whole count, and are non-negative.
proof fn lemma_from_file_count_mono(ms: Seq<ChatCompletionMessageTemplate>, i: int)
    requires
        0 <= i <= ms.len(),
    ensures
        0 <= from_file_count(ms.take(i)),
        from_file_count(ms.take(i)) <= from_file_count(ms),
    decreases ms.len(),
{
    lemma_from_file_count_nonneg(ms.take(i));
    if i == ms.len() {
        assert(ms.take(i) =~= ms);
    } else {
        lemma_from_file_count_mono(ms.drop_last(), i);
        assert(ms.drop_last().take(i) =~= ms.take(i));
        lemma_from_file_count_nonneg(ms.drop_last());
    }
}

/// A file count is never negative.
proof fn lemma_from_file_count_nonneg(ms: Seq<ChatCompletionMessageTemplate>)
    ensures
        from_file_count(ms) >= 0,
    decreases ms.len(),
{
    if ms.len() > 0 {
        lemma_from_file_count_nonneg(ms.drop_last());
    }
}

/// A chat participant: an optional name and description, the message
/// history, and the functions offered to the assistant.
#[derive(Clone, Debug)]
pub struct Guy {
    pub name: Option<String>,
    pub description: Option<String>,
    pub history: Vec<ChatCompletionMessage>,
    pub functions: Vec<ChatCompletionFunction>,
}

impl Guy {
    /// A fresh guy: unnamed, with an empty history and no functions.
    pub fn new() -> (g: Guy)
        ensures
            g.name is None,
            g.description is None,
            g.history@ == Seq::<ChatCompletionMessage>::empty(),
            g.functions@ == Seq::<ChatCompletionFunction>::empty(),
    {
        Guy { name: None, description: None, history: Vec::new(), functions: Vec::new() }
    }

    /// Appends one message to the history.
    pub fn push_message(&mut self, content: String, role: ChatCompletionRole)
        ensures
            final(self).history@ == old(self).history@.push(
                (ChatCompletionMessage { content, role }),
            ),
            final(self).name == old(self).name,
            final(self).description == old(self).description,
            final(self).functions@ == old(self).functions@,
    {
        let completion = ChatCompletionMessage { content, role };
        self.history.push(completion);
    }

    /// Applies a template: appends its seed messages to the history (a
    /// file-read entry takes the next of the pre-read `file_contents`)
    /// and replaces the functions with the template's, converted.
    pub fn load_template(&mut self, template: GuyTemplate, file_contents: Vec<String>)
        requires
            file_contents@.len() == from_file_count(template.history@),
        ensures
            final(self).history@ == old(self).history@ + resolved_messages(
                template.history@,
                file_contents@,
            ),
            final(self).functions@.len() == template.functions@.len(),
            forall|i: int|
                0 <= i < template.functions@.len() ==> function_matches(
                    #[trigger] final(self).functions@[i],
                    template.functions@[i],
                ),
            final(self).name == old(self).name,
            final(self).description == old(self).description,
    {
        let ghost ms = template.history@;
        let mut fidx: usize = 0;
        let mut i: usize = 0;
        while i < template.history.len()
            invariant
                i <= ms.len(),
                ms == template.history@,
                file_contents@.len() == from_file_count(ms),
                fidx as int == from_file_count(ms.take(i as int)),
                self.history@ == old(self).history@ + resolved_messages(
                    ms.take(i as int),
                    file_contents@,
                ),
                self.name == old(self).name,
                self.description == old(self).description,
                self.functions@ == old(self).functions@,
            decreases ms.len() - i,
        {
            proof {
                assert(ms.take(i + 1).drop_last() =~= ms.take(i as int));
                assert(ms.take(i + 1).last() == ms[i as int]);
                lemma_from_file_count_mono(ms, i + 1);
            }
            match &template.history[i] {
                ChatCompletionMessageTemplate::User(content) => {
                    self.push_message(content.clone(), ChatCompletionRole::User);
                },
                ChatCompletionMessageTemplate::System(content) => {
                    self.push_message(content.clone(), ChatCompletionRole::System);
                },
                ChatCompletionMessageTemplate::Assistant(content) => {
                    self.push_message(content.clone(), ChatCompletionRole::Assistant);
                },
                ChatCompletionMessageTemplate::UserFromFile(_) => {
                    let content = file_contents[fidx].clone();
                    self.push_message(content, ChatCompletionRole::User);
                    fidx += 1;
                },
            }
            i += 1;
        }
        proof {
            assert(ms.take(ms.len() as int) =~= ms);
        }
        let mut functions: Vec<ChatCompletionFunction> = Vec::new();
        let mut k: usize = 0;
        while k < template.functions.len()
            invariant
                k <= template.functions@.len(),
                functions@.len() == k,
                forall|q: int|
                    0 <= q < k ==> function_matches(
                        #[trigger] functions@[q],
                        template.functions@[q],
                    ),
                self.history@ == old(self).history@ + resolved_messages(
                    template.history@,
                    file_contents@,
                ),
                self.name == old(self).name,
                self.description == old(self).description,
            decreases template.functions@.len() - k,
        {
            functions.push(template.functions[k].to_function());
            k += 1;
        }
        self.functions = functions;
    }
}

} // verus!
