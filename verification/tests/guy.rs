use prompt_generator::guy::{
    ChatCompletionFunctionParametersTemplate, ChatCompletionFunctionPropertyTemplate,
    ChatCompletionFunctionTemplate, ChatCompletionMessageTemplate, Guy, GuyTemplate,
};
use prompt_generator::openai::ChatCompletionRole;

fn sample_function_template() -> ChatCompletionFunctionTemplate {
    ChatCompletionFunctionTemplate {
        name: "get_price".to_string(),
        description: "look a price up".to_string(),
        parameters: ChatCompletionFunctionParametersTemplate {
            kind: "object".to_string(),
            properties: vec![(
                "symbol".to_string(),
                ChatCompletionFunctionPropertyTemplate {
                    kind: "string".to_string(),
                    description: "the ticker symbol".to_string(),
                },
            )],
            required: vec!["symbol".to_string()],
        },
    }
}

#[test]
fn new_guy_is_empty() {
    let guy = Guy::new();
    assert!(guy.name.is_none());
    assert!(guy.description.is_none());
    assert!(guy.history.is_empty());
    assert!(guy.functions.is_empty());
}

#[test]
fn push_message_appends_in_order() {
    let mut guy = Guy::new();
    guy.push_message("hello".to_string(), ChatCompletionRole::User);
    guy.push_message("hi there".to_string(), ChatCompletionRole::Assistant);
    assert_eq!(guy.history.len(), 2);
    assert_eq!(guy.history[0].content, "hello");
    assert_eq!(guy.history[0].role, ChatCompletionRole::User);
    assert_eq!(guy.history[1].content, "hi there");
    assert_eq!(guy.history[1].role, ChatCompletionRole::Assistant);
}

#[test]
fn load_template_seeds_history_and_functions() {
    let template = GuyTemplate {
        name: Some("crypto".to_string()),
        description: None,
        history: vec![
            ChatCompletionMessageTemplate::System("you are terse".to_string()),
            ChatCompletionMessageTemplate::UserFromFile("notes.txt".to_string()),
            ChatCompletionMessageTemplate::Assistant("understood".to_string()),
        ],
        functions: vec![sample_function_template()],
    };
    let mut guy = Guy::new();
    guy.push_message("earlier".to_string(), ChatCompletionRole::User);
    guy.load_template(template, vec!["the file text".to_string()]);

    assert_eq!(guy.history.len(), 4);
    assert_eq!(guy.history[0].content, "earlier");
    assert_eq!(guy.history[1].role, ChatCompletionRole::System);
    assert_eq!(guy.history[1].content, "you are terse");
    assert_eq!(guy.history[2].role, ChatCompletionRole::User);
    assert_eq!(guy.history[2].content, "the file text");
    assert_eq!(guy.history[3].role, ChatCompletionRole::Assistant);
    assert_eq!(guy.history[3].content, "understood");

    assert_eq!(guy.functions.len(), 1);
    let f = &guy.functions[0];
    assert_eq!(f.name, "get_price");
    assert_eq!(f.description, "look a price up");
    assert_eq!(f.parameters.kind, "object");
    assert_eq!(f.parameters.required, vec!["symbol".to_string()]);
    assert_eq!(f.parameters.properties.len(), 1);
    assert_eq!(f.parameters.properties[0].0, "symbol");
    assert_eq!(f.parameters.properties[0].1.kind, "string");
    assert_eq!(f.parameters.properties[0].1.description, "the ticker symbol");
}

#[test]
fn load_template_replaces_functions() {
    let mut guy = Guy::new();
    guy.load_template(
        GuyTemplate {
            name: None,
            description: None,
            history: vec![],
            functions: vec![sample_function_template()],
        },
        vec![],
    );
    assert_eq!(guy.functions.len(), 1);
    guy.load_template(
        GuyTemplate { name: None, description: None, history: vec![], functions: vec![] },
        vec![],
    );
    assert!(guy.functions.is_empty());
}

#[test]
fn function_template_conversion_is_exact() {
    let converted = sample_function_template().to_function();
    assert_eq!(converted.name, "get_price");
    assert_eq!(converted.parameters.properties[0].0, "symbol");
    assert_eq!(converted.parameters.required, vec!["symbol".to_string()]);
}
