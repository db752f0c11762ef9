use prompt_generator::cli::{GuyAskRole, GuyGetOutputFormat};
use prompt_generator::keyring::KeyChain;
use prompt_generator::openai::{ChatCompletionRole, ChatGptProfile};
use prompt_generator::session::{PageState, TabState};

#[test]
fn keychain_returns_the_first_matching_key() {
    let chain = KeyChain::from_pairs(vec![
        ("OPENAI".to_string(), "first-key".to_string()),
        ("STABLE_DIFFUSION".to_string(), "other".to_string()),
        ("OPENAI".to_string(), "shadowed".to_string()),
    ]);
    assert_eq!(chain.get_api_key("OPENAI").as_deref(), Some("first-key"));
    assert_eq!(chain.get_api_key("STABLE_DIFFUSION").as_deref(), Some("other"));
    assert_eq!(chain.get_api_key("MISSING"), None);
}

#[test]
fn empty_keychain_has_no_keys() {
    let chain = KeyChain::from_pairs(vec![]);
    assert_eq!(chain.get_api_key("OPENAI"), None);
}

#[test]
fn default_profile_points_at_the_chat_endpoint() {
    let profile = ChatGptProfile::default();
    assert_eq!(profile.api_endpoint, "https://api.openai.com/v1/chat/completions");
}

#[test]
fn ask_role_maps_onto_chat_role() {
    assert_eq!(ChatCompletionRole::from(GuyAskRole::System), ChatCompletionRole::System);
    assert_eq!(ChatCompletionRole::from(GuyAskRole::User), ChatCompletionRole::User);
    assert_eq!(ChatCompletionRole::from(GuyAskRole::Assistant), ChatCompletionRole::Assistant);
    assert_eq!(ChatCompletionRole::from(GuyAskRole::Function), ChatCompletionRole::Function);
}

#[test]
fn output_formats_are_distinct() {
    assert_eq!(GuyGetOutputFormat::Yaml, GuyGetOutputFormat::Yaml);
    assert_ne!(GuyGetOutputFormat::Yaml, GuyGetOutputFormat::Json);
}

#[test]
fn default_session_state() {
    let tab = TabState::default();
    assert_eq!(tab.title, "<Unamed session>");
    assert_eq!(tab.page.content, "");
    let page = PageState::default();
    assert_eq!(page.content, "");
}
