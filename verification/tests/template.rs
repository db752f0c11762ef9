use prompt_generator::chunk::{Chunk, Chunks};
use prompt_generator::template::{
    Element, IncludeElement, IncludeVariedElement, LoadError, Template, YamlTemplate,
};

fn chunk(text: &str, pos: Option<i32>) -> Chunk {
    Chunk { prompt: text.to_string(), pos, sub_pos: None }
}

fn plain_group(text: &str) -> Chunks {
    Chunks { defaults: Some(vec![chunk(text, Some(1))]), variants: vec![] }
}

fn slotted_group(slot: &str, texts: &[&str]) -> Chunks {
    Chunks {
        defaults: None,
        variants: vec![(
            slot.to_string(),
            texts.iter().map(|t| chunk(t, Some(1))).collect(),
        )],
    }
}

fn direct(uri: &str) -> Element {
    Element::Include(IncludeElement { uri: uri.to_string() })
}

fn varied(name: &str, choices: &[(&str, &str)]) -> Element {
    Element::IncludeVaried(IncludeVariedElement {
        name: name.to_string(),
        choices: choices.iter().map(|(n, u)| (n.to_string(), u.to_string())).collect(),
    })
}

#[test]
fn resolves_direct_and_varied_entries() {
    let template = YamlTemplate(vec![
        direct("base.yaml"),
        varied("time", &[("day", "day.yaml"), ("night", "night.yaml")]),
        direct("style.yaml"),
    ]);
    let loaded = vec![
        ("base.yaml".to_string(), plain_group("base")),
        ("style.yaml".to_string(), plain_group("style")),
        ("day.yaml".to_string(), plain_group("day")),
        ("night.yaml".to_string(), plain_group("night")),
    ];
    let tpl = Template::from_yaml_template(&template, &loaded).unwrap();
    assert_eq!(tpl.includes.len(), 2);
    assert_eq!(tpl.include_varied.len(), 1);
    assert_eq!(tpl.include_varied[0].0, "time");
    assert_eq!(tpl.include_varied[0].1.len(), 2);
    assert_eq!(tpl.include_varied[0].1[0].0, "day");
    assert_eq!(tpl.include_varied[0].1[1].0, "night");
    assert!(tpl.validate());
}

#[test]
fn missing_group_aborts_the_load() {
    let template = YamlTemplate(vec![direct("base.yaml"), direct("absent.yaml")]);
    let loaded = vec![("base.yaml".to_string(), plain_group("base"))];
    match Template::from_yaml_template(&template, &loaded) {
        Err(LoadError::MissingChunks { uri }) => assert_eq!(uri, "absent.yaml"),
        _ => panic!("expected a missing-group failure"),
    }
}

#[test]
fn empty_slot_aborts_the_load() {
    let template = YamlTemplate(vec![direct("bad.yaml")]);
    let loaded = vec![("bad.yaml".to_string(), slotted_group("mood", &[]))];
    match Template::from_yaml_template(&template, &loaded) {
        Err(LoadError::EmptySlot { uri }) => assert_eq!(uri, "bad.yaml"),
        _ => panic!("expected an empty-slot failure"),
    }
}

#[test]
fn empty_choice_set_aborts_the_load() {
    let template = YamlTemplate(vec![varied("time", &[])]);
    let loaded: Vec<(String, Chunks)> = vec![];
    match Template::from_yaml_template(&template, &loaded) {
        Err(LoadError::EmptyChoices { name }) => assert_eq!(name, "time"),
        _ => panic!("expected an empty-choice-set failure"),
    }
}

#[test]
fn empty_slot_in_an_alternative_aborts_the_load() {
    let template = YamlTemplate(vec![varied("time", &[("day", "day.yaml")])]);
    let loaded = vec![("day.yaml".to_string(), slotted_group("mood", &[]))];
    match Template::from_yaml_template(&template, &loaded) {
        Err(LoadError::EmptySlot { uri }) => assert_eq!(uri, "day.yaml"),
        _ => panic!("expected an empty-slot failure"),
    }
}

#[test]
fn validate_rejects_an_empty_slot() {
    let tpl = Template {
        includes: vec![slotted_group("mood", &[])],
        include_varied: vec![],
    };
    assert!(!tpl.validate());
    let ok = Template {
        includes: vec![slotted_group("mood", &["calm"])],
        include_varied: vec![],
    };
    assert!(ok.validate());
}

#[test]
fn validate_rejects_an_empty_choice_set() {
    let tpl = Template {
        includes: vec![],
        include_varied: vec![("time".to_string(), vec![])],
    };
    assert!(!tpl.validate());
}
