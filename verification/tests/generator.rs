use prompt_generator::chunk::{Chunk, Chunks};
use prompt_generator::generator::PromptGenerator;
use prompt_generator::template::Template;

fn chunk(text: &str, pos: Option<i32>, sub_pos: Option<i32>) -> Chunk {
    Chunk { prompt: text.to_string(), pos, sub_pos }
}

fn defaults_group(texts: &[(&str, Option<i32>)]) -> Chunks {
    Chunks {
        defaults: Some(texts.iter().map(|(t, p)| chunk(t, *p, None)).collect()),
        variants: vec![],
    }
}

#[test]
fn defaults_only_template_renders_deterministically() {
    let tpl = Template {
        includes: vec![defaults_group(&[("sky", Some(2)), ("sea", Some(1))])],
        include_varied: vec![],
    };
    assert!(tpl.validate());
    let generator = PromptGenerator::new(tpl);
    for _ in 0..20 {
        assert_eq!(generator.randomize().render, "sky, sea");
    }
}

#[test]
fn defaults_are_always_present() {
    // Whatever the slot draw picks, the default appears in every render.
    let group = Chunks {
        defaults: Some(vec![chunk("sky", Some(1), None)]),
        variants: vec![(
            "mood".to_string(),
            vec![chunk("bright", Some(1), Some(0)), chunk("dark", Some(1), Some(1))],
        )],
    };
    let tpl = Template { includes: vec![group], include_varied: vec![] };
    assert!(tpl.validate());
    let generator = PromptGenerator::new(tpl);
    for _ in 0..50 {
        let render = generator.randomize().render;
        assert!(render == "sky bright" || render == "sky dark", "unexpected: {render}");
    }
}

#[test]
fn exactly_one_chunk_per_slot() {
    // Two independent slots: each render holds exactly one candidate of
    // each, never zero, never both of one slot.
    let group = Chunks {
        defaults: None,
        variants: vec![
            ("a".to_string(), vec![chunk("a1", Some(2), None), chunk("a2", Some(2), None)]),
            ("b".to_string(), vec![chunk("b1", Some(1), None), chunk("b2", Some(1), None)]),
        ],
    };
    let tpl = Template { includes: vec![group], include_varied: vec![] };
    assert!(tpl.validate());
    let generator = PromptGenerator::new(tpl);
    for _ in 0..50 {
        let render = generator.randomize().render;
        let expected = ["a1, b1", "a1, b2", "a2, b1", "a2, b2"];
        assert!(expected.contains(&render.as_str()), "unexpected: {render}");
    }
}

#[test]
fn varied_choice_never_mixes_alternatives() {
    // One varied choice between a "day" and a "night" group; over many
    // generations both alternatives appear with roughly equal frequency
    // and no render mixes chunks of both.
    let day = defaults_group(&[("day", Some(1))]);
    let night = defaults_group(&[("night", Some(1))]);
    let tpl = Template {
        includes: vec![],
        include_varied: vec![(
            "time".to_string(),
            vec![("day".to_string(), day), ("night".to_string(), night)],
        )],
    };
    assert!(tpl.validate());
    let generator = PromptGenerator::new(tpl);
    let mut day_count = 0usize;
    let mut night_count = 0usize;
    for _ in 0..1000 {
        match generator.randomize().render.as_str() {
            "day" => day_count += 1,
            "night" => night_count += 1,
            other => panic!("mixed or unexpected render: {other}"),
        }
    }
    assert_eq!(day_count + night_count, 1000);
    assert!(day_count > 200, "day picked only {day_count} times of 1000");
    assert!(night_count > 200, "night picked only {night_count} times of 1000");
}

#[test]
fn slot_draws_cover_all_candidates() {
    let group = Chunks {
        defaults: None,
        variants: vec![(
            "mood".to_string(),
            vec![chunk("bright", Some(1), None), chunk("dark", Some(1), None)],
        )],
    };
    let tpl = Template { includes: vec![group], include_varied: vec![] };
    let generator = PromptGenerator::new(tpl);
    let mut seen_bright = false;
    let mut seen_dark = false;
    for _ in 0..1000 {
        match generator.randomize().render.as_str() {
            "bright" => seen_bright = true,
            "dark" => seen_dark = true,
            other => panic!("unexpected render: {other}"),
        }
    }
    assert!(seen_bright && seen_dark);
}

#[test]
fn includes_and_varied_parts_combine() {
    let base = defaults_group(&[("base", Some(9))]);
    let day = defaults_group(&[("day", Some(1))]);
    let tpl = Template {
        includes: vec![base],
        include_varied: vec![("time".to_string(), vec![("day".to_string(), day)])],
    };
    let generator = PromptGenerator::new(tpl);
    assert_eq!(generator.randomize().render, "base, day");
}
