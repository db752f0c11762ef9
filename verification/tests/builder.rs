use prompt_generator::builder::{Prompt, PromptBuilder};
use prompt_generator::chunk::{Chunk, Chunks};

fn chunk(text: &str, pos: Option<i32>, sub_pos: Option<i32>) -> Chunk {
    Chunk { prompt: text.to_string(), pos, sub_pos }
}

fn mood_group() -> Chunks {
    Chunks {
        defaults: Some(vec![chunk("sky", Some(1), None)]),
        variants: vec![(
            "mood".to_string(),
            vec![chunk("bright", Some(1), Some(0)), chunk("dark", Some(1), Some(1))],
        )],
    }
}

#[test]
fn empty_builder_renders_empty() {
    let p: Prompt = PromptBuilder::new().build();
    assert_eq!(p.render, "");
}

#[test]
fn single_chunk_has_no_separator() {
    let mut b = PromptBuilder::new();
    b.add(&chunk("alone", Some(3), None));
    assert_eq!(b.build().render, "alone");
}

#[test]
fn same_pos_space_joined_absent_sub_pos_first() {
    // Same clause key: space-joined; "sky" has no sub_pos so it is
    // emitted before "bright".
    let mut b = PromptBuilder::new();
    let misses = b.append(&mood_group(), &vec![("mood".to_string(), 0)]);
    assert!(misses.is_empty());
    assert_eq!(b.build().render, "sky bright");
}

#[test]
fn descending_pos_comma_joined() {
    // A has the larger clause key, so it is emitted first and the key
    // change inserts ", ".
    let mut b = PromptBuilder::new();
    b.add(&chunk("A", Some(2), None));
    b.add(&chunk("B", Some(1), None));
    assert_eq!(b.build().render, "A, B");
}

#[test]
fn insertion_order_does_not_matter_for_keys() {
    let mut b = PromptBuilder::new();
    b.add(&chunk("B", Some(1), None));
    b.add(&chunk("A", Some(2), None));
    assert_eq!(b.build().render, "A, B");
}

#[test]
fn missing_pos_counts_as_zero() {
    let mut b = PromptBuilder::new();
    b.add(&chunk("zero", None, None));
    b.add(&chunk("one", Some(1), None));
    assert_eq!(b.build().render, "one, zero");
}

#[test]
fn sub_pos_ascending_within_clause() {
    let mut b = PromptBuilder::new();
    b.add(&chunk("second", Some(1), Some(2)));
    b.add(&chunk("first", Some(1), Some(1)));
    assert_eq!(b.build().render, "first second");
}

#[test]
fn explicit_composition_is_deterministic() {
    let pairs = vec![("mood".to_string(), 1)];
    let mut b1 = PromptBuilder::new();
    b1.append(&mood_group(), &pairs);
    let mut b2 = PromptBuilder::new();
    b2.append(&mood_group(), &pairs);
    let r1 = b1.build().render;
    let r2 = b2.build().render;
    assert_eq!(r1, r2);
    assert_eq!(r1, "sky dark");
}

#[test]
fn unresolved_pairs_are_skipped_and_reported() {
    let mut b = PromptBuilder::new();
    let misses = b.append(
        &mood_group(),
        &vec![
            ("mood".to_string(), 0),
            ("no_such_slot".to_string(), 0),
            ("mood".to_string(), 5),
        ],
    );
    assert_eq!(misses, vec![1, 2]);
    assert_eq!(b.build().render, "sky bright");
}

#[test]
fn defaults_absent_means_picks_only() {
    let g = Chunks {
        defaults: None,
        variants: vec![("m".to_string(), vec![chunk("only", None, None)])],
    };
    let mut b = PromptBuilder::new();
    let misses = b.append(&g, &vec![("m".to_string(), 0)]);
    assert!(misses.is_empty());
    assert_eq!(b.build().render, "only");
}

#[test]
fn multi_clause_punctuation() {
    // Three clauses (keys 3, 1, 0), two of them with several chunks:
    // within a clause a single space, between clauses ", ".
    let mut b = PromptBuilder::new();
    b.add(&chunk("c", Some(1), Some(1)));
    b.add(&chunk("a", Some(3), None));
    b.add(&chunk("d", None, None));
    b.add(&chunk("b", Some(1), None));
    b.add(&chunk("e", Some(3), Some(7)));
    assert_eq!(b.build().render, "a e, b c, d");
}
