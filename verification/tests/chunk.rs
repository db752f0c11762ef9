use std::cmp::Ordering;

use prompt_generator::chunk::Chunk;

fn chunk(text: &str, pos: Option<i32>, sub_pos: Option<i32>) -> Chunk {
    Chunk { prompt: text.to_string(), pos, sub_pos }
}

#[test]
fn equality_looks_only_at_pos() {
    // Deliberate quirk: text and sub_pos play no part in equality.
    assert_eq!(chunk("a", Some(1), None), chunk("b", Some(1), Some(9)));
    assert_ne!(chunk("a", Some(1), None), chunk("a", Some(2), None));
    assert_eq!(chunk("a", None, None), chunk("b", None, Some(3)));
    assert_ne!(chunk("a", None, None), chunk("a", Some(0), None));
}

#[test]
fn comparison_reverses_pos() {
    // The larger clause key compares Less, so a max-extraction emits it
    // first.
    let high = chunk("h", Some(2), None);
    let low = chunk("l", Some(1), None);
    assert_eq!(high.partial_cmp(&low), Some(Ordering::Less));
    assert_eq!(low.partial_cmp(&high), Some(Ordering::Greater));
}

#[test]
fn comparison_breaks_ties_on_sub_pos() {
    let bare = chunk("bare", Some(1), None);
    let sub0 = chunk("s0", Some(1), Some(0));
    let sub1 = chunk("s1", Some(1), Some(1));
    assert_eq!(bare.partial_cmp(&sub0), Some(Ordering::Less));
    assert_eq!(sub0.partial_cmp(&sub1), Some(Ordering::Less));
    assert_eq!(sub1.partial_cmp(&sub0), Some(Ordering::Greater));
    assert_eq!(sub0.partial_cmp(&sub0.clone()), Some(Ordering::Equal));
}

#[test]
fn missing_pos_compares_as_zero() {
    let none = chunk("n", None, None);
    let zero = chunk("z", Some(0), None);
    let one = chunk("o", Some(1), None);
    assert_eq!(none.partial_cmp(&zero), Some(Ordering::Equal));
    assert_eq!(none.partial_cmp(&one), Some(Ordering::Greater));
    assert_eq!(one.partial_cmp(&none), Some(Ordering::Less));
}

#[test]
fn clone_copies_every_field() {
    let source = chunk("text", Some(4), Some(7));
    let copy = source.clone();
    assert_eq!(copy.prompt, "text");
    assert_eq!(copy.pos, Some(4));
    assert_eq!(copy.sub_pos, Some(7));
}
