use tooey::input::{ContentValue, ContentValueMetadata};
use tooey::sortval::sort_content_values;

fn meta(primary: bool) -> ContentValueMetadata {
    ContentValueMetadata {
        is_id: false,
        is_url: false,
        is_decorative: false,
        is_action_link: false,
        is_title: false,
        is_primary_content: primary,
        is_main_primary_content: false,
    }
}

fn val(name: &str, value: &str, primary: bool) -> ContentValue {
    ContentValue { meta: meta(primary), name: name.to_string(), value: value.to_string() }
}

#[test]
fn primary_values_sort_before_secondary() {
    let input = vec![
        val("b", "s1", false),
        val("a", "prim1", true),
        val("c", "prim2", true),
    ];
    let sorted = sort_content_values(&input);
    let order: Vec<(&str, bool)> = sorted
        .iter()
        .map(|v| (v.name.as_str(), v.meta.is_primary_content))
        .collect();
    assert_eq!(order, vec![("a", true), ("c", true), ("b", false)]);
}

#[test]
fn names_break_ties_lexicographically() {
    let input = vec![
        val("delta", "4", false),
        val("alpha", "1", false),
        val("charlie", "3", false),
        val("bravo", "2", false),
    ];
    let sorted = sort_content_values(&input);
    let names: Vec<&str> = sorted.iter().map(|v| v.name.as_str()).collect();
    assert_eq!(names, vec!["alpha", "bravo", "charlie", "delta"]);
}

#[test]
fn equal_keys_keep_their_order() {
    // the sort is stable: same bucket, same name, incoming order kept
    let input = vec![
        val("same", "first", false),
        val("same", "second", false),
        val("same", "third", false),
    ];
    let sorted = sort_content_values(&input);
    let values: Vec<&str> = sorted.iter().map(|v| v.value.as_str()).collect();
    assert_eq!(values, vec!["first", "second", "third"]);
}

#[test]
fn empty_input_sorts_to_empty() {
    let sorted = sort_content_values(&Vec::new());
    assert!(sorted.is_empty());
}
