use tooey::input::{Content, ContentValue, ContentValueMetadata, Input};

fn plain_meta() -> ContentValueMetadata {
    ContentValueMetadata {
        is_id: false,
        is_url: false,
        is_decorative: false,
        is_action_link: false,
        is_title: false,
        is_primary_content: false,
        is_main_primary_content: false,
    }
}

fn val(name: &str, value: &str) -> ContentValue {
    ContentValue { meta: plain_meta(), name: name.to_string(), value: value.to_string() }
}

fn node(
    id: &str,
    parent: Option<&str>,
    depth: usize,
    values: Vec<ContentValue>,
    children: Vec<Content>,
) -> Content {
    Content {
        id: id.to_string(),
        parent_id: parent.map(|p| p.to_string()),
        depth,
        values,
        children,
    }
}

fn sample_tree() -> Content {
    // r -> a (2 children), b (leaf with values); plus a degenerate node d at depth 1
    node(
        "r",
        None,
        0,
        vec![val("t", "root")],
        vec![
            node(
                "a",
                Some("r"),
                1,
                vec![val("t", "alpha")],
                vec![
                    node("a1", Some("a"), 2, vec![val("t", "alpha one")], vec![]),
                    node("a2", Some("a"), 2, vec![val("t", "alpha two")], vec![]),
                ],
            ),
            node("b", Some("r"), 1, vec![val("t", "beta")], vec![]),
            node("d", Some("r"), 1, vec![], vec![]),
        ],
    )
}

#[test]
fn projection_returns_only_requested_depth() {
    let tree = sample_tree();
    let mut out: Vec<Content> = Vec::new();
    tree.go_down_depth(1, None, &mut out);
    assert!(!out.is_empty());
    for n in &out {
        assert_eq!(n.depth, 1);
    }
    let ids: Vec<&str> = out.iter().map(|n| n.id.as_str()).collect();
    assert_eq!(ids, vec!["a", "b"]);
}

#[test]
fn projection_honors_ancestor_constraint() {
    let tree = sample_tree();
    let parent = "a".to_string();
    let mut out: Vec<Content> = Vec::new();
    tree.go_down_depth(2, Some(&parent), &mut out);
    assert_eq!(out.len(), 2);
    for n in &out {
        assert_eq!(n.parent_id.as_deref(), Some("a"));
    }
    let ids: Vec<&str> = out.iter().map(|n| n.id.as_str()).collect();
    assert_eq!(ids, vec!["a1", "a2"]);
}

#[test]
fn projection_excludes_degenerate_nodes() {
    let tree = sample_tree();
    let mut out: Vec<Content> = Vec::new();
    tree.go_down_depth(1, None, &mut out);
    assert!(out.iter().all(|n| n.id != "d"));
    // the same degenerate node is absent from the unconstrained depth-1 view
    // and from the view under its own parent
    let parent = "r".to_string();
    let mut constrained: Vec<Content> = Vec::new();
    tree.go_down_depth(1, Some(&parent), &mut constrained);
    assert!(constrained.iter().all(|n| n.id != "d"));
}

#[test]
fn projection_preserves_tree_order() {
    let tree = node(
        "r",
        None,
        0,
        vec![],
        vec![
            node("c1", Some("r"), 1, vec![val("t", "one")], vec![]),
            node("c2", Some("r"), 1, vec![val("t", "two")], vec![]),
            node("c3", Some("r"), 1, vec![val("t", "three")], vec![]),
        ],
    );
    let mut out: Vec<Content> = Vec::new();
    tree.go_down_depth(1, None, &mut out);
    let ids: Vec<&str> = out.iter().map(|n| n.id.as_str()).collect();
    assert_eq!(ids, vec!["c1", "c2", "c3"]);
}

#[test]
fn max_depth_finds_deepest_level() {
    let tree = sample_tree();
    assert_eq!(tree.max_depth(), 2);
    let flat = node("only", None, 0, vec![val("t", "x")], vec![]);
    assert_eq!(flat.max_depth(), 0);
}

#[test]
fn input_clone_keeps_tree() {
    let input = Input { content: sample_tree() };
    let copy = input.clone();
    assert_eq!(copy.content.id, "r");
    assert_eq!(copy.content.children.len(), 3);
    assert_eq!(copy.content.children[0].children[1].id, "a2");
    assert_eq!(copy.content.children[0].children[1].values[0].value, "alpha two");
}
