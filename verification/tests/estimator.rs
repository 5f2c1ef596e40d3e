use tooey::app::App;
use tooey::input::{Content, ContentValue, ContentValueMetadata, Input};

fn mpc_meta() -> ContentValueMetadata {
    ContentValueMetadata {
        is_id: false,
        is_url: false,
        is_decorative: false,
        is_action_link: false,
        is_title: false,
        is_primary_content: true,
        is_main_primary_content: true,
    }
}

fn plain_meta() -> ContentValueMetadata {
    ContentValueMetadata {
        is_id: false,
        is_url: false,
        is_decorative: false,
        is_action_link: false,
        is_title: false,
        is_primary_content: false,
        is_main_primary_content: false,
    }
}

fn mpc_vals(count: usize) -> Vec<ContentValue> {
    let mut out = Vec::new();
    let mut i = 0;
    while i < count {
        out.push(ContentValue {
            meta: mpc_meta(),
            name: format!("n{}", i),
            value: format!("v{}", i),
        });
        i += 1;
    }
    out
}

fn chain_node(id: &str, parent: Option<&str>, depth: usize, values: Vec<ContentValue>, child: Option<Content>) -> Content {
    Content {
        id: id.to_string(),
        parent_id: parent.map(|p| p.to_string()),
        depth,
        values,
        children: match child {
            Some(c) => vec![c],
            None => vec![],
        },
    }
}

/// 100 main-primary-content values: 90 at depth 3 and 10 at depth 5.
fn weighted_tree() -> Content {
    let n5 = chain_node("n5", Some("n4"), 5, mpc_vals(10), None);
    let n4 = chain_node("n4", Some("n3"), 4, vec![], Some(n5));
    let n3 = chain_node("n3", Some("n2"), 3, mpc_vals(90), Some(n4));
    let n2 = chain_node("n2", Some("n1"), 2, vec![], Some(n3));
    let n1 = chain_node("n1", Some("r"), 1, vec![], Some(n2));
    chain_node("r", None, 0, vec![], Some(n1))
}

#[test]
fn estimator_picks_one_above_dominant_depth() {
    // 90% of the values sit at depth 3 (over the 10% threshold); the 10% at
    // depth 5 exactly meet, and so fail, the strict threshold. The result
    // is 3 - 1 = 2.
    let tree = weighted_tree();
    assert_eq!(tree.coherent_depth(), Some(2));
    assert_eq!(tree.starting_depth(), 2);
}

#[test]
fn estimator_with_no_flagged_values_falls_back() {
    let tree = Content {
        id: "r".to_string(),
        parent_id: None,
        depth: 0,
        values: vec![ContentValue {
            meta: plain_meta(),
            name: "t".to_string(),
            value: "text".to_string(),
        }],
        children: vec![],
    };
    assert_eq!(tree.coherent_depth(), None);
    assert_eq!(tree.starting_depth(), 0);
}

#[test]
fn estimator_clamps_depth_zero() {
    // all the flagged content already sits at depth 0: max(0 - 1, 0) = 0
    let tree = chain_node("r", None, 0, mpc_vals(4), None);
    assert_eq!(tree.coherent_depth(), Some(0));
    assert_eq!(tree.starting_depth(), 0);
}

#[test]
fn load_input_estimated_uses_coherent_depth() {
    let mut app = App::new();
    app.load_input_estimated(&Input { content: weighted_tree() });
    assert_eq!(app.current_depth, 2);
    assert!(app.ancestor_stack.is_empty());
    let ids: Vec<&str> = app.display_items.items.iter().map(|n| n.id.as_str()).collect();
    assert_eq!(ids, vec!["n2"]);
}
