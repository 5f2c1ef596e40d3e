use tooey::app::{App, InputEvent, DEFAULT_DEPTH};
use tooey::input::{Content, ContentValue, ContentValueMetadata, Input};

fn plain_meta() -> ContentValueMetadata {
    ContentValueMetadata {
        is_id: false,
        is_url: false,
        is_decorative: false,
        is_action_link: false,
        is_title: false,
        is_primary_content: false,
        is_main_primary_content: false,
    }
}

fn val(name: &str, value: &str) -> ContentValue {
    ContentValue { meta: plain_meta(), name: name.to_string(), value: value.to_string() }
}

fn node(
    id: &str,
    parent: Option<&str>,
    depth: usize,
    values: Vec<ContentValue>,
    children: Vec<Content>,
) -> Content {
    Content {
        id: id.to_string(),
        parent_id: parent.map(|p| p.to_string()),
        depth,
        values,
        children,
    }
}

/// r -> a -> {a1, a2}, r -> b: two items at depth 1, two under a at depth 2.
fn branching_tree() -> Content {
    node(
        "r",
        None,
        0,
        vec![val("t", "root")],
        vec![
            node(
                "a",
                Some("r"),
                1,
                vec![val("t", "alpha")],
                vec![
                    node("a1", Some("a"), 2, vec![val("t", "one")], vec![]),
                    node("a2", Some("a"), 2, vec![val("t", "two")], vec![]),
                ],
            ),
            node("b", Some("r"), 1, vec![val("t", "beta")], vec![]),
        ],
    )
}

#[test]
fn new_app_defaults() {
    let app = App::new();
    assert!(!app.should_quit);
    assert!(app.should_display_primary_content);
    assert_eq!(app.current_depth, DEFAULT_DEPTH);
    assert!(app.input.is_none());
    assert!(app.display_items.items.is_empty());
    assert_eq!(app.color_palette.primary_hex, "#FF6600");
    assert_eq!(app.color_palette.secondary_hex, "#828282");
    assert_eq!(app.color_palette.background_hex, "#F6F6EF");
}

#[test]
fn load_input_opens_default_depth_view() {
    let mut app = App::new();
    app.load_input(&Input { content: branching_tree() });
    assert_eq!(app.current_depth, 1);
    assert_eq!(app.max_depth, 2);
    assert!(app.ancestor_stack.is_empty());
    let ids: Vec<&str> = app.display_items.items.iter().map(|n| n.id.as_str()).collect();
    assert_eq!(ids, vec!["a", "b"]);
    assert_eq!(app.display_items.cursor, None);
}

#[test]
fn deepen_rise_round_trip_restores_state() {
    let mut app = App::new();
    app.load_input(&Input { content: branching_tree() });
    app.display_items.start();
    let depth_before = app.current_depth;
    let stack_before = app.ancestor_stack.clone();
    app.deeper();
    assert_eq!(app.current_depth, 2);
    assert_eq!(app.ancestor_stack, vec!["a".to_string()]);
    let ids: Vec<&str> = app.display_items.items.iter().map(|n| n.id.as_str()).collect();
    assert_eq!(ids, vec!["a1", "a2"]);
    assert_eq!(app.display_items.cursor, None);
    app.higher();
    assert_eq!(app.current_depth, depth_before);
    assert_eq!(app.ancestor_stack, stack_before);
}

#[test]
fn deepen_without_selection_is_noop() {
    let mut app = App::new();
    app.load_input(&Input { content: branching_tree() });
    let depth_before = app.current_depth;
    app.deeper();
    assert_eq!(app.current_depth, depth_before);
    assert!(app.ancestor_stack.is_empty());
}

#[test]
fn deepen_at_max_depth_is_noop() {
    let mut app = App::new();
    app.load_input(&Input { content: branching_tree() });
    app.display_items.start();
    app.deeper();
    // now at the deepest level
    assert_eq!(app.current_depth, app.max_depth);
    app.display_items.start();
    let stack_before = app.ancestor_stack.clone();
    app.deeper();
    assert_eq!(app.current_depth, 2);
    assert_eq!(app.ancestor_stack, stack_before);
}

#[test]
fn rise_at_root_is_noop() {
    let mut app = App::new();
    let root_only = node("r", None, 0, vec![val("t", "root")], vec![]);
    app.load_input(&Input { content: root_only });
    assert_eq!(app.current_depth, 0);
    app.higher();
    assert_eq!(app.current_depth, 0);
    assert!(app.ancestor_stack.is_empty());
}

#[test]
fn singleton_chain_lands_on_leaf_selected() {
    // tree {id:"r", depth:0, children:[{id:"a", depth:1, values:[],
    // children:[{id:"b", depth:2, values:[{"x"}]}]}]}: Deepen from the root
    // view with "a" selected lands directly at depth 2 on node "b" with
    // cursor Some(0).
    let tree = node(
        "r",
        None,
        0,
        vec![],
        vec![node(
            "a",
            Some("r"),
            1,
            vec![],
            vec![node("b", Some("a"), 2, vec![val("x", "x")], vec![])],
        )],
    );
    let mut app = App::new();
    app.load_input(&Input { content: tree });
    assert_eq!(app.current_depth, 1);
    let ids: Vec<&str> = app.display_items.items.iter().map(|n| n.id.as_str()).collect();
    assert_eq!(ids, vec!["a"]);
    app.display_items.start();
    app.deeper();
    assert_eq!(app.current_depth, 2);
    let ids: Vec<&str> = app.display_items.items.iter().map(|n| n.id.as_str()).collect();
    assert_eq!(ids, vec!["b"]);
    assert_eq!(app.display_items.cursor, Some(0));
}

#[test]
fn rise_after_chain_undoes_one_level_only() {
    // r -> a -> b -> c: a chain of singletons three levels deep.
    let tree = node(
        "r",
        None,
        0,
        vec![],
        vec![node(
            "a",
            Some("r"),
            1,
            vec![val("t", "a")],
            vec![node(
                "b",
                Some("a"),
                2,
                vec![val("t", "b")],
                vec![node("c", Some("b"), 3, vec![val("t", "c")], vec![])],
            )],
        )],
    );
    let mut app = App::new();
    app.load_input(&Input { content: tree });
    assert_eq!(app.current_depth, 1);
    app.display_items.start();
    app.deeper();
    // the chain collapsed the singleton levels down to depth 3
    assert_eq!(app.current_depth, 3);
    assert_eq!(app.ancestor_stack, vec!["a".to_string(), "b".to_string()]);
    assert_eq!(app.display_items.cursor, Some(0));
    app.higher();
    // one level back, not the whole chain
    assert_eq!(app.current_depth, 2);
    assert_eq!(app.ancestor_stack, vec!["a".to_string()]);
}

#[test]
fn get_current_object_follows_cursor() {
    let mut app = App::new();
    app.load_input(&Input { content: branching_tree() });
    assert!(app.get_current_object().is_none());
    app.display_items.start();
    app.display_items.next();
    let picked = app.get_current_object().expect("an item is selected");
    assert_eq!(picked.id, "b");
}

#[test]
fn events_drive_all_transitions() {
    let mut app = App::new();
    app.load_input(&Input { content: branching_tree() });
    app.apply_event(InputEvent::First);
    assert_eq!(app.display_items.cursor, Some(0));
    app.apply_event(InputEvent::SelectNext);
    assert_eq!(app.display_items.cursor, Some(1));
    app.apply_event(InputEvent::SelectPrevious);
    assert_eq!(app.display_items.cursor, Some(0));
    app.apply_event(InputEvent::Last);
    assert_eq!(app.display_items.cursor, Some(1));
    app.apply_event(InputEvent::First);
    app.apply_event(InputEvent::Deepen);
    assert_eq!(app.current_depth, 2);
    app.apply_event(InputEvent::Rise);
    assert_eq!(app.current_depth, 1);
    app.apply_event(InputEvent::TogglePrimaryContent);
    assert!(!app.should_display_primary_content);
    app.apply_event(InputEvent::NextValue);
    app.apply_event(InputEvent::NextValue);
    assert_eq!(app.current_value_index, 2);
    app.apply_event(InputEvent::PreviousValue);
    assert_eq!(app.current_value_index, 1);
    app.apply_event(InputEvent::Quit);
    assert!(app.should_quit);
}

#[test]
fn value_cursor_saturates() {
    let mut app = App::new();
    app.previous_value();
    assert_eq!(app.current_value_index, 0);
    app.next_value();
    app.next_value();
    app.first_value();
    assert_eq!(app.current_value_index, 0);
}

#[test]
fn session_carries_value_out() {
    let mut app = App::new();
    app.set_current_value(Some("picked".to_string()));
    app.exit_with_value();
    assert!(app.should_quit);
    assert_eq!(app.session.value.as_deref(), Some("picked"));
    let s = app.get_session();
    assert_eq!(s.depth, app.current_depth);
    assert_eq!(s.value.as_deref(), Some("picked"));
}

#[test]
fn exit_without_value_clears_session_value() {
    let mut app = App::new();
    app.set_current_value(Some("picked".to_string()));
    app.exit_without_value();
    assert!(app.should_quit);
    assert!(app.session.value.is_none());
}
