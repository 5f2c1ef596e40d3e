use tooey::input::{Content, ContentValue, ContentValueMetadata};
use tooey::render::{RenderOptions, pick_value};
use tooey::style::{Color, Line};

fn meta(primary: bool, main: bool, title: bool, url: bool) -> ContentValueMetadata {
    ContentValueMetadata {
        is_id: false,
        is_url: url,
        is_decorative: false,
        is_action_link: false,
        is_title: title,
        is_primary_content: primary,
        is_main_primary_content: main,
    }
}

fn val(name: &str, value: &str, m: ContentValueMetadata) -> ContentValue {
    ContentValue { meta: m, name: name.to_string(), value: value.to_string() }
}

fn leaf(id: &str, values: Vec<ContentValue>) -> Content {
    Content { id: id.to_string(), parent_id: None, depth: 0, values, children: vec![] }
}

fn options() -> RenderOptions {
    RenderOptions {
        primary_only: false,
        main_content_color: Color { r: 255, g: 102, b: 0 },
        text_color: Color { r: 130, g: 130, b: 130 },
        background_color: Color { r: 246, g: 246, b: 239 },
        wrap_width: 160,
        line_cap: 30,
    }
}

fn line_text(line: &Line) -> String {
    let mut s = String::new();
    for sp in &line.spans {
        s.push_str(&sp.content);
    }
    s
}

#[test]
fn long_value_wraps_to_two_lines_without_marker() {
    // one value of exactly 200 characters at wrap width 160: two wrapped
    // lines, no truncation marker
    let mut words: Vec<String> = Vec::new();
    let mut i = 0;
    while i < 19 {
        words.push("abcdefghi".to_string());
        i += 1;
    }
    words.push("abcdefghij".to_string());
    let text = words.join(" ");
    assert_eq!(text.len(), 200);

    let node = leaf("n", vec![val("a", &text, meta(false, false, false, false))]);
    let mut lines: Vec<Line> = Vec::new();
    node.to_lines(&options(), &mut lines);
    assert_eq!(lines.len(), 2);
    for l in &lines {
        assert!(line_text(l) != "(truncated)");
    }
}

#[test]
fn line_cap_truncates_with_marker() {
    // 25 values, each long enough that no two share a line, at a cap of
    // 20: 20 content lines plus one marker line
    let mut values = Vec::new();
    let mut i = 0;
    while i < 25 {
        values.push(val(&format!("n{:02}", i), &"x".repeat(100), meta(false, false, false, false)));
        i += 1;
    }
    let node = leaf("n", values);
    let mut opts = options();
    opts.line_cap = 20;
    let mut lines: Vec<Line> = Vec::new();
    node.to_lines(&opts, &mut lines);
    assert_eq!(lines.len(), 21);
    assert_eq!(line_text(&lines[20]), "(truncated)");
    for l in lines.iter().take(20) {
        assert!(line_text(l).starts_with("x"));
    }
}

#[test]
fn ids_and_action_links_never_render() {
    let mut id_meta = meta(true, false, false, false);
    id_meta.is_id = true;
    let mut link_meta = meta(true, false, false, false);
    link_meta.is_action_link = true;
    let node = leaf(
        "n",
        vec![
            val("a", "visible", meta(false, false, false, false)),
            val("b", "hidden-id", id_meta),
            val("c", "hidden-link", link_meta),
        ],
    );
    let mut lines: Vec<Line> = Vec::new();
    node.to_lines(&options(), &mut lines);
    assert_eq!(lines.len(), 1);
    assert_eq!(line_text(&lines[0]), "visible");
}

#[test]
fn primary_only_mode_drops_secondary_values() {
    let node = leaf(
        "n",
        vec![
            val("a", "secondary", meta(false, false, false, false)),
            val("b", "primary", meta(true, false, false, false)),
        ],
    );
    let mut opts = options();
    opts.primary_only = true;
    let mut lines: Vec<Line> = Vec::new();
    node.to_lines(&opts, &mut lines);
    assert_eq!(lines.len(), 1);
    assert_eq!(line_text(&lines[0]), "primary");
}

#[test]
fn values_sort_primary_first_then_by_name() {
    // short values pack onto one line: primary content leads, names break
    // ties within each bucket
    let node = leaf(
        "n",
        vec![
            val("zz", "s2", meta(false, false, false, false)),
            val("aa", "s1", meta(false, false, false, false)),
            val("mm", "lead", meta(true, false, false, false)),
        ],
    );
    let mut lines: Vec<Line> = Vec::new();
    node.to_lines(&options(), &mut lines);
    assert_eq!(lines.len(), 1);
    assert_eq!(line_text(&lines[0]), "lead s1 s2");
}

#[test]
fn styles_follow_classification() {
    let node = leaf(
        "n",
        vec![
            val("a", "emphasized", meta(true, true, false, false)),
            val("b", "titled", meta(false, false, true, false)),
            val("c", "linked", meta(false, false, false, true)),
        ],
    );
    let opts = options();
    let mut lines: Vec<Line> = Vec::new();
    node.to_lines(&opts, &mut lines);
    assert_eq!(lines.len(), 1);
    let spans = &lines[0].spans;
    // packed as: emphasized (primary first), then titled and linked by name
    assert_eq!(spans[0].content, "emphasized");
    assert_eq!(spans[0].style.fg, opts.main_content_color);
    assert!(!spans[0].style.bold && !spans[0].style.underlined);
    assert_eq!(spans[2].content, "titled");
    assert!(spans[2].style.bold);
    assert_eq!(spans[4].content, "linked");
    assert!(spans[4].style.underlined);
    assert_eq!(spans[4].style.fg, opts.text_color);
    for sp in spans {
        assert_eq!(sp.style.bg, opts.background_color);
    }
}

#[test]
fn children_render_after_parent_in_tree_order() {
    let child1 = Content {
        id: "c1".to_string(),
        parent_id: Some("p".to_string()),
        depth: 1,
        values: vec![val("a", "first child", meta(false, false, false, false))],
        children: vec![],
    };
    let child2 = Content {
        id: "c2".to_string(),
        parent_id: Some("p".to_string()),
        depth: 1,
        values: vec![val("a", "second child", meta(false, false, false, false))],
        children: vec![],
    };
    let parent = Content {
        id: "p".to_string(),
        parent_id: None,
        depth: 0,
        values: vec![val("a", "parent", meta(false, false, false, false))],
        children: vec![child1, child2],
    };
    let mut lines: Vec<Line> = Vec::new();
    parent.to_lines(&options(), &mut lines);
    let texts: Vec<String> = lines.iter().map(line_text).collect();
    assert_eq!(texts, vec!["parent", "first child", "second child"]);
}

#[test]
fn all_filtered_node_contributes_no_lines() {
    let mut id_meta = meta(false, false, false, false);
    id_meta.is_id = true;
    let node = leaf("n", vec![val("a", "only-an-id", id_meta)]);
    let mut lines: Vec<Line> = Vec::new();
    node.to_lines(&options(), &mut lines);
    assert!(lines.is_empty());
}

#[test]
fn pick_value_skips_blank_spans() {
    let node = leaf(
        "n",
        vec![
            val("a", "x", meta(false, false, false, false)),
            val("b", " ", meta(false, false, false, false)),
            val("c", "y", meta(false, false, false, false)),
        ],
    );
    let mut lines: Vec<Line> = Vec::new();
    node.to_lines(&options(), &mut lines);
    assert_eq!(pick_value(&lines, 0).as_deref(), Some("x"));
    assert_eq!(pick_value(&lines, 1).as_deref(), Some("y"));
    assert_eq!(pick_value(&lines, 2), None);
}

#[test]
fn dead_end_items_are_dropped_from_the_view() {
    let mut id_meta = meta(false, false, false, false);
    id_meta.is_id = true;
    let dead = leaf("dead", vec![val("a", "only-an-id", id_meta)]);
    let live = leaf("live", vec![val("a", "shown", meta(false, false, false, false))]);
    let items = vec![dead, live];
    let kept = tooey::render::drop_unrendered(&items, &options());
    assert_eq!(kept.len(), 1);
    assert_eq!(kept[0].id, "live");
}
