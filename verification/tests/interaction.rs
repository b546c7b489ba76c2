use pointer_events::bridge::{DomEvent, EventData, FrameworkEventKind, HandlerResponse};
use pointer_events::document::Document;
use pointer_events::geom::{Edges, Layout, Point, Size};
use pointer_events::node::{
    qual_name, Attribute, EditorOp, ElementNodeData, Node, NodeData, NodeSpecificData,
    HTML_NAMESPACE,
};

fn boxed(x: i64, y: i64, w: i64, h: i64) -> Layout {
    Layout {
        location: Point { x, y },
        size: Size {
            width: w,
            height: h,
        },
        padding: Edges {
            left: 0,
            top: 0,
            right: 0,
            bottom: 0,
        },
        border: Edges {
            left: 0,
            top: 0,
            right: 0,
            bottom: 0,
        },
    }
}

fn el(tag: &str, attrs: &[(&str, &str)], data: NodeSpecificData) -> NodeData {
    NodeData::Element(ElementNodeData {
        name: qual_name(tag, None),
        attrs: attrs
            .iter()
            .map(|(n, v)| Attribute {
                name: n.to_string(),
                value: v.to_string(),
            })
            .collect(),
        node_specific_data: data,
    })
}

fn checked_of(doc: &Document, id: usize) -> bool {
    match &doc.nodes[id].data {
        NodeData::Element(e) => match e.node_specific_data {
            NodeSpecificData::CheckboxInput(b) => b,
            _ => false,
        },
        _ => false,
    }
}

fn ops_of(doc: &Document, id: usize) -> Vec<EditorOp> {
    match &doc.nodes[id].data {
        NodeData::Element(e) => match &e.node_specific_data {
            NodeSpecificData::TextInput(t) => t.ops.clone(),
            _ => Vec::new(),
        },
        _ => Vec::new(),
    }
}

/// A document whose root and synthetic html element fill 1000 x 1000.
fn base_doc() -> Document {
    let mut doc = Document::new(7);
    doc.set_layout(0, boxed(0, 0, 1000, 1000));
    doc.set_layout(1, boxed(0, 0, 1000, 1000));
    doc
}

#[test]
fn qual_name_defaults_to_html_namespace() {
    let q = qual_name("input", None);
    assert!(q.prefix.is_none());
    assert_eq!(q.ns, HTML_NAMESPACE);
    assert_eq!(q.local, "input");
    let q2 = qual_name("svg", Some("http://www.w3.org/2000/svg"));
    assert_eq!(q2.ns, "http://www.w3.org/2000/svg");
}

#[test]
fn hit_outside_all_boxes_is_none_and_click_clears_focus() {
    let mut doc = base_doc();
    assert!(doc.hit(2000, 2000).is_none());
    doc.set_focus_to(1);
    doc.handle_click(0, 2000, 2000);
    assert_eq!(doc.focus, None);
}

#[test]
fn hit_finds_topmost_node() {
    let mut doc = base_doc();
    let a = doc.create_node(1, el("div", &[], NodeSpecificData::Plain), boxed(0, 0, 100, 100));
    let b = doc.create_node(1, el("div", &[], NodeSpecificData::Plain), boxed(50, 0, 100, 100));
    let h = doc.hit(60, 10).unwrap();
    // the later sibling paints on top
    assert_eq!(h.node_id, b);
    assert_eq!((h.x, h.y), (10, 10));
    let h2 = doc.hit(10, 10).unwrap();
    assert_eq!(h2.node_id, a);
}

#[test]
fn mousemove_with_stale_target_is_a_no_op() {
    let mut doc = base_doc();
    let text = doc.create_node(
        1,
        el(
            "input",
            &[("type", "text")],
            NodeSpecificData::TextInput(pointer_events::node::TextInputState {
                text: "hi".to_string(),
                ops: Vec::new(),
            }),
        ),
        boxed(0, 0, 100, 20),
    );
    let other = doc.create_node(1, el("div", &[], NodeSpecificData::Plain), boxed(0, 500, 100, 100));
    // point hits `other`, but the supplied target is the text input
    let consumed = doc.handle_mousemove(text, 10, 550, 1);
    assert!(!consumed);
    assert!(ops_of(&doc, text).is_empty());
    assert_eq!(doc.focus, None);
    let _ = other;
}

#[test]
fn mousemove_extends_selection_with_scaling() {
    let mut doc = base_doc();
    doc.set_scale(2, 1);
    let text = doc.create_node(
        1,
        el(
            "input",
            &[("type", "text")],
            NodeSpecificData::TextInput(pointer_events::node::TextInputState {
                text: String::new(),
                ops: Vec::new(),
            }),
        ),
        boxed(10, 10, 100, 20),
    );
    let consumed = doc.handle_mousemove(text, 14, 15, 1);
    assert!(consumed);
    let ops = ops_of(&doc, text);
    assert_eq!(ops.len(), 1);
    match ops[0] {
        EditorOp::ExtendSelection { x, y } => {
            // local point (4, 5), scaled by 2/1
            assert_eq!((x, y), (8, 10));
        }
        _ => panic!("expected a selection extension"),
    }
}

#[test]
fn mousemove_without_buttons_is_a_no_op() {
    let mut doc = base_doc();
    let text = doc.create_node(
        1,
        el(
            "input",
            &[("type", "text")],
            NodeSpecificData::TextInput(pointer_events::node::TextInputState {
                text: String::new(),
                ops: Vec::new(),
            }),
        ),
        boxed(10, 10, 100, 20),
    );
    assert!(!doc.handle_mousemove(text, 14, 15, 0));
    assert!(ops_of(&doc, text).is_empty());
}

#[test]
fn mousedown_moves_caret_and_focuses() {
    let mut doc = base_doc();
    let text = doc.create_node(
        1,
        el(
            "input",
            &[("type", "text")],
            NodeSpecificData::TextInput(pointer_events::node::TextInputState {
                text: String::new(),
                ops: Vec::new(),
            }),
        ),
        boxed(10, 10, 100, 20),
    );
    doc.handle_mousedown(text, 14, 15);
    let ops = ops_of(&doc, text);
    assert_eq!(ops.len(), 1);
    match ops[0] {
        EditorOp::MoveCaret { x, y } => assert_eq!((x, y), (4, 5)),
        _ => panic!("expected a caret move"),
    }
    assert_eq!(doc.focus, Some(text));
}

#[test]
fn checkbox_click_toggles_and_focuses_twice_restores() {
    let mut doc = base_doc();
    let cb = doc.create_node(
        1,
        el("input", &[("type", "checkbox")], NodeSpecificData::CheckboxInput(false)),
        boxed(10, 10, 20, 20),
    );
    doc.handle_click(cb, 15, 15);
    assert!(checked_of(&doc, cb));
    assert_eq!(doc.focus, Some(cb));
    doc.handle_click(cb, 15, 15);
    assert!(!checked_of(&doc, cb));
    assert_eq!(doc.focus, Some(cb));
}

#[test]
fn label_click_toggles_bound_checkbox_and_focuses_label() {
    let mut doc = base_doc();
    let label = doc.create_node(
        1,
        el("label", &[("for", "cb")], NodeSpecificData::Plain),
        boxed(10, 10, 100, 20),
    );
    let cb = doc.create_node(
        1,
        el(
            "input",
            &[("type", "checkbox"), ("id", "cb")],
            NodeSpecificData::CheckboxInput(false),
        ),
        boxed(10, 40, 20, 20),
    );
    doc.handle_click(label, 15, 15);
    assert!(checked_of(&doc, cb));
    assert_eq!(doc.focus, Some(label));
}

#[test]
fn disabled_element_click_changes_nothing() {
    let mut doc = base_doc();
    let cb = doc.create_node(
        1,
        el(
            "input",
            &[("type", "checkbox"), ("disabled", "")],
            NodeSpecificData::CheckboxInput(false),
        ),
        boxed(10, 10, 20, 20),
    );
    doc.set_focus_to(1);
    doc.handle_click(cb, 15, 15);
    assert!(!checked_of(&doc, cb));
    assert_eq!(doc.focus, Some(1));
    assert!(doc.navigations.is_empty());
    assert!(doc.submissions.is_empty());
}

#[test]
fn unmatched_climb_clears_focus() {
    let mut doc = base_doc();
    let a = doc.create_node(1, el("div", &[], NodeSpecificData::Plain), boxed(0, 0, 500, 500));
    let b = doc.create_node(a, el("div", &[], NodeSpecificData::Plain), boxed(0, 0, 400, 400));
    let c = doc.create_node(b, el("span", &[], NodeSpecificData::Plain), boxed(0, 0, 300, 300));
    doc.set_focus_to(c);
    doc.handle_click(c, 5, 5);
    assert_eq!(doc.focus, None);
}

#[test]
fn radio_click_leaves_exactly_one_member_checked() {
    let mut doc = base_doc();
    let mut radios = Vec::new();
    for k in 0..3 {
        let r = doc.create_node(
            1,
            el("input", &[("type", "radio"), ("name", "g")], NodeSpecificData::CheckboxInput(k == 0)),
            boxed(10, 10 + 30 * k as i64, 20, 20),
        );
        radios.push(r);
    }
    doc.handle_click(radios[1], 15, 45);
    assert_eq!(
        radios.iter().map(|r| checked_of(&doc, *r)).collect::<Vec<_>>(),
        vec![false, true, false]
    );
    assert_eq!(doc.focus, Some(radios[1]));
    doc.handle_click(radios[2], 15, 75);
    assert_eq!(
        radios.iter().map(|r| checked_of(&doc, *r)).collect::<Vec<_>>(),
        vec![false, false, true]
    );
}

#[test]
fn link_click_navigates_with_resolved_url() {
    let mut doc = base_doc();
    doc.set_base_url(Some("https://example.com/".to_string()));
    let a = doc.create_node(
        1,
        el("a", &[("href", "/foo")], NodeSpecificData::Plain),
        boxed(10, 10, 100, 20),
    );
    doc.handle_click(a, 15, 15);
    assert_eq!(doc.navigations.len(), 1);
    assert_eq!(doc.navigations[0].url, "https://example.com/foo");
    assert_eq!(doc.navigations[0].content_type, "text/plain");
    assert_eq!(doc.navigations[0].source_document, 7);
}

#[test]
fn relative_link_resolution_goes_through_the_base() {
    let mut doc = base_doc();
    doc.set_base_url(Some("https://example.com/a/b".to_string()));
    let a = doc.create_node(
        1,
        el("a", &[("href", "../c")], NodeSpecificData::Plain),
        boxed(10, 10, 100, 20),
    );
    doc.handle_click(a, 15, 15);
    assert_eq!(doc.navigations[0].url, "https://example.com/c");
}

#[test]
fn unresolvable_href_is_consumed_without_navigating() {
    let mut doc = base_doc();
    // no base URL, and the href is not an absolute URL
    let a = doc.create_node(
        1,
        el("a", &[("href", "/foo")], NodeSpecificData::Plain),
        boxed(10, 10, 100, 20),
    );
    doc.set_focus_to(a);
    doc.handle_click(a, 15, 15);
    assert!(doc.navigations.is_empty());
    // the click counts as handled: no climb, so the focus is not cleared
    assert_eq!(doc.focus, Some(a));
}

#[test]
fn submit_button_records_submission_and_climb_continues() {
    let mut doc = base_doc();
    let form = doc.create_node(1, el("form", &[], NodeSpecificData::Plain), boxed(0, 0, 500, 500));
    let button = doc.create_node(form, el("button", &[], NodeSpecificData::Plain), boxed(10, 10, 50, 20));
    doc.set_form_owner(button, form);
    doc.handle_click(button, 15, 15);
    assert_eq!(doc.submissions.len(), 1);
    assert_eq!(doc.submissions[0].form, form);
    assert_eq!(doc.submissions[0].submitter, button);
    // nothing above the button matched, so the climb cleared the focus
    assert_eq!(doc.focus, None);
}

#[test]
fn parse_usize_accepts_decimals_and_rejects_junk() {
    assert_eq!(pointer_events::bridge::parse_usize("42"), Some(42));
    assert_eq!(pointer_events::bridge::parse_usize("0"), Some(0));
    assert_eq!(pointer_events::bridge::parse_usize(""), None);
    assert_eq!(pointer_events::bridge::parse_usize("4x2"), None);
    assert_eq!(pointer_events::bridge::parse_usize("99999999999999999999999999"), None);
}

#[test]
fn form_data_collects_checked_named_checkboxes() {
    let mut doc = base_doc();
    let form = doc.create_node(1, el("form", &[], NodeSpecificData::Plain), boxed(0, 0, 500, 500));
    let cb1 = doc.create_node(
        form,
        el(
            "input",
            &[("type", "checkbox"), ("name", "a")],
            NodeSpecificData::CheckboxInput(true),
        ),
        boxed(10, 10, 20, 20),
    );
    let _cb2 = doc.create_node(
        form,
        el(
            "input",
            &[("type", "checkbox"), ("name", "b"), ("value", "vee")],
            NodeSpecificData::CheckboxInput(false),
        ),
        boxed(10, 40, 20, 20),
    );
    let chain = doc.node_chain(cb1);
    let element = match &doc.nodes[cb1].data {
        NodeData::Element(e) => e.clone(),
        _ => panic!("expected an element"),
    };
    let fd = doc.input_event_form_data(&chain, &element);
    assert_eq!(fd.value, "true");
    // only the checked, named checkbox contributes; its value defaults to `on`
    assert_eq!(fd.values.len(), 1);
    assert_eq!(fd.values[0].name, "a");
    assert_eq!(fd.values[0].value, "on");
}

#[test]
fn label_click_dispatch_raises_one_click_and_one_input_for_the_checkbox() {
    let mut doc = base_doc();
    let form = doc.create_node(1, el("form", &[], NodeSpecificData::Plain), boxed(0, 0, 500, 500));
    let label = doc.create_node(
        form,
        el("label", &[("for", "cb"), ("data-dioxus-id", "2")], NodeSpecificData::Plain),
        boxed(10, 10, 100, 20),
    );
    let cb = doc.create_node(
        form,
        el(
            "input",
            &[("type", "checkbox"), ("id", "cb"), ("name", "n"), ("data-dioxus-id", "3")],
            NodeSpecificData::CheckboxInput(false),
        ),
        boxed(10, 40, 20, 20),
    );
    let event = DomEvent {
        target: label,
        bubbles: true,
        cancelable: true,
        data: EventData::Click { x: 15, y: 15 },
    };
    let responses: Vec<HandlerResponse> = Vec::new();
    let trace = doc.handle_event(&event, &responses);
    assert!(checked_of(&doc, cb));
    assert_eq!(doc.focus, Some(label));
    let cb_clicks = trace
        .iter()
        .filter(|e| e.kind == FrameworkEventKind::Click && e.target == 3)
        .count();
    let cb_inputs = trace
        .iter()
        .filter(|e| e.kind == FrameworkEventKind::Input && e.target == 3)
        .count();
    assert_eq!(cb_clicks, 1);
    assert_eq!(cb_inputs, 1);
    // the snapshot was taken after the toggle
    let input_ev = trace
        .iter()
        .find(|e| e.kind == FrameworkEventKind::Input)
        .unwrap();
    let fd = input_ev.form.as_ref().unwrap();
    assert_eq!(fd.values.len(), 1);
    assert_eq!(fd.values[0].name, "n");
}

#[test]
fn prevented_click_dispatch_runs_no_default() {
    let mut doc = base_doc();
    let cb = doc.create_node(
        1,
        el(
            "input",
            &[("type", "checkbox"), ("data-dioxus-id", "1")],
            NodeSpecificData::CheckboxInput(false),
        ),
        boxed(10, 10, 20, 20),
    );
    let event = DomEvent {
        target: cb,
        bubbles: true,
        cancelable: true,
        data: EventData::Click { x: 15, y: 15 },
    };
    let responses = vec![HandlerResponse {
        prevent_default: true,
        stop_propagation: false,
    }];
    let trace = doc.handle_event(&event, &responses);
    assert!(!checked_of(&doc, cb));
    assert_eq!(doc.focus, None);
    assert_eq!(trace.len(), 1);
    assert_eq!(trace[0].kind, FrameworkEventKind::Click);
}

#[test]
fn keypress_dispatch_raises_keydown_keypress_and_input() {
    let mut doc = base_doc();
    let text = doc.create_node(
        1,
        el(
            "input",
            &[("type", "text"), ("data-dioxus-id", "5")],
            NodeSpecificData::TextInput(pointer_events::node::TextInputState {
                text: "ab".to_string(),
                ops: Vec::new(),
            }),
        ),
        boxed(10, 10, 100, 20),
    );
    let event = DomEvent {
        target: text,
        bubbles: true,
        cancelable: true,
        data: EventData::KeyPress {
            pressed: true,
            text: Some("c".to_string()),
        },
    };
    let responses: Vec<HandlerResponse> = Vec::new();
    let trace = doc.handle_event(&event, &responses);
    let kinds: Vec<FrameworkEventKind> = trace.iter().map(|e| e.kind).collect();
    assert_eq!(
        kinds,
        vec![
            FrameworkEventKind::KeyDown,
            FrameworkEventKind::KeyPress,
            FrameworkEventKind::Input
        ]
    );
    let ops = ops_of(&doc, text);
    assert_eq!(ops.len(), 1);
    match &ops[0] {
        EditorOp::KeyInput { text: t } => assert_eq!(t, "c"),
        _ => panic!("expected a key input operation"),
    }
}

#[test]
fn node_chain_runs_from_target_to_root() {
    let mut doc = base_doc();
    let a = doc.create_node(1, el("div", &[], NodeSpecificData::Plain), boxed(0, 0, 500, 500));
    let b = doc.create_node(a, el("span", &[], NodeSpecificData::Plain), boxed(0, 0, 400, 400));
    assert_eq!(doc.node_chain(b), vec![b, a, 1, 0]);
}

#[test]
fn resolve_url_joins_against_the_base() {
    let base = Some("https://example.com/a/b".to_string());
    assert_eq!(
        pointer_events::urlres::resolve_url(&base, "../c").as_deref(),
        Some("https://example.com/c")
    );
    assert_eq!(pointer_events::urlres::resolve_url(&None, "nonsense"), None);
    assert_eq!(
        pointer_events::urlres::resolve_url(&None, "https://example.org/x").as_deref(),
        Some("https://example.org/x")
    );
}

#[test]
fn text_input_click_is_consumed_without_action() {
    let mut doc = base_doc();
    let text = doc.create_node(
        1,
        el(
            "input",
            &[("type", "text")],
            NodeSpecificData::TextInput(pointer_events::node::TextInputState {
                text: String::new(),
                ops: Vec::new(),
            }),
        ),
        boxed(10, 10, 100, 20),
    );
    doc.set_focus_to(1);
    doc.handle_click(text, 15, 15);
    // clicks place no caret at this layer, and the focus is untouched
    assert!(ops_of(&doc, text).is_empty());
    assert_eq!(doc.focus, Some(1));
}
