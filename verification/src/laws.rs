//! Laws of the click dispatch: what clicking guarantees across calls.
//!
//! The framing notion here is a document's *shape*: everything except the
//! mutable per-node interaction state (checked flags, editor state) and
//! the recorded actions.  Clicks change only state, never shape, so the
//! hit test and the climb's decision are the same before and after a
//! click; the laws about repeated clicks follow.
use vstd::prelude::*;
use crate::document::{
    Document, spec_bound_inputs, spec_input_descendants, spec_desc_children, inputs_with_id_upto,
    input_with_id, is_input, spec_radio_member, spec_radio_update, spec_set_checked,
};
use crate::geom::box_contains;
use crate::hit::{spec_hit, spec_hit_from, spec_hit_children, lemma_hit_inside_box};
use crate::mouse::{
    ClickOutcome, click_outcome_from, click_climb, click_transition, click_submissions_from,
    anchor_href, spec_toggle_node, radio_name_ok_from, radio_name_ok_climb, click_ok,
};
use crate::node::{Node, NodeData, NodeSpecificData};

verus! {

/// Two nodes of one shape: equal but for the interaction state inside
/// their variant payload.
pub open spec fn node_shape_eq(a: Node, b: Node) -> bool {
    &&& b.id == a.id
    &&& b.parent == a.parent
    &&& b.layout_parent == a.layout_parent
    &&& b.children == a.children
    &&& b.layout == a.layout
    &&& match (a.data, b.data) {
        (NodeData::Element(e1), NodeData::Element(e2)) => {
            &&& e2.name == e1.name
            &&& e2.attrs == e1.attrs
            &&& match (e1.node_specific_data, e2.node_specific_data) {
                (NodeSpecificData::Plain, NodeSpecificData::Plain) => true,
                (NodeSpecificData::TextInput(_), NodeSpecificData::TextInput(_)) => true,
                (NodeSpecificData::CheckboxInput(_), NodeSpecificData::CheckboxInput(_)) => true,
                _ => false,
            }
        },
        (NodeData::Document, NodeData::Document) => true,
        (NodeData::Text(t1), NodeData::Text(t2)) => t1 == t2,
        _ => false,
    }
}

/// Two documents of one shape.
pub open spec fn doc_shape_eq(d1: Document, d2: Document) -> bool {
    &&& d1.nodes@.len() == d2.nodes@.len()
    &&& forall|j: int|
        0 <= j < d1.nodes@.len() ==> node_shape_eq(#[trigger] d1.nodes@[j], d2.nodes@[j])
    &&& d2.base_url == d1.base_url
    &&& d2.controls_to_form == d1.controls_to_form
}

/// Equal-shape documents agree on every element classification.
pub proof fn lemma_shape_preds(d1: Document, d2: Document)
    requires
        doc_shape_eq(d1, d2),
    ensures
        forall|id: int| d1.is_element(id) == d2.is_element(id),
        forall|id: int| d1.is_disabled(id) == d2.is_disabled(id),
        forall|id: int| d1.is_text_input(id) == d2.is_text_input(id),
        forall|id: int| d1.is_checkbox(id) == d2.is_checkbox(id),
        forall|id: int| d1.is_radio(id) == d2.is_radio(id),
        forall|id: int| d1.is_label(id) == d2.is_label(id),
        forall|id: int| d1.is_anchor(id) == d2.is_anchor(id),
        forall|id: int| d1.is_form(id) == d2.is_form(id),
        forall|id: int| d1.radio_group(id) == d2.radio_group(id),
        forall|id: int| anchor_href(d1, id) == anchor_href(d2, id),
{
    assert forall|id: int| d1.is_element(id) == d2.is_element(id) && d1.is_disabled(id)
        == d2.is_disabled(id) && d1.is_text_input(id) == d2.is_text_input(id) && d1.is_checkbox(id)
        == d2.is_checkbox(id) && d1.is_radio(id) == d2.is_radio(id) && d1.is_label(id)
        == d2.is_label(id) && d1.is_anchor(id) == d2.is_anchor(id) && d1.is_form(id)
        == d2.is_form(id) && d1.radio_group(id) == d2.radio_group(id) && anchor_href(d1, id)
        == anchor_href(d2, id) by {
        if 0 <= id < d1.nodes@.len() {
            assert(node_shape_eq(d1.nodes@[id], d2.nodes@[id]));
        }
    }
}

/// Equal-shape documents agree on hit testing.
pub proof fn lemma_shape_hit_from(d1: Document, d2: Document, id: int, x: int, y: int)
    requires
        doc_shape_eq(d1, d2),
    ensures
        spec_hit_from(d1, id, x, y) == spec_hit_from(d2, id, x, y),
    decreases d1.nodes@.len() - id, 1int, 0int,
{
    if 0 <= id < d1.nodes@.len() {
        assert(node_shape_eq(d1.nodes@[id], d2.nodes@[id]));
        lemma_shape_hit_children(d1, d2, id, d1.nodes@[id].children@.len() as int, x, y);
    }
}

pub proof fn lemma_shape_hit_children(d1: Document, d2: Document, id: int, k: int, x: int, y: int)
    requires
        doc_shape_eq(d1, d2),
    ensures
        spec_hit_children(d1, id, k, x, y) == spec_hit_children(d2, id, k, x, y),
    decreases d1.nodes@.len() - id, 0int, k,
{
    if 0 <= id < d1.nodes@.len() {
        assert(node_shape_eq(d1.nodes@[id], d2.nodes@[id]));
        if 0 < k <= d1.nodes@[id].children@.len() {
            let c = d1.nodes@[id].children@[k - 1] as int;
            if id < c < d1.nodes@.len() {
                assert(node_shape_eq(d1.nodes@[c], d2.nodes@[c]));
                lemma_shape_hit_from(
                    d1,
                    d2,
                    c,
                    x - d1.nodes@[c].layout.location.x,
                    y - d1.nodes@[c].layout.location.y,
                );
            }
            lemma_shape_hit_children(d1, d2, id, k - 1, x, y);
        }
    }
}

proof fn lemma_shape_inputs_upto(d1: Document, d2: Document, idv: Seq<char>, n: int)
    requires
        doc_shape_eq(d1, d2),
    ensures
        inputs_with_id_upto(d1, idv, n) == inputs_with_id_upto(d2, idv, n),
    decreases n,
{
    if n > 0 {
        lemma_shape_inputs_upto(d1, d2, idv, n - 1);
        if 0 <= n - 1 < d1.nodes@.len() {
            assert(node_shape_eq(d1.nodes@[n - 1], d2.nodes@[n - 1]));
        }
        assert(input_with_id(d1, n - 1, idv) == input_with_id(d2, n - 1, idv));
    }
}

proof fn lemma_shape_input_descendants(d1: Document, d2: Document, id: int)
    requires
        doc_shape_eq(d1, d2),
    ensures
        spec_input_descendants(d1, id) == spec_input_descendants(d2, id),
    decreases d1.nodes@.len() - id, 1int, 0int,
{
    if 0 <= id < d1.nodes@.len() {
        assert(node_shape_eq(d1.nodes@[id], d2.nodes@[id]));
        lemma_shape_desc_children(d1, d2, id, d1.nodes@[id].children@.len() as int);
    }
}

proof fn lemma_shape_desc_children(d1: Document, d2: Document, id: int, k: int)
    requires
        doc_shape_eq(d1, d2),
    ensures
        spec_desc_children(d1, id, k) == spec_desc_children(d2, id, k),
    decreases d1.nodes@.len() - id, 0int, k,
{
    if 0 <= id < d1.nodes@.len() {
        assert(node_shape_eq(d1.nodes@[id], d2.nodes@[id]));
        if 0 < k <= d1.nodes@[id].children@.len() {
            let c = d1.nodes@[id].children@[k - 1] as int;
            if id < c < d1.nodes@.len() {
                assert(node_shape_eq(d1.nodes@[c], d2.nodes@[c]));
                lemma_shape_input_descendants(d1, d2, c);
                assert(is_input(d1, c) == is_input(d2, c));
            }
            lemma_shape_desc_children(d1, d2, id, k - 1);
        }
    }
}

pub proof fn lemma_shape_bound_inputs(d1: Document, d2: Document, label: int)
    requires
        doc_shape_eq(d1, d2),
    ensures
        spec_bound_inputs(d1, label) == spec_bound_inputs(d2, label),
{
    if 0 <= label < d1.nodes@.len() {
        assert(node_shape_eq(d1.nodes@[label], d2.nodes@[label]));
    }
    match d1.elem(label) {
        Some(el) => match el.spec_attr("for"@) {
            Some(f) => {
                lemma_shape_inputs_upto(d1, d2, f, d1.nodes@.len() as int);
            },
            None => {
                lemma_shape_input_descendants(d1, d2, label);
            },
        },
        None => {},
    }
}

/// Equal-shape documents agree on the climb's decision.
pub proof fn lemma_shape_outcome(d1: Document, d2: Document, id: int)
    requires
        doc_shape_eq(d1, d2),
    ensures
        click_outcome_from(d1, id) == click_outcome_from(d2, id),
        radio_name_ok_from(d1, id) == radio_name_ok_from(d2, id),
    decreases id, 1int,
{
    if 0 <= id < d1.nodes@.len() {
        assert(node_shape_eq(d1.nodes@[id], d2.nodes@[id]));
        lemma_shape_preds(d1, d2);
        lemma_shape_bound_inputs(d1, d2, id);
        lemma_shape_climb(d1, d2, id);
    }
}

proof fn lemma_shape_climb(d1: Document, d2: Document, id: int)
    requires
        doc_shape_eq(d1, d2),
        0 <= id < d1.nodes@.len(),
    ensures
        click_climb(d1, id) == click_climb(d2, id),
        radio_name_ok_climb(d1, id) == radio_name_ok_climb(d2, id),
    decreases id, 0int,
{
    assert(node_shape_eq(d1.nodes@[id], d2.nodes@[id]));
    match d1.nodes@[id].layout_parent {
        Some(p) => {
            if (p as int) < id {
                lemma_shape_outcome(d1, d2, p as int);
            }
        },
        None => {},
    }
}

/// A click changes interaction state only, never the document's shape.
pub proof fn lemma_click_keeps_shape(pre: Document, post: Document, x: int, y: int)
    requires
        pre.wf(),
        click_transition(pre, post, x, y),
    ensures
        doc_shape_eq(pre, post),
{
    match spec_hit(pre, x, y) {
        None => {
            assert forall|j: int| 0 <= j < pre.nodes@.len() implies node_shape_eq(
                #[trigger] pre.nodes@[j],
                post.nodes@[j],
            ) by {
                assert(post.nodes@[j] == pre.nodes@[j]);
            }
        },
        Some(h) => {
            lemma_outcome_radio(pre, h.0);
            match click_outcome_from(pre, h.0) {
                ClickOutcome::ToggleCheckbox(n) => {
                    assert forall|j: int| 0 <= j < pre.nodes@.len() implies node_shape_eq(
                        #[trigger] pre.nodes@[j],
                        post.nodes@[j],
                    ) by {
                        if j == n as int {
                            assert(post.nodes@[j] == spec_toggle_node(pre.nodes@[j]));
                        } else {
                            assert(post.nodes@[j] == pre.nodes@[j]);
                        }
                    }
                },
                ClickOutcome::ToggleRadio(n) => {
                    let g = pre.radio_group(n as int).unwrap();
                    assert forall|j: int| 0 <= j < pre.nodes@.len() implies node_shape_eq(
                        #[trigger] pre.nodes@[j],
                        post.nodes@[j],
                    ) by {
                        assert(post.nodes@[j] == spec_radio_update(pre.nodes@, g, n)[j]);
                        if spec_radio_member(pre.nodes@[j], g) {
                            assert(post.nodes@[j] == spec_set_checked(pre.nodes@[j], j == n));
                        } else {
                            assert(post.nodes@[j] == pre.nodes@[j]);
                        }
                    }
                },
                ClickOutcome::LabelToggle { label, bound } => {
                    crate::document::lemma_bound_inputs_in_range(pre, label as int);
                    assert forall|j: int| 0 <= j < pre.nodes@.len() implies node_shape_eq(
                        #[trigger] pre.nodes@[j],
                        post.nodes@[j],
                    ) by {
                        if j == bound as int {
                            assert(post.nodes@[j] == spec_toggle_node(pre.nodes@[j]));
                        } else {
                            assert(post.nodes@[j] == pre.nodes@[j]);
                        }
                    }
                },
                _ => {
                    assert forall|j: int| 0 <= j < pre.nodes@.len() implies node_shape_eq(
                        #[trigger] pre.nodes@[j],
                        post.nodes@[j],
                    ) by {
                        assert(post.nodes@[j] == pre.nodes@[j]);
                    }
                },
            }
        },
    }
}

/// A point that no node's box contains is hit by no node, and clicking
/// there only clears the focus.
pub proof fn lemma_click_outside_boxes(pre: Document, post: Document, x: int, y: int)
    requires
        pre.wf(),
        spec_hit(pre, x, y) is None,
        click_transition(pre, post, x, y),
    ensures
        post == (Document { focus: None::<usize>, ..pre }),
{
}

/// Clicking a checkbox toggles it and focuses it; clicking it twice
/// returns the checked flag to where it began.
pub proof fn lemma_checkbox_click_pair(
    d1: Document,
    d2: Document,
    d3: Document,
    x: int,
    y: int,
    n: usize,
)
    requires
        d1.wf(),
        spec_hit(d1, x, y) matches Some(h) && click_outcome_from(d1, h.0)
            == ClickOutcome::ToggleCheckbox(n),
        d1.elem(n as int) matches Some(el) && el.node_specific_data is CheckboxInput,
        n < d1.nodes@.len(),
        click_transition(d1, d2, x, y),
        click_transition(d2, d3, x, y),
    ensures
        d2.checked(n as int) == !d1.checked(n as int),
        d2.focus == Some(n),
        d3.checked(n as int) == d1.checked(n as int),
        d3.focus == Some(n),
{
    let h = spec_hit(d1, x, y).unwrap();
    lemma_click_keeps_shape(d1, d2, x, y);
    lemma_shape_hit_from(d1, d2, 0, x, y);
    lemma_shape_outcome(d1, d2, h.0);
    assert(d2.nodes@[n as int] == spec_toggle_node(d1.nodes@[n as int]));
    assert(d3.nodes@[n as int] == spec_toggle_node(d2.nodes@[n as int]));
}

/// Clicking a label bound to a checkbox toggles the bound checkbox and
/// focuses the label itself, not the checkbox.
pub proof fn lemma_label_click(
    d1: Document,
    d2: Document,
    x: int,
    y: int,
    label: usize,
    bound: usize,
)
    requires
        d1.wf(),
        spec_hit(d1, x, y) matches Some(h) && click_outcome_from(d1, h.0)
            == (ClickOutcome::LabelToggle { label, bound }),
        bound < d1.nodes@.len(),
        d1.elem(bound as int) matches Some(el) && el.node_specific_data is CheckboxInput,
        click_transition(d1, d2, x, y),
    ensures
        d2.focus == Some(label),
        d2.checked(bound as int) == !d1.checked(bound as int),
{
    assert(d2.nodes@[bound as int] == spec_toggle_node(d1.nodes@[bound as int]));
}

/// Clicking a disabled element changes nothing: no focus change, no
/// toggling, no recorded action.
pub proof fn lemma_disabled_click_no_change(d1: Document, d2: Document, x: int, y: int)
    requires
        d1.wf(),
        spec_hit(d1, x, y) matches Some(h) && d1.is_element(h.0) && d1.is_disabled(h.0),
        click_transition(d1, d2, x, y),
    ensures
        d2.nodes == d1.nodes,
        d2.focus == d1.focus,
        d2.navigations == d1.navigations,
        d2.submissions@ == d1.submissions@,
{
    let h = spec_hit(d1, x, y).unwrap();
    lemma_hit_inside_box(d1, 0, x, y);
    assert(click_outcome_from(d1, h.0) == ClickOutcome::Disabled);
    assert(click_submissions_from(d1, h.0) =~= Seq::<crate::document::FormSubmission>::empty());
    assert(d2.submissions@ =~= d1.submissions@);
}

/// A click that matches no behaviour anywhere on the ancestor chain
/// clears the focus and changes nothing else; the climb itself terminates
/// because every layout parent has a strictly smaller id.
pub proof fn lemma_unmatched_click_clears_focus(d1: Document, d2: Document, x: int, y: int)
    requires
        d1.wf(),
        click_transition(d1, d2, x, y),
        match spec_hit(d1, x, y) {
            Some(h) => click_outcome_from(d1, h.0) == ClickOutcome::ClearFocus,
            None => true,
        },
    ensures
        d2.focus is None,
        d2.nodes == d1.nodes,
        d2.navigations == d1.navigations,
{
}

/// Selecting a radio leaves exactly one member of its group checked: the
/// clicked one.  Every later click that resolves to a member of the same
/// group re-establishes this by the same argument, so any sequence of
/// such clicks leaves exactly one member checked.
pub proof fn lemma_radio_click_exactly_one(
    d1: Document,
    d2: Document,
    x: int,
    y: int,
    n: usize,
    g: Seq<char>,
)
    requires
        d1.wf(),
        spec_hit(d1, x, y) matches Some(h) && click_outcome_from(d1, h.0)
            == ClickOutcome::ToggleRadio(n),
        d1.radio_group(n as int) == Some(g),
        n < d1.nodes@.len(),
        d1.elem(n as int) matches Some(el) && el.node_specific_data is CheckboxInput,
        click_transition(d1, d2, x, y),
    ensures
        spec_radio_member(d2.nodes@[n as int], g),
        d2.checked(n as int),
        forall|j: int|
            0 <= j < d2.nodes@.len() && spec_radio_member(#[trigger] d2.nodes@[j], g) ==> (
            d2.checked(j) <==> j == n as int),
        forall|j: int|
            0 <= j < d2.nodes@.len() && !spec_radio_member(#[trigger] d1.nodes@[j], g)
                ==> d2.nodes@[j] == d1.nodes@[j],
{
    lemma_outcome_radio(d1, spec_hit(d1, x, y).unwrap().0);
    assert(d1.is_radio(n as int));
    assert(spec_radio_member(d1.nodes@[n as int], g));
    assert forall|j: int|
        0 <= j < d2.nodes@.len() && spec_radio_member(#[trigger] d2.nodes@[j], g) implies (
    d2.checked(j) <==> j == n as int) by {
        assert(d2.nodes@[j] == spec_radio_update(d1.nodes@, g, n)[j]);
        if spec_radio_member(d1.nodes@[j], g) {
            assert(d2.nodes@[j] == spec_set_checked(d1.nodes@[j], j == n as int));
        } else {
            assert(d2.nodes@[j] == d1.nodes@[j]);
        }
    }
    assert(d2.nodes@[n as int] == spec_set_checked(d1.nodes@[n as int], true));
}

/// A climb that decides on a radio decided on a real radio node.
pub proof fn lemma_outcome_radio(d: Document, id: int)
    requires
        d.wf(),
    ensures
        click_outcome_from(d, id) matches ClickOutcome::ToggleRadio(n) ==> n < d.nodes@.len()
            && d.is_radio(n as int),
        click_outcome_from(d, id) matches ClickOutcome::ToggleCheckbox(n) ==> n < d.nodes@.len()
            && d.is_checkbox(n as int),
        click_outcome_from(d, id) matches ClickOutcome::LabelToggle { label, bound } ==> label
            < d.nodes@.len() && d.is_label(label as int) && spec_bound_inputs(
            d,
            label as int,
        ).len() > 0 && bound == spec_bound_inputs(d, label as int)[0],
    decreases id, 1int,
{
    if 0 <= id < d.nodes@.len() {
        lemma_outcome_radio_climb(d, id);
    }
}

proof fn lemma_outcome_radio_climb(d: Document, id: int)
    requires
        d.wf(),
        0 <= id < d.nodes@.len(),
    ensures
        click_climb(d, id) matches ClickOutcome::ToggleRadio(n) ==> n < d.nodes@.len()
            && d.is_radio(n as int),
        click_climb(d, id) matches ClickOutcome::ToggleCheckbox(n) ==> n < d.nodes@.len()
            && d.is_checkbox(n as int),
        click_climb(d, id) matches ClickOutcome::LabelToggle { label, bound } ==> label
            < d.nodes@.len() && d.is_label(label as int) && spec_bound_inputs(
            d,
            label as int,
        ).len() > 0 && bound == spec_bound_inputs(d, label as int)[0],
    decreases id, 0int,
{
    match d.nodes@[id].layout_parent {
        Some(p) => {
            if (p as int) < id {
                lemma_outcome_radio(d, p as int);
            }
        },
        None => {},
    }
}

/// The one demand a click makes of its document survives any click: the
/// radio-name condition depends only on the document's shape.
pub proof fn lemma_click_keeps_click_ok(pre: Document, post: Document, x: int, y: int)
    requires
        pre.wf(),
        click_ok(pre, x, y),
        click_transition(pre, post, x, y),
    ensures
        click_ok(post, x, y),
{
    lemma_click_keeps_shape(pre, post, x, y);
    lemma_shape_hit_from(pre, post, 0, x, y);
    match spec_hit(post, x, y) {
        Some(h) => {
            lemma_shape_outcome(pre, post, h.0);
        },
        None => {},
    }
}

/// Equal-shape documents agree on framework bindings and bubble chains.
pub proof fn lemma_shape_bindings(d1: Document, d2: Document)
    requires
        doc_shape_eq(d1, d2),
    ensures
        forall|id: int|
            crate::bridge::node_dioxus_id(d1, id) == crate::bridge::node_dioxus_id(d2, id),
{
    assert forall|id: int|
        crate::bridge::node_dioxus_id(d1, id) == crate::bridge::node_dioxus_id(d2, id) by {
        if 0 <= id < d1.nodes@.len() {
            assert(node_shape_eq(d1.nodes@[id], d2.nodes@[id]));
        }
    }
}

/// The default key action changes interaction state only.
pub proof fn lemma_keydefault_keeps_shape(pre: Document, post: Document, node: usize, text: Seq<char>)
    requires
        crate::bridge::keydefault_transition(pre, post, node, text),
    ensures
        doc_shape_eq(pre, post),
{
    if pre.is_text_input(node as int) {
        assert forall|j: int| 0 <= j < pre.nodes@.len() implies node_shape_eq(
            #[trigger] pre.nodes@[j],
            post.nodes@[j],
        ) by {
            if j == node as int {
                assert(crate::mouse::text_op_pushed(pre.nodes@[j], post.nodes@[j]));
            } else {
                assert(post.nodes@[j] == pre.nodes@[j]);
            }
        }
    } else {
        assert forall|j: int| 0 <= j < pre.nodes@.len() implies node_shape_eq(
            #[trigger] pre.nodes@[j],
            post.nodes@[j],
        ) by {
            assert(post.nodes@[j] == pre.nodes@[j]);
        }
    }
}

} // verus!
