//! Pointer event handlers: move, down, click.
//!
//! Move and down validate that the hit test still lands on the supplied
//! target, then drive the text editor (drag-select, caret placement).
//! Click re-runs the hit test and climbs the ancestor chain until a node
//! with a default behaviour is found: checkbox and radio toggling, label
//! forwarding, link navigation, form submission; an exhausted climb clears
//! the focus.  A form-submitting control records its submission and the
//! climb then continues, as does a label without a bound input and an
//! anchor without an `href`.
use vstd::prelude::*;
use crate::geom::{COORD_LIMIT, NODE_LIMIT, SCALE_LIMIT, scale_coord};
use crate::document::{
    Document, FormSubmission, spec_bound_inputs, spec_toggle_el, spec_radio_update,
    toggle_checkbox,
};
use crate::hit::{HitResult, parent_hit, point_bound, spec_hit};
use crate::node::{EditorOp, Node, NodeData, NodeSpecificData};
use crate::urlres::{opt_string_view, resolve_url, spec_resolve_url};

verus! {

/// Largest coordinate magnitude that the scaler accepts; every point a
/// hit test can produce lies far inside it.
pub const SCALE_IN_LIMIT: i64 = 0x10_0000_0000_0000;

/// Scale a coordinate by the ratio `num / den`, truncating toward zero.
pub fn scale_value(v: i64, num: i64, den: i64) -> (r: i64)
    requires
        1 <= den <= SCALE_LIMIT,
        0 <= num <= SCALE_LIMIT,
        -SCALE_IN_LIMIT <= v <= SCALE_IN_LIMIT,
    ensures
        r as int == scale_coord(v as int, num as int, den as int),
{
    if v >= 0 {
        proof {
            assert(v as int * num as int <= SCALE_IN_LIMIT as int * SCALE_LIMIT as int)
                by (nonlinear_arith)
                requires
                    0 <= v as int <= SCALE_IN_LIMIT as int,
                    0 <= num as int <= SCALE_LIMIT as int,
            ;
        }
        let prod: u64 = (v as u64) * (num as u64);
        let q: u64 = prod / (den as u64);
        proof {
            assert(q as int <= prod as int);
        }
        q as i64
    } else {
        proof {
            assert((-v) as int * num as int <= SCALE_IN_LIMIT as int * SCALE_LIMIT as int)
                by (nonlinear_arith)
                requires
                    0 <= (-v) as int <= SCALE_IN_LIMIT as int,
                    0 <= num as int <= SCALE_LIMIT as int,
            ;
        }
        let mag: u64 = ((-v) as u64) * (num as u64);
        let q: u64 = mag / (den as u64);
        proof {
            assert(q as int <= mag as int);
        }
        -(q as i64)
    }
}

/// The x coordinate of a hit point relative to the content box of node
/// `id`, scaled by the viewport ratio.
pub open spec fn content_scaled_x(d: Document, id: int, hx: int) -> int {
    scale_coord(
        hx - (d.nodes@[id].layout.padding.left + d.nodes@[id].layout.border.left),
        d.scale_num as int,
        d.scale_den as int,
    )
}

pub open spec fn content_scaled_y(d: Document, id: int, hy: int) -> int {
    scale_coord(
        hy - (d.nodes@[id].layout.padding.top + d.nodes@[id].layout.border.top),
        d.scale_num as int,
        d.scale_den as int,
    )
}

/// Everything of a node except its data payload.
pub open spec fn same_node_frame(pre: Node, post: Node) -> bool {
    &&& post.id == pre.id
    &&& post.parent == pre.parent
    &&& post.layout_parent == pre.layout_parent
    &&& post.children == pre.children
    &&& post.layout == pre.layout
}

/// The node is a text input and gained exactly one editor operation;
/// nothing else about it changed.
pub open spec fn text_op_pushed(pre: Node, post: Node) -> bool {
    match (pre.data, post.data) {
        (NodeData::Element(e1), NodeData::Element(e2)) => match (
            e1.node_specific_data,
            e2.node_specific_data,
        ) {
            (NodeSpecificData::TextInput(t1), NodeSpecificData::TextInput(t2)) => {
                &&& same_node_frame(pre, post)
                &&& e2.name == e1.name
                &&& e2.attrs == e1.attrs
                &&& t2.text == t1.text
                &&& t2.ops@.len() == t1.ops@.len() + 1
                &&& t2.ops@.subrange(0, t1.ops@.len() as int) == t1.ops@
            },
            _ => false,
        },
        _ => false,
    }
}

/// The last editor operation recorded at a text-input node.
pub open spec fn last_op(node: Node) -> EditorOp {
    match node.data {
        NodeData::Element(e) => match e.node_specific_data {
            NodeSpecificData::TextInput(t) => t.ops@.last(),
            _ => arbitrary(),
        },
        _ => arbitrary(),
    }
}

/// All document fields that no pointer handler ever touches.
pub open spec fn base_frame(pre: Document, post: Document) -> bool {
    &&& post.base_url == pre.base_url
    &&& post.scale_num == pre.scale_num
    &&& post.scale_den == pre.scale_den
    &&& post.controls_to_form == pre.controls_to_form
    &&& post.doc_id == pre.doc_id
}

/// When a mouse move drives the editor: the hit still lands on the
/// target, the target is an enabled text input, and a button is held.
pub open spec fn mousemove_applies(d: Document, target: usize, x: int, y: int, buttons: u8) -> bool {
    &&& spec_hit(d, x, y) matches Some(h) && h.0 == target as int
    &&& !d.is_disabled(target as int)
    &&& d.is_text_input(target as int)
    &&& buttons != 0
}

/// What `handle_mousemove` does: on the applying case it extends the
/// selection of the target's editor to the content-box point; on every
/// other input it is a no-op and reports the event unconsumed.
pub open spec fn mousemove_transition(
    pre: Document,
    post: Document,
    target: usize,
    x: int,
    y: int,
    buttons: u8,
    consumed: bool,
) -> bool {
    if mousemove_applies(pre, target, x, y, buttons) {
        let h = spec_hit(pre, x, y).unwrap();
        &&& consumed
        &&& post.nodes@.len() == pre.nodes@.len()
        &&& text_op_pushed(pre.nodes@[target as int], post.nodes@[target as int])
        &&& (last_op(post.nodes@[target as int]) matches EditorOp::ExtendSelection {
            x: ox,
            y: oy,
        } && ox as int == content_scaled_x(pre, target as int, h.1) && oy as int
            == content_scaled_y(pre, target as int, h.2))
        &&& forall|j: int|
            0 <= j < pre.nodes@.len() && j != target as int ==> post.nodes@[j] == pre.nodes@[j]
        &&& post.focus == pre.focus
        &&& post.navigations == pre.navigations
        &&& post.submissions == pre.submissions
        &&& base_frame(pre, post)
    } else {
        &&& post == pre
        &&& !consumed
    }
}

/// When a mouse down places the caret: like the move case, but without
/// the button requirement.
pub open spec fn mousedown_applies(d: Document, target: usize, x: int, y: int) -> bool {
    &&& spec_hit(d, x, y) matches Some(h) && h.0 == target as int
    &&& !d.is_disabled(target as int)
    &&& d.is_text_input(target as int)
}

/// What `handle_mousedown` does: on the applying case it moves the
/// target's caret to the content-box point and focuses the target; on
/// every other input it is a no-op.
pub open spec fn mousedown_transition(
    pre: Document,
    post: Document,
    target: usize,
    x: int,
    y: int,
) -> bool {
    if mousedown_applies(pre, target, x, y) {
        let h = spec_hit(pre, x, y).unwrap();
        &&& post.nodes@.len() == pre.nodes@.len()
        &&& text_op_pushed(pre.nodes@[target as int], post.nodes@[target as int])
        &&& (last_op(post.nodes@[target as int]) matches EditorOp::MoveCaret {
            x: ox,
            y: oy,
        } && ox as int == content_scaled_x(pre, target as int, h.1) && oy as int
            == content_scaled_y(pre, target as int, h.2))
        &&& forall|j: int|
            0 <= j < pre.nodes@.len() && j != target as int ==> post.nodes@[j] == pre.nodes@[j]
        &&& post.focus == Some(target)
        &&& post.navigations == pre.navigations
        &&& post.submissions == pre.submissions
        &&& base_frame(pre, post)
    } else {
        post == pre
    }
}

impl Document {
    /// Drag-selection: re-validate the hit against `target`; if the target
    /// is an enabled text input and a button is held, extend its selection
    /// to the pointer.  Returns whether the event was consumed.
    pub fn handle_mousemove(&mut self, target: usize, x: i64, y: i64, buttons: u8) -> (consumed:
        bool)
        requires
            old(self).wf(),
            -COORD_LIMIT <= x <= COORD_LIMIT,
            -COORD_LIMIT <= y <= COORD_LIMIT,
        ensures
            final(self).wf(),
            mousemove_transition(
                *old(self),
                *final(self),
                target,
                x as int,
                y as int,
                buttons,
                consumed,
            ),
    {
        let hit = match self.hit(x, y) {
            Some(h) => h,
            None => {
                return false;
            },
        };
        if hit.node_id != target {
            return false;
        }
        let (disabled, is_text) = match &self.nodes[target].data {
            NodeData::Element(el) => (
                el.has_attr("disabled"),
                matches!(el.node_specific_data, NodeSpecificData::TextInput(_)),
            ),
            _ => (false, false),
        };
        if !self.is_element_node(target) || disabled || !is_text || buttons == 0 {
            return false;
        }
        let (sx, sy) = self.content_scaled_point(target, hit.x, hit.y);
        self.push_editor_op(target, EditorOp::ExtendSelection { x: sx, y: sy });
        true
    }

    /// Caret placement: re-validate the hit against `target`; if the
    /// target is an enabled text input, move its caret to the pointer and
    /// focus it.
    pub fn handle_mousedown(&mut self, target: usize, x: i64, y: i64)
        requires
            old(self).wf(),
            -COORD_LIMIT <= x <= COORD_LIMIT,
            -COORD_LIMIT <= y <= COORD_LIMIT,
        ensures
            final(self).wf(),
            mousedown_transition(*old(self), *final(self), target, x as int, y as int),
    {
        let hit = match self.hit(x, y) {
            Some(h) => h,
            None => {
                return ;
            },
        };
        if hit.node_id != target {
            return ;
        }
        let (disabled, is_text) = match &self.nodes[target].data {
            NodeData::Element(el) => (
                el.has_attr("disabled"),
                matches!(el.node_specific_data, NodeSpecificData::TextInput(_)),
            ),
            _ => (false, false),
        };
        if !self.is_element_node(target) || disabled || !is_text {
            return ;
        }
        let (sx, sy) = self.content_scaled_point(target, hit.x, hit.y);
        self.push_editor_op(target, EditorOp::MoveCaret { x: sx, y: sy });
        self.set_focus_to(target);
    }

    /// Whether node `id` is an element node.
    fn is_element_node(&self, id: usize) -> (r: bool)
        requires
            id < self.nodes@.len(),
        ensures
            r == self.is_element(id as int),
    {
        matches!(&self.nodes[id].data, NodeData::Element(_))
    }

    /// The hit point relative to node `id`'s content box, scaled by the
    /// viewport ratio.
    fn content_scaled_point(&self, id: usize, hx: i64, hy: i64) -> (r: (i64, i64))
        requires
            self.wf(),
            id < self.nodes@.len(),
            point_bound(id as int, hx as int),
            point_bound(id as int, hy as int),
        ensures
            r.0 as int == content_scaled_x(*self, id as int, hx as int),
            r.1 as int == content_scaled_y(*self, id as int, hy as int),
    {
        proof {
            assert(COORD_LIMIT * (2 + id as int) + 2 * COORD_LIMIT <= SCALE_IN_LIMIT)
                by (nonlinear_arith)
                requires
                    0 <= id as int <= NODE_LIMIT as int,
            ;
        }
        let node = &self.nodes[id];
        let offx = node.layout.padding.left + node.layout.border.left;
        let offy = node.layout.padding.top + node.layout.border.top;
        let sx = scale_value(hx - offx, self.scale_num, self.scale_den);
        let sy = scale_value(hy - offy, self.scale_num, self.scale_den);
        (sx, sy)
    }

    /// Hand one operation to the text editor owned by node `id`.
    pub(crate) fn push_editor_op(&mut self, id: usize, op: EditorOp)
        requires
            old(self).wf(),
            id < old(self).nodes@.len(),
            old(self).is_text_input(id as int),
        ensures
            final(self).wf(),
            final(self).nodes@.len() == old(self).nodes@.len(),
            text_op_pushed(old(self).nodes@[id as int], final(self).nodes@[id as int]),
            last_op(final(self).nodes@[id as int]) == op,
            forall|j: int|
                0 <= j < old(self).nodes@.len() && j != id as int ==> final(self).nodes@[j] == old(
                    self,
                ).nodes@[j],
            final(self).focus == old(self).focus,
            final(self).navigations == old(self).navigations,
            final(self).submissions == old(self).submissions,
            base_frame(*old(self), *final(self)),
    {
        let node = &mut self.nodes[id];
        match &mut node.data {
            NodeData::Element(el) => {
                match &mut el.node_specific_data {
                    NodeSpecificData::TextInput(t) => {
                        t.ops.push(op);
                        proof {
                            assert(t.ops@.subrange(0, t.ops@.len() - 1) =~= old(
                                self,
                            ).nodes@[id as int].data->Element_0.node_specific_data->TextInput_0.ops@);
                        }
                    },
                    _ => {},
                }
            },
            _ => {},
        }
        proof {
            let n = self.nodes@.len() as int;
            assert forall|i: int| 0 <= i < n implies crate::node::node_wf(
                #[trigger] self.nodes@[i],
                i,
                n,
            ) by {
                assert(old(self).wf());
                assert(crate::node::node_wf(old(self).nodes@[i], i, n));
                if i == id as int {
                    assert(same_node_frame(old(self).nodes@[i], self.nodes@[i]));
                }
            }
        }
    }
}

/// The terminal decision of the click climb, starting at the hit node.
pub enum ClickOutcome {
    /// The examined element is disabled: abort with no action.
    Disabled,
    /// The examined element is a text input: click does nothing here.
    TextInput,
    /// Toggle this checkbox and focus it.
    ToggleCheckbox(usize),
    /// Select this radio within its group and focus it.
    ToggleRadio(usize),
    /// Toggle the label's first bound input and focus the label.
    LabelToggle { label: usize, bound: usize },
    /// Navigate to this anchor's resolved `href`.
    Navigate(usize),
    /// The anchor's `href` does not resolve: handled, no navigation.
    NavigateFailed(usize),
    /// The climb exhausted the ancestors: clear the focus.
    ClearFocus,
}

/// The terminal outcome of climbing from node `id`: the first match of
/// the per-node dispatch order, climbing to the layout parent when no
/// case matches.  Form submitters are not terminal: they record their
/// submission (see `click_submissions_from`) and the climb goes on.
pub open spec fn click_outcome_from(d: Document, id: int) -> ClickOutcome
    decreases id,
{
    if !(0 <= id < d.nodes@.len()) {
        ClickOutcome::ClearFocus
    } else if !d.is_element(id) {
        click_climb(d, id)
    } else if d.is_disabled(id) {
        ClickOutcome::Disabled
    } else if d.is_text_input(id) {
        ClickOutcome::TextInput
    } else if d.is_checkbox(id) {
        ClickOutcome::ToggleCheckbox(id as usize)
    } else if d.is_radio(id) {
        ClickOutcome::ToggleRadio(id as usize)
    } else if d.is_label(id) && spec_bound_inputs(d, id).len() > 0 {
        ClickOutcome::LabelToggle { label: id as usize, bound: spec_bound_inputs(d, id)[0] }
    } else if d.is_anchor(id) && anchor_href(d, id) is Some {
        if spec_resolve_url(opt_string_view(d.base_url), anchor_href(d, id).unwrap()) is Some {
            ClickOutcome::Navigate(id as usize)
        } else {
            ClickOutcome::NavigateFailed(id as usize)
        }
    } else {
        click_climb(d, id)
    }
}

/// One climb step: continue at the layout parent, or clear focus at the
/// root.
pub open spec fn click_climb(d: Document, id: int) -> ClickOutcome
    decreases id, 0int,
{
    match d.nodes@[id].layout_parent {
        Some(p) => if 0 <= id < d.nodes@.len() && (p as int) < id {
            click_outcome_from(d, p as int)
        } else {
            ClickOutcome::ClearFocus
        },
        None => ClickOutcome::ClearFocus,
    }
}

/// The anchor's `href` attribute.
pub open spec fn anchor_href(d: Document, id: int) -> Option<Seq<char>> {
    match d.elem(id) {
        Some(el) => el.spec_attr("href"@),
        None => None,
    }
}

/// The form submissions recorded while climbing from node `id`: one for
/// every submitter with an owning form that the climb passes before its
/// terminal decision.
pub open spec fn click_submissions_from(d: Document, id: int) -> Seq<FormSubmission>
    decreases id,
{
    if !(0 <= id < d.nodes@.len()) {
        Seq::empty()
    } else if !d.is_element(id) {
        subs_climb(d, id)
    } else if d.is_disabled(id) || d.is_text_input(id) || d.is_checkbox(id) || d.is_radio(id)
        || (d.is_label(id) && spec_bound_inputs(d, id).len() > 0) || (d.is_anchor(id)
        && anchor_href(d, id) is Some) {
        Seq::empty()
    } else if d.is_submitter(id) && d.form_owner_of(id as usize) is Some {
        seq![
            FormSubmission {
                form: d.form_owner_of(id as usize).unwrap(),
                submitter: id as usize,
            },
        ] + subs_climb(d, id)
    } else {
        subs_climb(d, id)
    }
}

pub open spec fn subs_climb(d: Document, id: int) -> Seq<FormSubmission>
    decreases id, 0int,
{
    match d.nodes@[id].layout_parent {
        Some(p) => if 0 <= id < d.nodes@.len() && (p as int) < id {
            click_submissions_from(d, p as int)
        } else {
            Seq::empty()
        },
        None => Seq::empty(),
    }
}

/// Every radio button the climb from `id` can decide on carries a `name`
/// attribute; the group of a nameless radio would be undefined.
pub open spec fn radio_name_ok_from(d: Document, id: int) -> bool
    decreases id,
{
    if !(0 <= id < d.nodes@.len()) {
        true
    } else if !d.is_element(id) {
        radio_name_ok_climb(d, id)
    } else if d.is_disabled(id) || d.is_text_input(id) || d.is_checkbox(id) {
        true
    } else if d.is_radio(id) {
        d.radio_group(id) is Some
    } else if (d.is_label(id) && spec_bound_inputs(d, id).len() > 0) || (d.is_anchor(id)
        && anchor_href(d, id) is Some) {
        true
    } else {
        radio_name_ok_climb(d, id)
    }
}

pub open spec fn radio_name_ok_climb(d: Document, id: int) -> bool
    decreases id, 0int,
{
    match d.nodes@[id].layout_parent {
        Some(p) => if 0 <= id < d.nodes@.len() && (p as int) < id {
            radio_name_ok_from(d, p as int)
        } else {
            true
        },
        None => true,
    }
}

/// The one demand a click makes of its document: should the climb decide
/// on a radio button, that radio names its group.
pub open spec fn click_ok(d: Document, x: int, y: int) -> bool {
    match spec_hit(d, x, y) {
        Some(h) => radio_name_ok_from(d, h.0),
        None => true,
    }
}

/// A node after its checked flag was flipped, if it carries one.
pub open spec fn spec_toggle_node(node: Node) -> Node {
    match node.data {
        NodeData::Element(el) => Node { data: NodeData::Element(spec_toggle_el(el)), ..node },
        _ => node,
    }
}

/// What `handle_click` does, for every allowed input: the hit is re-run,
/// the climb's submissions are recorded, and the climb's terminal
/// decision is applied.
pub open spec fn click_transition(pre: Document, post: Document, x: int, y: int) -> bool {
    match spec_hit(pre, x, y) {
        None => post == (Document { focus: None::<usize>, ..pre }),
        Some(h) => {
            let subs = pre.submissions@ + click_submissions_from(pre, h.0);
            match click_outcome_from(pre, h.0) {
                ClickOutcome::Disabled => unchanged_but_subs(pre, post, subs),
                ClickOutcome::TextInput => unchanged_but_subs(pre, post, subs),
                ClickOutcome::ToggleCheckbox(n) => {
                    &&& post.nodes@ == pre.nodes@.update(
                        n as int,
                        spec_toggle_node(pre.nodes@[n as int]),
                    )
                    &&& post.focus == Some(n)
                    &&& post.submissions@ == subs
                    &&& post.navigations == pre.navigations
                    &&& base_frame(pre, post)
                },
                ClickOutcome::ToggleRadio(n) => {
                    &&& pre.radio_group(n as int) matches Some(g) && post.nodes@
                        == spec_radio_update(pre.nodes@, g, n)
                    &&& post.focus == Some(n)
                    &&& post.submissions@ == subs
                    &&& post.navigations == pre.navigations
                    &&& base_frame(pre, post)
                },
                ClickOutcome::LabelToggle { label, bound } => {
                    &&& post.nodes@ == pre.nodes@.update(
                        bound as int,
                        spec_toggle_node(pre.nodes@[bound as int]),
                    )
                    &&& post.focus == Some(label)
                    &&& post.submissions@ == subs
                    &&& post.navigations == pre.navigations
                    &&& base_frame(pre, post)
                },
                ClickOutcome::Navigate(n) => {
                    &&& post.navigations@.len() == pre.navigations@.len() + 1
                    &&& post.navigations@.subrange(0, pre.navigations@.len() as int)
                        == pre.navigations@
                    &&& (spec_resolve_url(
                        opt_string_view(pre.base_url),
                        anchor_href(pre, n as int).unwrap(),
                    ) matches Some(u) && post.navigations@.last().url@ == u)
                    &&& post.navigations@.last().content_type@ == "text/plain"@
                    &&& post.navigations@.last().source_document == pre.doc_id
                    &&& post.nodes == pre.nodes
                    &&& post.focus == pre.focus
                    &&& post.submissions@ == subs
                    &&& base_frame(pre, post)
                },
                ClickOutcome::NavigateFailed(_) => unchanged_but_subs(pre, post, subs),
                ClickOutcome::ClearFocus => {
                    &&& post.nodes == pre.nodes
                    &&& post.focus is None
                    &&& post.submissions@ == subs
                    &&& post.navigations == pre.navigations
                    &&& base_frame(pre, post)
                },
            }
        },
    }
}

/// The document as it was, save for the recorded submissions.
pub open spec fn unchanged_but_subs(pre: Document, post: Document, subs: Seq<FormSubmission>) -> bool {
    &&& post.nodes == pre.nodes
    &&& post.focus == pre.focus
    &&& post.navigations == pre.navigations
    &&& post.submissions@ == subs
    &&& base_frame(pre, post)
}

impl Document {
    /// Flip the checked flag of node `id`, if it carries one.
    fn toggle_node_at(&mut self, id: usize)
        requires
            old(self).wf(),
            id < old(self).nodes@.len(),
        ensures
            final(self).wf(),
            final(self).nodes@ == old(self).nodes@.update(
                id as int,
                spec_toggle_node(old(self).nodes@[id as int]),
            ),
            final(self).focus == old(self).focus,
            final(self).navigations == old(self).navigations,
            final(self).submissions == old(self).submissions,
            base_frame(*old(self), *final(self)),
    {
        let node = &mut self.nodes[id];
        match &mut node.data {
            NodeData::Element(el) => toggle_checkbox(el),
            _ => {},
        }
        proof {
            assert(self.nodes@ =~= old(self).nodes@.update(
                id as int,
                spec_toggle_node(old(self).nodes@[id as int]),
            ));
            let n = self.nodes@.len() as int;
            assert forall|i: int| 0 <= i < n implies crate::node::node_wf(
                #[trigger] self.nodes@[i],
                i,
                n,
            ) by {
                assert(old(self).wf());
                assert(crate::node::node_wf(old(self).nodes@[i], i, n));
                if i == id as int {
                    assert(same_node_frame(old(self).nodes@[i], self.nodes@[i]));
                }
            }
        }
    }

    /// Default click dispatch: re-run the hit test at the point, then walk
    /// upward from the hit node until a default behaviour matches, record
    /// the submissions the walk passes, and apply the terminal decision.
    /// An exhausted walk, like a miss, clears the focus.
    pub fn handle_click(&mut self, _target: usize, x: i64, y: i64)
        requires
            old(self).wf(),
            -COORD_LIMIT <= x <= COORD_LIMIT,
            -COORD_LIMIT <= y <= COORD_LIMIT,
            click_ok(*old(self), x as int, y as int),
        ensures
            final(self).wf(),
            click_transition(*old(self), *final(self), x as int, y as int),
    {
        let ghost pre = *self;
        let h0 = match self.hit(x, y) {
            Some(h) => h,
            None => {
                self.clear_focus();
                return ;
            },
        };
        let ghost hit0 = h0.node_id as int;
        let mut cur: usize = h0.node_id;
        let mut pending: Vec<FormSubmission> = Vec::new();
        proof {
            assert(pending@ + click_submissions_from(pre, hit0) =~= click_submissions_from(
                pre,
                hit0,
            ));
        }
        loop
            invariant
                self.wf(),
                *self == pre,
                pre == *old(self),
                pre.wf(),
                click_ok(pre, x as int, y as int),
                -COORD_LIMIT <= x <= COORD_LIMIT,
                -COORD_LIMIT <= y <= COORD_LIMIT,
                cur < pre.nodes@.len(),
                spec_hit(pre, x as int, y as int) == Some((hit0, h0.x as int, h0.y as int)),
                hit0 == h0.node_id as int,
                click_outcome_from(pre, cur as int) == click_outcome_from(pre, hit0),
                radio_name_ok_from(pre, cur as int),
                pending@ + click_submissions_from(pre, cur as int) == click_submissions_from(
                    pre,
                    hit0,
                ),
            decreases cur,
        {
            let ghost entry_pending = pending@;
            let is_el = matches!(&self.nodes[cur].data, NodeData::Element(_));
            if is_el {
                let disabled = match &self.nodes[cur].data {
                    NodeData::Element(el) => el.has_attr("disabled"),
                    _ => false,
                };
                if disabled {
                    apply_submissions(self, &pending);
                    proof {
                        assert(pending@ + click_submissions_from(pre, cur as int) =~= pending@);
                        assert(self.submissions@ =~= pre.submissions@ + click_submissions_from(
                            pre,
                            hit0,
                        ));
                    }
                    return ;
                }
                let is_text = match &self.nodes[cur].data {
                    NodeData::Element(el) => matches!(
                        el.node_specific_data,
                        NodeSpecificData::TextInput(_),
                    ),
                    _ => false,
                };
                if is_text {
                    apply_submissions(self, &pending);
                    proof {
                        assert(pending@ + click_submissions_from(pre, cur as int) =~= pending@);
                        assert(self.submissions@ =~= pre.submissions@ + click_submissions_from(
                            pre,
                            hit0,
                        ));
                    }
                    return ;
                }
                let is_cb = match &self.nodes[cur].data {
                    NodeData::Element(el) => el.is_tag("input") && el.attr_is("type", "checkbox"),
                    _ => false,
                };
                if is_cb {
                    apply_submissions(self, &pending);
                    self.toggle_node_at(cur);
                    self.set_focus_to(cur);
                    proof {
                        assert(pending@ + click_submissions_from(pre, cur as int) =~= pending@);
                        assert(self.submissions@ =~= pre.submissions@ + click_submissions_from(
                            pre,
                            hit0,
                        ));
                        assert(self.nodes@ =~= pre.nodes@.update(
                            cur as int,
                            spec_toggle_node(pre.nodes@[cur as int]),
                        ));
                    }
                    return ;
                }
                let is_radio = match &self.nodes[cur].data {
                    NodeData::Element(el) => el.is_tag("input") && el.attr_is("type", "radio"),
                    _ => false,
                };
                if is_radio {
                    let name_opt: Option<String> = match &self.nodes[cur].data {
                        NodeData::Element(el) => match el.attr("name") {
                            Some(v) => Some(v.clone()),
                            None => None,
                        },
                        _ => None,
                    };
                    let set: String = match name_opt {
                        Some(s) => s,
                        None => {
                            proof {
                                assert(false);
                            }
                            String::new()
                        },
                    };
                    apply_submissions(self, &pending);
                    self.toggle_radio(set, cur);
                    self.set_focus_to(cur);
                    proof {
                        assert(pending@ + click_submissions_from(pre, cur as int) =~= pending@);
                        assert(self.submissions@ =~= pre.submissions@ + click_submissions_from(
                            pre,
                            hit0,
                        ));
                        assert(self.nodes@ =~= spec_radio_update(
                            pre.nodes@,
                            pre.radio_group(cur as int).unwrap(),
                            cur,
                        ));
                    }
                    return ;
                }
                let is_label = match &self.nodes[cur].data {
                    NodeData::Element(el) => el.is_tag("label"),
                    _ => false,
                };
                if is_label {
                    let bound = self.label_bound_input_elements(cur);
                    if bound.len() > 0 {
                        let b = bound[0];
                        proof {
                            crate::document::lemma_bound_inputs_in_range(pre, cur as int);
                            assert(b == spec_bound_inputs(pre, cur as int)[0]);
                        }
                        apply_submissions(self, &pending);
                        self.toggle_node_at(b);
                        self.set_focus_to(cur);
                        proof {
                            assert(pending@ + click_submissions_from(pre, cur as int)
                                =~= pending@);
                            assert(self.submissions@ =~= pre.submissions@
                                + click_submissions_from(pre, hit0));
                            assert(self.nodes@ =~= pre.nodes@.update(
                                b as int,
                                spec_toggle_node(pre.nodes@[b as int]),
                            ));
                        }
                        return ;
                    }
                }
                let is_anchor = match &self.nodes[cur].data {
                    NodeData::Element(el) => el.is_tag("a"),
                    _ => false,
                };
                if is_anchor {
                    let href_opt: Option<String> = match &self.nodes[cur].data {
                        NodeData::Element(el) => match el.attr("href") {
                            Some(v) => Some(v.clone()),
                            None => None,
                        },
                        _ => None,
                    };
                    match href_opt {
                        Some(href) => {
                            let resolved = resolve_url(&self.base_url, href.as_str());
                            apply_submissions(self, &pending);
                            proof {
                                assert(pending@ + click_submissions_from(pre, cur as int)
                                    =~= pending@);
                                assert(self.submissions@ =~= pre.submissions@
                                    + click_submissions_from(pre, hit0));
                            }
                            match resolved {
                                Some(u) => {
                                    let ghost mid = *self;
                                    self.navigate_to(u, "text/plain".to_owned());
                                    proof {
                                        assert(self.navigations@.subrange(
                                            0,
                                            pre.navigations@.len() as int,
                                        ) =~= pre.navigations@);
                                    }
                                },
                                None => {},
                            }
                            return ;
                        },
                        None => {},
                    }
                }
                let is_sub = match &self.nodes[cur].data {
                    NodeData::Element(el) => (el.is_tag("input") && el.attr_is("type", "submit"))
                        || el.is_tag("button"),
                    _ => false,
                };
                if is_sub {
                    match self.form_owner(cur) {
                        Some(f) => {
                            pending.push(FormSubmission { form: f, submitter: cur });
                        },
                        None => {},
                    }
                }
            }
            proof {
                assert(crate::node::node_wf(pre.nodes@[cur as int], cur as int,
                    pre.nodes@.len() as int));
                assert(COORD_LIMIT <= COORD_LIMIT * (2 + NODE_LIMIT as int)) by (nonlinear_arith);
                assert(point_bound(NODE_LIMIT as int, x as int));
                assert(point_bound(NODE_LIMIT as int, y as int));
            }
            let ph = parent_hit(&self.nodes[cur], x, y);
            match ph {
                Some(p) => {
                    proof {
                        assert(pre.nodes@[cur as int].layout_parent == Some(p.node_id));
                        assert((p.node_id as int) < cur as int);
                        assert(click_outcome_from(pre, cur as int) == click_outcome_from(
                            pre,
                            p.node_id as int,
                        ));
                        assert(radio_name_ok_from(pre, p.node_id as int));
                        if pending@ != entry_pending {
                            assert(pending@ + click_submissions_from(pre, p.node_id as int)
                                =~= entry_pending + click_submissions_from(pre, cur as int));
                        } else {
                            assert(click_submissions_from(pre, cur as int)
                                == click_submissions_from(pre, p.node_id as int));
                        }
                        assert(pending@ + click_submissions_from(pre, p.node_id as int)
                            == click_submissions_from(pre, hit0));
                    }
                    cur = p.node_id;
                },
                None => {
                    apply_submissions(self, &pending);
                    self.clear_focus();
                    proof {
                        assert(pre.nodes@[cur as int].layout_parent is None);
                        assert(click_outcome_from(pre, cur as int) == ClickOutcome::ClearFocus);
                        if pending@ != entry_pending {
                            assert(pending@ =~= entry_pending + click_submissions_from(
                                pre,
                                cur as int,
                            ));
                        } else {
                            assert(click_submissions_from(pre, cur as int)
                                =~= Seq::<FormSubmission>::empty());
                            assert(pending@ =~= entry_pending + click_submissions_from(
                                pre,
                                cur as int,
                            ));
                        }
                        assert(pending@ == click_submissions_from(pre, hit0));
                        assert(self.submissions@ =~= pre.submissions@ + click_submissions_from(
                            pre,
                            hit0,
                        ));
                    }
                    return ;
                },
            }
        }
    }
}

/// Replay the submissions a climb collected onto the document.
fn apply_submissions(doc: &mut Document, pending: &Vec<FormSubmission>)
    requires
        old(doc).wf(),
    ensures
        final(doc).wf(),
        final(doc).nodes == old(doc).nodes,
        final(doc).focus == old(doc).focus,
        final(doc).navigations == old(doc).navigations,
        final(doc).submissions@ == old(doc).submissions@ + pending@,
        base_frame(*old(doc), *final(doc)),
{
    let n = pending.len();
    let mut i: usize = 0;
    proof {
        assert(doc.submissions@ =~= old(doc).submissions@ + pending@.subrange(0, 0));
    }
    while i < n
        invariant
            doc.wf(),
            n == pending@.len(),
            i <= n,
            doc.nodes == old(doc).nodes,
            doc.focus == old(doc).focus,
            doc.navigations == old(doc).navigations,
            doc.submissions@ == old(doc).submissions@ + pending@.subrange(0, i as int),
            base_frame(*old(doc), *doc),
        decreases n - i,
    {
        let s = pending[i];
        doc.submit_form(s.form, s.submitter);
        proof {
            assert(doc.submissions@ =~= old(doc).submissions@ + pending@.subrange(0, i as int + 1));
        }
        i += 1;
    }
    proof {
        assert(pending@.subrange(0, n as int) =~= pending@);
    }
}

} // verus!
