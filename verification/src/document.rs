//! The document: a table of nodes plus the process-wide input state
//! (focus), the viewport scale, the base URL, the form-ownership mapping,
//! and the record of actions handed to external collaborators (navigation
//! requests, form submissions).
use vstd::prelude::*;
use crate::geom::{Layout, layout_ok, NODE_LIMIT, SCALE_LIMIT};
use crate::node::{
    Attribute, ElementNodeData, Node, NodeData, NodeSpecificData, QualName, node_wf,
};
use crate::strutil::str_eq;

verus! {

/// One navigation request handed to the external navigation provider.
#[derive(Clone, Debug)]
pub struct NavigationRequest {
    pub url: String,
    pub content_type: String,
    pub source_document: usize,
}

/// One form submission handed to the external form layer.
#[derive(Clone, Copy, PartialEq, Eq, Structural, Debug)]
pub struct FormSubmission {
    pub form: usize,
    pub submitter: usize,
}

pub struct Document {
    /// The tree; a node's id is its index here.
    pub nodes: Vec<Node>,
    /// Currently focused node, if any.
    pub focus: Option<usize>,
    /// Base URL that relative links resolve against.
    pub base_url: Option<String>,
    /// Viewport pixel scale, as the ratio `scale_num / scale_den`.
    pub scale_num: i64,
    pub scale_den: i64,
    /// Mapping from interactive-control node id to its owning form's id.
    pub controls_to_form: Vec<(usize, usize)>,
    /// Navigation requests issued so far, oldest first.
    pub navigations: Vec<NavigationRequest>,
    /// Form submissions triggered so far, oldest first.
    pub submissions: Vec<FormSubmission>,
    /// This document's own id, quoted as the source of navigations.
    pub doc_id: usize,
}

/// First match in the control-to-form mapping.
pub open spec fn form_lookup(m: Seq<(usize, usize)>, control: usize) -> Option<usize>
    decreases m.len(),
{
    if m.len() == 0 {
        None
    } else if m[0].0 == control {
        Some(m[0].1)
    } else {
        form_lookup(m.drop_first(), control)
    }
}

proof fn lemma_form_lookup_step(m: Seq<(usize, usize)>, control: usize, i: int)
    requires
        0 <= i < m.len(),
        m.skip(i)[0].0 != control,
    ensures
        form_lookup(m.skip(i), control) == form_lookup(m.skip(i + 1), control),
{
    assert(m.skip(i).drop_first() =~= m.skip(i + 1));
}

impl Document {
    pub open spec fn wf(self) -> bool {
        &&& self.nodes@.len() <= NODE_LIMIT
        &&& forall|i: int|
            0 <= i < self.nodes@.len() ==> node_wf(
                #[trigger] self.nodes@[i],
                i,
                self.nodes@.len() as int,
            )
        &&& (self.focus matches Some(f) ==> f < self.nodes@.len())
        &&& 1 <= self.scale_den <= SCALE_LIMIT
        &&& 0 <= self.scale_num <= SCALE_LIMIT
    }

    /// The element data of node `id`, if that node is an element.
    pub open spec fn elem(self, id: int) -> Option<ElementNodeData> {
        if 0 <= id < self.nodes@.len() {
            self.nodes@[id].spec_element()
        } else {
            None
        }
    }

    pub open spec fn is_element(self, id: int) -> bool {
        self.elem(id) is Some
    }

    /// An element is disabled when it carries a `disabled` attribute,
    /// whatever the attribute's value.
    pub open spec fn is_disabled(self, id: int) -> bool {
        self.elem(id) matches Some(el) && el.spec_attr("disabled"@) is Some
    }

    pub open spec fn is_text_input(self, id: int) -> bool {
        self.elem(id) matches Some(el) && el.node_specific_data is TextInput
    }

    pub open spec fn is_checkbox(self, id: int) -> bool {
        self.elem(id) matches Some(el) && el.name.local@ == "input"@ && el.spec_attr("type"@)
            == Some("checkbox"@)
    }

    pub open spec fn is_radio(self, id: int) -> bool {
        self.elem(id) matches Some(el) && el.name.local@ == "input"@ && el.spec_attr("type"@)
            == Some("radio"@)
    }

    pub open spec fn is_label(self, id: int) -> bool {
        self.elem(id) matches Some(el) && el.name.local@ == "label"@
    }

    pub open spec fn is_anchor(self, id: int) -> bool {
        self.elem(id) matches Some(el) && el.name.local@ == "a"@
    }

    /// A form-submitting control: `<input type=submit>` or `<button>`.
    pub open spec fn is_submitter(self, id: int) -> bool {
        self.elem(id) matches Some(el) && ((el.name.local@ == "input"@ && el.spec_attr("type"@)
            == Some("submit"@)) || el.name.local@ == "button"@)
    }

    pub open spec fn is_form(self, id: int) -> bool {
        self.elem(id) matches Some(el) && el.name.local@ == "form"@
    }

    /// The checked flag of a node that carries one; `false` otherwise.
    pub open spec fn checked(self, id: int) -> bool {
        self.elem(id) matches Some(el) && el.node_specific_data matches NodeSpecificData::CheckboxInput(b) && b
    }

    /// The `name` attribute, which names a radio button's group.
    pub open spec fn radio_group(self, id: int) -> Option<Seq<char>> {
        match self.elem(id) {
            Some(el) => el.spec_attr("name"@),
            None => None,
        }
    }

    pub open spec fn form_owner_of(self, control: usize) -> Option<usize> {
        form_lookup(self.controls_to_form@, control)
    }

    /// A fresh document holding only the tree root and a synthetic `html`
    /// element under it, with unit scale and no base URL.
    pub fn new(doc_id: usize) -> (d: Document)
        ensures
            d.wf(),
            d.nodes@.len() == 2,
            d.nodes@[0].data is Document,
            d.nodes@[0].parent is None,
            d.nodes@[0].layout_parent is None,
            d.nodes@[0].children@ == seq![1usize],
            d.elem(1) matches Some(el) && el.name.local@ == "html"@ && el.attrs@.len() == 0
                && el.node_specific_data is Plain,
            d.nodes@[1].parent == Some(0usize),
            d.nodes@[1].layout_parent == Some(0usize),
            d.nodes@[1].children@.len() == 0,
            d.focus is None,
            d.base_url is None,
            d.scale_num == 1 && d.scale_den == 1,
            d.navigations@.len() == 0,
            d.submissions@.len() == 0,
            d.controls_to_form@.len() == 0,
            d.doc_id == doc_id,
    {
        let root = Node {
            id: 0,
            parent: None,
            layout_parent: None,
            children: vec![1],
            layout: Layout::zero(),
            data: NodeData::Document,
        };
        let html = Node {
            id: 1,
            parent: Some(0),
            layout_parent: Some(0),
            children: Vec::new(),
            layout: Layout::zero(),
            data: NodeData::Element(
                ElementNodeData {
                    name: crate::node::qual_name("html", None),
                    attrs: Vec::new(),
                    node_specific_data: NodeSpecificData::Plain,
                },
            ),
        };
        let d = Document {
            nodes: vec![root, html],
            focus: None,
            base_url: None,
            scale_num: 1,
            scale_den: 1,
            controls_to_form: Vec::new(),
            navigations: Vec::new(),
            submissions: Vec::new(),
            doc_id,
        };
        proof {
            assert(d.nodes@[0].children@ =~= seq![1usize]);
            assert forall|i: int| 0 <= i < d.nodes@.len() implies node_wf(
                #[trigger] d.nodes@[i],
                i,
                d.nodes@.len() as int,
            ) by {
                if i == 0 {
                    assert(d.nodes@[0].children@[0] == 1usize);
                }
            }
        }
        d
    }

    /// Append a node under `parent`; both the DOM parent and the layout
    /// parent of the new node are `parent`.  Returns the new node's id.
    pub fn create_node(&mut self, parent: usize, data: NodeData, layout: Layout) -> (id: usize)
        requires
            old(self).wf(),
            parent < old(self).nodes@.len(),
            old(self).nodes@.len() < NODE_LIMIT,
            layout_ok(layout),
        ensures
            final(self).wf(),
            id == old(self).nodes@.len(),
            final(self).nodes@.len() == old(self).nodes@.len() + 1,
            final(self).nodes@[id as int].data == data,
            final(self).nodes@[id as int].layout == layout,
            final(self).nodes@[id as int].parent == Some(parent),
            final(self).nodes@[id as int].layout_parent == Some(parent),
            final(self).nodes@[id as int].children@.len() == 0,
            final(self).nodes@[parent as int].children@ == old(self).nodes@[parent as int].children@.push(
                id,
            ),
            forall|j: int|
                0 <= j < old(self).nodes@.len() && j != parent ==> final(self).nodes@[j] == old(
                    self,
                ).nodes@[j],
            final(self).focus == old(self).focus,
            final(self).base_url == old(self).base_url,
            final(self).scale_num == old(self).scale_num,
            final(self).scale_den == old(self).scale_den,
            final(self).controls_to_form == old(self).controls_to_form,
            final(self).navigations == old(self).navigations,
            final(self).submissions == old(self).submissions,
            final(self).doc_id == old(self).doc_id,
    {
        let id = self.nodes.len();
        let parent_node = &mut self.nodes[parent];
        parent_node.children.push(id);
        let node = Node {
            id,
            parent: Some(parent),
            layout_parent: Some(parent),
            children: Vec::new(),
            layout,
            data,
        };
        self.nodes.push(node);
        proof {
            let n = self.nodes@.len() as int;
            assert forall|i: int| 0 <= i < n implies node_wf(#[trigger] self.nodes@[i], i, n) by {
                if i < n - 1 && i != parent {
                    assert(self.nodes@[i] == old(self).nodes@[i]);
                    assert(node_wf(old(self).nodes@[i], i, n - 1));
                } else if i == parent {
                    let oldp = old(self).nodes@[parent as int];
                    assert(node_wf(oldp, i, n - 1));
                    assert(self.nodes@[i].children@ == oldp.children@.push(id as usize));
                    assert forall|k: int|
                        0 <= k < self.nodes@[i].children@.len() implies i
                        < #[trigger] self.nodes@[i].children@[k] < n by {
                        if k < oldp.children@.len() {
                            assert(self.nodes@[i].children@[k] == oldp.children@[k]);
                        }
                    }
                }
            }
        }
        id
    }

    /// The external layout engine's write-back: replace node `id`'s layout.
    pub fn set_layout(&mut self, id: usize, layout: Layout)
        requires
            old(self).wf(),
            id < old(self).nodes@.len(),
            layout_ok(layout),
        ensures
            final(self).wf(),
            final(self).nodes@ == old(self).nodes@.update(
                id as int,
                Node { layout, ..old(self).nodes@[id as int] },
            ),
            final(self).focus == old(self).focus,
            final(self).base_url == old(self).base_url,
            final(self).scale_num == old(self).scale_num,
            final(self).scale_den == old(self).scale_den,
            final(self).controls_to_form == old(self).controls_to_form,
            final(self).navigations == old(self).navigations,
            final(self).submissions == old(self).submissions,
            final(self).doc_id == old(self).doc_id,
    {
        let node = &mut self.nodes[id];
        node.layout = layout;
        proof {
            let n = self.nodes@.len() as int;
            assert forall|i: int| 0 <= i < n implies node_wf(#[trigger] self.nodes@[i], i, n) by {
                if i != id {
                    assert(self.nodes@[i] == old(self).nodes@[i]);
                }
            }
        }
    }

    pub fn set_base_url(&mut self, base: Option<String>)
        ensures
            *final(self) == (Document { base_url: base, ..*old(self) }),
    {
        self.base_url = base;
    }

    pub fn set_scale(&mut self, num: i64, den: i64)
        requires
            0 <= num <= SCALE_LIMIT,
            1 <= den <= SCALE_LIMIT,
        ensures
            *final(self) == (Document { scale_num: num, scale_den: den, ..*old(self) }),
    {
        self.scale_num = num;
        self.scale_den = den;
    }

    /// Register the owning form of an interactive control.
    pub fn set_form_owner(&mut self, control: usize, form: usize)
        ensures
            *final(self) == (Document {
                controls_to_form: final(self).controls_to_form,
                ..*old(self)
            }),
            final(self).controls_to_form@ == old(self).controls_to_form@.push((control, form)),
    {
        self.controls_to_form.push((control, form));
    }

    /// Look up the owning form of a control; first registration wins.
    pub fn form_owner(&self, control: usize) -> (r: Option<usize>)
        ensures
            r == self.form_owner_of(control),
    {
        let m = &self.controls_to_form;
        let n = m.len();
        let mut i: usize = 0;
        proof {
            assert(m@.skip(0) =~= m@);
        }
        while i < n
            invariant
                m@ == self.controls_to_form@,
                n == m@.len(),
                i <= n,
                form_lookup(m@, control) == form_lookup(m@.skip(i as int), control),
            decreases n - i,
        {
            proof {
                assert(m@.skip(i as int)[0] == m@[i as int]);
            }
            if m[i].0 == control {
                proof {
                    assert(form_lookup(m@.skip(i as int), control) == Some(m@[i as int].1));
                }
                return Some(m[i].1);
            }
            proof {
                lemma_form_lookup_step(m@, control, i as int);
            }
            i += 1;
        }
        proof {
            assert(m@.skip(n as int) =~= Seq::<(usize, usize)>::empty());
        }
        None
    }

    pub fn set_focus_to(&mut self, id: usize)
        requires
            id < old(self).nodes@.len(),
        ensures
            *final(self) == (Document { focus: Some(id), ..*old(self) }),
    {
        self.focus = Some(id);
    }

    pub fn clear_focus(&mut self)
        ensures
            *final(self) == (Document { focus: None::<usize>, ..*old(self) }),
    {
        self.focus = None;
    }

    /// Record a form submission for the external form layer.
    pub fn submit_form(&mut self, form: usize, submitter: usize)
        ensures
            *final(self) == (Document { submissions: final(self).submissions, ..*old(self) }),
            final(self).submissions@ == old(self).submissions@.push(
                FormSubmission { form, submitter },
            ),
    {
        self.submissions.push(FormSubmission { form, submitter });
    }
}

/// Whether node `j` is an `<input>` element whose `id` attribute is `idv`.
pub open spec fn input_with_id(d: Document, j: int, idv: Seq<char>) -> bool {
    d.elem(j) matches Some(el) && el.name.local@ == "input"@ && el.spec_attr("id"@) == Some(idv)
}

/// The `<input>` elements among the first `n` nodes whose `id` is `idv`,
/// in document order.
pub open spec fn inputs_with_id_upto(d: Document, idv: Seq<char>, n: int) -> Seq<usize>
    decreases n,
{
    if n <= 0 {
        Seq::empty()
    } else {
        let pre = inputs_with_id_upto(d, idv, n - 1);
        if input_with_id(d, n - 1, idv) {
            pre.push((n - 1) as usize)
        } else {
            pre
        }
    }
}

/// Whether node `j` is an `<input>` element.
pub open spec fn is_input(d: Document, j: int) -> bool {
    d.elem(j) matches Some(el) && el.name.local@ == "input"@
}

/// The `<input>` descendants of node `id`, preorder.
pub open spec fn spec_input_descendants(d: Document, id: int) -> Seq<usize>
    decreases d.nodes@.len() - id, 1int, 0int,
{
    if 0 <= id < d.nodes@.len() {
        spec_desc_children(d, id, d.nodes@[id].children@.len() as int)
    } else {
        Seq::empty()
    }
}

/// The `<input>` descendants reached through the first `k` children of
/// node `id`, left to right.
pub open spec fn spec_desc_children(d: Document, id: int, k: int) -> Seq<usize>
    decreases d.nodes@.len() - id, 0int, k,
{
    if !(0 <= id < d.nodes@.len()) || k <= 0 || k > d.nodes@[id].children@.len() {
        Seq::empty()
    } else {
        let c = d.nodes@[id].children@[k - 1] as int;
        let here = if id < c < d.nodes@.len() {
            (if is_input(d, c) {
                seq![c as usize]
            } else {
                Seq::empty()
            }) + spec_input_descendants(d, c)
        } else {
            Seq::empty()
        };
        spec_desc_children(d, id, k - 1) + here
    }
}

/// The inputs a `<label>` is bound to: the `<input>` elements named by its
/// `for` attribute, or, without one, its own `<input>` descendants.
pub open spec fn spec_bound_inputs(d: Document, label: int) -> Seq<usize> {
    match d.elem(label) {
        Some(el) => match el.spec_attr("for"@) {
            Some(f) => inputs_with_id_upto(d, f, d.nodes@.len() as int),
            None => spec_input_descendants(d, label),
        },
        None => Seq::empty(),
    }
}

pub proof fn lemma_inputs_with_id_range(d: Document, idv: Seq<char>, n: int)
    ensures
        forall|k: int|
            0 <= k < inputs_with_id_upto(d, idv, n).len() ==> #[trigger] inputs_with_id_upto(
                d,
                idv,
                n,
            )[k] < n,
    decreases n,
{
    if n > 0 {
        lemma_inputs_with_id_range(d, idv, n - 1);
        let s = inputs_with_id_upto(d, idv, n);
        let p = inputs_with_id_upto(d, idv, n - 1);
        assert forall|k: int| 0 <= k < s.len() implies s[k] < n by {
            if input_with_id(d, n - 1, idv) {
                if k < p.len() {
                    assert(s[k] == p[k]);
                } else {
                    assert(s[k] == (n - 1) as usize);
                }
            } else {
                assert(s[k] == p[k]);
            }
        }
    }
}

pub proof fn lemma_input_descendants_range(d: Document, id: int)
    requires
        d.wf(),
    ensures
        forall|k: int|
            0 <= k < spec_input_descendants(d, id).len() ==> #[trigger] spec_input_descendants(
                d,
                id,
            )[k] < d.nodes@.len(),
    decreases d.nodes@.len() - id, 1int, 0int,
{
    if 0 <= id < d.nodes@.len() {
        lemma_desc_children_range(d, id, d.nodes@[id].children@.len() as int);
        let s = spec_input_descendants(d, id);
        assert forall|k: int| 0 <= k < s.len() implies s[k] < d.nodes@.len() by {
            assert(s[k] == spec_desc_children(d, id, d.nodes@[id].children@.len() as int)[k]);
        }
    }
}

pub proof fn lemma_desc_children_range(d: Document, id: int, k: int)
    requires
        d.wf(),
    ensures
        forall|j: int|
            0 <= j < spec_desc_children(d, id, k).len() ==> #[trigger] spec_desc_children(
                d,
                id,
                k,
            )[j] < d.nodes@.len(),
    decreases d.nodes@.len() - id, 0int, k,
{
    if !(0 <= id < d.nodes@.len()) || k <= 0 || k > d.nodes@[id].children@.len() {
    } else {
        let c = d.nodes@[id].children@[k - 1] as int;
        if id < c < d.nodes@.len() {
            lemma_input_descendants_range(d, c);
        }
        lemma_desc_children_range(d, id, k - 1);
        let s = spec_desc_children(d, id, k);
        let p = spec_desc_children(d, id, k - 1);
        let here = if id < c < d.nodes@.len() {
            (if is_input(d, c) {
                seq![c as usize]
            } else {
                Seq::<usize>::empty()
            }) + spec_input_descendants(d, c)
        } else {
            Seq::<usize>::empty()
        };
        assert forall|j: int| 0 <= j < s.len() implies s[j] < d.nodes@.len() by {
            if j < p.len() {
                assert(s[j] == p[j]);
            } else {
                assert(s[j] == here[j - p.len()]);
                if id < c < d.nodes@.len() {
                    if is_input(d, c) {
                        if j - p.len() == 0 {
                            assert(here[0] == c as usize);
                        } else {
                            assert(here[j - p.len()] == spec_input_descendants(d, c)[j - p.len()
                                - 1]);
                        }
                    } else {
                        assert(here[j - p.len()] == spec_input_descendants(d, c)[j - p.len()]);
                    }
                }
            }
        }
    }
}

/// Every input a label is bound to lies inside the node table.
pub proof fn lemma_bound_inputs_in_range(d: Document, label: int)
    requires
        d.wf(),
    ensures
        forall|k: int|
            0 <= k < spec_bound_inputs(d, label).len() ==> #[trigger] spec_bound_inputs(
                d,
                label,
            )[k] < d.nodes@.len(),
{
    match d.elem(label) {
        Some(el) => match el.spec_attr("for"@) {
            Some(f) => {
                lemma_inputs_with_id_range(d, f, d.nodes@.len() as int);
            },
            None => {
                lemma_input_descendants_range(d, label);
            },
        },
        None => {},
    }
}

fn collect_input_descendants(d: &Document, id: usize, out: &mut Vec<usize>)
    requires
        d.wf(),
        id < d.nodes@.len(),
    ensures
        final(out)@ == old(out)@ + spec_input_descendants(*d, id as int),
    decreases d.nodes@.len() - id, 1int, 0int,
{
    let k = d.nodes[id].children.len();
    let mut j: usize = 0;
    proof {
        assert(out@ + spec_desc_children(*d, id as int, 0) =~= out@);
    }
    while j < k
        invariant
            d.wf(),
            id < d.nodes@.len(),
            k == d.nodes@[id as int].children@.len(),
            j <= k,
            out@ == old(out)@ + spec_desc_children(*d, id as int, j as int),
        decreases k - j,
    {
        let c = d.nodes[id].children[j];
        proof {
            assert(id < c < d.nodes@.len());
        }
        let ghost before = out@;
        let is_inp = match &d.nodes[c].data {
            NodeData::Element(el) => el.is_tag("input"),
            _ => false,
        };
        if is_inp {
            out.push(c);
        }
        collect_input_descendants(d, c, out);
        proof {
            let cc = c as int;
            if is_input(*d, cc) {
                assert(out@ =~= before + (seq![c] + spec_input_descendants(*d, cc)));
            } else {
                assert(out@ =~= before + (Seq::empty() + spec_input_descendants(*d, cc)));
            }
            assert(out@ =~= old(out)@ + spec_desc_children(*d, id as int, j as int + 1));
        }
        j += 1;
    }
}

impl Document {
    /// All `<input>` descendants of a node, in document order.
    pub fn input_descendents(&self, id: usize) -> (r: Vec<usize>)
        requires
            self.wf(),
            id < self.nodes@.len(),
        ensures
            r@ == spec_input_descendants(*self, id as int),
    {
        let mut out: Vec<usize> = Vec::new();
        collect_input_descendants(self, id, &mut out);
        proof {
            assert(out@ =~= spec_input_descendants(*self, id as int));
        }
        out
    }

    /// The input elements bound to a `<label>`: those named by its `for`
    /// attribute, or its own input descendants when it has none.
    pub fn label_bound_input_elements(&self, label: usize) -> (r: Vec<usize>)
        requires
            self.wf(),
            label < self.nodes@.len(),
        ensures
            r@ == spec_bound_inputs(*self, label as int),
    {
        let for_value: Option<String> = match &self.nodes[label].data {
            NodeData::Element(el) => match el.attr("for") {
                Some(v) => Some(v.clone()),
                None => None,
            },
            _ => {
                return Vec::new();
            },
        };
        match for_value {
            Some(f) => {
                let n = self.nodes.len();
                let mut out: Vec<usize> = Vec::new();
                let mut j: usize = 0;
                while j < n
                    invariant
                        self.wf(),
                        n == self.nodes@.len(),
                        j <= n,
                        out@ == inputs_with_id_upto(*self, f@, j as int),
                    decreases n - j,
                {
                    let matches_id = match &self.nodes[j].data {
                        NodeData::Element(el) => el.is_tag("input") && match el.attr("id") {
                            Some(v) => str_eq(v.as_str(), f.as_str()),
                            None => false,
                        },
                        _ => false,
                    };
                    if matches_id {
                        out.push(j);
                    }
                    j += 1;
                }
                out
            },
            None => self.input_descendents(label),
        }
    }

    /// Record a navigation request for the external navigation provider.
    pub fn navigate_to(&mut self, url: String, content_type: String)
        ensures
            *final(self) == (Document { navigations: final(self).navigations, ..*old(self) }),
            final(self).navigations@ == old(self).navigations@.push(
                NavigationRequest {
                    url,
                    content_type,
                    source_document: old(self).doc_id,
                },
            ),
    {
        let source_document = self.doc_id;
        self.navigations.push(NavigationRequest { url, content_type, source_document });
    }
}

/// What toggling leaves of an element: the checked flag flipped when the
/// element carries one, everything else untouched.
pub open spec fn spec_toggle_el(el: ElementNodeData) -> ElementNodeData {
    match el.node_specific_data {
        NodeSpecificData::CheckboxInput(b) => ElementNodeData {
            node_specific_data: NodeSpecificData::CheckboxInput(!b),
            ..el
        },
        _ => el,
    }
}

/// Flip a checkbox element's checked flag; elements without a checked flag
/// are left untouched (the feature is simply not applicable to them).
pub fn toggle_checkbox(el: &mut ElementNodeData)
    ensures
        *final(el) == spec_toggle_el(*old(el)),
{
    match &mut el.node_specific_data {
        NodeSpecificData::CheckboxInput(b) => {
            *b = !*b;
        },
        _ => {},
    }
}

/// What a node looks like after a radio pass decided its checked flag;
/// nodes without a checked flag keep their payload.
pub open spec fn spec_set_checked(node: Node, b: bool) -> Node {
    match node.data {
        NodeData::Element(el) => match el.node_specific_data {
            NodeSpecificData::CheckboxInput(_) => Node {
                data: NodeData::Element(
                    ElementNodeData {
                        node_specific_data: NodeSpecificData::CheckboxInput(b),
                        ..el
                    },
                ),
                ..node
            },
            _ => node,
        },
        _ => node,
    }
}

/// Whether a node is a radio button of the group called `set`.
pub open spec fn spec_radio_member(node: Node, set: Seq<char>) -> bool {
    node.spec_element() matches Some(el) && el.name.local@ == "input"@ && el.spec_attr("type"@)
        == Some("radio"@) && el.spec_attr("name"@) == Some(set)
}

/// What the node table looks like after `toggle_radio(set, target)`.
pub open spec fn spec_radio_update(nodes: Seq<Node>, set: Seq<char>, target: usize) -> Seq<Node> {
    Seq::new(
        nodes.len(),
        |j: int|
            if spec_radio_member(nodes[j], set) {
                spec_set_checked(nodes[j], j == target)
            } else {
                nodes[j]
            },
    )
}

impl Document {
    /// Select radio button `target` within the group called `set`: every
    /// radio of the group is unchecked except `target`, which is checked.
    pub fn toggle_radio(&mut self, set: String, target: usize)
        requires
            old(self).wf(),
        ensures
            final(self).wf(),
            final(self).nodes@ == spec_radio_update(old(self).nodes@, set@, target),
            *final(self) == (Document { nodes: final(self).nodes, ..*old(self) }),
    {
        let n = self.nodes.len();
        let mut j: usize = 0;
        while j < n
            invariant
                old(self).wf(),
                self.wf(),
                n == self.nodes@.len(),
                n == old(self).nodes@.len(),
                j <= n,
                forall|k: int|
                    0 <= k < j ==> self.nodes@[k] == spec_radio_update(
                        old(self).nodes@,
                        set@,
                        target,
                    )[k],
                forall|k: int| j <= k < n ==> self.nodes@[k] == old(self).nodes@[k],
                self.focus == old(self).focus,
                self.base_url == old(self).base_url,
                self.scale_num == old(self).scale_num,
                self.scale_den == old(self).scale_den,
                self.controls_to_form == old(self).controls_to_form,
                self.navigations == old(self).navigations,
                self.submissions == old(self).submissions,
                self.doc_id == old(self).doc_id,
            decreases n - j,
        {
            let is_member = {
                let node = &self.nodes[j];
                match &node.data {
                    NodeData::Element(el) => el.is_tag("input") && el.attr_is("type", "radio")
                        && match el.attr("name") {
                        Some(v) => str_eq(v.as_str(), set.as_str()),
                        None => false,
                    },
                    _ => false,
                }
            };
            if is_member {
                let checked_now = j == target;
                let node = &mut self.nodes[j];
                match &mut node.data {
                    NodeData::Element(el) => {
                        match &mut el.node_specific_data {
                            NodeSpecificData::CheckboxInput(b) => {
                                *b = checked_now;
                            },
                            _ => {},
                        }
                    },
                    _ => {},
                }
            }
            proof {
                let nn = self.nodes@.len() as int;
                assert(self.nodes@[j as int] == spec_radio_update(
                    old(self).nodes@,
                    set@,
                    target,
                )[j as int]);
                assert forall|i: int| 0 <= i < nn implies node_wf(
                    #[trigger] self.nodes@[i],
                    i,
                    nn,
                ) by {
                    assert(old(self).wf());
                    assert(node_wf(old(self).nodes@[i], i, nn));
                    if i == j {
                        assert(self.nodes@[i].id == old(self).nodes@[i].id);
                        assert(self.nodes@[i].parent == old(self).nodes@[i].parent);
                        assert(self.nodes@[i].layout_parent == old(self).nodes@[i].layout_parent);
                        assert(self.nodes@[i].children == old(self).nodes@[i].children);
                        assert(self.nodes@[i].layout == old(self).nodes@[i].layout);
                    }
                }
            }
            j += 1;
        }
        proof {
            assert(self.nodes@ =~= spec_radio_update(old(self).nodes@, set@, target));
        }
    }
}

} // verus!
