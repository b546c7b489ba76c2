//! The framework bridge: mapping document nodes to framework element ids,
//! collecting form-value snapshots, and redispatching DOM events to the
//! framework along the bubble chain.
//!
//! The framework's own handlers are outside collaborators: each handler
//! invocation consumes the next entry of a caller-supplied response list
//! (missing entries mean "handler raised no flag"), and the dispatch
//! returns the trace of framework events it raised, in order.
use vstd::prelude::*;
use crate::document::{Document, spec_bound_inputs};
use crate::geom::COORD_LIMIT;
use crate::mouse::{click_ok, click_transition};
use crate::node::{EditorOp, ElementNodeData, NodeData, NodeSpecificData};
use crate::strutil::str_eq;

verus! {

/// One framework event raised during a dispatch: its kind, the framework
/// element id it was sent to, and, for `Input`, the form-value snapshot.
#[derive(Clone, Debug)]
pub struct FrameworkEvent {
    pub kind: FrameworkEventKind,
    pub target: usize,
    pub form: Option<FormData>,
}

#[derive(Clone, Copy, PartialEq, Eq, Structural, Debug)]
pub enum FrameworkEventKind {
    PointerMove,
    PointerDown,
    PointerUp,
    Click,
    Input,
    KeyDown,
    KeyPress,
    KeyUp,
}

/// What a framework handler answered: the two monotone suppression flags.
#[derive(Clone, Copy, PartialEq, Eq, Structural, Debug)]
pub struct HandlerResponse {
    pub prevent_default: bool,
    pub stop_propagation: bool,
}

/// The form-value snapshot carried by a framework `input` event: the
/// evaluated control's own value, and one entry per checked, named
/// checkbox of the owning form.
#[derive(Clone, Debug)]
pub struct FormData {
    pub value: String,
    pub values: Vec<FormEntry>,
}

#[derive(Clone, Debug)]
pub struct FormEntry {
    pub name: String,
    pub value: String,
}

/// The numeric value of a digit string, most significant digit first.
pub open spec fn spec_digits_val(s: Seq<char>) -> nat
    decreases s.len(),
{
    if s.len() == 0 {
        0
    } else {
        spec_digits_val(s.drop_last()) * 10 + (s.last() as int - 48) as nat
    }
}

pub open spec fn all_digits(s: Seq<char>) -> bool {
    forall|i: int| 0 <= i < s.len() ==> '0' <= #[trigger] s[i] <= '9'
}

/// What a decimal attribute value denotes: a `usize`, when the string is
/// nonempty, all digits, and in range; nothing otherwise.
pub open spec fn spec_parse_usize(s: Seq<char>) -> Option<usize> {
    if s.len() > 0 && all_digits(s) && spec_digits_val(s) <= usize::MAX {
        Some(spec_digits_val(s) as usize)
    } else {
        None
    }
}

proof fn lemma_digits_prefix_le(s: Seq<char>, i: int)
    requires
        0 <= i <= s.len(),
        all_digits(s),
    ensures
        spec_digits_val(s) >= spec_digits_val(s.subrange(0, i)),
    decreases s.len() - i,
{
    if i < s.len() {
        let p = s.subrange(0, i);
        let q = s.subrange(0, i + 1);
        assert(q.drop_last() =~= p);
        assert(spec_digits_val(q) == spec_digits_val(p) * 10 + (q.last() as int - 48) as nat);
        assert(spec_digits_val(p) * 10 >= spec_digits_val(p)) by (nonlinear_arith);
        lemma_digits_prefix_le(s, i + 1);
    } else {
        assert(s.subrange(0, i) =~= s);
    }
}

/// Parse a decimal `usize`; malformed or out-of-range strings give none.
pub fn parse_usize(s: &str) -> (r: Option<usize>)
    ensures
        r == spec_parse_usize(s@),
{
    let n = s.unicode_len();
    if n == 0 {
        return None;
    }
    let mut val: usize = 0;
    let mut i: usize = 0;
    proof {
        assert(s@.subrange(0, 0) =~= Seq::<char>::empty());
    }
    while i < n
        invariant
            n == s@.len(),
            i <= n,
            forall|j: int| 0 <= j < i ==> '0' <= #[trigger] s@[j] <= '9',
            val == spec_digits_val(s@.subrange(0, i as int)),
        decreases n - i,
    {
        let c = s.get_char(i);
        if !('0' <= c && c <= '9') {
            proof {
                assert(!all_digits(s@));
            }
            return None;
        }
        let d = (c as u32 - 48) as usize;
        if val > (usize::MAX - d) / 10 {
            proof {
                let p = s@.subrange(0, i as int);
                let q = s@.subrange(0, i as int + 1);
                assert(q.drop_last() =~= p);
                assert(spec_digits_val(q) == val * 10 + d);
                assert(val >= (usize::MAX - d) / 10 + 1);
                assert(((usize::MAX - d) / 10 + 1) * 10 > usize::MAX - d) by (nonlinear_arith)
                    requires
                        0 <= d <= 9,
                ;
                assert(val * 10 >= ((usize::MAX - d) / 10 + 1) * 10) by (nonlinear_arith)
                    requires
                        val >= (usize::MAX - d) / 10 + 1,
                ;
                assert(spec_digits_val(q) > usize::MAX);
                if all_digits(s@) {
                    lemma_digits_prefix_le(s@, i as int + 1);
                    assert(spec_digits_val(s@) > usize::MAX);
                }
            }
            return None;
        }
        proof {
            let p = s@.subrange(0, i as int);
            let q = s@.subrange(0, i as int + 1);
            assert(q.drop_last() =~= p);
            assert(val * 10 <= ((usize::MAX - d) / 10) * 10) by (nonlinear_arith)
                requires
                    0 <= val <= (usize::MAX - d) / 10,
            ;
            assert(((usize::MAX - d) / 10) * 10 <= usize::MAX - d) by (nonlinear_arith)
                requires
                    0 <= d <= 9,
            ;
        }
        val = val * 10 + d;
        i += 1;
    }
    proof {
        assert(s@.subrange(0, n as int) =~= s@);
    }
    Some(val)
}

/// The framework element id an element carries, as the reserved decimal
/// attribute; a missing or malformed value means "no framework binding".
pub open spec fn spec_dioxus_id(el: ElementNodeData) -> Option<usize> {
    match el.spec_attr("data-dioxus-id"@) {
        Some(v) => spec_parse_usize(v),
        None => None,
    }
}

pub fn dioxus_id(el: &ElementNodeData) -> (r: Option<usize>)
    ensures
        r == spec_dioxus_id(*el),
{
    match el.attr("data-dioxus-id") {
        Some(v) => parse_usize(v.as_str()),
        None => None,
    }
}

/// The framework element id of node `id`, if the node is an element and
/// carries a well-formed binding.
pub open spec fn node_dioxus_id(d: Document, id: int) -> Option<usize> {
    match d.elem(id) {
        Some(el) => spec_dioxus_id(el),
        None => None,
    }
}

/// The bubble chain from a node to the root, the node first.
pub open spec fn spec_chain(d: Document, id: int) -> Seq<usize>
    decreases id,
{
    if !(0 <= id < d.nodes@.len()) {
        Seq::empty()
    } else {
        match d.nodes@[id].parent {
            Some(p) => if (p as int) < id {
                seq![id as usize] + spec_chain(d, p as int)
            } else {
                seq![id as usize]
            },
            None => seq![id as usize],
        }
    }
}

impl Document {
    /// The bubble chain from `target` to the root, `target` first.
    pub fn node_chain(&self, target: usize) -> (r: Vec<usize>)
        requires
            self.wf(),
        ensures
            r@ == spec_chain(*self, target as int),
    {
        let mut out: Vec<usize> = Vec::new();
        if target >= self.nodes.len() {
            proof {
                assert(out@ =~= spec_chain(*self, target as int));
            }
            return out;
        }
        let mut cur: usize = target;
        loop
            invariant
                self.wf(),
                cur < self.nodes@.len(),
                out@ + spec_chain(*self, cur as int) == spec_chain(*self, target as int),
            decreases cur,
        {
            out.push(cur);
            match self.nodes[cur].parent {
                Some(p) => {
                    proof {
                        assert(crate::node::node_wf(self.nodes@[cur as int], cur as int,
                            self.nodes@.len() as int));
                        assert(out@ + spec_chain(*self, p as int) =~= out@.drop_last() + (seq![
                            cur,
                        ] + spec_chain(*self, p as int)));
                    }
                    cur = p;
                },
                None => {
                    proof {
                        assert(out@ =~= out@.drop_last() + seq![cur]);
                    }
                    return out;
                },
            }
        }
    }

    /// The first bound input of a label that carries a framework binding,
    /// as (framework id, node id).
    pub fn label_bound_input_element(&self, label_node_id: usize) -> (r: Option<(usize, usize)>)
        requires
            self.wf(),
            label_node_id < self.nodes@.len(),
        ensures
            r == spec_label_bound_with_id(*self, label_node_id as int),
    {
        let bound = self.label_bound_input_elements(label_node_id);
        let n = bound.len();
        let mut i: usize = 0;
        proof {
            assert(bound@.skip(0) =~= bound@);
        }
        while i < n
            invariant
                self.wf(),
                n == bound@.len(),
                i <= n,
                bound@ == spec_bound_inputs(*self, label_node_id as int),
                first_bound_with_id(*self, bound@) == first_bound_with_id(
                    *self,
                    bound@.skip(i as int),
                ),
            decreases n - i,
        {
            proof {
                assert(bound@.skip(i as int)[0] == bound@[i as int]);
            }
            let b = bound[i];
            let did = if b < self.nodes.len() {
                match &self.nodes[b].data {
                    NodeData::Element(el) => dioxus_id(el),
                    _ => None,
                }
            } else {
                None
            };
            match did {
                Some(id) => {
                    return Some((id, b));
                },
                None => {
                    proof {
                        assert(bound@.skip(i as int).drop_first() =~= bound@.skip(i as int + 1));
                    }
                },
            }
            i += 1;
        }
        proof {
            assert(bound@.skip(n as int) =~= Seq::<usize>::empty());
        }
        None
    }
}

/// The first entry of `s` that names a framework-bound node, with its
/// framework id.
pub open spec fn first_bound_with_id(d: Document, s: Seq<usize>) -> Option<(usize, usize)>
    decreases s.len(),
{
    if s.len() == 0 {
        None
    } else {
        match node_dioxus_id(d, s[0] as int) {
            Some(did) => Some((did, s[0])),
            None => first_bound_with_id(d, s.drop_first()),
        }
    }
}

/// The label's first framework-bound input.
pub open spec fn spec_label_bound_with_id(d: Document, label: int) -> Option<(usize, usize)> {
    first_bound_with_id(d, spec_bound_inputs(d, label))
}

/// The nearest `<form>` in a bubble chain.
pub open spec fn chain_form(d: Document, chain: Seq<usize>) -> Option<usize>
    decreases chain.len(),
{
    if chain.len() == 0 {
        None
    } else if d.is_form(chain[0] as int) {
        Some(chain[0])
    } else {
        chain_form(d, chain.drop_first())
    }
}

/// Whether node `j` contributes to the collected form values: a checked
/// checkbox input with a `name` attribute.
pub open spec fn contributes(d: Document, j: int) -> bool {
    &&& d.elem(j) matches Some(el)
    &&& d.elem(j).unwrap().spec_attr("name"@) is Some
    &&& d.elem(j).unwrap().spec_attr("type"@) == Some("checkbox"@)
    &&& (d.elem(j).unwrap().node_specific_data matches NodeSpecificData::CheckboxInput(b) && b)
}

/// The value such an input contributes: its `value` attribute, or `on`.
pub open spec fn contributed_value(d: Document, j: int) -> Seq<char> {
    match d.elem(j) {
        Some(el) => match el.spec_attr("value"@) {
            Some(v) => v,
            None => "on"@,
        },
        None => "on"@,
    }
}

/// The (name, value) pairs contributed by the first `k` inputs, in order.
pub open spec fn spec_form_pairs(d: Document, inputs: Seq<usize>, k: int) -> Seq<
    (Seq<char>, Seq<char>),
>
    decreases k,
{
    if k <= 0 || k > inputs.len() {
        Seq::empty()
    } else {
        let rest = spec_form_pairs(d, inputs, k - 1);
        let j = inputs[k - 1] as int;
        if contributes(d, j) {
            rest.push((d.elem(j).unwrap().spec_attr("name"@).unwrap(), contributed_value(d, j)))
        } else {
            rest
        }
    }
}

/// The mapping the pairs denote: inserted left to right, later pairs of
/// one name replacing earlier ones.
pub open spec fn pairs_to_map(s: Seq<(Seq<char>, Seq<char>)>) -> Map<Seq<char>, Seq<char>>
    decreases s.len(),
{
    if s.len() == 0 {
        Map::empty()
    } else {
        pairs_to_map(s.drop_last()).insert(s.last().0, s.last().1)
    }
}

/// The mapping a list of entries denotes.
pub open spec fn entries_map(es: Seq<FormEntry>) -> Map<Seq<char>, Seq<char>>
    decreases es.len(),
{
    if es.len() == 0 {
        Map::empty()
    } else {
        entries_map(es.drop_last()).insert(es.last().name@, es.last().value@)
    }
}

pub open spec fn entry_names_distinct(es: Seq<FormEntry>) -> bool {
    forall|i: int, j: int| 0 <= i < j < es.len() ==> es[i].name@ != es[j].name@
}

/// Replacing the value of one entry updates the denoted mapping at that
/// entry's name.
proof fn lemma_entries_map_update(es: Seq<FormEntry>, i: int, e: FormEntry)
    requires
        entry_names_distinct(es),
        0 <= i < es.len(),
        e.name@ == es[i].name@,
    ensures
        entries_map(es.update(i, e)) == entries_map(es).insert(e.name@, e.value@),
    decreases es.len(),
{
    let u = es.update(i, e);
    if i == es.len() - 1 {
        assert(u.drop_last() =~= es.drop_last());
        assert(entries_map(u) == entries_map(es.drop_last()).insert(e.name@, e.value@));
        assert(entries_map(es).insert(e.name@, e.value@) =~= entries_map(es.drop_last()).insert(
            es.last().name@,
            es.last().value@,
        ).insert(e.name@, e.value@));
        assert(entries_map(es.drop_last()).insert(e.name@, e.value@) =~= entries_map(
            es.drop_last(),
        ).insert(es.last().name@, es.last().value@).insert(e.name@, e.value@));
    } else {
        assert(u.drop_last() =~= es.drop_last().update(i, e));
        lemma_entries_map_update(es.drop_last(), i, e);
        assert(u.last() == es.last());
        assert(entries_map(u) == entries_map(es.drop_last()).insert(e.name@, e.value@).insert(
            es.last().name@,
            es.last().value@,
        ));
        assert(es.last().name@ != e.name@);
        assert(entries_map(es.drop_last()).insert(e.name@, e.value@).insert(
            es.last().name@,
            es.last().value@,
        ) =~= entries_map(es.drop_last()).insert(es.last().name@, es.last().value@).insert(
            e.name@,
            e.value@,
        ));
    }
}

/// The control's own value: its checked flag as `true`/`false`, the
/// editor's text, or the `value` attribute (empty when missing).
pub open spec fn spec_control_value(el: ElementNodeData) -> Seq<char> {
    match el.node_specific_data {
        NodeSpecificData::CheckboxInput(b) => if b {
            "true"@
        } else {
            "false"@
        },
        NodeSpecificData::TextInput(t) => t.text@,
        NodeSpecificData::Plain => match el.spec_attr("value"@) {
            Some(v) => v,
            None => Seq::empty(),
        },
    }
}

/// The index of the entry carrying `name`, if one does.
fn find_entry(entries: &Vec<FormEntry>, name: &str) -> (r: Option<usize>)
    ensures
        match r {
            Some(i) => i < entries@.len() && entries@[i as int].name@ == name@,
            None => forall|q: int| 0 <= q < entries@.len() ==> entries@[q].name@ != name@,
        },
{
    let m = entries.len();
    let mut t: usize = 0;
    while t < m
        invariant
            m == entries@.len(),
            t <= m,
            forall|q: int| 0 <= q < t ==> entries@[q].name@ != name@,
        decreases m - t,
    {
        if str_eq(entries[t].name.as_str(), name) {
            return Some(t);
        }
        t += 1;
    }
    None
}

impl Document {
    /// The form-value snapshot for a framework `input` event: the control's
    /// own current value, and, when a `<form>` stands in the bubble chain,
    /// one entry per checked, named checkbox among the form's inputs, the
    /// last contribution of each name winning.
    pub fn input_event_form_data(&self, parent_chain: &Vec<usize>, element_node_data:
        &ElementNodeData) -> (r: FormData)
        requires
            self.wf(),
        ensures
            r.value@ == spec_control_value(*element_node_data),
            entry_names_distinct(r.values@),
            match chain_form(*self, parent_chain@) {
                Some(f) => entries_map(r.values@) == pairs_to_map(
                    spec_form_pairs(
                        *self,
                        crate::document::spec_input_descendants(*self, f as int),
                        crate::document::spec_input_descendants(*self, f as int).len() as int,
                    ),
                ),
                None => r.values@.len() == 0,
            },
    {
        let value: String = match &element_node_data.node_specific_data {
            NodeSpecificData::CheckboxInput(b) => if *b {
                "true".to_owned()
            } else {
                "false".to_owned()
            },
            NodeSpecificData::TextInput(t) => t.text.clone(),
            NodeSpecificData::Plain => match element_node_data.attr("value") {
                Some(v) => v.clone(),
                None => String::new(),
            },
        };
        let form = self.find_chain_form(parent_chain);
        let values: Vec<FormEntry> = match form {
            None => Vec::new(),
            Some(f) => {
                proof {
                    crate::document::lemma_input_descendants_range(*self, f as int);
                }
                let inputs = self.input_descendents(f);
                let mut entries: Vec<FormEntry> = Vec::new();
                let n = inputs.len();
                let mut k: usize = 0;
                while k < n
                    invariant
                        self.wf(),
                        n == inputs@.len(),
                        k <= n,
                        inputs@ == crate::document::spec_input_descendants(*self, f as int),
                        forall|t: int|
                            0 <= t < inputs@.len() ==> #[trigger] inputs@[t]
                                < self.nodes@.len(),
                        entry_names_distinct(entries@),
                        entries_map(entries@) == pairs_to_map(
                            spec_form_pairs(*self, inputs@, k as int),
                        ),
                    decreases n - k,
                {
                    let j = inputs[k];
                    let item: Option<(String, String)> = match &self.nodes[j].data {
                        NodeData::Element(el) => {
                            let named = el.attr("name");
                            let is_cb = el.attr_is("type", "checkbox");
                            let checked = matches!(
                                el.node_specific_data,
                                NodeSpecificData::CheckboxInput(true),
                            );
                            match named {
                                Some(nm) => if is_cb && checked {
                                    let v = match el.attr("value") {
                                        Some(v) => v.clone(),
                                        None => "on".to_owned(),
                                    };
                                    Some((nm.clone(), v))
                                } else {
                                    None
                                },
                                None => None,
                            }
                        },
                        _ => None,
                    };
                    match item {
                        Some((nm, v)) => {
                            let ghost old_entries = entries@;
                            let found = find_entry(&entries, nm.as_str());
                            match found {
                                Some(idx) => {
                                    proof {
                                        lemma_entries_map_update(
                                            entries@,
                                            idx as int,
                                            FormEntry { name: nm, value: v },
                                        );
                                    }
                                    let slot = &mut entries[idx];
                                    *slot = FormEntry { name: nm, value: v };
                                    proof {
                                        assert forall|i2: int, j2: int|
                                            0 <= i2 < j2 < entries@.len() implies entries@[i2].name@
                                            != entries@[j2].name@ by {
                                            assert(old_entries[i2].name@ != old_entries[j2].name@);
                                            if i2 == idx as int {
                                                assert(entries@[i2].name@
                                                    == old_entries[i2].name@);
                                                assert(entries@[j2] == old_entries[j2]);
                                            } else if j2 == idx as int {
                                                assert(entries@[j2].name@
                                                    == old_entries[j2].name@);
                                                assert(entries@[i2] == old_entries[i2]);
                                            } else {
                                                assert(entries@[i2] == old_entries[i2]);
                                                assert(entries@[j2] == old_entries[j2]);
                                            }
                                        }
                                    }
                                },
                                None => {
                                    entries.push(FormEntry { name: nm, value: v });
                                    proof {
                                        assert(entries@.drop_last() =~= old_entries);
                                        assert forall|i2: int, j2: int|
                                            0 <= i2 < j2 < entries@.len() implies entries@[i2].name@
                                            != entries@[j2].name@ by {
                                            if j2 < entries@.len() - 1 {
                                                assert(entries@[i2] == old_entries[i2]);
                                                assert(entries@[j2] == old_entries[j2]);
                                                assert(old_entries[i2].name@
                                                    != old_entries[j2].name@);
                                            } else {
                                                assert(entries@[i2] == old_entries[i2]);
                                                assert(old_entries[i2].name@ != entries@[j2].name@);
                                            }
                                        }
                                    }
                                },
                            }
                        },
                        None => {},
                    }
                    proof {
                        let jj = inputs@[k as int] as int;
                        let pk = spec_form_pairs(*self, inputs@, k as int);
                        let pk1 = spec_form_pairs(*self, inputs@, k as int + 1);
                        if contributes(*self, jj) {
                            assert(pk1 == pk.push(
                                (
                                    self.elem(jj).unwrap().spec_attr("name"@).unwrap(),
                                    contributed_value(*self, jj),
                                ),
                            ));
                            assert(pk1.drop_last() =~= pk);
                            assert(pairs_to_map(pk1) == pairs_to_map(pk).insert(
                                pk1.last().0,
                                pk1.last().1,
                            ));
                        } else {
                            assert(pk1 == pk);
                        }
                    }
                    k += 1;
                }
                proof {
                    assert(spec_form_pairs(*self, inputs@, n as int) == spec_form_pairs(
                        *self,
                        crate::document::spec_input_descendants(*self, f as int),
                        crate::document::spec_input_descendants(*self, f as int).len() as int,
                    ));
                }
                entries
            },
        };
        FormData { value, values }
    }

    /// The nearest `<form>` element along a bubble chain.
    fn find_chain_form(&self, chain: &Vec<usize>) -> (r: Option<usize>)
        requires
            self.wf(),
        ensures
            r == chain_form(*self, chain@),
            r matches Some(f) ==> f < self.nodes@.len() && self.is_form(f as int),
    {
        let n = chain.len();
        let mut i: usize = 0;
        proof {
            assert(chain@.skip(0) =~= chain@);
        }
        while i < n
            invariant
                self.wf(),
                n == chain@.len(),
                i <= n,
                chain_form(*self, chain@) == chain_form(*self, chain@.skip(i as int)),
            decreases n - i,
        {
            proof {
                assert(chain@.skip(i as int)[0] == chain@[i as int]);
            }
            let c = chain[i];
            let is_form_node = if c < self.nodes.len() {
                match &self.nodes[c].data {
                    NodeData::Element(el) => el.is_tag("form"),
                    _ => false,
                }
            } else {
                false
            };
            if is_form_node {
                return Some(c);
            }
            proof {
                assert(chain@.skip(i as int).drop_first() =~= chain@.skip(i as int + 1));
            }
            i += 1;
        }
        proof {
            assert(chain@.skip(n as int) =~= Seq::<usize>::empty());
        }
        None
    }
}

/// The payload of a DOM event handed to the bridge.
#[derive(Clone, Debug)]
pub enum EventData {
    MouseMove { x: i64, y: i64, buttons: u8 },
    MouseDown { x: i64, y: i64 },
    MouseUp { x: i64, y: i64 },
    Click { x: i64, y: i64 },
    KeyPress { pressed: bool, text: Option<String> },
    Ime,
    Hover,
}

/// A DOM event: target node, propagation flags, payload.
#[derive(Clone, Debug)]
pub struct DomEvent {
    pub target: usize,
    pub bubbles: bool,
    pub cancelable: bool,
    pub data: EventData,
}

/// The response a handler invocation consumes: the next listed one, or
/// no raised flags once the list is exhausted.
pub open spec fn resp_at(rs: Seq<HandlerResponse>, i: int) -> HandlerResponse {
    if 0 <= i < rs.len() {
        rs[i]
    } else {
        HandlerResponse { prevent_default: false, stop_propagation: false }
    }
}

/// Whether the element at `id` carries `type=checkbox` (the tag is not
/// consulted when deciding a replayed input event).
pub open spec fn type_is_checkbox(d: Document, id: int) -> bool {
    d.elem(id) matches Some(el) && el.spec_attr("type"@) == Some("checkbox"@)
}

/// A text-flavoured `<input>`: no `type`, or one of the textual types.
pub open spec fn is_textual_input(d: Document, id: int) -> bool {
    &&& d.elem(id) matches Some(el)
    &&& d.elem(id).unwrap().name.local@ == "input"@
    &&& match d.elem(id).unwrap().spec_attr("type"@) {
        None => true,
        Some(t) => t == "text"@ || t == "password"@ || t == "email"@ || t == "search"@,
    }
}

/// The framework events a pointer-style walk raises from chain entry `i`
/// on: one event per framework-bound ancestor, consuming one response
/// each, until propagation stops.  Each entry is (kind, framework id,
/// node id); the second result is the accumulated prevent-default flag.
pub open spec fn pointer_plan(
    d: Document,
    chain: Seq<usize>,
    rs: Seq<HandlerResponse>,
    kind: FrameworkEventKind,
    bubbles: bool,
    i: int,
    r: int,
    prevented: bool,
) -> (Seq<(FrameworkEventKind, usize, usize)>, bool)
    decreases chain.len() - i,
{
    if !(0 <= i < chain.len()) {
        (Seq::empty(), prevented)
    } else {
        let id = chain[i] as int;
        match node_dioxus_id(d, id) {
            Some(did) => {
                let resp = resp_at(rs, r);
                let pv = prevented || resp.prevent_default;
                if !bubbles || resp.stop_propagation {
                    (seq![(kind, did, chain[i])], pv)
                } else {
                    let rest = pointer_plan(d, chain, rs, kind, bubbles, i + 1, r + 1, pv);
                    (seq![(kind, did, chain[i])] + rest.0, rest.1)
                }
            },
            None => {
                if !bubbles {
                    (Seq::empty(), prevented)
                } else {
                    pointer_plan(d, chain, rs, kind, bubbles, i + 1, r, prevented)
                }
            },
        }
    }
}

/// The framework events a click walk raises from entry `i` on, the
/// accumulated prevent-default flag, and the node, if any, at which the
/// DOM default click ran: the first framework-bound ancestor whose
/// accumulated responses left the default enabled.  At that node a
/// checkbox gains an `input` event; a label replays a click, and
/// possibly an `input` event, against its bound framework-bound input.
pub open spec fn click_plan(
    d: Document,
    chain: Seq<usize>,
    rs: Seq<HandlerResponse>,
    bubbles: bool,
    i: int,
    r: int,
    prevented: bool,
) -> (Seq<(FrameworkEventKind, usize, usize)>, bool, Option<usize>)
    decreases chain.len() - i,
{
    if !(0 <= i < chain.len()) {
        (Seq::empty(), prevented, None)
    } else {
        let id = chain[i] as int;
        match node_dioxus_id(d, id) {
            Some(did) => {
                let resp = resp_at(rs, r);
                let pv = prevented || resp.prevent_default;
                if !pv {
                    let own = seq![(FrameworkEventKind::Click, did, chain[i])] + if d.is_checkbox(
                        id,
                    ) {
                        seq![(FrameworkEventKind::Input, did, chain[i])]
                    } else {
                        Seq::empty()
                    };
                    let replay = if d.is_label(id) {
                        match spec_label_bound_with_id(d, id) {
                            Some((bdid, bnode)) => seq![(FrameworkEventKind::Click, bdid, bnode)]
                                + if !resp_at(rs, r + 1).prevent_default && type_is_checkbox(
                                d,
                                bnode as int,
                            ) {
                                seq![(FrameworkEventKind::Input, bdid, bnode)]
                            } else {
                                Seq::empty()
                            },
                            None => Seq::empty(),
                        }
                    } else {
                        Seq::empty()
                    };
                    let r2 = if d.is_label(id) && spec_label_bound_with_id(d, id) is Some {
                        r + 2
                    } else {
                        r + 1
                    };
                    if !bubbles || resp.stop_propagation {
                        (own + replay, true, Some(chain[i]))
                    } else {
                        let rest = click_plan(d, chain, rs, bubbles, i + 1, r2, true);
                        (own + replay + rest.0, rest.1, Some(chain[i]))
                    }
                } else {
                    if !bubbles || resp.stop_propagation {
                        (seq![(FrameworkEventKind::Click, did, chain[i])], pv, None)
                    } else {
                        let rest = click_plan(d, chain, rs, bubbles, i + 1, r + 1, pv);
                        (seq![(FrameworkEventKind::Click, did, chain[i])] + rest.0, rest.1, rest.2)
                    }
                }
            },
            None => {
                if !bubbles {
                    (Seq::empty(), prevented, None)
                } else {
                    click_plan(d, chain, rs, bubbles, i + 1, r, prevented)
                }
            },
        }
    }
}

/// The framework events a key-press walk raises from entry `i` on: per
/// framework-bound ancestor a `keydown`; while the default is enabled
/// and the key produced text, a `keypress`; at the first ancestor where
/// both went unsuppressed the DOM default runs (third result), followed
/// by an `input` event when the target is a text-flavoured input.
pub open spec fn key_plan(
    d: Document,
    chain: Seq<usize>,
    rs: Seq<HandlerResponse>,
    bubbles: bool,
    has_text: bool,
    i: int,
    r: int,
    prevented: bool,
) -> (Seq<(FrameworkEventKind, usize, usize)>, bool, Option<usize>)
    decreases chain.len() - i,
{
    if !(0 <= i < chain.len()) {
        (Seq::empty(), prevented, None)
    } else {
        let id = chain[i] as int;
        match node_dioxus_id(d, id) {
            Some(did) => {
                let resp = resp_at(rs, r);
                let pv1 = prevented || resp.prevent_default;
                if !pv1 && has_text {
                    let resp2 = resp_at(rs, r + 1);
                    let pv2 = pv1 || resp2.prevent_default;
                    let st = resp.stop_propagation || resp2.stop_propagation;
                    let own = seq![
                        (FrameworkEventKind::KeyDown, did, chain[i]),
                        (FrameworkEventKind::KeyPress, did, chain[i]),
                    ];
                    if !pv2 {
                        let input = if is_textual_input(d, id) {
                            seq![(FrameworkEventKind::Input, did, chain[i])]
                        } else {
                            Seq::empty()
                        };
                        if !bubbles || st {
                            (own + input, true, Some(chain[i]))
                        } else {
                            let rest = key_plan(d, chain, rs, bubbles, has_text, i + 1, r + 2, true);
                            (own + input + rest.0, rest.1, Some(chain[i]))
                        }
                    } else {
                        if !bubbles || st {
                            (own, pv2, None)
                        } else {
                            let rest = key_plan(d, chain, rs, bubbles, has_text, i + 1, r + 2, pv2);
                            (own + rest.0, rest.1, rest.2)
                        }
                    }
                } else {
                    if !bubbles || resp.stop_propagation {
                        (seq![(FrameworkEventKind::KeyDown, did, chain[i])], pv1, None)
                    } else {
                        let rest = key_plan(d, chain, rs, bubbles, has_text, i + 1, r + 1, pv1);
                        (seq![(FrameworkEventKind::KeyDown, did, chain[i])] + rest.0, rest.1, rest.2)
                    }
                }
            },
            None => {
                if !bubbles {
                    (Seq::empty(), prevented, None)
                } else {
                    key_plan(d, chain, rs, bubbles, has_text, i + 1, r, prevented)
                }
            },
        }
    }
}

/// The snapshot an `input` event must carry, evaluated against document
/// `d` for the control at `node`.
pub open spec fn form_snapshot_ok(d: Document, chain: Seq<usize>, node: int, fd: FormData) -> bool {
    &&& d.elem(node) matches Some(el) && fd.value@ == spec_control_value(el)
    &&& entry_names_distinct(fd.values@)
    &&& match chain_form(d, chain) {
        Some(f) => entries_map(fd.values@) == pairs_to_map(
            spec_form_pairs(
                d,
                crate::document::spec_input_descendants(d, f as int),
                crate::document::spec_input_descendants(d, f as int).len() as int,
            ),
        ),
        None => fd.values@.len() == 0,
    }
}

/// The trace's kinds and targets follow the plan.
pub open spec fn trace_matches(trace: Seq<FrameworkEvent>, plan: Seq<
    (FrameworkEventKind, usize, usize),
>) -> bool {
    &&& trace.len() == plan.len()
    &&& forall|i: int|
        0 <= i < trace.len() ==> (#[trigger] trace[i]).kind == plan[i].0 && trace[i].target
            == plan[i].1
}

/// Every `input` event of the trace carries the snapshot of `d` for its
/// plan node; every other event carries none.
pub open spec fn trace_forms_ok(
    d: Document,
    chain: Seq<usize>,
    plan: Seq<(FrameworkEventKind, usize, usize)>,
    trace: Seq<FrameworkEvent>,
) -> bool {
    forall|i: int|
        0 <= i < trace.len() ==> if plan[i].0 == FrameworkEventKind::Input {
            (#[trigger] trace[i]).form matches Some(fd) && form_snapshot_ok(
                d,
                chain,
                plan[i].2 as int,
                fd,
            )
        } else {
            trace[i].form is None
        }
}

pub open spec fn no_forms(trace: Seq<FrameworkEvent>) -> bool {
    forall|i: int| 0 <= i < trace.len() ==> (#[trigger] trace[i]).form is None
}

/// What the DOM default key action does: a text-input target gains a
/// `KeyInput` editor operation carrying the produced text; any other
/// target is untouched.
pub open spec fn keydefault_transition(
    pre: Document,
    post: Document,
    node: usize,
    text: Seq<char>,
) -> bool {
    if pre.is_text_input(node as int) {
        &&& post.nodes@.len() == pre.nodes@.len()
        &&& crate::mouse::text_op_pushed(pre.nodes@[node as int], post.nodes@[node as int])
        &&& (crate::mouse::last_op(post.nodes@[node as int]) matches EditorOp::KeyInput {
            text: t,
        } && t@ == text)
        &&& forall|j: int|
            0 <= j < pre.nodes@.len() && j != node as int ==> post.nodes@[j] == pre.nodes@[j]
        &&& post.focus == pre.focus
        &&& post.navigations == pre.navigations
        &&& post.submissions == pre.submissions
        &&& crate::mouse::base_frame(pre, post)
    } else {
        post == pre
    }
}

/// Every chain entry lies inside the node table, and a chain is no
/// longer than its head's id allows.
pub proof fn lemma_chain_range(d: Document, id: int)
    ensures
        forall|t: int|
            0 <= t < spec_chain(d, id).len() ==> ((#[trigger] spec_chain(d, id)[t]) as int)
                < d.nodes@.len(),
        id >= 0 ==> spec_chain(d, id).len() <= id + 1,
    decreases id,
{
    if 0 <= id < d.nodes@.len() {
        match d.nodes@[id].parent {
            Some(p) => {
                if (p as int) < id {
                    lemma_chain_range(d, p as int);
                    let c = spec_chain(d, id);
                    let rest = spec_chain(d, p as int);
                    assert forall|t: int| 0 <= t < c.len() implies ((#[trigger] c[t]) as int)
                        < d.nodes@.len() by {
                        if t == 0 {
                            assert(c[0] == id as usize);
                        } else {
                            assert(c[t] == rest[t - 1]);
                        }
                    }
                }
            },
            None => {},
        }
    }
}

/// What a dispatched event asks of the document: pointer coordinates in
/// range, and the radio-name condition for clicks.
pub open spec fn dispatch_pre(pre: Document, event: DomEvent) -> bool {
    match event.data {
        EventData::MouseMove { x, y, .. } => -COORD_LIMIT <= x <= COORD_LIMIT && -COORD_LIMIT <= y
            <= COORD_LIMIT,
        EventData::MouseDown { x, y } => -COORD_LIMIT <= x <= COORD_LIMIT && -COORD_LIMIT <= y
            <= COORD_LIMIT,
        EventData::Click { x, y } => -COORD_LIMIT <= x <= COORD_LIMIT && -COORD_LIMIT <= y
            <= COORD_LIMIT && click_ok(pre, x as int, y as int),
        _ => true,
    }
}

/// What dispatching an event does: the trace follows the plan of the
/// event's category, and the document undergoes exactly the default
/// actions the plan allows, in order.
pub open spec fn dispatch_post(
    pre: Document,
    post: Document,
    event: DomEvent,
    rs: Seq<HandlerResponse>,
    trace: Seq<FrameworkEvent>,
) -> bool {
    let chain = spec_chain(pre, event.target as int);
    match event.data {
        EventData::MouseMove { x, y, buttons } => {
            let plan = pointer_plan(
                pre,
                chain,
                rs,
                FrameworkEventKind::PointerMove,
                event.bubbles,
                0,
                0,
                false,
            );
            &&& trace_matches(trace, plan.0)
            &&& no_forms(trace)
            &&& if !event.cancelable || !plan.1 {
                crate::mouse::mousemove_transition(
                    pre,
                    post,
                    event.target,
                    x as int,
                    y as int,
                    buttons,
                    crate::mouse::mousemove_applies(pre, event.target, x as int, y as int, buttons),
                )
            } else {
                post == pre
            }
        },
        EventData::MouseDown { x, y } => {
            let plan = pointer_plan(
                pre,
                chain,
                rs,
                FrameworkEventKind::PointerDown,
                event.bubbles,
                0,
                0,
                false,
            );
            &&& trace_matches(trace, plan.0)
            &&& no_forms(trace)
            &&& if !event.cancelable || !plan.1 {
                crate::mouse::mousedown_transition(pre, post, event.target, x as int, y as int)
            } else {
                post == pre
            }
        },
        EventData::MouseUp { .. } => {
            let plan = pointer_plan(
                pre,
                chain,
                rs,
                FrameworkEventKind::PointerUp,
                event.bubbles,
                0,
                0,
                false,
            );
            &&& trace_matches(trace, plan.0)
            &&& no_forms(trace)
            &&& post == pre
        },
        EventData::Click { x, y } => {
            let plan = click_plan(pre, chain, rs, event.bubbles, 0, 0, false);
            &&& trace_matches(trace, plan.0)
            &&& match plan.2 {
                Some(_) => exists|mid: Document|
                    {
                        &&& #[trigger] crate::mouse::click_transition(pre, mid, x as int, y as int)
                        &&& trace_forms_ok(mid, chain, plan.0, trace)
                        &&& if event.cancelable {
                            post == mid
                        } else {
                            crate::mouse::click_transition(mid, post, x as int, y as int)
                        }
                    },
                None => {
                    &&& no_forms(trace)
                    &&& if !event.cancelable || !plan.1 {
                        crate::mouse::click_transition(pre, post, x as int, y as int)
                    } else {
                        post == pre
                    }
                },
            }
        },
        EventData::KeyPress { pressed, text } => {
            if pressed {
                let plan = key_plan(pre, chain, rs, event.bubbles, text is Some, 0, 0, false);
                &&& trace_matches(trace, plan.0)
                &&& match plan.2 {
                    Some(a) => exists|mid: Document|
                        {
                            &&& #[trigger] keydefault_transition(pre, mid, a, text.unwrap()@)
                            &&& trace_forms_ok(mid, chain, plan.0, trace)
                            &&& if event.cancelable {
                                post == mid
                            } else {
                                keydefault_transition(mid, post, event.target, text.unwrap()@)
                            }
                        },
                    None => {
                        &&& no_forms(trace)
                        &&& if (!event.cancelable || !plan.1) && text is Some {
                            keydefault_transition(pre, post, event.target, text.unwrap()@)
                        } else {
                            post == pre
                        }
                    },
                }
            } else {
                let plan = pointer_plan(
                    pre,
                    chain,
                    rs,
                    FrameworkEventKind::KeyUp,
                    event.bubbles,
                    0,
                    0,
                    false,
                );
                &&& trace_matches(trace, plan.0)
                &&& no_forms(trace)
                &&& post == pre
            }
        },
        EventData::Ime => trace.len() == 0 && post == pre,
        EventData::Hover => trace.len() == 0 && post == pre,
    }
}

/// The next handler response, or silence once the list is exhausted.
fn resp_get(rs: &Vec<HandlerResponse>, r: usize) -> (out: HandlerResponse)
    ensures
        out == resp_at(rs@, r as int),
{
    if r < rs.len() {
        rs[r]
    } else {
        HandlerResponse { prevent_default: false, stop_propagation: false }
    }
}

/// The framework binding of a node, if any.
fn node_did(d: &Document, id: usize) -> (r: Option<usize>)
    ensures
        r == node_dioxus_id(*d, id as int),
{
    if id < d.nodes.len() {
        match &d.nodes[id].data {
            NodeData::Element(el) => dioxus_id(el),
            _ => None,
        }
    } else {
        None
    }
}

/// Raise one framework event per bound ancestor, consuming one response
/// each; used for the pointer categories and key release.
fn pointer_walk(
    d: &Document,
    chain: &Vec<usize>,
    rs: &Vec<HandlerResponse>,
    kind: FrameworkEventKind,
    bubbles: bool,
) -> (out: (Vec<FrameworkEvent>, bool))
    ensures
        ({
            let plan = pointer_plan(*d, chain@, rs@, kind, bubbles, 0, 0, false);
            trace_matches(out.0@, plan.0) && no_forms(out.0@) && out.1 == plan.1
        }),
{
    let ghost plan0 = pointer_plan(*d, chain@, rs@, kind, bubbles, 0, 0, false);
    let mut out: Vec<FrameworkEvent> = Vec::new();
    let mut prevented = false;
    let mut r: usize = 0;
    let mut i: usize = 0;
    let n = chain.len();
    proof {
        assert(plan0.0.skip(0) =~= plan0.0);
    }
    while i < n
        invariant
            n == chain@.len(),
            i <= n,
            r <= i,
            plan0 == pointer_plan(*d, chain@, rs@, kind, bubbles, 0, 0, false),
            out@.len() <= plan0.0.len(),
            forall|t: int|
                0 <= t < out@.len() ==> (#[trigger] out@[t]).kind == plan0.0[t].0 && out@[t].target
                    == plan0.0[t].1 && out@[t].form is None,
            pointer_plan(*d, chain@, rs@, kind, bubbles, i as int, r as int, prevented).0
                == plan0.0.skip(out@.len() as int),
            pointer_plan(*d, chain@, rs@, kind, bubbles, i as int, r as int, prevented).1
                == plan0.1,
        decreases n - i,
    {
        let ghost len0 = out@.len() as int;
        let id = chain[i];
        match node_did(d, id) {
            Some(did) => {
                let resp = resp_get(rs, r);
                let pv = prevented || resp.prevent_default;
                out.push(FrameworkEvent { kind, target: did, form: None });
                proof {
                    let pi = pointer_plan(*d, chain@, rs@, kind, bubbles, i as int, r as int,
                        prevented);
                    assert(pi.0 == plan0.0.skip(len0));
                    assert(pi.0.len() >= 1);
                    assert(len0 < plan0.0.len());
                    assert(plan0.0.skip(len0)[0] == (kind, did, id));
                    assert(plan0.0[len0] == (kind, did, id));
                    assert(plan0.0.skip(len0).drop_first() =~= plan0.0.skip(len0 + 1));
                }
                if !bubbles || resp.stop_propagation {
                    proof {
                        assert(plan0.0.skip(len0) =~= seq![(kind, did, id)]);
                        assert(out@.len() == plan0.0.len());
                    }
                    return (out, pv);
                }
                prevented = pv;
                r += 1;
            },
            None => {
                if !bubbles {
                    proof {
                        assert(plan0.0.skip(len0) =~= Seq::<
                            (FrameworkEventKind, usize, usize),
                        >::empty());
                        assert(out@.len() == plan0.0.len());
                    }
                    return (out, prevented);
                }
            },
        }
        i += 1;
    }
    proof {
        assert(plan0.0.skip(out@.len() as int) =~= Seq::<
            (FrameworkEventKind, usize, usize),
        >::empty());
        assert(out@.len() == plan0.0.len());
    }
    (out, prevented)
}

/// The DOM default key action: a text-input target hands the produced
/// text to its editor; any other target ignores it.
fn apply_key_default(doc: &mut Document, node: usize, text: &String)
    requires
        old(doc).wf(),
    ensures
        final(doc).wf(),
        keydefault_transition(*old(doc), *final(doc), node, text@),
{
    let is_ti = node < doc.nodes.len() && match &doc.nodes[node].data {
        NodeData::Element(el) => matches!(el.node_specific_data, NodeSpecificData::TextInput(_)),
        _ => false,
    };
    if is_ti {
        doc.push_editor_op(node, EditorOp::KeyInput { text: text.clone() });
    }
}

impl Document {
    /// Redispatch one DOM event to the framework along the bubble chain
    /// and apply the DOM default actions the handler responses allow.
    /// Handlers are outside collaborators: each invocation consumes the
    /// next listed response.  Returns the framework events raised, in
    /// order; `input` events carry the form snapshot taken after the
    /// default action ran.
    pub fn handle_event(&mut self, event: &DomEvent, responses: &Vec<HandlerResponse>) -> (trace:
        Vec<FrameworkEvent>)
        requires
            old(self).wf(),
            dispatch_pre(*old(self), *event),
        ensures
            final(self).wf(),
            dispatch_post(*old(self), *final(self), *event, responses@, trace@),
    {
        let ghost pre = *self;
        match &event.data {
            EventData::MouseMove { x, y, buttons } => {
                let xx = *x;
                let yy = *y;
                let bb = *buttons;
                let chain = self.node_chain(event.target);
                let walk = pointer_walk(
                    self,
                    &chain,
                    responses,
                    FrameworkEventKind::PointerMove,
                    event.bubbles,
                );
                if !event.cancelable || !walk.1 {
                    let _consumed = self.handle_mousemove(event.target, xx, yy, bb);
                }
                walk.0
            },
            EventData::MouseDown { x, y } => {
                let xx = *x;
                let yy = *y;
                let chain = self.node_chain(event.target);
                let walk = pointer_walk(
                    self,
                    &chain,
                    responses,
                    FrameworkEventKind::PointerDown,
                    event.bubbles,
                );
                if !event.cancelable || !walk.1 {
                    self.handle_mousedown(event.target, xx, yy);
                }
                walk.0
            },
            EventData::MouseUp { .. } => {
                let chain = self.node_chain(event.target);
                let walk = pointer_walk(
                    self,
                    &chain,
                    responses,
                    FrameworkEventKind::PointerUp,
                    event.bubbles,
                );
                walk.0
            },
            EventData::Click { x, y } => {
                let xx = *x;
                let yy = *y;
                self.dispatch_click(event, responses, xx, yy)
            },
            EventData::KeyPress { pressed, text } => {
                if *pressed {
                    self.dispatch_key(event, responses)
                } else {
                    let chain = self.node_chain(event.target);
                    let walk = pointer_walk(
                        self,
                        &chain,
                        responses,
                        FrameworkEventKind::KeyUp,
                        event.bubbles,
                    );
                    walk.0
                }
            },
            EventData::Ime => Vec::new(),
            EventData::Hover => Vec::new(),
        }
    }

    /// The click category of `handle_event`.
    #[verifier::rlimit(100)]
    fn dispatch_click(&mut self, event: &DomEvent, responses: &Vec<HandlerResponse>, xx: i64,
        yy: i64) -> (trace: Vec<FrameworkEvent>)
        requires
            old(self).wf(),
            event.data matches EventData::Click { x, y } && x == xx && y == yy,
            -COORD_LIMIT <= xx <= COORD_LIMIT,
            -COORD_LIMIT <= yy <= COORD_LIMIT,
            click_ok(*old(self), xx as int, yy as int),
        ensures
            final(self).wf(),
            dispatch_post(*old(self), *final(self), *event, responses@, trace@),
    {
        let ghost pre = *self;
        let chain = self.node_chain(event.target);
        proof {
            lemma_chain_range(pre, event.target as int);
        }
        let ghost plan0 = click_plan(pre, chain@, responses@, event.bubbles, 0, 0, false);
        let mut out: Vec<FrameworkEvent> = Vec::new();
        let mut prevented = false;
        let mut r: usize = 0;
        let mut i: usize = 0;
        let mut acted: Option<usize> = None;
        let mut done = false;
        let ghost mut gmid = pre;
        let n = chain.len();
        proof {
            assert(plan0.0.skip(0) =~= plan0.0);
        }
        while i < n && !done
            invariant
                n == chain@.len(),
                i <= n,
                r <= 2 * i,
                n <= crate::geom::NODE_LIMIT,
                pre == *old(self),
                pre.wf(),
                chain@ == spec_chain(pre, event.target as int),
                forall|t: int|
                    0 <= t < chain@.len() ==> ((#[trigger] chain@[t]) as int) < pre.nodes@.len(),
                plan0 == click_plan(pre, chain@, responses@, event.bubbles, 0, 0, false),
                click_ok(pre, xx as int, yy as int),
                -COORD_LIMIT <= xx <= COORD_LIMIT,
                -COORD_LIMIT <= yy <= COORD_LIMIT,
                self.wf(),
                out@.len() <= plan0.0.len(),
                forall|t: int|
                    0 <= t < out@.len() ==> (#[trigger] out@[t]).kind == plan0.0[t].0
                        && out@[t].target == plan0.0[t].1,
                forall|t: int|
                    0 <= t < out@.len() ==> (if plan0.0[t].0 == FrameworkEventKind::Input {
                        (#[trigger] out@[t]).form matches Some(fd) && form_snapshot_ok(
                            *self,
                            chain@,
                            plan0.0[t].2 as int,
                            fd,
                        )
                    } else {
                        out@[t].form is None
                    }),
                (match acted {
                    None => *self == pre && no_forms(out@) && forall|t: int|
                        0 <= t < out@.len() ==> (#[trigger] out@[t]).kind
                            != FrameworkEventKind::Input,
                    Some(a) => click_transition(pre, *self, xx as int, yy as int) && gmid == *self
                        && plan0.2 == Some(a) && prevented,
                }),
                (acted is None ==> *self == pre),
                (acted is None && done ==> plan0.2 is None),
                (acted is None && !done ==> plan0.2 == click_plan(
                    pre,
                    chain@,
                    responses@,
                    event.bubbles,
                    i as int,
                    r as int,
                    prevented,
                ).2),
                (if done {
                    out@.len() == plan0.0.len() && prevented == plan0.1
                } else {
                    click_plan(pre, chain@, responses@, event.bubbles, i as int, r as int,
                        prevented).0 == plan0.0.skip(out@.len() as int) && click_plan(
                        pre,
                        chain@,
                        responses@,
                        event.bubbles,
                        i as int,
                        r as int,
                        prevented,
                    ).1 == plan0.1
                }),
            decreases n - i,
        {
            let ghost len0 = out@.len() as int;
            let ghost r0 = r as int;
            let ghost plan_i = click_plan(pre, chain@, responses@, event.bubbles, i as int,
                r as int, prevented);
            let id = chain[i];
            proof {
                if acted is Some {
                    crate::laws::lemma_click_keeps_shape(pre, *self, xx as int, yy as int);
                    crate::laws::lemma_shape_bindings(pre, *self);
                }
            }
            let did_opt = node_did(self, id);
            proof {
                assert(did_opt == node_dioxus_id(pre, id as int));
            }
            match did_opt {
                Some(did) => {
                    let resp = resp_get(responses, r);
                    let pv = prevented || resp.prevent_default;
                    if !pv {
                        proof {
                            assert(acted is None);
                            assert(*self == pre);
                        }
                        let is_cb = match &self.nodes[id].data {
                            NodeData::Element(el) => el.is_tag("input") && el.attr_is(
                                "type",
                                "checkbox",
                            ),
                            _ => false,
                        };
                        let is_lbl = match &self.nodes[id].data {
                            NodeData::Element(el) => el.is_tag("label"),
                            _ => false,
                        };
                        let bound = if is_lbl {
                            self.label_bound_input_element(id)
                        } else {
                            None
                        };
                        let bcb = match bound {
                            Some(b) => if b.1 < self.nodes.len() {
                                match &self.nodes[b.1].data {
                                    NodeData::Element(el) => el.attr_is("type", "checkbox"),
                                    _ => false,
                                }
                            } else {
                                false
                            },
                            None => false,
                        };
                        proof {
                            assert(is_cb == pre.is_checkbox(id as int));
                            assert(is_lbl == pre.is_label(id as int));
                            assert(bound == (if pre.is_label(id as int) {
                                spec_label_bound_with_id(pre, id as int)
                            } else {
                                None
                            }));
                        }
                        out.push(
                            FrameworkEvent {
                                kind: FrameworkEventKind::Click,
                                target: did,
                                form: None,
                            },
                        );
                        self.handle_click(id, xx, yy);
                        proof {
                            gmid = *self;
                            crate::laws::lemma_click_keeps_shape(pre, *self, xx as int, yy as int);
                        }
                        if is_cb {
                            let fd = match &self.nodes[id].data {
                                NodeData::Element(el) => self.input_event_form_data(&chain, el),
                                _ => {
                                    proof {
                                        assert(crate::laws::node_shape_eq(
                                            pre.nodes@[id as int],
                                            self.nodes@[id as int],
                                        ));
                                        assert(false);
                                    }
                                    FormData { value: String::new(), values: Vec::new() }
                                },
                            };
                            proof {
                                assert(form_snapshot_ok(*self, chain@, id as int, fd));
                            }
                            out.push(
                                FrameworkEvent {
                                    kind: FrameworkEventKind::Input,
                                    target: did,
                                    form: Some(fd),
                                },
                            );
                            proof {
                                assert(out@.last().form matches Some(f) && form_snapshot_ok(
                                    *self,
                                    chain@,
                                    id as int,
                                    f,
                                ));
                            }
                        }
                        match bound {
                            Some(b) => {
                                let resp2 = resp_get(responses, r + 1);
                                out.push(
                                    FrameworkEvent {
                                        kind: FrameworkEventKind::Click,
                                        target: b.0,
                                        form: None,
                                    },
                                );
                                if !resp2.prevent_default && bcb {
                                    proof {
                                        assert(b.1 < self.nodes@.len());
                                        assert(crate::laws::node_shape_eq(
                                            pre.nodes@[b.1 as int],
                                            self.nodes@[b.1 as int],
                                        ));
                                    }
                                    let fd2 = match &self.nodes[b.1].data {
                                        NodeData::Element(el) => self.input_event_form_data(
                                            &chain,
                                            el,
                                        ),
                                        _ => {
                                            proof {
                                                assert(false);
                                            }
                                            FormData { value: String::new(), values: Vec::new() }
                                        },
                                    };
                                    proof {
                                        assert(form_snapshot_ok(*self, chain@, b.1 as int, fd2));
                                    }
                                    out.push(
                                        FrameworkEvent {
                                            kind: FrameworkEventKind::Input,
                                            target: b.0,
                                            form: Some(fd2),
                                        },
                                    );
                                    proof {
                                        assert(out@.last().form matches Some(f)
                                            && form_snapshot_ok(*self, chain@, b.1 as int, f));
                                    }
                                }
                                r += 2;
                            },
                            None => {
                                r += 1;
                            },
                        }
                        acted = Some(id);
                        prevented = true;
                        if !event.bubbles || resp.stop_propagation {
                            done = true;
                        }
                        proof {
                            let own = seq![(FrameworkEventKind::Click, did, id)] + if
                                pre.is_checkbox(id as int) {
                                seq![(FrameworkEventKind::Input, did, id)]
                            } else {
                                Seq::empty()
                            };
                            let replay = if pre.is_label(id as int) {
                                match spec_label_bound_with_id(pre, id as int) {
                                    Some((bdid, bnode)) => seq![
                                        (FrameworkEventKind::Click, bdid, bnode),
                                    ] + if !resp_at(responses@, r0 + 1).prevent_default
                                        && type_is_checkbox(pre, bnode as int) {
                                        seq![(FrameworkEventKind::Input, bdid, bnode)]
                                    } else {
                                        Seq::empty()
                                    },
                                    None => Seq::empty(),
                                }
                            } else {
                                Seq::empty()
                            };
                            let orr = own + replay;
                            let m = orr.len() as int;
                            let ol = own.len() as int;
                            assert(plan_i.0 == plan0.0.skip(len0));
                            assert(plan_i.2 == plan0.2);
                            assert(out@.len() == len0 + m);
                            assert(orr[0] == (FrameworkEventKind::Click, did, id));
                            if pre.is_checkbox(id as int) {
                                assert(orr[1] == (FrameworkEventKind::Input, did, id));
                            }
                            if pre.is_label(id as int) {
                                match spec_label_bound_with_id(pre, id as int) {
                                    Some((bdid, bnode)) => {
                                        assert(replay[0] == (
                                            FrameworkEventKind::Click,
                                            bdid,
                                            bnode,
                                        ));
                                        assert(orr[ol] == (FrameworkEventKind::Click, bdid, bnode));
                                        if !resp_at(responses@, r0 + 1).prevent_default
                                            && type_is_checkbox(pre, bnode as int) {
                                            assert(replay[1] == (
                                                FrameworkEventKind::Input,
                                                bdid,
                                                bnode,
                                            ));
                                            assert(orr[ol + 1] == (
                                                FrameworkEventKind::Input,
                                                bdid,
                                                bnode,
                                            ));
                                        }
                                    },
                                    None => {},
                                }
                            }
                            assert forall|t: int| 0 <= t < m implies plan0.0[len0 + t]
                                == orr[t] by {
                                assert(plan0.0.skip(len0)[t] == plan0.0[len0 + t]);
                            }
                            if done {
                                assert(plan_i.0 =~= orr);
                                assert(out@.len() == plan0.0.len());
                            } else {
                                let rest = click_plan(pre, chain@, responses@, event.bubbles,
                                    i as int + 1, r as int, true);
                                assert(plan_i.0 == orr + rest.0);
                                assert((orr + rest.0).skip(m) =~= rest.0);
                                assert(plan0.0.skip(len0).skip(m) =~= plan0.0.skip(len0 + m));
                                assert(rest.0 == plan0.0.skip(out@.len() as int));
                            }
                        }
                    } else {
                        out.push(
                            FrameworkEvent {
                                kind: FrameworkEventKind::Click,
                                target: did,
                                form: None,
                            },
                        );
                        prevented = pv;
                        r += 1;
                        if !event.bubbles || resp.stop_propagation {
                            done = true;
                        }
                        proof {
                            assert(plan_i.0 == plan0.0.skip(len0));
                            assert(plan_i.0.len() >= 1);
                            assert(plan0.0.skip(len0)[0] == (FrameworkEventKind::Click, did, id));
                            assert(plan0.0[len0] == (FrameworkEventKind::Click, did, id));
                            if done {
                                assert(plan_i.0 =~= seq![(FrameworkEventKind::Click, did, id)]);
                                assert(out@.len() == plan0.0.len());
                            } else {
                                assert(plan0.0.skip(len0).drop_first() =~= plan0.0.skip(len0 + 1));
                            }
                        }
                    }
                },
                None => {
                    if !event.bubbles {
                        done = true;
                        proof {
                            assert(plan_i.0 =~= Seq::<(FrameworkEventKind, usize, usize)>::empty());
                            assert(out@.len() == plan0.0.len());
                        }
                    }
                },
            }
            i += 1;
        }
        proof {
            if !done {
                assert(click_plan(pre, chain@, responses@, event.bubbles, i as int, r as int,
                    prevented).0 =~= Seq::<(FrameworkEventKind, usize, usize)>::empty());
                assert(out@.len() == plan0.0.len());
                assert(prevented == plan0.1);
                if acted is None {
                    assert(plan0.2 is None);
                }
            }
        }
        match acted {
            None => {
                proof {
                    assert(plan0.2 is None);
                    assert(*self == pre);
                }
                if !event.cancelable || !prevented {
                    self.handle_click(event.target, xx, yy);
                }
            },
            Some(_) => {
                proof {
                    assert(click_transition(pre, gmid, xx as int, yy as int));
                    assert(trace_forms_ok(gmid, chain@, plan0.0, out@));
                }
                if !event.cancelable {
                    proof {
                        crate::laws::lemma_click_keeps_click_ok(pre, *self, xx as int, yy as int);
                    }
                    self.handle_click(event.target, xx, yy);
                    proof {
                        assert(click_transition(gmid, *self, xx as int, yy as int));
                    }
                }
                proof {
                    let post = *self;
                    assert({
                        &&& click_transition(pre, gmid, xx as int, yy as int)
                        &&& trace_forms_ok(gmid, chain@, plan0.0, out@)
                        &&& if event.cancelable {
                            post == gmid
                        } else {
                            click_transition(gmid, post, xx as int, yy as int)
                        }
                    });
                }
            },
        }
        out
    }
}

impl Document {
    /// The pressed-key category of `handle_event`.
    #[verifier::rlimit(100)]
    fn dispatch_key(&mut self, event: &DomEvent, responses: &Vec<HandlerResponse>) -> (trace:
        Vec<FrameworkEvent>)
        requires
            old(self).wf(),
            event.data matches EventData::KeyPress { pressed, .. } && pressed,
        ensures
            final(self).wf(),
            dispatch_post(*old(self), *final(self), *event, responses@, trace@),
    {
        let ghost pre = *self;
        let has_text = match &event.data {
            EventData::KeyPress { text, .. } => text.is_some(),
            _ => false,
        };
        let chain = self.node_chain(event.target);
        proof {
            lemma_chain_range(pre, event.target as int);
        }
        let ghost plan0 = key_plan(pre, chain@, responses@, event.bubbles, has_text, 0, 0, false);
        let mut out: Vec<FrameworkEvent> = Vec::new();
        let mut prevented = false;
        let mut r: usize = 0;
        let mut i: usize = 0;
        let mut acted: Option<usize> = None;
        let mut done = false;
        let ghost mut gmid = pre;
        let n = chain.len();
        proof {
            assert(plan0.0.skip(0) =~= plan0.0);
        }
        while i < n && !done
            invariant
                n == chain@.len(),
                i <= n,
                r <= 2 * i,
                n <= crate::geom::NODE_LIMIT,
                pre == *old(self),
                pre.wf(),
                chain@ == spec_chain(pre, event.target as int),
                forall|t: int|
                    0 <= t < chain@.len() ==> ((#[trigger] chain@[t]) as int) < pre.nodes@.len(),
                plan0 == key_plan(pre, chain@, responses@, event.bubbles, has_text, 0, 0, false),
                event.data matches EventData::KeyPress { pressed, .. } && pressed,
                has_text == (event.data->KeyPress_text is Some),
                self.wf(),
                out@.len() <= plan0.0.len(),
                forall|t: int|
                    0 <= t < out@.len() ==> (#[trigger] out@[t]).kind == plan0.0[t].0
                        && out@[t].target == plan0.0[t].1,
                forall|t: int|
                    0 <= t < out@.len() ==> (if plan0.0[t].0 == FrameworkEventKind::Input {
                        (#[trigger] out@[t]).form matches Some(fd) && form_snapshot_ok(
                            *self,
                            chain@,
                            plan0.0[t].2 as int,
                            fd,
                        )
                    } else {
                        out@[t].form is None
                    }),
                (match acted {
                    None => *self == pre && no_forms(out@) && forall|t: int|
                        0 <= t < out@.len() ==> (#[trigger] out@[t]).kind
                            != FrameworkEventKind::Input,
                    Some(a) => keydefault_transition(
                        pre,
                        *self,
                        a,
                        event.data->KeyPress_text.unwrap()@,
                    ) && gmid == *self && plan0.2 == Some(a) && prevented && has_text,
                }),
                (acted is None && done ==> plan0.2 is None),
                (acted is None && !done ==> plan0.2 == key_plan(
                    pre,
                    chain@,
                    responses@,
                    event.bubbles,
                    has_text,
                    i as int,
                    r as int,
                    prevented,
                ).2),
                (if done {
                    out@.len() == plan0.0.len() && prevented == plan0.1
                } else {
                    key_plan(pre, chain@, responses@, event.bubbles, has_text, i as int, r as int,
                        prevented).0 == plan0.0.skip(out@.len() as int) && key_plan(
                        pre,
                        chain@,
                        responses@,
                        event.bubbles,
                        has_text,
                        i as int,
                        r as int,
                        prevented,
                    ).1 == plan0.1
                }),
            decreases n - i,
        {
            let ghost len0 = out@.len() as int;
            let ghost r0 = r as int;
            let ghost plan_i = key_plan(pre, chain@, responses@, event.bubbles, has_text, i as int,
                r as int, prevented);
            let id = chain[i];
            proof {
                if acted is Some {
                    crate::laws::lemma_keydefault_keeps_shape(
                        pre,
                        *self,
                        acted.unwrap(),
                        event.data->KeyPress_text.unwrap()@,
                    );
                    crate::laws::lemma_shape_bindings(pre, *self);
                }
            }
            let did_opt = node_did(self, id);
            proof {
                assert(did_opt == node_dioxus_id(pre, id as int));
            }
            match did_opt {
                Some(did) => {
                    let resp = resp_get(responses, r);
                    let pv1 = prevented || resp.prevent_default;
                    if !pv1 && has_text {
                        proof {
                            assert(acted is None);
                            assert(*self == pre);
                        }
                        let resp2 = resp_get(responses, r + 1);
                        let pv2 = pv1 || resp2.prevent_default;
                        let st = resp.stop_propagation || resp2.stop_propagation;
                        out.push(
                            FrameworkEvent {
                                kind: FrameworkEventKind::KeyDown,
                                target: did,
                                form: None,
                            },
                        );
                        out.push(
                            FrameworkEvent {
                                kind: FrameworkEventKind::KeyPress,
                                target: did,
                                form: None,
                            },
                        );
                        if !pv2 {
                            let is_ti = match &self.nodes[id].data {
                                NodeData::Element(el) => el.is_tag("input") && match el.attr(
                                    "type",
                                ) {
                                    None => true,
                                    Some(t) => str_eq(t.as_str(), "text") || str_eq(
                                        t.as_str(),
                                        "password",
                                    ) || str_eq(t.as_str(), "email") || str_eq(
                                        t.as_str(),
                                        "search",
                                    ),
                                },
                                _ => false,
                            };
                            proof {
                                assert(is_ti == is_textual_input(pre, id as int));
                            }
                            let text_ref = match &event.data {
                                EventData::KeyPress { text: Some(t), .. } => t,
                                _ => {
                                    proof {
                                        assert(false);
                                    }
                                    unreached()
                                },
                            };
                            apply_key_default(self, id, text_ref);
                            proof {
                                gmid = *self;
                                crate::laws::lemma_keydefault_keeps_shape(
                                    pre,
                                    *self,
                                    id,
                                    text_ref@,
                                );
                            }
                            if is_ti {
                                let fd = match &self.nodes[id].data {
                                    NodeData::Element(el) => self.input_event_form_data(
                                        &chain,
                                        el,
                                    ),
                                    _ => {
                                        proof {
                                            assert(crate::laws::node_shape_eq(
                                                pre.nodes@[id as int],
                                                self.nodes@[id as int],
                                            ));
                                            assert(false);
                                        }
                                        FormData { value: String::new(), values: Vec::new() }
                                    },
                                };
                                proof {
                                    assert(form_snapshot_ok(*self, chain@, id as int, fd));
                                }
                                out.push(
                                    FrameworkEvent {
                                        kind: FrameworkEventKind::Input,
                                        target: did,
                                        form: Some(fd),
                                    },
                                );
                                proof {
                                    assert(out@.last().form matches Some(f) && form_snapshot_ok(
                                        *self,
                                        chain@,
                                        id as int,
                                        f,
                                    ));
                                }
                            }
                            acted = Some(id);
                            prevented = true;
                            r += 2;
                            if !event.bubbles || st {
                                done = true;
                            }
                            proof {
                                let own = seq![
                                    (FrameworkEventKind::KeyDown, did, id),
                                    (FrameworkEventKind::KeyPress, did, id),
                                ] + if is_textual_input(pre, id as int) {
                                    seq![(FrameworkEventKind::Input, did, id)]
                                } else {
                                    Seq::empty()
                                };
                                let m = own.len() as int;
                                assert(plan_i.0 == plan0.0.skip(len0));
                                assert(plan_i.2 == plan0.2);
                                assert(out@.len() == len0 + m);
                                assert(own[0] == (FrameworkEventKind::KeyDown, did, id));
                                assert(own[1] == (FrameworkEventKind::KeyPress, did, id));
                                if is_textual_input(pre, id as int) {
                                    assert(own[2] == (FrameworkEventKind::Input, did, id));
                                }
                                assert forall|t: int| 0 <= t < m implies plan0.0[len0 + t]
                                    == own[t] by {
                                    assert(plan0.0.skip(len0)[t] == plan0.0[len0 + t]);
                                }
                                if done {
                                    assert(plan_i.0 =~= own);
                                    assert(out@.len() == plan0.0.len());
                                } else {
                                    let rest = key_plan(pre, chain@, responses@, event.bubbles,
                                        has_text, i as int + 1, r as int, true);
                                    assert(plan_i.0 == own + rest.0);
                                    assert((own + rest.0).skip(m) =~= rest.0);
                                    assert(plan0.0.skip(len0).skip(m) =~= plan0.0.skip(len0 + m));
                                    assert(rest.0 == plan0.0.skip(out@.len() as int));
                                }
                            }
                        } else {
                            prevented = pv2;
                            r += 2;
                            if !event.bubbles || st {
                                done = true;
                            }
                            proof {
                                let own = seq![
                                    (FrameworkEventKind::KeyDown, did, id),
                                    (FrameworkEventKind::KeyPress, did, id),
                                ];
                                assert(own[0] == (FrameworkEventKind::KeyDown, did, id));
                                assert(own[1] == (FrameworkEventKind::KeyPress, did, id));
                                assert(plan_i.0 == plan0.0.skip(len0));
                                assert(out@.len() == len0 + 2);
                                assert forall|t: int| 0 <= t < 2 implies plan0.0[len0 + t]
                                    == own[t] by {
                                    assert(plan0.0.skip(len0)[t] == plan0.0[len0 + t]);
                                }
                                if done {
                                    assert(plan_i.0 =~= own);
                                    assert(out@.len() == plan0.0.len());
                                } else {
                                    let rest = key_plan(pre, chain@, responses@, event.bubbles,
                                        has_text, i as int + 1, r as int, prevented);
                                    assert(plan_i.0 == own + rest.0);
                                    assert((own + rest.0).skip(2) =~= rest.0);
                                    assert(plan0.0.skip(len0).skip(2) =~= plan0.0.skip(len0 + 2));
                                    assert(rest.0 == plan0.0.skip(out@.len() as int));
                                }
                            }
                        }
                    } else {
                        out.push(
                            FrameworkEvent {
                                kind: FrameworkEventKind::KeyDown,
                                target: did,
                                form: None,
                            },
                        );
                        prevented = pv1;
                        r += 1;
                        if !event.bubbles || resp.stop_propagation {
                            done = true;
                        }
                        proof {
                            assert(plan_i.0 == plan0.0.skip(len0));
                            assert(plan_i.0.len() >= 1);
                            assert(plan0.0.skip(len0)[0] == (FrameworkEventKind::KeyDown, did, id));
                            assert(plan0.0[len0] == (FrameworkEventKind::KeyDown, did, id));
                            if done {
                                assert(plan_i.0 =~= seq![(FrameworkEventKind::KeyDown, did, id)]);
                                assert(out@.len() == plan0.0.len());
                            } else {
                                assert(plan0.0.skip(len0).drop_first() =~= plan0.0.skip(len0 + 1));
                            }
                        }
                    }
                },
                None => {
                    if !event.bubbles {
                        done = true;
                        proof {
                            assert(plan_i.0 =~= Seq::<(FrameworkEventKind, usize, usize)>::empty());
                            assert(out@.len() == plan0.0.len());
                        }
                    }
                },
            }
            i += 1;
        }
        proof {
            if !done {
                assert(key_plan(pre, chain@, responses@, event.bubbles, has_text, i as int,
                    r as int, prevented).0 =~= Seq::<(FrameworkEventKind, usize, usize)>::empty());
                assert(out@.len() == plan0.0.len());
                assert(prevented == plan0.1);
                if acted is None {
                    assert(plan0.2 is None);
                }
            }
        }
        match acted {
            None => {
                proof {
                    assert(plan0.2 is None);
                    assert(*self == pre);
                }
                if !event.cancelable || !prevented {
                    let text_opt = match &event.data {
                        EventData::KeyPress { text, .. } => text,
                        _ => &None,
                    };
                    match text_opt {
                        Some(t) => {
                            apply_key_default(self, event.target, t);
                        },
                        None => {},
                    }
                }
            },
            Some(_) => {
                proof {
                    assert(keydefault_transition(
                        pre,
                        gmid,
                        acted.unwrap(),
                        event.data->KeyPress_text.unwrap()@,
                    ));
                    assert(trace_forms_ok(gmid, chain@, plan0.0, out@));
                }
                if !event.cancelable {
                    let text_ref = match &event.data {
                        EventData::KeyPress { text: Some(t), .. } => t,
                        _ => {
                            proof {
                                assert(false);
                            }
                            unreached()
                        },
                    };
                    apply_key_default(self, event.target, text_ref);
                }
                proof {
                    let post = *self;
                    assert({
                        &&& keydefault_transition(
                            pre,
                            gmid,
                            acted.unwrap(),
                            event.data->KeyPress_text.unwrap()@,
                        )
                        &&& trace_forms_ok(gmid, chain@, plan0.0, out@)
                        &&& if event.cancelable {
                            post == gmid
                        } else {
                            keydefault_transition(
                                gmid,
                                post,
                                event.target,
                                event.data->KeyPress_text.unwrap()@,
                            )
                        }
                    });
                }
            },
        }
        out
    }
}

} // verus!
