//! The document tree's node model.
//!
//! A node carries its identity, its tree links, the layout record the
//! layout engine produced for it, and a closed variant payload: plain
//! element data, a text-input editor, or a checkbox/radio checked flag.
use vstd::prelude::*;
use crate::geom::{Layout, layout_ok};
use crate::strutil::str_eq;

verus! {

/// A qualified markup name: optional prefix, namespace URL, local name.
#[derive(Clone, Debug)]
pub struct QualName {
    pub prefix: Option<String>,
    pub ns: String,
    pub local: String,
}

/// One attribute of an element, name and string value.
#[derive(Clone, Debug)]
pub struct Attribute {
    pub name: String,
    pub value: String,
}

/// One recorded call into the external text-editing engine.
#[derive(Clone, Debug)]
pub enum EditorOp {
    /// Move the caret to a point, collapsing any selection.
    MoveCaret { x: i64, y: i64 },
    /// Extend the current selection to a point.
    ExtendSelection { x: i64, y: i64 },
    /// Feed produced text to the editor.
    KeyInput { text: String },
}

/// The state this layer keeps for a text input: the current text (owned by
/// the external editing engine, read here for form values) and the stream
/// of operations handed to that engine.
#[derive(Clone, Debug)]
pub struct TextInputState {
    pub text: String,
    pub ops: Vec<EditorOp>,
}

/// Variant payload of a node; which variant applies is consistent with the
/// element's tag in well-formed markup, and a mismatch is treated as
/// "feature not applicable", never as an error.
#[derive(Clone, Debug)]
pub enum NodeSpecificData {
    /// A plain element with no interactive state.
    Plain,
    /// An editable text input.
    TextInput(TextInputState),
    /// A checkbox or radio input; the payload is its checked flag.
    CheckboxInput(bool),
}

/// Data owned by every node that represents a markup element.
#[derive(Clone, Debug)]
pub struct ElementNodeData {
    pub name: QualName,
    pub attrs: Vec<Attribute>,
    pub node_specific_data: NodeSpecificData,
}

/// What a node is: the document root, an element, or a text run.
#[derive(Clone, Debug)]
pub enum NodeData {
    Document,
    Element(ElementNodeData),
    Text(String),
}

/// An entry of the document tree.
#[derive(Clone, Debug)]
pub struct Node {
    /// Identity; equals the node's index in the document's node table.
    pub id: usize,
    /// DOM parent, absent for the root.
    pub parent: Option<usize>,
    /// Layout parent, absent for the root; used by the ancestor climb.
    pub layout_parent: Option<usize>,
    /// Ordered child ids.
    pub children: Vec<usize>,
    /// Layout record produced externally.
    pub layout: Layout,
    pub data: NodeData,
}

/// The HTML namespace, used when an element name carries no explicit one.
pub const HTML_NAMESPACE: &'static str = "http://www.w3.org/1999/xhtml";

/// Build a qualified element name from a local name and an optional
/// namespace; without a namespace the name lands in the HTML namespace.
pub fn qual_name(local_name: &str, namespace: Option<&str>) -> (r: QualName)
    ensures
        r.prefix is None,
        r.local@ == local_name@,
        r.ns@ == match namespace {
            Some(ns) => ns@,
            None => HTML_NAMESPACE@,
        },
{
    QualName {
        prefix: None,
        ns: match namespace {
            Some(ns) => ns.to_owned(),
            None => HTML_NAMESPACE.to_owned(),
        },
        local: local_name.to_owned(),
    }
}

/// The value of the first attribute called `name`, if any.
pub open spec fn attr_in(attrs: Seq<Attribute>, name: Seq<char>) -> Option<Seq<char>>
    decreases attrs.len(),
{
    if attrs.len() == 0 {
        None
    } else if attrs[0].name@ == name {
        Some(attrs[0].value@)
    } else {
        attr_in(attrs.drop_first(), name)
    }
}

proof fn lemma_attr_in_step(attrs: Seq<Attribute>, name: Seq<char>, i: int)
    requires
        0 <= i < attrs.len(),
        attrs.skip(i)[0].name@ != name,
    ensures
        attr_in(attrs.skip(i), name) == attr_in(attrs.skip(i + 1), name),
{
    assert(attrs.skip(i).drop_first() =~= attrs.skip(i + 1));
}

impl ElementNodeData {
    /// The first attribute called `name`, exactly as the markup wrote it.
    pub open spec fn spec_attr(&self, name: Seq<char>) -> Option<Seq<char>> {
        attr_in(self.attrs@, name)
    }

    /// Attribute lookup by name, first match wins.
    pub fn attr(&self, name: &str) -> (r: Option<&String>)
        ensures
            match r {
                Some(v) => self.spec_attr(name@) == Some(v@),
                None => self.spec_attr(name@) is None,
            },
    {
        let n = self.attrs.len();
        let mut i: usize = 0;
        proof {
            assert(self.attrs@.skip(0) =~= self.attrs@);
        }
        while i < n
            invariant
                n == self.attrs@.len(),
                i <= n,
                attr_in(self.attrs@, name@) == attr_in(self.attrs@.skip(i as int), name@),
            decreases n - i,
        {
            if str_eq(self.attrs[i].name.as_str(), name) {
                proof {
                    assert(self.attrs@.skip(i as int)[0] == self.attrs@[i as int]);
                }
                return Some(&self.attrs[i].value);
            }
            proof {
                assert(self.attrs@.skip(i as int)[0] == self.attrs@[i as int]);
                lemma_attr_in_step(self.attrs@, name@, i as int);
            }
            i += 1;
        }
        proof {
            assert(self.attrs@.skip(n as int) =~= Seq::<Attribute>::empty());
        }
        None
    }

    /// Whether the element carries an attribute of this name, whatever its
    /// value.
    pub fn has_attr(&self, name: &str) -> (r: bool)
        ensures
            r == (self.spec_attr(name@) is Some),
    {
        self.attr(name).is_some()
    }

    /// Whether the first attribute of this name exists and holds `value`.
    pub fn attr_is(&self, name: &str, value: &str) -> (r: bool)
        ensures
            r == (self.spec_attr(name@) == Some(value@)),
    {
        match self.attr(name) {
            Some(v) => str_eq(v.as_str(), value),
            None => false,
        }
    }

    /// Whether the element's local tag name is `tag`.
    pub fn is_tag(&self, tag: &str) -> (r: bool)
        ensures
            r == (self.name.local@ == tag@),
    {
        str_eq(self.name.local.as_str(), tag)
    }
}

/// A node's per-node well-formedness within a table of `n` nodes: links
/// point strictly downward in id order (parents smaller, children larger),
/// which rules out cycles, and every layout value is bounded.
pub open spec fn node_wf(node: Node, id: int, n: int) -> bool {
    &&& node.id == id
    &&& (node.parent matches Some(p) ==> p < id)
    &&& (node.layout_parent matches Some(p) ==> p < id)
    &&& forall|k: int|
        0 <= k < node.children@.len() ==> id < #[trigger] node.children@[k] < n
    &&& layout_ok(node.layout)
}

impl Node {
    /// The element data, for element nodes.
    pub open spec fn spec_element(&self) -> Option<ElementNodeData> {
        match self.data {
            NodeData::Element(el) => Some(el),
            _ => None,
        }
    }

    pub open spec fn is_element(&self) -> bool {
        self.data is Element
    }
}

} // verus!
