//! XML documents as flat lists of nodes.
//!
//! `roxmltree` parses the text; the library sees the document as the list
//! of its nodes in document order (a parent before its children, siblings
//! in order), each with its id, its parent's id, its kind, its local name,
//! its text and its attributes. Finding a node's children and their text
//! is done, and proved, here.
use vstd::prelude::*;
use crate::text::{is_blank, trim, trim_str};

verus! {

/// An attribute: its namespace URI, if any, its local name and its value.
#[derive(Clone, Debug)]
pub struct XmlAttribute {
    pub namespace: Option<String>,
    pub name: String,
    pub value: String,
}

/// One node of a document.
#[derive(Debug)]
pub struct XmlNode {
    /// The node's id within its document.
    pub id: usize,
    /// The id of the node's parent; `None` for the document node.
    pub parent: Option<usize>,
    /// The node is an element.
    pub element: bool,
    /// An element's local name (empty for other nodes).
    pub name: String,
    /// `roxmltree::Node::text`: for an element, the text of its first
    /// child when that child is text.
    pub text: Option<String>,
    pub attributes: Vec<XmlAttribute>,
}

/// An attribute as plain values.
pub type AttributeView = (Option<Seq<char>>, Seq<char>, Seq<char>);

/// A node as plain values.
pub struct NodeView {
    pub id: nat,
    pub parent: Option<nat>,
    pub element: bool,
    pub name: Seq<char>,
    pub text: Option<Seq<char>>,
    pub attributes: Seq<AttributeView>,
}

pub open spec fn opt_str_view(o: Option<String>) -> Option<Seq<char>> {
    match o {
        Some(s) => Some(s@),
        None => None,
    }
}

pub open spec fn attribute_view(a: XmlAttribute) -> AttributeView {
    (opt_str_view(a.namespace), a.name@, a.value@)
}

pub open spec fn node_view(n: XmlNode) -> NodeView {
    NodeView {
        id: n.id as nat,
        parent: match n.parent {
            Some(p) => Some(p as nat),
            None => None,
        },
        element: n.element,
        name: n.name@,
        text: opt_str_view(n.text),
        attributes: n.attributes@.map_values(|a: XmlAttribute| attribute_view(a)),
    }
}

pub open spec fn nodes_view(v: Seq<XmlNode>) -> Seq<NodeView> {
    v.map_values(|n: XmlNode| node_view(n))
}

/// The nodes of the XML document `text`, in document order, as
/// `roxmltree::Document::parse` reads it, or the parser's message.
pub uninterp spec fn xml_document(text: Seq<char>) -> Result<Seq<NodeView>, Seq<char>>;

/// Parses `text` with `roxmltree::Document::parse` and lists the nodes of
/// `Document::descendants` in that order. The contract says that the list
/// (or the parser's message) is the document's, as named by
/// `xml_document`; what a parse of given text gives is not stated.
#[verifier::external_body]
pub(crate) fn parse_xml(text: &str) -> (r: Result<Vec<XmlNode>, String>)
    ensures
        match xml_document(text@) {
            Ok(nodes) => r matches Ok(v) && nodes_view(v@) == nodes,
            Err(msg) => r matches Err(e) && e@ == msg,
        },
{
    let doc = roxmltree::Document::parse(text).map_err(|err| err.to_string())?;
    Ok(doc.descendants().map(|n| XmlNode {
        id: n.id().get_usize(),
        parent: n.parent().map(|p| p.id().get_usize()),
        element: n.is_element(),
        name: n.tag_name().name().to_string(),
        text: n.text().map(|t| t.to_string()),
        attributes: n.attributes().map(|a| XmlAttribute {
            namespace: a.namespace().map(|u| u.to_string()),
            name: a.name().to_string(),
            value: a.value().to_string(),
        }).collect(),
    }).collect())
}

// ---------------------------------------------------------------------------
// Specifications
// ---------------------------------------------------------------------------

/// Node `n` is an element child of the node with id `parent` named `name`.
pub open spec fn is_named_child(n: NodeView, parent: nat, name: Seq<char>) -> bool {
    n.element && n.parent == Some(parent) && n.name == name
}

/// The index of the first element named `name` from index `i` on, among
/// the children of the node with id `parent`.
pub open spec fn first_child_from(nodes: Seq<NodeView>, parent: nat, name: Seq<char>, i: int) -> Option<int>
    decreases nodes.len() - i,
{
    if i < 0 || i >= nodes.len() {
        None
    } else if is_named_child(nodes[i], parent, name) {
        Some(i)
    } else {
        first_child_from(nodes, parent, name, i + 1)
    }
}

/// The index of the first child element of `parent` named `name`
/// (`Node::children().find(..)`).
pub open spec fn child(nodes: Seq<NodeView>, parent: nat, name: Seq<char>) -> Option<int> {
    first_child_from(nodes, parent, name, 0)
}

/// The trimmed, non-empty text of the first child element named `name`.
pub open spec fn child_text(nodes: Seq<NodeView>, parent: nat, name: Seq<char>) -> Option<Seq<char>> {
    match child(nodes, parent, name) {
        Some(i) => match nodes[i].text {
            Some(t) => if trim(t).len() > 0 {
                Some(trim(t))
            } else {
                None
            },
            None => None,
        },
        None => None,
    }
}

/// The value of the first attribute without namespace named `name`.
pub open spec fn attribute_from(attrs: Seq<AttributeView>, name: Seq<char>, i: int) -> Option<Seq<char>>
    decreases attrs.len() - i,
{
    if i < 0 || i >= attrs.len() {
        None
    } else if attrs[i].0 is None && attrs[i].1 == name {
        Some(attrs[i].2)
    } else {
        attribute_from(attrs, name, i + 1)
    }
}

// ---------------------------------------------------------------------------
// Queries
// ---------------------------------------------------------------------------

/// The index of the first child element of `parent` named `name`.
pub fn direct_child(nodes: &Vec<XmlNode>, parent: usize, name: &str) -> (r: Option<usize>)
    ensures
        match r {
            Some(i) => child(nodes_view(nodes@), parent as nat, name@) == Some(i as int) && i
                < nodes@.len(),
            None => child(nodes_view(nodes@), parent as nat, name@) is None,
        },
{
    let ghost nv = nodes_view(nodes@);
    let key = name.to_owned();
    let mut i: usize = 0;
    while i < nodes.len()
        invariant
            nv == nodes_view(nodes@),
            key@ == name@,
            i <= nodes@.len(),
            child(nv, parent as nat, name@) == first_child_from(nv, parent as nat, name@, i as int),
        decreases nodes.len() - i,
    {
        let n = &nodes[i];
        assert(nv[i as int] == node_view(nodes@[i as int]));
        if n.element && n.parent == Some(parent) && n.name == key {
            return Some(i);
        }
        i = i + 1;
    }
    None
}

/// The trimmed, non-empty text of the first child element of `parent`
/// named `name`.
pub fn direct_child_text(nodes: &Vec<XmlNode>, parent: usize, name: &str) -> (r: Option<String>)
    ensures
        opt_str_view(r) == child_text(nodes_view(nodes@), parent as nat, name@),
{
    match direct_child(nodes, parent, name) {
        Some(i) => {
            assert(nodes_view(nodes@)[i as int] == node_view(nodes@[i as int]));
            assert(child(nodes_view(nodes@), parent as nat, name@) == Some(i as int));
            match &nodes[i].text {
                Some(t) => {
                    let trimmed = trim_str(t.as_str());
                    if trimmed.as_str().unicode_len() > 0 {
                        Some(trimmed)
                    } else {
                        None
                    }
                },
                None => None,
            }
        },
        None => None,
    }
}

/// The value of the attribute without namespace named `name`
/// (`Node::attribute`).
pub fn attribute(node: &XmlNode, name: &str) -> (r: Option<String>)
    ensures
        opt_str_view(r) == attribute_from(node_view(*node).attributes, name@, 0),
{
    let ghost av = node_view(*node).attributes;
    let key = name.to_owned();
    let mut i: usize = 0;
    while i < node.attributes.len()
        invariant
            av == node.attributes@.map_values(|a: XmlAttribute| attribute_view(a)),
            key@ == name@,
            i <= node.attributes@.len(),
            attribute_from(av, name@, 0) == attribute_from(av, name@, i as int),
        decreases node.attributes.len() - i,
    {
        let a = &node.attributes[i];
        assert(av[i as int] == attribute_view(node.attributes@[i as int]));
        if a.namespace.is_none() && a.name == key {
            return Some(a.value.clone());
        }
        i = i + 1;
    }
    None
}

} // verus!
