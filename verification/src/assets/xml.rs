//! XML documents as plain values, the calls into `xmltree` that read and
//! write them, and the small queries that the asset readers make.

use vstd::prelude::*;
use crate::text::str_eq;

verus! {

/// A node of an XML document.
#[derive(Debug)]
pub enum XmlNode {
    Element(XmlElement),
    Comment(String),
    CData(String),
    Text(String),
    ProcessingInstruction(String, Option<String>),
}

/// An XML element. Its attributes come from a map, so no name occurs twice;
/// they are kept in the document's order.
#[derive(Debug)]
pub struct XmlElement {
    pub prefix: Option<String>,
    pub namespace: Option<String>,
    pub namespaces: Option<Vec<(String, String)>>,
    pub name: String,
    pub attributes: Vec<(String, String)>,
    pub children: Vec<XmlNode>,
}

#[verifier::external_type_specification]
#[verifier::external_body]
pub struct ExXmltreeElement(xmltree::Element);

#[verifier::external_type_specification]
#[verifier::external_body]
pub struct ExXmltreeNode(xmltree::XMLNode);

/// Moves an `xmltree` element into an `XmlElement`, field by field.
#[verifier::external_body]
fn from_xmltree(e: xmltree::Element) -> XmlElement {
    XmlElement {
        prefix: e.prefix,
        namespace: e.namespace,
        namespaces: e.namespaces.map(|ns| ns.0.into_iter().collect()),
        name: e.name,
        attributes: e.attributes.into_iter().collect(),
        children: e.children.into_iter().map(from_xmltree_node).collect(),
    }
}

/// Moves an `xmltree` node into an `XmlNode`, variant by variant.
#[verifier::external_body]
fn from_xmltree_node(n: xmltree::XMLNode) -> XmlNode {
    match n {
        xmltree::XMLNode::Element(e) => XmlNode::Element(from_xmltree(e)),
        xmltree::XMLNode::Comment(s) => XmlNode::Comment(s),
        xmltree::XMLNode::CData(s) => XmlNode::CData(s),
        xmltree::XMLNode::Text(s) => XmlNode::Text(s),
        xmltree::XMLNode::ProcessingInstruction(a, b) => XmlNode::ProcessingInstruction(a, b),
    }
}

/// Copies an `XmlElement` into an `xmltree` element, field by field.
#[verifier::external_body]
fn to_xmltree(e: &XmlElement) -> xmltree::Element {
    xmltree::Element {
        prefix: e.prefix.clone(),
        namespace: e.namespace.clone(),
        namespaces: e.namespaces.as_ref().map(|ns| xmltree::Namespace(ns.iter().cloned().collect())),
        name: e.name.clone(),
        attributes: e.attributes.iter().cloned().collect(),
        children: e.children.iter().map(to_xmltree_node).collect(),
    }
}

/// Copies an `XmlNode` into an `xmltree` node, variant by variant.
#[verifier::external_body]
fn to_xmltree_node(n: &XmlNode) -> xmltree::XMLNode {
    match n {
        XmlNode::Element(e) => xmltree::XMLNode::Element(to_xmltree(e)),
        XmlNode::Comment(s) => xmltree::XMLNode::Comment(s.clone()),
        XmlNode::CData(s) => xmltree::XMLNode::CData(s.clone()),
        XmlNode::Text(s) => xmltree::XMLNode::Text(s.clone()),
        XmlNode::ProcessingInstruction(a, b) => xmltree::XMLNode::ProcessingInstruction(a.clone(), b.clone()),
    }
}

/// An XML element, in specifications: each string by its characters.
pub struct XmlElementView {
    pub prefix: Option<Seq<char>>,
    pub namespace: Option<Seq<char>>,
    pub namespaces: Option<Seq<(Seq<char>, Seq<char>)>>,
    pub name: Seq<char>,
    pub attributes: Seq<(Seq<char>, Seq<char>)>,
    pub children: Seq<XmlNodeView>,
}

/// An XML node, in specifications.
pub enum XmlNodeView {
    Element(XmlElementView),
    Comment(Seq<char>),
    CData(Seq<char>),
    Text(Seq<char>),
    ProcessingInstruction(Seq<char>, Option<Seq<char>>),
}

pub open spec fn opt_str_view(s: Option<String>) -> Option<Seq<char>> {
    match s {
        Some(x) => Some(x@),
        None => None,
    }
}

pub open spec fn pairs_view(v: Seq<(String, String)>) -> Seq<(Seq<char>, Seq<char>)> {
    v.map_values(|p: (String, String)| (p.0@, p.1@))
}

/// An element by value.
pub open spec fn element_view(e: XmlElement) -> XmlElementView
    decreases e,
{
    XmlElementView {
        prefix: opt_str_view(e.prefix),
        namespace: opt_str_view(e.namespace),
        namespaces: match e.namespaces {
            Some(v) => Some(pairs_view(v@)),
            None => None,
        },
        name: e.name@,
        attributes: pairs_view(e.attributes@),
        children: nodes_view(e.children@),
    }
}

/// Nodes by value.
pub open spec fn nodes_view(s: Seq<XmlNode>) -> Seq<XmlNodeView>
    decreases s,
{
    if s.len() == 0 {
        Seq::empty()
    } else {
        nodes_view(s.drop_last()).push(node_view(s.last()))
    }
}

/// A node by value.
pub open spec fn node_view(n: XmlNode) -> XmlNodeView
    decreases n,
{
    match n {
        XmlNode::Element(e) => XmlNodeView::Element(element_view(e)),
        XmlNode::Comment(s) => XmlNodeView::Comment(s@),
        XmlNode::CData(s) => XmlNodeView::CData(s@),
        XmlNode::Text(s) => XmlNodeView::Text(s@),
        XmlNode::ProcessingInstruction(a, b) => XmlNodeView::ProcessingInstruction(a@, opt_str_view(b)),
    }
}

/// The nodes by value, one by one.
pub proof fn lemma_nodes_view(s: Seq<XmlNode>)
    ensures
        nodes_view(s).len() == s.len(),
        forall|i: int| 0 <= i < s.len() ==> #[trigger] nodes_view(s)[i] == node_view(s[i]),
    decreases s.len(),
{
    if s.len() > 0 {
        lemma_nodes_view(s.drop_last());
        assert forall|i: int| 0 <= i < s.len() implies #[trigger] nodes_view(s)[i] == node_view(s[i]) by {
            if i < s.len() - 1 {
                assert(s.drop_last()[i] == s[i]);
            }
        }
    }
}

/// Two elements that agree but for their children, whose children agree by
/// value one by one, are the same by value.
pub proof fn lemma_same_element(a: XmlElement, b: XmlElement)
    requires
        a.prefix == b.prefix,
        a.namespace == b.namespace,
        a.namespaces == b.namespaces,
        a.name == b.name,
        a.attributes == b.attributes,
        a.children@.len() == b.children@.len(),
        forall|i: int| 0 <= i < a.children@.len() ==> node_view(#[trigger] a.children@[i]) == node_view(b.children@[i]),
    ensures
        element_view(a) == element_view(b),
{
    lemma_nodes_view(a.children@);
    lemma_nodes_view(b.children@);
    assert(nodes_view(a.children@) =~= nodes_view(b.children@));
}

/// The document that `xmltree` reads from some bytes: its root element, or
/// `None` where the bytes are no XML document. (With `xmltree`'s
/// `attribute-order` feature the attributes keep the document's order, so
/// the result depends on the bytes alone.)
pub uninterp spec fn xml_document(data: Seq<u8>) -> Option<XmlElement>;

/// The bytes that `xmltree` writes for an element, taken by value, or `None`
/// where writing fails.
pub uninterp spec fn xml_written(e: XmlElementView) -> Option<Seq<u8>>;

/// Calls `xmltree::Element::parse` on bytes: the root element of the
/// document, or `None` where the bytes are no XML.
#[verifier::external_body]
pub(crate) fn parse_xml(data: &[u8]) -> (r: Option<XmlElement>)
    ensures
        r == xml_document(data@),
{
    match xmltree::Element::parse(data) {
        Ok(e) => Some(from_xmltree(e)),
        Err(_) => None,
    }
}

/// Calls `xmltree::Element::write`: the element as an XML document, or `None`
/// where writing fails.
#[verifier::external_body]
pub(crate) fn write_xml(e: &XmlElement) -> (r: Option<Vec<u8>>)
    ensures
        match r {
            Some(b) => xml_written(element_view(*e)) == Some(b@),
            None => xml_written(element_view(*e)) is None,
        },
{
    let mut out: Vec<u8> = Vec::new();
    match to_xmltree(e).write(&mut out) {
        Ok(()) => Some(out),
        Err(_) => None,
    }
}

/// Whether node `n` is an element named `name`.
pub open spec fn is_element_named(n: XmlNode, name: Seq<char>) -> bool {
    n matches XmlNode::Element(e) && e.name@ == name
}

/// The index of the first child element named `name`, as `get_child` finds it.
pub open spec fn first_child(s: Seq<XmlNode>, name: Seq<char>) -> Option<int> {
    if exists|i: int| 0 <= i < s.len() && is_element_named(s[i], name) && forall|j: int| 0 <= j < i ==> !is_element_named(#[trigger] s[j], name) {
        Some(choose|i: int| 0 <= i < s.len() && is_element_named(s[i], name) && forall|j: int| 0 <= j < i ==> !is_element_named(#[trigger] s[j], name))
    } else {
        None
    }
}

/// Whether some node of `s` is an element named `name`.
pub open spec fn has_child_named(s: Seq<XmlNode>, name: Seq<char>) -> bool {
    exists|j: int| 0 <= j < s.len() && is_element_named(#[trigger] s[j], name)
}

/// `first_child` finds a child exactly when there is one of that name.
pub proof fn lemma_first_child_some(s: Seq<XmlNode>, name: Seq<char>)
    ensures
        first_child(s, name) is Some <==> has_child_named(s, name),
{
    if has_child_named(s, name) {
        let i = choose|j: int| 0 <= j < s.len() && is_element_named(#[trigger] s[j], name);
        lemma_first_named(s, name, i);
    }
}

/// Some element named `name` at or before `i` is the first one.
proof fn lemma_first_named(s: Seq<XmlNode>, name: Seq<char>, i: int)
    requires
        0 <= i < s.len(),
        is_element_named(s[i], name),
    ensures
        first_child(s, name) is Some,
    decreases i,
{
    if exists|j: int| 0 <= j < i && is_element_named(#[trigger] s[j], name) {
        let j = choose|j: int| 0 <= j < i && is_element_named(#[trigger] s[j], name);
        lemma_first_named(s, name, j);
    } else {
        lemma_first_child(s, name, i);
    }
}

/// The text of a text or CDATA node.
pub open spec fn node_text(n: XmlNode) -> Option<Seq<char>> {
    match n {
        XmlNode::Text(t) => Some(t@),
        XmlNode::CData(t) => Some(t@),
        _ => None,
    }
}

/// The text and CDATA of the first `k` nodes, concatenated, and whether there was any.
pub open spec fn texts(s: Seq<XmlNode>, k: int) -> (bool, Seq<char>)
    decreases k,
{
    if k <= 0 {
        (false, Seq::empty())
    } else {
        let (any, t) = texts(s, k - 1);
        match node_text(s[k - 1]) {
            Some(x) => (true, t + x),
            None => (any, t),
        }
    }
}

/// An element's text as `get_text` gives it: all its text and CDATA children
/// concatenated, or `None` if it has none.
pub open spec fn element_text(e: XmlElement) -> Option<Seq<char>> {
    let (any, t) = texts(e.children@, e.children@.len() as int);
    if any { Some(t) } else { None }
}

/// The value of the first attribute named `key`.
pub open spec fn attr_value(attrs: Seq<(String, String)>, key: Seq<char>) -> Option<Seq<char>>
    decreases attrs.len(),
{
    if attrs.len() == 0 {
        None
    } else if attrs[0].0@ == key {
        Some(attrs[0].1@)
    } else {
        attr_value(attrs.drop_first(), key)
    }
}

proof fn lemma_first_child(s: Seq<XmlNode>, name: Seq<char>, i: int)
    requires
        0 <= i < s.len(),
        is_element_named(s[i], name),
        forall|j: int| 0 <= j < i ==> !is_element_named(#[trigger] s[j], name),
    ensures
        first_child(s, name) == Some(i),
{
    let k = choose|k: int| 0 <= k < s.len() && is_element_named(s[k], name) && forall|j: int| 0 <= j < k ==> !is_element_named(#[trigger] s[j], name);
    if k < i {
        assert(!is_element_named(s[k], name));
    } else if i < k {
        assert(!is_element_named(s[i], name));
    }
}

impl XmlElement {
    /// The index of the first child element named `name`.
    pub fn child_index(&self, name: &str) -> (r: Option<usize>)
        ensures
            match r {
                Some(i) => first_child(self.children@, name@) == Some(i as int),
                None => first_child(self.children@, name@) is None,
            },
    {
        let mut i: usize = 0;
        while i < self.children.len()
            invariant
                i <= self.children@.len(),
                forall|j: int| 0 <= j < i ==> !is_element_named(#[trigger] self.children@[j], name@),
            decreases self.children.len() - i,
        {
            match &self.children[i] {
                XmlNode::Element(e) => {
                    if str_eq(e.name.as_str(), name) {
                        proof {
                            lemma_first_child(self.children@, name@, i as int);
                        }
                        return Some(i);
                    }
                },
                _ => {},
            }
            i += 1;
        }
        None
    }

    /// The first child element named `name`, as `xmltree`'s `get_child` finds it.
    pub fn get_child(&self, name: &str) -> (r: Option<&XmlElement>)
        ensures
            match first_child(self.children@, name@) {
                Some(i) => r matches Some(c) && self.children@[i] == XmlNode::Element(*c),
                None => r is None,
            },
    {
        match self.child_index(name) {
            Some(i) => match &self.children[i] {
                XmlNode::Element(e) => Some(e),
                _ => None,
            },
            None => None,
        }
    }

    /// The text of the element, as `xmltree`'s `get_text` gives it.
    pub fn get_text(&self) -> (r: Option<String>)
        ensures
            match element_text(*self) {
                Some(t) => r matches Some(x) && x@ == t,
                None => r is None,
            },
    {
        let mut any = false;
        let mut out = String::new();
        let mut i: usize = 0;
        while i < self.children.len()
            invariant
                i <= self.children@.len(),
                (any, out@) == texts(self.children@, i as int),
            decreases self.children.len() - i,
        {
            match &self.children[i] {
                XmlNode::Text(t) => {
                    any = true;
                    out.append(t.as_str());
                },
                XmlNode::CData(t) => {
                    any = true;
                    out.append(t.as_str());
                },
                _ => {},
            }
            i += 1;
        }
        if any {
            Some(out)
        } else {
            None
        }
    }

    /// The text of the first child element named `name`, if it has any.
    pub fn get_child_text(&self, name: &str) -> (r: Option<String>)
        ensures
            match first_child(self.children@, name@) {
                Some(i) => match self.children@[i] {
                    XmlNode::Element(c) => match element_text(c) {
                        Some(t) => r matches Some(x) && x@ == t,
                        None => r is None,
                    },
                    _ => false,
                },
                None => r is None,
            },
    {
        match self.get_child(name) {
            Some(c) => c.get_text(),
            None => None,
        }
    }

    /// The value of the attribute named `key`.
    pub fn attr(&self, key: &str) -> (r: Option<&String>)
        ensures
            match attr_value(self.attributes@, key@) {
                Some(v) => r matches Some(x) && x@ == v,
                None => r is None,
            },
    {
        let mut i: usize = 0;
        assert(self.attributes@.skip(0) =~= self.attributes@);
        while i < self.attributes.len()
            invariant
                i <= self.attributes@.len(),
                attr_value(self.attributes@, key@) == attr_value(self.attributes@.skip(i as int), key@),
            decreases self.attributes.len() - i,
        {
            if str_eq(self.attributes[i].0.as_str(), key) {
                return Some(&self.attributes[i].1);
            }
            assert(self.attributes@.skip(i as int).drop_first() =~= self.attributes@.skip(i + 1));
            i += 1;
        }
        assert(self.attributes@.skip(i as int) =~= Seq::<(String, String)>::empty());
        None
    }
}

} // verus!
