//! A protocol document as the flat list of its XML nodes, and what the
//! reading of definitions needs of them: children, tags and attributes.
use vstd::prelude::*;

use crate::protocol::definitions::{first_where, lemma_first_where_found, lemma_first_where_stable};
use crate::protocol::error::{Error, ErrorView};
use crate::protocol::text::str_eq;

verus! {

/// An attribute of an element: its local name and its value.
#[derive(Debug)]
pub struct XmlAttribute {
    pub name: String,
    pub value: String,
}

/// A node of a document: its id, the id of its parent (none for the root
/// of the document), whether it is text, its tag (empty but for elements)
/// and its attributes in document order.
#[derive(Debug)]
pub struct XmlNode {
    pub id: usize,
    pub parent: Option<usize>,
    pub is_text: bool,
    pub tag: String,
    pub attributes: Vec<XmlAttribute>,
}

pub struct XmlNodeView {
    pub id: nat,
    pub parent: Option<nat>,
    pub is_text: bool,
    pub tag: Seq<char>,
    pub attributes: Seq<(Seq<char>, Seq<char>)>,
}

impl View for XmlNode {
    type V = XmlNodeView;

    open spec fn view(&self) -> XmlNodeView {
        XmlNodeView {
            id: self.id as nat,
            parent: match self.parent {
                Some(p) => Some(p as nat),
                None => None,
            },
            is_text: self.is_text,
            tag: self.tag@,
            attributes: self.attributes@.map_values(|a: XmlAttribute| (a.name@, a.value@)),
        }
    }
}

/// The nodes of an XML document in document order, the root of the document
/// first: the order in which `roxmltree` walks the descendants of the root.
#[derive(Debug)]
pub struct XmlDocument {
    pub nodes: Vec<XmlNode>,
}

impl View for XmlDocument {
    type V = Seq<XmlNodeView>;

    open spec fn view(&self) -> Seq<XmlNodeView> {
        self.nodes@.map_values(|n: XmlNode| n@)
    }
}

/// The nodes that `roxmltree` reads from `content`, in document order; none
/// where `content` is not a well-formed XML document.
pub uninterp spec fn xml_nodes(content: Seq<char>) -> Option<Seq<XmlNodeView>>;

/// `roxmltree::Document::parse`, with the descendants of the document's root
/// (the root itself first) turned into plain nodes one for one: id, parent's
/// id, whether it is text, tag name and attributes (local name and value).
/// The contract names the outcome, which depends on `content` alone; that it
/// fails exactly on what is not well-formed XML is left to that name.
#[verifier::external_body]
fn parse_document(content: &str) -> (r: Option<XmlDocument>)
    ensures
        match r {
            Some(d) => xml_nodes(content@) == Some(d@),
            None => xml_nodes(content@) is None,
        },
{
    let doc = roxmltree::Document::parse(content).ok()?;
    let nodes = doc.descendants().map(|n| XmlNode {
        id: n.id().get_usize(),
        parent: n.parent().map(|p| p.id().get_usize()),
        is_text: n.is_text(),
        tag: n.tag_name().name().to_string(),
        attributes: n.attributes().map(|a| XmlAttribute {
            name: a.name().to_string(),
            value: a.value().to_string(),
        }).collect(),
    }).collect();
    Some(XmlDocument { nodes })
}

/// Whether node `k` is a child of the node with id `id` that is not text.
pub open spec fn is_element_child(nodes: Seq<XmlNodeView>, id: nat, k: int) -> bool {
    nodes[k].parent == Some(id) && !nodes[k].is_text
}

/// The positions of the children of the node with id `id` that are not
/// text, in document order.
pub open spec fn element_children(nodes: Seq<XmlNodeView>, id: nat) -> Seq<int> {
    Seq::new(nodes.len(), |k: int| k).filter(|k: int| is_element_child(nodes, id, k))
}

/// The value of the first attribute of `node` named `name`.
pub open spec fn attribute(node: XmlNodeView, name: Seq<char>) -> Option<Seq<char>> {
    match first_where(node.attributes.len() as int, |j: int| node.attributes[j].0 == name) {
        Some(j) => Some(node.attributes[j].1),
        None => None,
    }
}

/// The value of attribute `name` of `node`, or the error that it is missing.
pub open spec fn read_attribute(node: XmlNodeView, name: Seq<char>) -> Result<Seq<char>, ErrorView> {
    match attribute(node, name) {
        Some(v) => Ok(v),
        None => Err(ErrorView::MissingAttribute { name, src: node.tag }),
    }
}

impl XmlDocument {
    /// Reads an XML document; `None` where `content` is not well-formed.
    pub fn parse(content: &str) -> (r: Option<XmlDocument>)
        ensures
            match r {
                Some(d) => xml_nodes(content@) == Some(d@),
                None => xml_nodes(content@) is None,
            },
    {
        parse_document(content)
    }

    /// The positions of the children of node `node` that are not text, in
    /// document order.
    pub fn element_children(&self, node: usize) -> (r: Vec<usize>)
        requires
            node < self@.len(),
        ensures
            r@.map_values(|k: usize| k as int) == element_children(self@, self@[node as int].id),
            forall|j: int| 0 <= j < r@.len() ==> #[trigger] r@[j] < self@.len(),
    {
        let id = self.nodes[node].id;
        let ghost nodes = self@;
        let ghost all = Seq::new(nodes.len(), |k: int| k);
        let ghost keep = |k: int| is_element_child(nodes, id as nat, k);
        let mut r: Vec<usize> = Vec::new();
        let mut i: usize = 0;
        proof {
            reveal(Seq::filter);
        }
        assert(all.take(0) =~= Seq::<int>::empty());
        while i < self.nodes.len()
            invariant
                i <= self.nodes@.len(),
                nodes == self@,
                nodes.len() == self.nodes@.len(),
                all == Seq::new(nodes.len(), |k: int| k),
                keep == (|k: int| is_element_child(nodes, id as nat, k)),
                r@.map_values(|k: usize| k as int) == all.take(i as int).filter(keep),
                forall|j: int| 0 <= j < r@.len() ==> #[trigger] r@[j] < i,
            decreases self.nodes@.len() - i,
        {
            let ghost before = r@.map_values(|k: usize| k as int);
            let n = &self.nodes[i];
            assert(nodes[i as int] == n@);
            let is_child = match n.parent {
                Some(p) => p == id && !n.is_text,
                None => false,
            };
            assert(is_child == keep(i as int));
            if is_child {
                r.push(i);
            }
            proof {
                reveal(Seq::filter);
                assert(all.take(i as int + 1).drop_last() =~= all.take(i as int));
                assert(r@.map_values(|k: usize| k as int) =~= (if keep(i as int) {
                    before.push(i as int)
                } else {
                    before
                }));
            }
            i = i + 1;
        }
        assert(all.take(i as int) =~= all);
        r
    }

    /// The value of the first attribute of node `node` named `name`.
    pub fn attribute(&self, node: usize, name: &str) -> (r: Option<&String>)
        requires
            node < self@.len(),
        ensures
            match r {
                Some(v) => attribute(self@[node as int], name@) == Some(v@),
                None => attribute(self@[node as int], name@) is None,
            },
    {
        let n = &self.nodes[node];
        let ghost v = n@;
        assert(self@[node as int] == v);
        let ghost p = |j: int| v.attributes[j].0 == name@;
        assert(p =~= (|j: int| self@[node as int].attributes[j].0 == name@));
        let mut j: usize = 0;
        while j < n.attributes.len()
            invariant
                j <= n.attributes@.len(),
                node < self@.len(),
                v == self@[node as int],
                v == n@,
                v.attributes.len() == n.attributes@.len(),
                p == (|j: int| v.attributes[j].0 == name@),
                first_where(j as int, p) is None,
            decreases n.attributes@.len() - j,
        {
            let a = &n.attributes[j];
            assert(v.attributes[j as int] == (a.name@, a.value@));
            if str_eq(a.name.as_str(), name) {
                proof {
                    lemma_first_where_found(j as int, p);
                    lemma_first_where_stable(j as int + 1, v.attributes.len() as int, p);
                }
                return Some(&a.value);
            }
            j = j + 1;
        }
        None
    }

    /// The value of attribute `name` of node `node`; the error that it is
    /// missing, which names the node's tag.
    pub fn read_attribute(&self, node: usize, name: &str) -> (r: Result<String, Error>)
        requires
            node < self@.len(),
        ensures
            match r {
                Ok(v) => read_attribute(self@[node as int], name@) == Ok::<Seq<char>, ErrorView>(v@),
                Err(e) => read_attribute(self@[node as int], name@) == Err::<Seq<char>, ErrorView>(e@),
            },
    {
        match self.attribute(node, name) {
            Some(v) => Ok(v.clone()),
            None => Err(Error::MissingAttribute {
                name: String::from_str(name),
                src: self.nodes[node].tag.clone(),
            }),
        }
    }
}

} // verus!
