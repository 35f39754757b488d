//! A minimal document tree for style resolution.
//!
//! Nodes live in an arena indexed by [`NodeId`]; each node names its parent
//! by index. A well-formed document lists every parent before its children,
//! so walking parent links always terminates.

use vstd::prelude::*;

verus! {

/// A node's position in the document arena.
pub type NodeId = usize;

/// An element's tag and its ordered attribute list.
#[derive(Debug, Clone)]
pub struct ElementData {
    pub tag_name: String,
    pub attributes: Vec<(String, String)>,
}

/// What a node is: an element or a run of text.
#[derive(Debug, Clone)]
pub enum NodeType {
    Element(ElementData),
    Text(String),
}

/// One document node: its kind and its optional parent.
#[derive(Debug, Clone)]
pub struct Node {
    pub parent: Option<NodeId>,
    pub node_type: NodeType,
}

/// A document: an arena of nodes.
#[derive(Debug, Clone)]
pub struct Dom {
    pub nodes: Vec<Node>,
}

/// The mathematical picture of an element.
pub struct ElementView {
    pub tag_name: Seq<char>,
    pub attributes: Seq<(Seq<char>, Seq<char>)>,
}

/// The mathematical picture of a node's kind.
pub enum NodeTypeView {
    Element(ElementView),
    Text(Seq<char>),
}

/// The mathematical picture of a node.
pub struct NodeView {
    pub parent: Option<int>,
    pub node_type: NodeTypeView,
}

impl View for ElementData {
    type V = ElementView;

    open spec fn view(&self) -> ElementView {
        ElementView { tag_name: self.tag_name@, attributes: self.attributes.deep_view() }
    }
}

impl View for NodeType {
    type V = NodeTypeView;

    open spec fn view(&self) -> NodeTypeView {
        match self {
            NodeType::Element(el) => NodeTypeView::Element(el@),
            NodeType::Text(t) => NodeTypeView::Text(t@),
        }
    }
}

impl View for Node {
    type V = NodeView;

    open spec fn view(&self) -> NodeView {
        NodeView {
            parent: match self.parent {
                Some(p) => Some(p as int),
                None => None,
            },
            node_type: self.node_type@,
        }
    }
}

impl View for Dom {
    type V = Seq<NodeView>;

    open spec fn view(&self) -> Seq<NodeView> {
        self.nodes.deep_view()
    }
}

impl DeepView for Node {
    type V = NodeView;

    open spec fn deep_view(&self) -> NodeView {
        self@
    }
}

/// Every parent stands before its children in the arena.
pub open spec fn dom_wf(nodes: Seq<NodeView>) -> bool {
    forall|i: int|
        0 <= i < nodes.len() ==> match (#[trigger] nodes[i]).parent {
            Some(p) => 0 <= p < i,
            None => true,
        }
}

impl Dom {
    /// Well-formed: parent links only point backward.
    pub open spec fn wf(&self) -> bool {
        dom_wf(self@)
    }

    /// An empty document.
    pub fn new() -> (r: Dom)
        ensures
            r.wf(),
            r@.len() == 0,
    {
        Dom { nodes: Vec::new() }
    }

    /// How many nodes the document holds.
    pub fn len(&self) -> (r: usize)
        ensures
            r == self@.len(),
    {
        self.nodes.len()
    }

    /// Appends an element node and returns its id. The parent, if given,
    /// must already be in the document.
    pub fn push_element(
        &mut self,
        parent: Option<NodeId>,
        tag_name: &str,
        attributes: Vec<(String, String)>,
    ) -> (r: NodeId)
        requires
            old(self).wf(),
            match parent {
                Some(p) => p < old(self)@.len(),
                None => true,
            },
        ensures
            final(self).wf(),
            r == old(self)@.len(),
            final(self)@.len() == old(self)@.len() + 1,
            final(self)@ == old(self)@.push(
                NodeView {
                    parent: match parent {
                        Some(p) => Some(p as int),
                        None => None,
                    },
                    node_type: NodeTypeView::Element(
                        ElementView { tag_name: tag_name@, attributes: attributes.deep_view() },
                    ),
                },
            ),
    {
        let id = self.nodes.len();
        self.nodes.push(
            Node {
                parent,
                node_type: NodeType::Element(
                    ElementData { tag_name: String::from_str(tag_name), attributes },
                ),
            },
        );
        proof {
            assert(self@ =~= old(self)@.push(self.nodes@.last()@));
        }
        id
    }

    /// Appends a text node and returns its id. The parent, if given, must
    /// already be in the document.
    pub fn push_text(&mut self, parent: Option<NodeId>, content: &str) -> (r: NodeId)
        requires
            old(self).wf(),
            match parent {
                Some(p) => p < old(self)@.len(),
                None => true,
            },
        ensures
            final(self).wf(),
            r == old(self)@.len(),
            final(self)@.len() == old(self)@.len() + 1,
            final(self)@ == old(self)@.push(
                NodeView {
                    parent: match parent {
                        Some(p) => Some(p as int),
                        None => None,
                    },
                    node_type: NodeTypeView::Text(content@),
                },
            ),
    {
        let id = self.nodes.len();
        self.nodes.push(Node { parent, node_type: NodeType::Text(String::from_str(content)) });
        proof {
            assert(self@ =~= old(self)@.push(self.nodes@.last()@));
        }
        id
    }
}

} // verus!
