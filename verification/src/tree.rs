//! The syntax tree the reducer consumes and produces: an arena of nodes
//! addressed by index, with parent/child back-references and a root index.

use vstd::prelude::*;
use vstd::string::*;

verus! {

/// The node categories this engine distinguishes. Every category the engine
/// treats opaquely is folded into `Other`.
#[derive(Debug, Copy, Clone, PartialEq, Eq, Structural)]
pub enum Definition {
    /// A name; the only category that can take part in a phrase.
    Identifier,
    /// A space-separated operand group built by the parser.
    List,
    /// A numeric literal.
    Number,
    /// A zero-operand application, introduced by the reducer.
    EmptyApply,
    /// A one-or-more-operand application, introduced by the reducer.
    ApplyTo,
    /// Any other category; carried through unchanged.
    Other,
}

/// The source token a node carries.
#[derive(Debug, Clone, PartialEq, Eq)]
pub struct Token {
    pub text: String,
    pub line: usize,
    pub column: usize,
}

/// One node of the arena. Cross-references are indices into the arena.
#[derive(Debug, Clone, PartialEq, Eq)]
pub struct SyntaxNode {
    pub definition: Definition,
    pub parent: Option<usize>,
    pub left: Option<usize>,
    pub right: Option<usize>,
    pub token: Token,
}

/// The arena plus a distinguished root index.
#[derive(Debug, Clone, PartialEq, Eq)]
pub struct SyntaxTree {
    pub nodes: Vec<SyntaxNode>,
    pub root: usize,
}

/// The mathematical value of a node.
pub ghost struct NodeView {
    pub definition: Definition,
    pub parent: Option<usize>,
    pub left: Option<usize>,
    pub right: Option<usize>,
    pub text: Seq<char>,
    pub line: usize,
    pub column: usize,
}

/// The mathematical value of a tree.
pub ghost struct TreeView {
    pub nodes: Seq<NodeView>,
    pub root: usize,
}

impl View for SyntaxNode {
    type V = NodeView;

    open spec fn view(&self) -> NodeView {
        NodeView {
            definition: self.definition,
            parent: self.parent,
            left: self.left,
            right: self.right,
            text: self.token.text@,
            line: self.token.line,
            column: self.token.column,
        }
    }
}

impl View for SyntaxTree {
    type V = TreeView;

    open spec fn view(&self) -> TreeView {
        TreeView { nodes: self.nodes@.map_values(|n: SyntaxNode| n@), root: self.root }
    }
}

impl TreeView {
    /// Whether index `i` addresses a node of the arena.
    pub open spec fn has_node(self, i: usize) -> bool {
        i < self.nodes.len()
    }

    /// The node at index `i`.
    pub open spec fn node_at(self, i: usize) -> NodeView {
        self.nodes[i as int]
    }

    /// The tree with the node at `i` replaced.
    pub open spec fn with_node(self, i: usize, n: NodeView) -> TreeView {
        TreeView { nodes: self.nodes.update(i as int, n), root: self.root }
    }

    /// The tree with `n` appended at index `nodes.len()`.
    pub open spec fn with_appended(self, n: NodeView) -> TreeView {
        TreeView { nodes: self.nodes.push(n), root: self.root }
    }

    /// The tree re-rooted at `root`.
    pub open spec fn with_root(self, root: usize) -> TreeView {
        TreeView { nodes: self.nodes, root: root }
    }
}

impl SyntaxNode {
    /// An exact copy of this node.
    pub fn duplicate(&self) -> (node: SyntaxNode)
        ensures
            node@ == self@,
    {
        SyntaxNode {
            definition: self.definition,
            parent: self.parent,
            left: self.left,
            right: self.right,
            token: Token {
                text: self.token.text.clone(),
                line: self.token.line,
                column: self.token.column,
            },
        }
    }
}

impl SyntaxTree {
    /// An exact copy of this tree.
    pub fn duplicate(&self) -> (tree: SyntaxTree)
        ensures
            tree@ == self@,
    {
        let mut nodes: Vec<SyntaxNode> = Vec::new();
        let mut i: usize = 0;
        let n = self.nodes.len();
        while i < n
            invariant
                i <= n,
                n == self.nodes@.len(),
                nodes@.len() == i,
                forall|j: int| 0 <= j < i ==> nodes@[j]@ == self.nodes@[j]@,
            decreases n - i,
        {
            let node = self.nodes[i].duplicate();
            nodes.push(node);
            i = i + 1;
        }
        let tree = SyntaxTree { nodes, root: self.root };
        proof {
            assert(tree@.nodes =~= self@.nodes);
        }
        tree
    }

    /// Replaces the parent reference of the node at `i`.
    pub fn set_parent(&mut self, i: usize, parent: Option<usize>)
        requires
            i < old(self)@.nodes.len(),
        ensures
            final(self)@ == old(self)@.with_node(
                i,
                NodeView { parent, ..old(self)@.node_at(i) },
            ),
    {
        let mut node = self.nodes[i].duplicate();
        node.parent = parent;
        let ghost before = self@;
        self.nodes.set(i, node);
        proof {
            assert(self@.nodes =~= before.nodes.update(
                i as int,
                NodeView { parent, ..before.node_at(i) },
            ));
        }
    }

    /// Replaces the left child reference of the node at `i`.
    pub fn set_left(&mut self, i: usize, left: Option<usize>)
        requires
            i < old(self)@.nodes.len(),
        ensures
            final(self)@ == old(self)@.with_node(i, NodeView { left, ..old(self)@.node_at(i) }),
    {
        let mut node = self.nodes[i].duplicate();
        node.left = left;
        let ghost before = self@;
        self.nodes.set(i, node);
        proof {
            assert(self@.nodes =~= before.nodes.update(
                i as int,
                NodeView { left, ..before.node_at(i) },
            ));
        }
    }

    /// Replaces the right child reference of the node at `i`.
    pub fn set_right(&mut self, i: usize, right: Option<usize>)
        requires
            i < old(self)@.nodes.len(),
        ensures
            final(self)@ == old(self)@.with_node(i, NodeView { right, ..old(self)@.node_at(i) }),
    {
        let mut node = self.nodes[i].duplicate();
        node.right = right;
        let ghost before = self@;
        self.nodes.set(i, node);
        proof {
            assert(self@.nodes =~= before.nodes.update(
                i as int,
                NodeView { right, ..before.node_at(i) },
            ));
        }
    }

    /// Replaces the category of the node at `i`.
    pub fn set_definition(&mut self, i: usize, definition: Definition)
        requires
            i < old(self)@.nodes.len(),
        ensures
            final(self)@ == old(self)@.with_node(
                i,
                NodeView { definition, ..old(self)@.node_at(i) },
            ),
    {
        let mut node = self.nodes[i].duplicate();
        node.definition = definition;
        let ghost before = self@;
        self.nodes.set(i, node);
        proof {
            assert(self@.nodes =~= before.nodes.update(
                i as int,
                NodeView { definition, ..before.node_at(i) },
            ));
        }
    }

    /// Replaces the token text of the node at `i`, keeping line and column.
    pub fn set_text(&mut self, i: usize, text: String)
        requires
            i < old(self)@.nodes.len(),
        ensures
            final(self)@ == old(self)@.with_node(
                i,
                NodeView { text: text@, ..old(self)@.node_at(i) },
            ),
    {
        let mut node = self.nodes[i].duplicate();
        node.token.text = text;
        let ghost before = self@;
        self.nodes.set(i, node);
        proof {
            assert(self@.nodes =~= before.nodes.update(
                i as int,
                NodeView { text: text@, ..before.node_at(i) },
            ));
        }
    }

    /// Appends a node at index `nodes.len()`.
    pub fn push_node(&mut self, node: SyntaxNode)
        ensures
            final(self)@ == old(self)@.with_appended(node@),
    {
        let ghost before = self@;
        self.nodes.push(node);
        proof {
            assert(self@.nodes =~= before.nodes.push(node@));
        }
    }
}

} // verus!
