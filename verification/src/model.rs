//! The mathematical model of the reduction: spec-level versions of every
//! rewrite step and of the two-stack traversal. `spec_reduce` is a function
//! of the input tree and the phrase mapping alone, so the reduction it
//! specifies is pure: equal inputs always give equal outcomes.

use vstd::prelude::*;
use crate::context::{status_of, PhraseStatus};
use crate::text::{join, sep};
use crate::tree::{Definition, NodeView, TreeView};

verus! {

/// A structural failure: the input tree is not the tree the parser promises.
#[derive(Debug, Copy, Clone, PartialEq, Eq, Structural)]
pub enum ReduceError {
    /// The index was looked up but addresses no node of the arena.
    MissingNode(usize),
    /// The node at the index needs a parent, or a longer operand chain above
    /// it, and has none.
    MissingParent(usize),
    /// The walk from the root visited more entries than a tree over this
    /// arena can hold: the child references must cycle or share nodes.
    CyclicReferences,
}

/// One phrase match in progress: the word-parts consumed so far and the
/// operand node indices collected while the match was open.
pub ghost struct PhraseView {
    pub parts: Seq<Seq<char>>,
    pub args: Seq<usize>,
}

/// Zero-argument resolution of the node at `node_index` of `result`: a new
/// `EmptyApply` node is appended whose `left` is that node; the former
/// parent's matching child slot — or the root, if the node was the root and
/// had no parent — is re-pointed to the new node, and the node's parent
/// becomes the new node. Returns the rewritten tree and the new node's index.
pub open spec fn spec_resolve_zero(result: TreeView, node_index: usize) -> Result<
    (TreeView, usize),
    ReduceError,
> {
    if !result.has_node(node_index) {
        Err(ReduceError::MissingNode(node_index))
    } else {
        let node = result.node_at(node_index);
        let new_index = result.nodes.len() as usize;
        let appended = result.with_appended(
            NodeView {
                definition: Definition::EmptyApply,
                parent: node.parent,
                left: Some(node_index),
                right: None,
                text: node.text,
                line: node.line,
                column: node.column,
            },
        );
        let repointed = match node.parent {
            Some(p) => {
                if !appended.has_node(p) {
                    Err(ReduceError::MissingNode(p))
                } else {
                    let pn = appended.node_at(p);
                    if pn.left == Some(node_index) {
                        Ok(appended.with_node(p, NodeView { left: Some(new_index), ..pn }))
                    } else if pn.right == Some(node_index) {
                        Ok(appended.with_node(p, NodeView { right: Some(new_index), ..pn }))
                    } else {
                        Ok(appended)
                    }
                }
            },
            None => {
                if result.root == node_index {
                    Ok(appended.with_root(new_index))
                } else {
                    Ok(appended)
                }
            },
        };
        match repointed {
            Err(e) => Err(e),
            Ok(r) => Ok(
                (
                    r.with_node(node_index, NodeView { parent: Some(new_index), ..r.node_at(node_index) }),
                    new_index,
                ),
            ),
        }
    }
}

/// One step of the operand walk for a phrase with two or more operands, for
/// positions `i` down to `1`: the operand at `i` hangs as the right child of
/// the current chain node, and at `i == 1` the first operand replaces that
/// chain node's left child. `ident` is the resolving identifier, named when
/// the chain runs out.
pub open spec fn spec_attach_args(
    result: TreeView,
    args: Seq<usize>,
    next_parent: Option<usize>,
    i: int,
    ident: usize,
) -> Result<TreeView, ReduceError>
    decreases i,
{
    if i < 1 {
        Ok(result)
    } else {
        let a = args[i];
        if !result.has_node(a) {
            Err(ReduceError::MissingNode(a))
        } else {
            let r1 = result.with_node(a, NodeView { parent: next_parent, ..result.node_at(a) });
            match next_parent {
                None => Err(ReduceError::MissingParent(ident)),
                Some(p) => {
                    if !r1.has_node(p) {
                        Err(ReduceError::MissingNode(p))
                    } else {
                        let r2 = r1.with_node(p, NodeView { right: Some(a), ..r1.node_at(p) });
                        if i == 1 {
                            let a0 = args[0];
                            let r3 = r2.with_node(
                                p,
                                NodeView { left: Some(a0), ..r2.node_at(p) },
                            );
                            if !r3.has_node(a0) {
                                Err(ReduceError::MissingNode(a0))
                            } else {
                                Ok(
                                    r3.with_node(
                                        a0,
                                        NodeView { parent: Some(p), ..r3.node_at(a0) },
                                    ),
                                )
                            }
                        } else {
                            spec_attach_args(r2, args, r2.node_at(p).left, i - 1, ident)
                        }
                    }
                },
            }
        }
    }
}

/// Resolution of a multi-word phrase at `node_index`: the node's token text
/// becomes the merged text `combined`, and the tree around it is rewritten by
/// the number of collected operands. Returns the rewritten tree and the index
/// that stands for the resolved sub-expression. `node` is the node as the
/// input tree has it; its parent anchors the rewrite.
pub open spec fn spec_resolve_multi(
    node: NodeView,
    node_index: usize,
    combined: Seq<char>,
    info: PhraseView,
    result: TreeView,
) -> Result<(TreeView, usize), ReduceError> {
    if !result.has_node(node_index) {
        Err(ReduceError::MissingNode(node_index))
    } else {
        let r1 = result.with_node(
            node_index,
            NodeView { text: combined, ..result.node_at(node_index) },
        );
        let n = info.args.len();
        if n == 0 {
            spec_resolve_zero(r1, node_index)
        } else {
            match node.parent {
                None => Err(ReduceError::MissingParent(node_index)),
                Some(p) => {
                    if !r1.has_node(p) {
                        Err(ReduceError::MissingNode(p))
                    } else if n == 1 {
                        let a0 = info.args[0];
                        let r2 = r1.with_node(
                            p,
                            NodeView {
                                definition: Definition::ApplyTo,
                                left: Some(a0),
                                ..r1.node_at(p)
                            },
                        );
                        if !r2.has_node(a0) {
                            Err(ReduceError::MissingNode(a0))
                        } else {
                            Ok(
                                (
                                    r2.with_node(
                                        a0,
                                        NodeView { parent: Some(p), ..r2.node_at(a0) },
                                    ),
                                    p,
                                ),
                            )
                        }
                    } else {
                        let r2 = r1.with_node(
                            p,
                            NodeView { definition: Definition::ApplyTo, ..r1.node_at(p) },
                        );
                        match spec_attach_args(
                            r2,
                            info.args,
                            r2.node_at(p).left,
                            n as int - 1,
                            node_index,
                        ) {
                            Err(e) => Err(e),
                            Ok(r3) => Ok((r3, p)),
                        }
                    }
                },
            }
        }
    }
}

/// The per-node phrase check applied to the node at `node_index` of `orig`
/// (which must address a node): how it changes the accumulator stack and the
/// output tree. A resolved or ordinary node becomes a candidate operand and is
/// appended to the innermost open accumulator, if any.
pub open spec fn spec_check_node(
    orig: TreeView,
    node_index: usize,
    phrases: Seq<PhraseView>,
    result: TreeView,
    is_left: bool,
    m: Map<Seq<char>, PhraseStatus>,
) -> Result<(Seq<PhraseView>, TreeView), ReduceError> {
    let node = orig.node_at(node_index);
    let step: Result<(Seq<PhraseView>, TreeView, Option<usize>), ReduceError> = if node.definition
        == Definition::Identifier {
        let text = node.text;
        if phrases.len() == 0 {
            spec_check_fresh_identifier(node_index, phrases, result, m, text)
        } else {
            let info = phrases.last();
            let combined = join(info.parts) + sep() + text;
            if status_of(m, combined) == PhraseStatus::NotAPhrase {
                // The chain is broken: the open match is kept on the stack and
                // the word is re-evaluated on its own.
                spec_check_fresh_identifier(node_index, phrases, result, m, text)
            } else if status_of(m, combined) == PhraseStatus::Incomplete {
                Ok(
                    (
                        phrases.update(
                            phrases.len() - 1,
                            PhraseView { parts: info.parts.push(text), args: info.args },
                        ),
                        result,
                        None,
                    ),
                )
            } else {
                match spec_resolve_multi(node, node_index, combined, info, result) {
                    Err(e) => Err(e),
                    Ok((r, cand)) => Ok((phrases.drop_last(), r, Some(cand))),
                }
            }
        }
    } else if node.definition == Definition::List && is_left {
        Ok((phrases, result, None))
    } else {
        Ok((phrases, result, Some(node_index)))
    };
    match step {
        Err(e) => Err(e),
        Ok((ph1, r1, cand)) => match cand {
            None => Ok((ph1, r1)),
            Some(a) => {
                if ph1.len() > 0 {
                    let top = ph1.last();
                    Ok(
                        (
                            ph1.update(
                                ph1.len() - 1,
                                PhraseView { parts: top.parts, args: top.args.push(a) },
                            ),
                            r1,
                        ),
                    )
                } else {
                    Ok((ph1, r1))
                }
            },
        },
    }
}

/// An identifier checked on its own (no continuation applies): it may open a
/// new accumulator, resolve at once as a single-word phrase, or stand as an
/// ordinary candidate operand.
pub open spec fn spec_check_fresh_identifier(
    node_index: usize,
    phrases: Seq<PhraseView>,
    result: TreeView,
    m: Map<Seq<char>, PhraseStatus>,
    text: Seq<char>,
) -> Result<(Seq<PhraseView>, TreeView, Option<usize>), ReduceError> {
    if status_of(m, text) == PhraseStatus::Incomplete {
        Ok((phrases.push(PhraseView { parts: seq![text], args: Seq::empty() }), result, None))
    } else if status_of(m, text) == PhraseStatus::Complete {
        match spec_resolve_zero(result, node_index) {
            Err(e) => Err(e),
            Ok((r, new_index)) => Ok((phrases, r, Some(new_index))),
        }
    } else {
        Ok((phrases, result, Some(node_index)))
    }
}

/// The check lifted to an optional child index: an absent slot checks
/// nothing, an index outside the arena is a structural error.
pub open spec fn spec_check_index(
    orig: TreeView,
    node_index: Option<usize>,
    phrases: Seq<PhraseView>,
    result: TreeView,
    is_left: bool,
    m: Map<Seq<char>, PhraseStatus>,
) -> Result<(Seq<PhraseView>, TreeView), ReduceError> {
    match node_index {
        None => Ok((phrases, result)),
        Some(i) => {
            if !orig.has_node(i) {
                Err(ReduceError::MissingNode(i))
            } else {
                spec_check_node(orig, i, phrases, result, is_left, m)
            }
        },
    }
}

/// The replay pass: the recorded parent nodes are taken from the back of
/// `stack`, and each parent's left child, then right child, is checked.
pub open spec fn spec_process(
    orig: TreeView,
    stack: Seq<usize>,
    phrases: Seq<PhraseView>,
    result: TreeView,
    m: Map<Seq<char>, PhraseStatus>,
) -> Result<TreeView, ReduceError>
    decreases stack.len(),
{
    if stack.len() == 0 {
        Ok(result)
    } else {
        let cur = stack.last();
        if !orig.has_node(cur) {
            Err(ReduceError::MissingNode(cur))
        } else {
            let node = orig.node_at(cur);
            match spec_check_index(orig, node.left, phrases, result, true, m) {
                Err(e) => Err(e),
                Ok((ph1, r1)) => match spec_check_index(orig, node.right, ph1, r1, false, m) {
                    Err(e) => Err(e),
                    Ok((ph2, r2)) => spec_process(orig, stack.drop_last(), ph2, r2, m),
                },
            }
        }
    }
}

/// The discovery pass: a worklist walk from the root that records every node
/// with at least one child, children pushed right over left so that replaying
/// the record from the back visits parents after children, left before right.
/// `budget` bounds the walk; a walk that exhausts it reports the arena's
/// child references as cyclic, which no tree-shaped input can reach within
/// `traversal_budget`.
pub open spec fn spec_discover(
    t: TreeView,
    work: Seq<usize>,
    parents: Seq<usize>,
    budget: nat,
) -> Result<Seq<usize>, ReduceError>
    decreases budget,
{
    if work.len() == 0 {
        Ok(parents)
    } else if budget == 0 {
        Err(ReduceError::CyclicReferences)
    } else {
        let cur = work.last();
        let rest = work.drop_last();
        if !t.has_node(cur) {
            Err(ReduceError::MissingNode(cur))
        } else {
            let node = t.node_at(cur);
            match (node.left, node.right) {
                (None, None) => spec_discover(t, rest, parents, (budget - 1) as nat),
                (Some(l), Some(r)) => spec_discover(
                    t,
                    rest.push(l).push(r),
                    parents.push(cur),
                    (budget - 1) as nat,
                ),
                (Some(l), None) => spec_discover(
                    t,
                    rest.push(l),
                    parents.push(cur),
                    (budget - 1) as nat,
                ),
                (None, Some(r)) => spec_discover(
                    t,
                    rest.push(r),
                    parents.push(cur),
                    (budget - 1) as nat,
                ),
            }
        }
    }
}

/// How many worklist entries the walk may visit: a tree references the root
/// once and every other node at most once as a child, so this is ample for
/// every tree-shaped arena.
pub open spec fn traversal_budget(t: TreeView) -> nat {
    2 * t.nodes.len() + 2
}

/// The whole reduction of the tree `t` against the phrase mapping `m`: a
/// single-node tree is one direct check; otherwise discovery followed by the
/// replay pass over a clone of `t`. The reduction is a function of `t` and
/// `m` alone: equal inputs give equal outcomes.
pub open spec fn spec_reduce(t: TreeView, m: Map<Seq<char>, PhraseStatus>) -> Result<
    TreeView,
    ReduceError,
> {
    if t.nodes.len() == 1 {
        match spec_check_index(t, Some(t.root), Seq::empty(), t, false, m) {
            Err(e) => Err(e),
            Ok((ph, r)) => Ok(r),
        }
    } else {
        match spec_discover(t, seq![t.root], Seq::empty(), traversal_budget(t)) {
            Err(e) => Err(e),
            Ok(parents) => spec_process(t, parents, Seq::empty(), t, m),
        }
    }
}

} // verus!
