//! The phrase reducer: rewrites a clone of the input tree so that every
//! recognized run of adjacent identifiers collapses into one identifier
//! wrapped in an apply node binding its trailing operands.

use vstd::prelude::*;
use vstd::string::*;
use crate::context::{PhraseContext, PhraseStatus};
use crate::model::{spec_attach_args, spec_check_index, spec_check_node, spec_discover,
    spec_process, spec_reduce, spec_resolve_multi, spec_resolve_zero, traversal_budget,
    PhraseView, ReduceError};
use crate::text::{join, lemma_join_take_unfold, sep};
use crate::tree::{Definition, NodeView, SyntaxNode, SyntaxTree, Token, TreeView};

verus! {

/// One phrase match in progress: the consumed word-parts and the operand
/// node indices collected while the match was open.
pub struct PhraseInfo {
    pub phrase_parts: Vec<String>,
    pub arguments: Vec<usize>,
}

impl View for PhraseInfo {
    type V = PhraseView;

    open spec fn view(&self) -> PhraseView {
        PhraseView {
            parts: self.phrase_parts@.map_values(|p: String| p@),
            args: self.arguments@,
        }
    }
}

/// The accumulator stack as the model sees it.
pub open spec fn phrases_view(s: Seq<PhraseInfo>) -> Seq<PhraseView> {
    s.map_values(|p: PhraseInfo| p@)
}

impl PhraseInfo {
    /// A fresh match that has consumed the one word-part `part`.
    pub fn new(part: String) -> (info: PhraseInfo)
        ensures
            info@.parts == seq![part@],
            info@.args == Seq::<usize>::empty(),
    {
        let info = PhraseInfo { phrase_parts: vec![part], arguments: Vec::new() };
        proof {
            assert(info@.parts =~= seq![part@]);
        }
        info
    }

    /// The words consumed so far, joined with the separator.
    pub fn full_text(&self) -> (text: String)
        ensures
            text@ == join(self@.parts),
    {
        let n = self.phrase_parts.len();
        if n == 0 {
            let text = String::new();
            return text;
        }
        let mut text = self.phrase_parts[0].clone();
        proof {
            assert(self@.parts.take(1) =~= seq![self@.parts[0]]);
        }
        let mut i: usize = 1;
        while i < n
            invariant
                1 <= i <= n,
                n == self.phrase_parts@.len(),
                text@ == join(self@.parts.take(i as int)),
            decreases n - i,
        {
            text.append("_");
            text.append(self.phrase_parts[i].as_str());
            proof {
                reveal_strlit("_");
                assert("_"@ =~= sep());
                lemma_join_take_unfold(self@.parts, i as int);
            }
            i = i + 1;
        }
        proof {
            assert(self@.parts.take(n as int) =~= self@.parts);
        }
        text
    }

    /// The text the match would have after consuming `part` as well.
    pub fn full_text_with(&self, part: &str) -> (text: String)
        ensures
            text@ == join(self@.parts) + sep() + part@,
    {
        let mut text = self.full_text();
        text.append("_");
        text.append(part);
        proof {
            reveal_strlit("_");
            assert("_"@ =~= sep());
        }
        text
    }

    /// Consumes one more word-part.
    pub fn add_part(&mut self, part: String)
        ensures
            final(self)@.parts == old(self)@.parts.push(part@),
            final(self)@.args == old(self)@.args,
    {
        let ghost before = self@.parts;
        self.phrase_parts.push(part);
        proof {
            assert(self@.parts =~= before.push(part@));
        }
    }

    /// Records one more collected operand index.
    pub fn add_argument(&mut self, argument: usize)
        ensures
            final(self)@.args == old(self)@.args.push(argument),
            final(self)@.parts == old(self)@.parts,
    {
        self.arguments.push(argument);
    }
}

/// Zero-argument resolution of the node at `node_index` of `result`, exactly
/// as `spec_resolve_zero` states it. On an error, `result` may hold partial
/// work; the caller discards it.
fn resolve_single_word_phrase(result: &mut SyntaxTree, node_index: usize) -> (r: Result<
    usize,
    ReduceError,
>)
    ensures
        match r {
            Ok(new_index) => spec_resolve_zero(old(result)@, node_index) == Ok::<
                (TreeView, usize),
                ReduceError,
            >((final(result)@, new_index)),
            Err(e) => spec_resolve_zero(old(result)@, node_index) == Err::<
                (TreeView, usize),
                ReduceError,
            >(e),
        },
{
    if node_index >= result.nodes.len() {
        return Err(ReduceError::MissingNode(node_index));
    }
    let new_index = result.nodes.len();
    let node = result.nodes[node_index].duplicate();
    let parent = node.parent;
    result.push_node(
        SyntaxNode {
            definition: Definition::EmptyApply,
            parent,
            left: Some(node_index),
            right: None,
            token: node.token,
        },
    );
    match parent {
        Some(p) => {
            if p >= result.nodes.len() {
                return Err(ReduceError::MissingNode(p));
            }
            let slot_left = result.nodes[p].left;
            let slot_right = result.nodes[p].right;
            match slot_left {
                Some(l) if l == node_index => {
                    result.set_left(p, Some(new_index));
                },
                _ => {
                    match slot_right {
                        Some(rr) if rr == node_index => {
                            result.set_right(p, Some(new_index));
                        },
                        _ => {},
                    }
                },
            }
        },
        None => {
            if result.root == node_index {
                result.root = new_index;
            }
        },
    }
    result.set_parent(node_index, Some(new_index));
    Ok(new_index)
}

/// The operand walk for a phrase with two or more operands, exactly as
/// `spec_attach_args` states it from position `args.len() - 1`.
fn attach_arguments(
    result: &mut SyntaxTree,
    args: &Vec<usize>,
    start_parent: Option<usize>,
    ident: usize,
) -> (r: Result<(), ReduceError>)
    requires
        args@.len() >= 2,
    ensures
        match r {
            Ok(()) => spec_attach_args(
                old(result)@,
                args@,
                start_parent,
                args@.len() - 1,
                ident,
            ) == Ok::<TreeView, ReduceError>(final(result)@),
            Err(e) => spec_attach_args(old(result)@, args@, start_parent, args@.len() - 1, ident)
                == Err::<TreeView, ReduceError>(e),
        },
{
    let mut i: usize = args.len() - 1;
    let mut next_parent = start_parent;
    let ghost goal = spec_attach_args(result@, args@, start_parent, args@.len() - 1, ident);
    loop
        invariant
            1 <= i < args@.len(),
            goal == spec_attach_args(result@, args@, next_parent, i as int, ident),
            goal == spec_attach_args(old(result)@, args@, start_parent, args@.len() - 1, ident),
        decreases i,
    {
        let a = args[i];
        if a >= result.nodes.len() {
            return Err(ReduceError::MissingNode(a));
        }
        result.set_parent(a, next_parent);
        match next_parent {
            None => {
                return Err(ReduceError::MissingParent(ident));
            },
            Some(p) => {
                if p >= result.nodes.len() {
                    return Err(ReduceError::MissingNode(p));
                }
                result.set_right(p, Some(a));
                if i == 1 {
                    let a0 = args[0];
                    result.set_left(p, Some(a0));
                    if a0 >= result.nodes.len() {
                        return Err(ReduceError::MissingNode(a0));
                    }
                    result.set_parent(a0, Some(p));
                    return Ok(());
                }
                let left = result.nodes[p].left;
                next_parent = left;
                i = i - 1;
            },
        }
    }
}

/// Resolution of a multi-word phrase at `node_index`, exactly as
/// `spec_resolve_multi` states it: the token text becomes `combined` and the
/// surrounding tree is rewritten by the number of operands in `info`.
fn resolve_multi_word_phrase(
    original: &SyntaxTree,
    node_index: usize,
    combined: String,
    info: &PhraseInfo,
    result: &mut SyntaxTree,
) -> (r: Result<usize, ReduceError>)
    requires
        node_index < original@.nodes.len(),
    ensures
        match r {
            Ok(cand) => spec_resolve_multi(
                original@.node_at(node_index),
                node_index,
                combined@,
                info@,
                old(result)@,
            ) == Ok::<(TreeView, usize), ReduceError>((final(result)@, cand)),
            Err(e) => spec_resolve_multi(
                original@.node_at(node_index),
                node_index,
                combined@,
                info@,
                old(result)@,
            ) == Err::<(TreeView, usize), ReduceError>(e),
        },
{
    if node_index >= result.nodes.len() {
        return Err(ReduceError::MissingNode(node_index));
    }
    let ghost r1 = old(result)@.with_node(
        node_index,
        NodeView { text: combined@, ..old(result)@.node_at(node_index) },
    );
    result.set_text(node_index, combined);
    proof {
        assert(result@ == r1);
    }
    let n = info.arguments.len();
    if n == 0 {
        return resolve_single_word_phrase(result, node_index);
    }
    proof {
        assert(original@.node_at(node_index) == original.nodes@[node_index as int]@);
    }
    let parent_opt = original.nodes[node_index].parent;
    match parent_opt {
        None => Err(ReduceError::MissingParent(node_index)),
        Some(p) => {
            if p >= result.nodes.len() {
                return Err(ReduceError::MissingNode(p));
            }
            if n == 1 {
                let a0 = info.arguments[0];
                let ghost r2 = r1.with_node(
                    p,
                    NodeView { definition: Definition::ApplyTo, left: Some(a0), ..r1.node_at(p) },
                );
                result.set_definition(p, Definition::ApplyTo);
                result.set_left(p, Some(a0));
                proof {
                    assert(result@.nodes =~= r2.nodes);
                    assert(result@ == r2);
                }
                if a0 >= result.nodes.len() {
                    return Err(ReduceError::MissingNode(a0));
                }
                result.set_parent(a0, Some(p));
                Ok(p)
            } else {
                result.set_definition(p, Definition::ApplyTo);
                proof {
                    assert(result@ == r1.with_node(
                        p,
                        NodeView { definition: Definition::ApplyTo, ..r1.node_at(p) },
                    ));
                    assert(result.nodes@[p as int]@ == result@.node_at(p));
                }
                let next_parent = result.nodes[p].left;
                match attach_arguments(result, &info.arguments, next_parent, node_index) {
                    Err(e) => Err(e),
                    Ok(()) => Ok(p),
                }
            }
        },
    }
}

/// The per-node phrase check, exactly as `spec_check_node` states it: the
/// node at `node_index` of `original` may open, extend, break or resolve a
/// phrase match against `result`, and a candidate operand it yields is
/// appended to the innermost open accumulator.
fn check_node_for_phrase<Context: PhraseContext>(
    original: &SyntaxTree,
    node_index: usize,
    phrases: &mut Vec<PhraseInfo>,
    context: &Context,
    result: &mut SyntaxTree,
    is_left: bool,
) -> (r: Result<(), ReduceError>)
    requires
        node_index < original@.nodes.len(),
    ensures
        match r {
            Ok(()) => spec_check_node(
                original@,
                node_index,
                phrases_view(old(phrases)@),
                old(result)@,
                is_left,
                context.phrase_map(),
            ) == Ok::<(Seq<PhraseView>, TreeView), ReduceError>(
                (phrases_view(final(phrases)@), final(result)@),
            ),
            Err(e) => spec_check_node(
                original@,
                node_index,
                phrases_view(old(phrases)@),
                old(result)@,
                is_left,
                context.phrase_map(),
            ) == Err::<(Seq<PhraseView>, TreeView), ReduceError>(e),
        },
{
    let ghost ph0 = phrases_view(phrases@);
    let node_def = original.nodes[node_index].definition;
    let mut candidate: Option<usize> = None;
    if node_def == Definition::Identifier {
        let text = original.nodes[node_index].token.text.clone();
        if phrases.len() == 0 {
            match context.get_phrase_status(text.as_str()) {
                PhraseStatus::Incomplete => {
                    let info = PhraseInfo::new(text);
                    phrases.push(info);
                    proof {
                        assert(phrases_view(phrases@) =~= ph0.push(
                            PhraseView {
                                parts: seq![original@.node_at(node_index).text],
                                args: Seq::empty(),
                            },
                        ));
                    }
                },
                PhraseStatus::Complete => {
                    match resolve_single_word_phrase(result, node_index) {
                        Ok(new_index) => {
                            candidate = Some(new_index);
                        },
                        Err(e) => {
                            return Err(e);
                        },
                    }
                },
                PhraseStatus::NotAPhrase => {
                    candidate = Some(node_index);
                },
            }
        } else {
            let top = phrases.len() - 1;
            let combined = phrases[top].full_text_with(text.as_str());
            proof {
                assert(phrases_view(phrases@).last() == phrases@[top as int]@);
            }
            match context.get_phrase_status(combined.as_str()) {
                PhraseStatus::NotAPhrase => {
                    // The chain is broken: re-evaluate the word on its own.
                    match context.get_phrase_status(text.as_str()) {
                        PhraseStatus::Incomplete => {
                            let info = PhraseInfo::new(text);
                            phrases.push(info);
                            proof {
                                assert(phrases_view(phrases@) =~= ph0.push(
                                    PhraseView {
                                        parts: seq![original@.node_at(node_index).text],
                                        args: Seq::empty(),
                                    },
                                ));
                            }
                        },
                        PhraseStatus::Complete => {
                            match resolve_single_word_phrase(result, node_index) {
                                Ok(new_index) => {
                                    candidate = Some(new_index);
                                },
                                Err(e) => {
                                    return Err(e);
                                },
                            }
                        },
                        PhraseStatus::NotAPhrase => {
                            candidate = Some(node_index);
                        },
                    }
                },
                PhraseStatus::Incomplete => {
                    let mut info = phrases.pop().unwrap();
                    info.add_part(text);
                    phrases.push(info);
                    proof {
                        assert(phrases_view(phrases@) =~= ph0.update(
                            ph0.len() - 1,
                            PhraseView {
                                parts: ph0.last().parts.push(
                                    original@.node_at(node_index).text,
                                ),
                                args: ph0.last().args,
                            },
                        ));
                    }
                },
                PhraseStatus::Complete => {
                    let info = phrases.pop().unwrap();
                    proof {
                        assert(info@ == ph0.last());
                        assert(phrases_view(phrases@) =~= ph0.drop_last());
                    }
                    match resolve_multi_word_phrase(original, node_index, combined, &info, result)
                    {
                        Ok(cand) => {
                            candidate = Some(cand);
                        },
                        Err(e) => {
                            return Err(e);
                        },
                    }
                },
            }
        }
    } else if node_def == Definition::List && is_left {
        candidate = None;
    } else {
        candidate = Some(node_index);
    }
    match candidate {
        None => {},
        Some(a) => {
            if phrases.len() > 0 {
                let ghost ph1 = phrases_view(phrases@);
                let mut info = phrases.pop().unwrap();
                info.add_argument(a);
                phrases.push(info);
                proof {
                    assert(phrases_view(phrases@) =~= ph1.update(
                        ph1.len() - 1,
                        PhraseView { parts: ph1.last().parts, args: ph1.last().args.push(a) },
                    ));
                }
            }
        },
    }
    Ok(())
}

/// The check lifted to an optional child index, exactly as `spec_check_index`
/// states it: an absent slot checks nothing, an index outside the arena is a
/// structural error.
fn check_node_index_for_phrase<Context: PhraseContext>(
    original: &SyntaxTree,
    node_index: Option<usize>,
    phrases: &mut Vec<PhraseInfo>,
    context: &Context,
    result: &mut SyntaxTree,
    is_left: bool,
) -> (r: Result<(), ReduceError>)
    ensures
        match r {
            Ok(()) => spec_check_index(
                original@,
                node_index,
                phrases_view(old(phrases)@),
                old(result)@,
                is_left,
                context.phrase_map(),
            ) == Ok::<(Seq<PhraseView>, TreeView), ReduceError>(
                (phrases_view(final(phrases)@), final(result)@),
            ),
            Err(e) => spec_check_index(
                original@,
                node_index,
                phrases_view(old(phrases)@),
                old(result)@,
                is_left,
                context.phrase_map(),
            ) == Err::<(Seq<PhraseView>, TreeView), ReduceError>(e),
        },
{
    match node_index {
        None => Ok(()),
        Some(i) => {
            if i >= original.nodes.len() {
                return Err(ReduceError::MissingNode(i));
            }
            check_node_for_phrase(original, i, phrases, context, result, is_left)
        },
    }
}

/// The outcome of a reduction, as the model states it.
pub open spec fn reduce_outcome(r: Result<SyntaxTree, ReduceError>) -> Result<
    TreeView,
    ReduceError,
> {
    match r {
        Ok(t) => Ok(t@),
        Err(e) => Err(e),
    }
}

/// The reduction is pure. `reduce_phrases` promises that its outcome equals
/// `spec_reduce` of its inputs' values, a function: so any two calls on
/// equal trees and equal registries return structurally equal outcomes, and
/// the inputs themselves, taken by shared reference, are never changed.
pub proof fn lemma_reduce_phrases_pure(
    first: Result<SyntaxTree, ReduceError>,
    second: Result<SyntaxTree, ReduceError>,
    t: TreeView,
    m: Map<Seq<char>, PhraseStatus>,
)
    requires
        reduce_outcome(first) == spec_reduce(t, m),
        reduce_outcome(second) == spec_reduce(t, m),
    ensures
        reduce_outcome(first) == reduce_outcome(second),
{
}

/// Rewrites a clone of `tree` so that every run of adjacent identifiers that
/// `context` recognizes as a phrase collapses into one identifier carrying
/// the merged text, wrapped in an apply node binding its trailing operands.
///
/// The outcome is exactly `spec_reduce(tree@, context.phrase_map())`: the
/// reduction is a pure function of the tree and the registry, and the inputs
/// are only read, never changed. A malformed arena — a dangling index, a
/// missing parent, child references that cycle — yields the structural error
/// that `spec_reduce` names, and no tree.
#[verifier::loop_isolation(false)]
pub fn reduce_phrases<Context: PhraseContext>(tree: &SyntaxTree, context: &Context) -> (result:
    Result<SyntaxTree, ReduceError>)
    ensures
        reduce_outcome(result) == spec_reduce(tree@, context.phrase_map()),
{
    let ghost t0 = tree@;
    let ghost m = context.phrase_map();
    let root = tree.root;
    let mut new_result = tree.duplicate();
    let mut phrases: Vec<PhraseInfo> = Vec::new();
    proof {
        assert(phrases_view(phrases@) =~= Seq::<PhraseView>::empty());
    }
    if tree.nodes.len() == 1 {
        match check_node_index_for_phrase(tree, Some(root), &mut phrases, context, &mut new_result, false)
        {
            Ok(()) => {
                return Ok(new_result);
            },
            Err(e) => {
                return Err(e);
            },
        }
    }
    let mut process_stack: Vec<usize> = Vec::new();
    let mut parent_stack: Vec<usize> = Vec::new();
    process_stack.push(root);
    let budget: u128 = 2 * (tree.nodes.len() as u128) + 2;
    let mut remaining: u128 = budget;
    proof {
        assert(process_stack@ =~= seq![t0.root]);
        assert(parent_stack@ =~= Seq::<usize>::empty());
        assert(budget as nat == traversal_budget(t0));
    }
    while process_stack.len() > 0
        invariant
            spec_discover(t0, process_stack@, parent_stack@, remaining as nat) == spec_discover(
                t0,
                seq![t0.root],
                Seq::<usize>::empty(),
                traversal_budget(t0),
            ),
        decreases remaining,
    {
        if remaining == 0 {
            return Err(ReduceError::CyclicReferences);
        }
        let cur = process_stack.pop().unwrap();
        if cur >= tree.nodes.len() {
            return Err(ReduceError::MissingNode(cur));
        }
        let node_left = tree.nodes[cur].left;
        let node_right = tree.nodes[cur].right;
        match (node_left, node_right) {
            (None, None) => {},
            (Some(l), Some(rr)) => {
                process_stack.push(l);
                process_stack.push(rr);
                parent_stack.push(cur);
            },
            (Some(l), None) => {
                process_stack.push(l);
                parent_stack.push(cur);
            },
            (None, Some(rr)) => {
                process_stack.push(rr);
                parent_stack.push(cur);
            },
        }
        remaining = remaining - 1;
    }
    let ghost parents_full = parent_stack@;
    proof {
        assert(spec_discover(t0, process_stack@, parent_stack@, remaining as nat) == Ok::<
            Seq<usize>,
            ReduceError,
        >(parents_full));
    }
    while parent_stack.len() > 0
        invariant
            spec_process(t0, parent_stack@, phrases_view(phrases@), new_result@, m)
                == spec_process(t0, parents_full, Seq::<PhraseView>::empty(), t0, m),
        decreases parent_stack@.len(),
    {
        let cur = parent_stack.pop().unwrap();
        if cur >= tree.nodes.len() {
            return Err(ReduceError::MissingNode(cur));
        }
        let node_left = tree.nodes[cur].left;
        let node_right = tree.nodes[cur].right;
        match check_node_index_for_phrase(tree, node_left, &mut phrases, context, &mut new_result, true)
        {
            Ok(()) => {},
            Err(e) => {
                return Err(e);
            },
        }
        match check_node_index_for_phrase(tree, node_right, &mut phrases, context, &mut new_result, false)
        {
            Ok(()) => {},
            Err(e) => {
                return Err(e);
            },
        }
    }
    Ok(new_result)
}

} // verus!
