//! What holds of every chain and of every graph built from one.

use super::automaton::{
    chain_length, decode_label, edges_of, index_in, joins, lemma_nodes_are_states,
    lemma_nodes_distinct, links_of, nodes_of, touches, Link,
};
use super::automaton::automaton_of;
use crate::parser::grammar::parse;
use crate::parser::spacing::{between_tokens, is_blank, law_whitespace_between_tokens, spread};
use crate::parser::{ExpressionView, SmtType};
use vstd::prelude::*;

verus! {

/// One conditional of a chain, as it is written: the names beside the
/// states and the label, which the graph does not keep, and the branch
/// that is not followed.
pub ghost struct Step {
    pub source_name: Seq<char>,
    pub source: i32,
    pub target_name: Seq<char>,
    pub target: i32,
    pub label_name: Seq<char>,
    pub label_function: Seq<char>,
    pub code: i32,
    pub then_branch: ExpressionView,
}

impl Step {
    /// The condition that states the step.
    pub open spec fn condition(self) -> ExpressionView {
        ExpressionView::And(
            seq![
                ExpressionView::Eq(
                    seq![
                        ExpressionView::Identifier(self.source_name),
                        ExpressionView::Integer(self.source),
                    ],
                ),
                ExpressionView::Eq(
                    seq![
                        ExpressionView::Identifier(self.target_name),
                        ExpressionView::Integer(self.target),
                    ],
                ),
                ExpressionView::Eq(
                    seq![
                        ExpressionView::Identifier(self.label_name),
                        ExpressionView::FunctionCall(
                            self.label_function,
                            seq![ExpressionView::Cast(SmtType::Char, self.code)],
                        ),
                    ],
                ),
            ],
        )
    }

    /// The transition that the step stands for.
    pub open spec fn link(self) -> Link {
        Link { source: self.source, target: self.target, label: decode_label(self.code) }
    }
}

/// The chain of some steps, ended by an expression.
pub open spec fn chain_of(steps: Seq<Step>, end: ExpressionView) -> ExpressionView
    decreases steps.len(),
{
    if steps.len() == 0 {
        end
    } else {
        ExpressionView::Ite(
            Box::new(steps[0].condition()),
            Box::new(steps[0].then_branch),
            Box::new(chain_of(steps.drop_first(), end)),
        )
    }
}

/// The transitions of some steps, in their order.
pub open spec fn links(steps: Seq<Step>) -> Seq<Link> {
    Seq::new(steps.len(), |i: int| steps[i].link())
}

/// A chain built from steps and ended by an expression that is no
/// conditional reads back as the transitions of the steps, in their order,
/// and is as long as there are steps.
pub proof fn law_chain_reads_back(steps: Seq<Step>, end: ExpressionView)
    requires
        !(end is Ite),
    ensures
        links_of(chain_of(steps, end)) == Ok::<Seq<Link>, super::automaton::Defect>(links(steps)),
        chain_length(chain_of(steps, end)) == steps.len(),
    decreases steps.len(),
{
    if steps.len() == 0 {
        assert(links(steps) =~= Seq::<Link>::empty());
    } else {
        let rest = steps.drop_first();
        law_chain_reads_back(rest, end);
        let first = steps[0];
        let parts = first.condition()->And_0;
        assert(parts.len() == 3);
        assert(parts[0]->Eq_0.len() == 2);
        assert(parts[1]->Eq_0.len() == 2);
        assert(parts[2]->Eq_0.len() == 2);
        assert(parts[2]->Eq_0[1]->FunctionCall_1.len() == 1);
        assert(super::automaton::link_of(first.condition()) == Ok::<
            Link,
            super::automaton::Defect,
        >(first.link()));
        assert(seq![first.link()] + links(rest) =~= links(steps));
    }
}

/// The graph of some transitions has one edge for each of them, in their
/// order: the edge of a transition leaves the node that carries its source,
/// reaches the node that carries its target, and bears its label.
pub proof fn law_edges_follow_the_transitions(transitions: Seq<Link>, i: int)
    requires
        0 <= i < transitions.len(),
    ensures
        edges_of(transitions).len() == transitions.len(),
        joins(nodes_of(transitions), edges_of(transitions)[i], transitions[i]),
{
    let nodes = nodes_of(transitions);
    lemma_nodes_are_states(transitions, transitions[i].source);
    lemma_nodes_are_states(transitions, transitions[i].target);
    assert(touches(transitions[i], transitions[i].source));
    assert(touches(transitions[i], transitions[i].target));
    let a = index_in(nodes, transitions[i].source);
    let b = index_in(nodes, transitions[i].target);
    assert(0 <= a < nodes.len() && nodes[a] == transitions[i].source);
    assert(0 <= b < nodes.len() && nodes[b] == transitions[i].target);
}

/// The nodes of the graph of some transitions are exactly the states that
/// the transitions name, each once: a state that several transitions name
/// has one node.
pub proof fn law_one_node_for_each_state(transitions: Seq<Link>, state: i32)
    ensures
        nodes_of(transitions).no_duplicates(),
        nodes_of(transitions).contains(state) <==> exists|i: int|
            0 <= i < transitions.len() && touches(#[trigger] transitions[i], state),
        forall|a: int, b: int|
            0 <= a < nodes_of(transitions).len() && 0 <= b < nodes_of(transitions).len()
                && nodes_of(transitions)[a] == state && nodes_of(transitions)[b] == state ==> a
                == b,
{
    lemma_nodes_distinct(transitions);
    lemma_nodes_are_states(transitions, state);
}

/// A chain built from steps gives the graph of their transitions: its nodes
/// are the states of the steps, each once, and its edges are the steps, in
/// their order.
pub proof fn law_round_trip(steps: Seq<Step>, end: ExpressionView, i: int)
    requires
        !(end is Ite),
        0 <= i < steps.len(),
    ensures
        links_of(chain_of(steps, end)) == Ok::<Seq<Link>, super::automaton::Defect>(links(steps)),
        nodes_of(links(steps)).no_duplicates(),
        edges_of(links(steps)).len() == steps.len(),
        joins(nodes_of(links(steps)), edges_of(links(steps))[i], steps[i].link()),
{
    law_chain_reads_back(steps, end);
    lemma_nodes_distinct(links(steps));
    law_edges_follow_the_transitions(links(steps), i);
}

/// Whitespace put between two tokens of a model does not change the
/// automaton that the model holds, nor the defect for which it holds none.
pub proof fn law_whitespace_keeps_the_automaton(s: Seq<char>, g: int, w: Seq<char>)
    requires
        is_blank(w),
        between_tokens(s, g),
        parse(s) is Ok,
    ensures
        parse(spread(s, g, w)) is Ok,
        automaton_of(parse(spread(s, g, w))->Ok_0) == automaton_of(parse(s)->Ok_0),
{
    law_whitespace_between_tokens(s, g, w);
}

} // verus!
