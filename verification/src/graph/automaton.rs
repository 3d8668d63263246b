//! What a chain of conditionals says: the transitions it lists and the
//! graph they make.

use crate::parser::{ExpressionView, FunctionView, SmtType};
use vstd::prelude::*;

verus! {

/// The ways in which a model can fail to hold an automaton.
#[derive(Debug, Clone, Copy, PartialEq, Eq, Structural)]
pub enum Defect {
    /// No function of the model is named `A`.
    MissingFunction,
    /// The condition of a conditional is no conjunction.
    MalformedIte,
    /// A conjunction is not made of exactly three equalities.
    MalformedAnd,
    /// An equality is not an identifier and a value of the kind asked for.
    MalformedEq,
    /// The label of a transition is not a function applied to one
    /// character cast.
    MissingLabel,
}

impl Defect {
    /// The message that names the defect.
    pub open spec fn message(self) -> Seq<char> {
        match self {
            Defect::MissingFunction => "Model is missing `A` function"@,
            Defect::MalformedIte => "malformed ite expression"@,
            Defect::MalformedAnd => "malformed and expression"@,
            Defect::MalformedEq => "malformed eq expression"@,
            Defect::MissingLabel => "missing label for edge"@,
        }
    }

    /// The message, as [`Defect::message`] gives it.
    pub fn text(self) -> (text: &'static str)
        ensures
            text@ == self.message(),
    {
        match self {
            Defect::MissingFunction => "Model is missing `A` function",
            Defect::MalformedIte => "malformed ite expression",
            Defect::MalformedAnd => "malformed and expression",
            Defect::MalformedEq => "malformed eq expression",
            Defect::MissingLabel => "missing label for edge",
        }
    }
}

/// One transition of the automaton.
pub ghost struct Link {
    pub source: i32,
    pub target: i32,
    pub label: char,
}

/// The name of the function that holds the automaton.
pub open spec fn automaton_name() -> Seq<char> {
    seq!['A']
}

/// The most links that a chain may have for its graph to be built: with
/// two nodes and one edge to a link, the graph then stays within what
/// 32-bit indices can count.
pub open spec fn max_links() -> nat {
    0x7fff_ffff
}

/// The state that an equality names: the equality must be an identifier and
/// an integer, and the integer is the state.
pub open spec fn node_of(eq: Seq<ExpressionView>) -> Result<i32, Defect> {
    if eq.len() == 2 && eq[0] is Identifier && eq[1] is Integer {
        Ok(eq[1]->Integer_0)
    } else {
        Err(Defect::MalformedEq)
    }
}

/// The character with the code of the low eight bits of a number.
pub open spec fn decode_label(code: i32) -> char {
    ((code as int) % 256) as char
}

/// The label that an equality names: the equality must be an identifier and
/// a function call, and the call must have one argument, a cast to `Char`,
/// whose number gives the label.
pub open spec fn label_of(eq: Seq<ExpressionView>) -> Result<char, Defect> {
    if eq.len() == 2 && eq[0] is Identifier && eq[1] is FunctionCall {
        let arguments = eq[1]->FunctionCall_1;
        if arguments.len() == 1 && arguments[0] is Cast && arguments[0]->Cast_0
            == SmtType::Char {
            Ok(decode_label(arguments[0]->Cast_1))
        } else {
            Err(Defect::MissingLabel)
        }
    } else {
        Err(Defect::MalformedEq)
    }
}

/// The transition that the condition of a conditional states. The source
/// is looked at first, then the target, then the label.
pub open spec fn link_of(condition: ExpressionView) -> Result<Link, Defect> {
    if condition is And {
        let parts = condition->And_0;
        if parts.len() == 3 && parts[0] is Eq && parts[1] is Eq && parts[2] is Eq {
            let source = node_of(parts[0]->Eq_0);
            let target = node_of(parts[1]->Eq_0);
            let label = label_of(parts[2]->Eq_0);
            if source is Err {
                Err(source->Err_0)
            } else if target is Err {
                Err(target->Err_0)
            } else if label is Err {
                Err(label->Err_0)
            } else {
                Ok(Link { source: source->Ok_0, target: target->Ok_0, label: label->Ok_0 })
            }
        } else {
            Err(Defect::MalformedAnd)
        }
    } else {
        Err(Defect::MalformedIte)
    }
}

/// How many conditionals a chain has: those reached from the first by going
/// to the else branch each time.
pub open spec fn chain_length(chain: ExpressionView) -> nat
    decreases chain,
{
    match chain {
        ExpressionView::Ite(_, _, rest) => 1 + chain_length(*rest),
        _ => 0,
    }
}

/// The transitions of a chain, in its order, or the first defect on the way.
/// Only the else branch is followed; what ends the chain is not looked at.
pub open spec fn links_of(chain: ExpressionView) -> Result<Seq<Link>, Defect>
    decreases chain,
{
    match chain {
        ExpressionView::Ite(condition, _, rest) => {
            let first = link_of(*condition);
            let more = links_of(*rest);
            if first is Err {
                Err(first->Err_0)
            } else if more is Err {
                Err(more->Err_0)
            } else {
                Ok(seq![first->Ok_0] + more->Ok_0)
            }
        },
        _ => Ok(Seq::empty()),
    }
}

/// The place of the first function of a name, if there is one.
pub open spec fn first_named(functions: Seq<FunctionView>, name: Seq<char>) -> Option<int>
    decreases functions.len(),
{
    if functions.len() == 0 {
        None
    } else if functions[0].name == name {
        Some(0)
    } else {
        match first_named(functions.drop_first(), name) {
            Some(i) => Some(i + 1),
            None => None,
        }
    }
}

/// The transitions that a model states: those of the body of its first
/// function named `A`.
pub open spec fn automaton_of(functions: Seq<FunctionView>) -> Result<Seq<Link>, Defect> {
    match first_named(functions, automaton_name()) {
        Some(i) => links_of(functions[i].body),
        None => Err(Defect::MissingFunction),
    }
}

/// Whether the graph of a model can be built: its chain is not longer than
/// [`max_links`].
pub open spec fn within_capacity(functions: Seq<FunctionView>) -> bool {
    match first_named(functions, automaton_name()) {
        Some(i) => chain_length(functions[i].body) <= max_links(),
        None => true,
    }
}

/// The nodes with a state added where it is not among them yet.
pub open spec fn with_node(nodes: Seq<i32>, state: i32) -> Seq<i32> {
    if nodes.contains(state) {
        nodes
    } else {
        nodes.push(state)
    }
}

/// The nodes of the graph of some transitions: every state once, in the
/// order in which the transitions first name them, the source of a
/// transition before its target.
pub open spec fn nodes_of(links: Seq<Link>) -> Seq<i32>
    decreases links.len(),
{
    if links.len() == 0 {
        Seq::empty()
    } else {
        with_node(with_node(nodes_of(links.drop_last()), links.last().source), links.last().target)
    }
}

/// The index of the node that carries a state.
pub open spec fn index_in(nodes: Seq<i32>, state: i32) -> int {
    choose|i: int| 0 <= i < nodes.len() && nodes[i] == state
}

/// The edges of the graph of some transitions: one for each transition, in
/// their order, from the node of its source to the node of its target, with
/// its label as a text of one character.
pub open spec fn edges_of(links: Seq<Link>) -> Seq<(int, int, Seq<char>)> {
    let nodes = nodes_of(links);
    Seq::new(
        links.len(),
        |i: int|
            (index_in(nodes, links[i].source), index_in(nodes, links[i].target), seq![
                links[i].label,
            ]),
    )
}

/// Whether an edge leads from the node of the source of a transition to the
/// node of its target and carries its label.
pub open spec fn joins(nodes: Seq<i32>, edge: (int, int, Seq<char>), link: Link) -> bool {
    &&& 0 <= edge.0 < nodes.len() && nodes[edge.0] == link.source
    &&& 0 <= edge.1 < nodes.len() && nodes[edge.1] == link.target
    &&& edge.2 == seq![link.label]
}

/// Whether nodes and edges are those of the graph of some transitions.
pub open spec fn built(nodes: Seq<i32>, edges: Seq<(int, int, Seq<char>)>, links: Seq<Link>) -> bool {
    &&& nodes == nodes_of(links)
    &&& edges.len() == links.len()
    &&& forall|i: int| 0 <= i < links.len() ==> joins(nodes, #[trigger] edges[i], links[i])
}

/// Some transitions, then those of the rest of a chain if it has no defect.
pub open spec fn followed_by(done: Seq<Link>, rest: Result<Seq<Link>, Defect>) -> Result<
    Seq<Link>,
    Defect,
> {
    match rest {
        Ok(more) => Ok(done + more),
        Err(defect) => Err(defect),
    }
}

/// No state stands twice among the nodes of a graph, and there are at most
/// two nodes to a transition.
pub proof fn lemma_nodes_distinct(links: Seq<Link>)
    ensures
        nodes_of(links).no_duplicates(),
        nodes_of(links).len() <= 2 * links.len(),
    decreases links.len(),
{
    if links.len() > 0 {
        lemma_nodes_distinct(links.drop_last());
    }
}

/// Whether a transition leaves or reaches a state.
pub open spec fn touches(link: Link, state: i32) -> bool {
    link.source == state || link.target == state
}

/// Adding a state keeps the nodes there were and makes the state one.
pub proof fn lemma_with_node(nodes: Seq<i32>, added: i32, state: i32)
    ensures
        with_node(nodes, added).contains(state) <==> nodes.contains(state) || added == state,
{
    let after = with_node(nodes, added);
    if nodes.contains(state) {
        let at = choose|j: int| 0 <= j < nodes.len() && nodes[j] == state;
        assert(after[at] == state);
    }
    if added == state && !nodes.contains(state) {
        assert(after[after.len() - 1] == state);
    }
    if after.contains(state) && !nodes.contains(state) {
        let at = choose|j: int| 0 <= j < after.len() && after[j] == state;
        if at < nodes.len() {
            assert(nodes[at] == state);
        }
    }
}

/// The nodes of a graph are the states that its transitions name.
pub proof fn lemma_nodes_are_states(links: Seq<Link>, state: i32)
    ensures
        nodes_of(links).contains(state) <==> exists|i: int|
            0 <= i < links.len() && touches(#[trigger] links[i], state),
    decreases links.len(),
{
    if links.len() > 0 {
        let front = links.drop_last();
        let last = links.last();
        lemma_nodes_are_states(front, state);
        let one = with_node(nodes_of(front), last.source);
        lemma_with_node(nodes_of(front), last.source, state);
        lemma_with_node(one, last.target, state);
        if nodes_of(front).contains(state) {
            let i = choose|i: int| 0 <= i < front.len() && touches(#[trigger] front[i], state);
            assert(touches(links[i], state));
        }
        if touches(last, state) {
            assert(touches(links[links.len() - 1], state));
        }
        if exists|i: int| 0 <= i < links.len() && touches(#[trigger] links[i], state) {
            let i = choose|i: int| 0 <= i < links.len() && touches(#[trigger] links[i], state);
            if i < front.len() {
                assert(touches(front[i], state));
            }
        }
    }
}

/// Nodes and edges that are built from some transitions are their graph.
pub proof fn lemma_built_is_graph(
    nodes: Seq<i32>,
    edges: Seq<(int, int, Seq<char>)>,
    links: Seq<Link>,
)
    requires
        built(nodes, edges, links),
    ensures
        edges == edges_of(links),
{
    lemma_nodes_distinct(links);
    assert forall|i: int| 0 <= i < links.len() implies edges[i] == edges_of(links)[i] by {
        assert(joins(nodes, edges[i], links[i]));
        let a = index_in(nodes, links[i].source);
        let b = index_in(nodes, links[i].target);
        assert(nodes[edges[i].0] == links[i].source);
        assert(nodes[edges[i].1] == links[i].target);
        assert(a == edges[i].0);
        assert(b == edges[i].1);
    }
    assert(edges =~= edges_of(links));
}

} // verus!
