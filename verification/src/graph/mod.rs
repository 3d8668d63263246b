//! The automaton that a model holds, as a directed graph.

pub mod automaton;
pub mod digraph;
pub mod laws;

use crate::parser::{Expression, Model, SmtType};
use crate::text::{same_text, text_of_char};
use automaton::{
    automaton_name, automaton_of, built, chain_length, decode_label, edges_of, first_named,
    followed_by, label_of, lemma_built_is_graph, lemma_nodes_distinct, link_of, links_of,
    max_links, node_of, nodes_of, with_node, within_capacity, Defect, Link,
};
use digraph::{add_edge, add_node, graph_edges, graph_nodes, new_graph};
use petgraph::graph::DiGraph;
use std::collections::HashMap;
use vstd::prelude::*;
use vstd::string::StringExecFns;

verus! {

/// Why a model holds no automaton.
#[derive(Debug)]
pub struct Error {
    message: String,
}

impl View for Error {
    type V = Seq<char>;

    /// The message of the error.
    closed spec fn view(&self) -> Seq<char> {
        self.message@
    }
}

impl Error {
    /// An error with a message.
    pub fn new(message: &str) -> (error: Error)
        ensures
            error@ == message@,
    {
        Error { message: String::from_str(message) }
    }

    /// The error that names a defect.
    pub fn of(defect: Defect) -> (error: Error)
        ensures
            error@ == defect.message(),
    {
        Error::new(defect.text())
    }

    /// The error as it is shown: its message in a fixed frame.
    pub fn to_string(&self) -> (shown: String)
        ensures
            shown@ == "invalid input provided ("@ + self@ + ")"@,
    {
        String::from_str("invalid input provided (").concat(self.message.as_str()).concat(")")
    }
}

/// The state that an equality names.
pub fn get_node_from_eq(eq: &Vec<Expression>) -> (r: Result<i32, Error>)
    ensures
        match node_of(eq.deep_view()) {
            Ok(state) => r matches Ok(found) && found == state,
            Err(defect) => r matches Err(error) && error@ == defect.message(),
        },
{
    if eq.len() == 2 {
        if let Expression::Identifier(_) = &eq[0] {
            if let Expression::Integer(state) = &eq[1] {
                return Ok(*state);
            }
        }
    }
    Err(Error::of(Defect::MalformedEq))
}

/// The character with the code of the low eight bits of a number.
pub fn label_char(code: i32) -> (label: char)
    ensures
        label == decode_label(code),
{
    let byte: u8 = (code & 0xff) as u8;
    assert(((code & 0xff) as int) == (code as int) % 256) by (bit_vector);
    byte as char
}

/// The label that an equality names.
pub fn get_label_for_edge(eq: &Vec<Expression>) -> (r: Result<char, Error>)
    ensures
        match label_of(eq.deep_view()) {
            Ok(label) => r matches Ok(found) && found == label,
            Err(defect) => r matches Err(error) && error@ == defect.message(),
        },
{
    if eq.len() == 2 {
        if let Expression::Identifier(_) = &eq[0] {
            if let Expression::FunctionCall(_, arguments) = &eq[1] {
                proof {
                    crate::parser::expression::lemma_view_all(*arguments);
                }
                if arguments.len() == 1 {
                    if let Expression::Cast(SmtType::Char, code) = &arguments[0] {
                        return Ok(label_char(*code));
                    }
                }
                return Err(Error::of(Defect::MissingLabel));
            }
        }
    }
    Err(Error::of(Defect::MalformedEq))
}

/// The transition that the condition of a conditional states.
pub fn read_link(condition: &Expression) -> (r: Result<(i32, i32, char), Error>)
    ensures
        match link_of(condition.deep_view()) {
            Ok(link) => r matches Ok(found) && found.0 == link.source && found.1 == link.target
                && found.2 == link.label,
            Err(defect) => r matches Err(error) && error@ == defect.message(),
        },
{
    if let Expression::And(parts) = condition {
        proof {
            crate::parser::expression::lemma_view_all(*parts);
        }
        if parts.len() == 3 {
            if let Expression::Eq(first) = &parts[0] {
                if let Expression::Eq(second) = &parts[1] {
                    if let Expression::Eq(third) = &parts[2] {
                        proof {
                            crate::parser::expression::lemma_view_all(*first);
                            crate::parser::expression::lemma_view_all(*second);
                            crate::parser::expression::lemma_view_all(*third);
                        }
                        let source = match get_node_from_eq(first) {
                            Ok(state) => state,
                            Err(error) => {
                                return Err(error);
                            },
                        };
                        let target = match get_node_from_eq(second) {
                            Ok(state) => state,
                            Err(error) => {
                                return Err(error);
                            },
                        };
                        let label = match get_label_for_edge(third) {
                            Ok(label) => label,
                            Err(error) => {
                                return Err(error);
                            },
                        };
                        return Ok((source, target, label));
                    }
                }
            }
        }
        Err(Error::of(Defect::MalformedAnd))
    } else {
        Err(Error::of(Defect::MalformedIte))
    }
}

/// Whether a map from states to indices is the index of the nodes of a
/// graph: it knows the states that the nodes carry and no others, and
/// leads from each to the node that carries it.
pub open spec fn indexes(known: Map<i32, usize>, nodes: Seq<i32>) -> bool {
    &&& forall|state: i32| #[trigger] known.contains_key(state) <==> nodes.contains(state)
    &&& forall|state: i32| #[trigger]
        known.contains_key(state) ==> known[state] < nodes.len() && nodes[known[state] as int]
            == state
}

/// The index of the node of a state, which is added to the graph where no
/// node carries the state yet.
fn node_for(
    graph: &mut DiGraph<i32, String>,
    known: &mut HashMap<i32, usize>,
    state: i32,
) -> (index: usize)
    requires
        indexes(old(known)@, graph_nodes(*old(graph))),
        graph_nodes(*old(graph)).len() < u32::MAX,
    ensures
        indexes(final(known)@, graph_nodes(*final(graph))),
        graph_nodes(*final(graph)) == with_node(graph_nodes(*old(graph)), state),
        graph_edges(*final(graph)) == graph_edges(*old(graph)),
        index < graph_nodes(*final(graph)).len(),
        graph_nodes(*final(graph))[index as int] == state,
{
    broadcast use vstd::std_specs::hash::group_hash_axioms;

    let ghost before = graph_nodes(*graph);
    match known.get(&state) {
        Some(index) => *index,
        None => {
            assert(!before.contains(state));
            let index = add_node(graph, state);
            known.insert(state, index);
            proof {
                let after = graph_nodes(*graph);
                assert(after[index as int] == state);
                assert forall|other: i32| #[trigger]
                    known@.contains_key(other) <==> after.contains(other) by {
                    if other == state {
                    } else if before.contains(other) {
                        let i = choose|i: int| 0 <= i < before.len() && before[i] == other;
                        assert(after[i] == other);
                    } else if after.contains(other) {
                        let i = choose|i: int| 0 <= i < after.len() && after[i] == other;
                        assert(before[i] == other);
                    }
                }
            }
            index
        },
    }
}

/// Whether a graph is the graph of some transitions: its nodes carry every
/// state once, in the order in which the transitions first name them, and
/// its edges are the transitions, in their order.
pub open spec fn describes(graph: DiGraph<i32, String>, links: Seq<Link>) -> bool {
    graph_nodes(graph) == nodes_of(links) && graph_edges(graph) == edges_of(links)
}

/// The graph of a chain of conditionals.
///
/// Each conditional on the way along the else branches gives one
/// transition. The first conditional that states none ends the walk with
/// the error that names its defect, and no graph is returned.
pub fn graph_from_ite_chain(ite_chain: &Expression) -> (r: Result<DiGraph<i32, String>, Error>)
    requires
        chain_length(ite_chain.deep_view()) <= max_links(),
    ensures
        match links_of(ite_chain.deep_view()) {
            Ok(links) => r matches Ok(graph) && describes(graph, links),
            Err(defect) => r matches Err(error) && error@ == defect.message(),
        },
        r matches Ok(graph) ==> graph_nodes(graph).no_duplicates(),
{
    let mut graph = new_graph();
    let mut known: HashMap<i32, usize> = HashMap::new();
    let mut next: &Expression = ite_chain;
    let ghost mut done: Seq<Link> = Seq::empty();
    loop
        invariant
            indexes(known@, graph_nodes(graph)),
            built(graph_nodes(graph), graph_edges(graph), done),
            links_of(ite_chain.deep_view()) == followed_by(done, links_of(next.deep_view())),
            done.len() + chain_length(next.deep_view()) == chain_length(ite_chain.deep_view()),
            chain_length(ite_chain.deep_view()) <= max_links(),
        decreases next,
    {
        match next {
            Expression::Ite(condition, _, rest) => {
                proof {
                    lemma_nodes_distinct(done);
                }
                let (source, target, label) = match read_link(condition) {
                    Ok(found) => found,
                    Err(error) => {
                        return Err(error);
                    },
                };
                let ghost link = Link { source, target, label };
                let ghost nodes_before = graph_nodes(graph);
                let ghost edges_before = graph_edges(graph);
                let from = node_for(&mut graph, &mut known, source);
                let ghost nodes_between = graph_nodes(graph);
                let to = node_for(&mut graph, &mut known, target);
                add_edge(&mut graph, from, to, text_of_char(label));
                proof {
                    let after = done.push(link);
                    let nodes = graph_nodes(graph);
                    let edges = graph_edges(graph);
                    assert(after.drop_last() =~= done);
                    assert(nodes_between[from as int] == source);
                    assert(nodes[from as int] == source);
                    assert forall|i: int| 0 <= i < after.len() implies automaton::joins(
                        nodes,
                        #[trigger] edges[i],
                        after[i],
                    ) by {
                        if i < done.len() {
                            assert(automaton::joins(nodes_before, edges_before[i], done[i]));
                            assert(edges[i] == edges_before[i]);
                        }
                    }
                    let more = links_of(rest.deep_view());
                    if more is Ok {
                        assert(done + (seq![link] + more->Ok_0) =~= after + more->Ok_0);
                    }
                    done = after;
                }
                next = &**rest;
            },
            _ => {
                proof {
                    assert(done + Seq::<Link>::empty() =~= done);
                    lemma_built_is_graph(graph_nodes(graph), graph_edges(graph), done);
                    lemma_nodes_distinct(done);
                }
                return Ok(graph);
            },
        }
    }
}

/// The place of the first function named `A`, if the model has one.
pub fn find_automaton(model: &Model) -> (found: Option<usize>)
    ensures
        match first_named(model.deep_view(), automaton_name()) {
            Some(i) => found == Some(i as usize) && 0 <= i < model.len(),
            None => found is None,
        },
        found matches Some(k) ==> k < model.len(),
{
    proof {
        reveal_strlit("A");
        assert("A"@ =~= automaton_name());
    }
    assert(model.deep_view().skip(0) =~= model.deep_view());
    let mut i: usize = 0;
    while i < model.len()
        invariant
            i <= model.len(),
            "A"@ == automaton_name(),
            first_named(model.deep_view(), automaton_name()) == match first_named(
                model.deep_view().skip(i as int),
                automaton_name(),
            ) {
                Some(j) => Some(j + i),
                None => None,
            },
        decreases model.len() - i,
    {
        let ghost here = model.deep_view().skip(i as int);
        assert(here[0] == model[i as int].deep_view());
        assert(here.drop_first() =~= model.deep_view().skip(i + 1));
        if same_text(model[i].name.as_str(), "A") {
            return Some(i);
        }
        i += 1;
    }
    assert(model.deep_view().skip(i as int).len() == 0);
    None
}

/// Whether a chain has no more conditionals than a graph has room for.
pub fn chain_fits(ite_chain: &Expression) -> (fits: bool)
    ensures
        fits == (chain_length(ite_chain.deep_view()) <= max_links()),
{
    let mut next: &Expression = ite_chain;
    let mut seen: u32 = 0;
    loop
        invariant
            seen <= max_links(),
            seen + chain_length(next.deep_view()) == chain_length(ite_chain.deep_view()),
        decreases next,
    {
        match next {
            Expression::Ite(_, _, rest) => {
                if seen == 0x7fff_ffff {
                    return false;
                }
                seen += 1;
                next = &**rest;
            },
            _ => {
                return true;
            },
        }
    }
}

/// Whether the graph of a model can be built, as [`graph_from_model`]
/// asks of its callers.
pub fn model_fits(model: &Model) -> (fits: bool)
    ensures
        fits == within_capacity(model.deep_view()),
{
    match find_automaton(model) {
        Some(i) => {
            assert(model.deep_view()[i as int] == model[i as int].deep_view());
            chain_fits(&*model[i].body)
        },
        None => true,
    }
}

/// The automaton of a model as a graph.
///
/// The automaton is the body of the first function named `A`, read as a
/// chain of conditionals. A model without such a function, or whose chain
/// has a conditional that states no transition, gives the error that names
/// the defect.
pub fn graph_from_model(model: Model) -> (r: Result<DiGraph<i32, String>, Error>)
    requires
        within_capacity(model.deep_view()),
    ensures
        match automaton_of(model.deep_view()) {
            Ok(links) => r matches Ok(graph) && describes(graph, links),
            Err(defect) => r matches Err(error) && error@ == defect.message(),
        },
        r matches Ok(graph) ==> graph_nodes(graph).no_duplicates(),
{
    match find_automaton(&model) {
        Some(i) => {
            assert(model.deep_view()[i as int] == model[i as int].deep_view());
            graph_from_ite_chain(&*model[i].body)
        },
        None => Err(Error::of(Defect::MissingFunction)),
    }
}

} // verus!
