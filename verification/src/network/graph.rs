//! The execution graph: the table of nodes, and what a command makes it do.

use crate::network::assoc::{
    distinct_keys, entries_map, first_with_key, lemma_entries_map, lemma_first_with_key,
    lemma_push_entry, lemma_update_entry,
};
use crate::network::data_container::{Container, DataView};
use crate::network::node::{
    invocation_views, propagation, same_id, with_dependent, Invocation, InvocationView, Node,
    NodeView,
};
use crate::protocol::commands::{id_bytes, uuid_bytes, AdaCommand, AdaCommandType, HeaderView};
use uuid::Uuid;
use vstd::prelude::*;

verus! {

/// The nodes of a network, each under its own identifier.
#[derive(Debug)]
pub struct Graph {
    nodes: Vec<Node>,
}

/// The arguments that a command hands to a node: its data, or nothing.
pub open spec fn arguments_of(data: Option<Container>) -> Map<Seq<char>, DataView> {
    match data {
        Some(container) => container@,
        None => Map::empty(),
    }
}

/// What a command asks of a graph.
///
/// A command whose node is not in the graph asks for nothing. To execute a
/// node is one invocation of it on the command's arguments. To propagate is
/// that invocation, then one of each dependent of the node. The other
/// commands ask nothing of the graph.
pub open spec fn plan(
    graph: Map<Seq<u8>, NodeView>,
    header: HeaderView,
    arguments: Map<Seq<char>, DataView>,
) -> Seq<InvocationView> {
    if !graph.contains_key(header.node) {
        Seq::empty()
    } else {
        match header.command_type {
            AdaCommandType::ExecuteNode => seq![(header.node, arguments)],
            AdaCommandType::PropagateNode => seq![(header.node, arguments)] + propagation(
                graph[header.node].dependents,
                arguments,
            ),
            AdaCommandType::CloseConnection => Seq::empty(),
            AdaCommandType::Unknown => Seq::empty(),
        }
    }
}

/// A command to execute a node that the graph holds asks for exactly one
/// invocation, of that node, on the command's arguments; one that names a
/// node that the graph does not hold asks for nothing, whatever its type.
pub proof fn lemma_dispatch_resolution(
    graph: Map<Seq<u8>, NodeView>,
    header: HeaderView,
    arguments: Map<Seq<char>, DataView>,
)
    ensures
        header.command_type == AdaCommandType::ExecuteNode && graph.contains_key(header.node)
            ==> plan(graph, header, arguments) == seq![(header.node, arguments)],
        !graph.contains_key(header.node) ==> plan(graph, header, arguments).len() == 0,
        header.command_type == AdaCommandType::CloseConnection || header.command_type
            == AdaCommandType::Unknown ==> plan(graph, header, arguments).len() == 0,
{
}

/// Propagating invokes every dependent exactly once: there are as many
/// invocations as dependents, the one at each place is of the dependent at
/// that place, on the arguments that were given, and no dependent is
/// invoked at two places.
pub proof fn lemma_propagation_once(
    dependents: Seq<Seq<u8>>,
    arguments: Map<Seq<char>, DataView>,
)
    requires
        dependents.no_duplicates(),
    ensures
        propagation(dependents, arguments).len() == dependents.len(),
        forall|i: int|
            0 <= i < dependents.len() ==> #[trigger] propagation(dependents, arguments)[i] == (
                dependents[i],
                arguments,
            ),
        propagation(dependents, arguments).no_duplicates(),
{
    let run = propagation(dependents, arguments);
    assert forall|i: int, j: int|
        0 <= i < run.len() && 0 <= j < run.len() && i != j implies run[i] != run[j] by {
        assert(dependents[i] != dependents[j]);
    }
}

impl View for Graph {
    type V = Map<Seq<u8>, NodeView>;

    /// The nodes by the bytes of their identifiers.
    closed spec fn view(&self) -> Map<Seq<u8>, NodeView> {
        entries_map(self.pairs())
    }
}

impl Graph {
    /// The nodes in the order in which they are stored, each beside the
    /// bytes of its identifier.
    pub closed spec fn pairs(&self) -> Seq<(Seq<u8>, NodeView)> {
        Seq::new(self.nodes.len() as nat, |i: int| (self.nodes[i]@.id, self.nodes[i]@))
    }

    /// The graph is well formed: no identifier occurs twice, and every node
    /// is well formed.
    pub closed spec fn wf(&self) -> bool {
        &&& distinct_keys(self.pairs())
        &&& forall|i: int| 0 <= i < self.nodes.len() ==> (#[trigger] self.nodes[i]).wf()
    }

    /// A graph without nodes.
    pub fn new() -> (graph: Self)
        ensures
            graph.wf(),
            graph.pairs() == Seq::<(Seq<u8>, NodeView)>::empty(),
            graph@ == Map::<Seq<u8>, NodeView>::empty(),
    {
        let graph = Graph { nodes: Vec::new() };
        assert(graph.pairs() =~= Seq::<(Seq<u8>, NodeView)>::empty());
        graph
    }

    /// How many nodes the graph holds.
    pub fn len(&self) -> (n: usize)
        ensures
            n == self.pairs().len(),
    {
        self.nodes.len()
    }

    fn position(&self, id: &Uuid) -> (r: Option<usize>)
        ensures
            match r {
                Some(i) => i < self.pairs().len() && self.pairs()[i as int].0 == uuid_bytes(*id),
                None => forall|i: int|
                    0 <= i < self.pairs().len() ==> (#[trigger] self.pairs()[i]).0 != uuid_bytes(
                        *id,
                    ),
            },
    {
        let mut i: usize = 0;
        while i < self.nodes.len()
            invariant
                i <= self.nodes.len(),
                forall|j: int| 0 <= j < i ==> (#[trigger] self.pairs()[j]).0 != uuid_bytes(*id),
            decreases self.nodes.len() - i,
        {
            let found = same_id(&self.nodes[i].id(), id);
            if found {
                return Some(i);
            }
            i += 1;
        }
        None
    }

    /// Puts `node` into the graph under its own identifier, in place of the
    /// node that stood there.
    pub fn add_node(&mut self, node: Node)
        requires
            old(self).wf(),
            node.wf(),
        ensures
            final(self).wf(),
            final(self)@ == old(self)@.insert(node@.id, node@),
            match first_with_key(old(self).pairs(), node@.id) {
                Some(i) => final(self).pairs() == old(self).pairs().update(i, (node@.id, node@)),
                None => final(self).pairs() == old(self).pairs().push((node@.id, node@)),
            },
            final(self).pairs().len() == if old(self)@.contains_key(node@.id) {
                old(self).pairs().len()
            } else {
                old(self).pairs().len() + 1
            },
    {
        let ghost before = self.pairs();
        proof {
            lemma_entries_map(before);
        }
        let id = node.id();
        match self.position(&id) {
            Some(i) => {
                self.nodes[i] = node;
                proof {
                    assert(self.pairs() =~= before.update(i as int, (node@.id, node@)));
                    lemma_update_entry(before, i as int, node@.id, node@);
                }
            },
            None => {
                self.nodes.push(node);
                proof {
                    assert(self.pairs() =~= before.push((node@.id, node@)));
                    lemma_push_entry(before, node@.id, node@);
                }
            },
        }
    }

    /// Registers `dependent` to be notified after the node `node`, and says
    /// whether the graph holds that node; where it does not, nothing
    /// changes.
    pub fn add_dependent(&mut self, node: &Uuid, dependent: Uuid) -> (found: bool)
        requires
            old(self).wf(),
        ensures
            final(self).wf(),
            found == old(self)@.contains_key(uuid_bytes(*node)),
            final(self)@ == if found {
                old(self)@.insert(
                    uuid_bytes(*node),
                    with_dependent(old(self)@[uuid_bytes(*node)], uuid_bytes(dependent)),
                )
            } else {
                old(self)@
            },
            match first_with_key(old(self).pairs(), uuid_bytes(*node)) {
                Some(i) => final(self).pairs() == old(self).pairs().update(
                    i,
                    (
                        uuid_bytes(*node),
                        with_dependent(old(self)@[uuid_bytes(*node)], uuid_bytes(dependent)),
                    ),
                ),
                None => final(self).pairs() == old(self).pairs(),
            },
            final(self).pairs().len() == old(self).pairs().len(),
    {
        let ghost before = self.pairs();
        proof {
            lemma_entries_map(before);
            lemma_first_with_key(before, uuid_bytes(*node));
        }
        match self.position(node) {
            Some(i) => {
                let ghost was = self.nodes[i as int]@;
                assert(before[i as int] == (was.id, was));
                self.nodes[i].add_dependent(dependent);
                proof {
                    let now = with_dependent(was, uuid_bytes(dependent));
                    assert(self.pairs() =~= before.update(i as int, (was.id, now)));
                    lemma_update_entry(before, i as int, was.id, now);
                }
                true
            },
            None => false,
        }
    }

    /// The node that stands under `id`.
    pub fn get_node(&self, id: &Uuid) -> (r: Option<&Node>)
        requires
            self.wf(),
        ensures
            match r {
                Some(node) => self@.contains_key(uuid_bytes(*id)) && node@ == self@[uuid_bytes(
                    *id,
                )] && node@.id == uuid_bytes(*id) && node.wf(),
                None => !self@.contains_key(uuid_bytes(*id)),
            },
    {
        proof {
            lemma_entries_map(self.pairs());
        }
        match self.position(id) {
            Some(i) => {
                assert(self.pairs()[i as int].1 == self.nodes[i as int]@);
                Some(&self.nodes[i])
            },
            None => None,
        }
    }

    /// Works out what `command` asks of the graph: the invocations to
    /// perform, in order. An absent node identifier is the nil identifier;
    /// absent data is an empty container.
    pub fn dispatch(&self, command: AdaCommand) -> (run: Vec<Invocation>)
        requires
            self.wf(),
        ensures
            invocation_views(run@) == plan(self@, command.header@, arguments_of(command.data)),
            command.wf() ==> forall|i: int|
                0 <= i < run@.len() ==> (#[trigger] run@[i]).arguments.wf(),
    {
        let AdaCommand { header, data } = command;
        let target = match header.node {
            Some(id) => id,
            None => Uuid::nil(),
        };
        assert(uuid_bytes(target) == id_bytes(header.node));
        let arguments = match data {
            Some(container) => container,
            None => Container::new(),
        };
        let mut run: Vec<Invocation> = Vec::new();
        match self.get_node(&target) {
            None => {},
            Some(node) => {
                match header.command_type {
                    AdaCommandType::ExecuteNode => {
                        run.push(node.execute(arguments));
                    },
                    AdaCommandType::PropagateNode => {
                        run.push(node.execute(arguments.clone()));
                        let mut rest = node.propagate(arguments);
                        let ghost rest_views = invocation_views(rest@);
                        run.append(&mut rest);
                        assert(invocation_views(run@) =~= seq![(node@.id, arguments@)]
                            + rest_views);
                    },
                    AdaCommandType::CloseConnection => {},
                    AdaCommandType::Unknown => {},
                }
            },
        }
        assert(invocation_views(run@) =~= plan(self@, header@, arguments@));
        run
    }
}

} // verus!
