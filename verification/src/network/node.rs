//! Nodes of the execution graph and the invocations that running them asks
//! for.
//!
//! A node's action belongs to the embedding application. The library decides
//! which actions run, in which order and on which arguments, and hands that
//! out as a run of invocations; whoever owns the actions performs them.

use crate::network::data_container::{Container, DataView};
use crate::protocol::commands::uuid_bytes;
use uuid::Uuid;
use vstd::prelude::*;

verus! {

/// Whether two identifiers hold the same bytes.
pub fn same_id(a: &Uuid, b: &Uuid) -> (same: bool)
    ensures
        same == (uuid_bytes(*a) == uuid_bytes(*b)),
{
    let x = a.as_bytes().as_slice();
    let y = b.as_bytes().as_slice();
    let mut i: usize = 0;
    while i < 16
        invariant
            i <= 16,
            x@.len() == 16,
            y@.len() == 16,
            x@ == uuid_bytes(*a),
            y@ == uuid_bytes(*b),
            forall|j: int| 0 <= j < i ==> x@[j] == y@[j],
        decreases 16 - i,
    {
        if x[i] != y[i] {
            return false;
        }
        i += 1;
    }
    assert(x@ =~= y@);
    true
}

/// What a node is: the bytes of its identifier and those of its dependents,
/// in the order in which they are notified.
pub ghost struct NodeView {
    pub id: Seq<u8>,
    pub dependents: Seq<Seq<u8>>,
}

/// A node with one more dependent, at the end. A dependent that the node
/// has already stays where it is.
pub open spec fn with_dependent(node: NodeView, dependent: Seq<u8>) -> NodeView {
    NodeView {
        id: node.id,
        dependents: if node.dependents.contains(dependent) {
            node.dependents
        } else {
            node.dependents.push(dependent)
        },
    }
}

/// A unit of work in the graph, with the nodes that it notifies after it
/// has run. Dependents are held by identifier; each occurs once.
#[derive(Debug)]
pub struct Node {
    pub(crate) id: Uuid,
    dependents: Vec<Uuid>,
}

/// One call of a node's action: the node, and the arguments that the action
/// receives.
#[derive(Debug)]
pub struct Invocation {
    pub node: Uuid,
    pub arguments: Container,
}

/// An invocation as a value: the bytes of the node's identifier and the
/// mapping that the arguments hold.
pub type InvocationView = (Seq<u8>, Map<Seq<char>, DataView>);

impl View for Invocation {
    type V = InvocationView;

    open spec fn view(&self) -> InvocationView {
        (uuid_bytes(self.node), self.arguments@)
    }
}

/// A run of invocations as values.
pub open spec fn invocation_views(run: Seq<Invocation>) -> Seq<InvocationView> {
    Seq::new(run.len(), |i: int| run[i]@)
}

/// What propagating asks for: one invocation of each dependent, in order,
/// each on the same arguments.
pub open spec fn propagation(
    dependents: Seq<Seq<u8>>,
    arguments: Map<Seq<char>, DataView>,
) -> Seq<InvocationView> {
    Seq::new(dependents.len(), |i: int| (dependents[i], arguments))
}

impl View for Node {
    type V = NodeView;

    closed spec fn view(&self) -> NodeView {
        NodeView {
            id: uuid_bytes(self.id),
            dependents: Seq::new(
                self.dependents.len() as nat,
                |i: int| uuid_bytes(self.dependents[i]),
            ),
        }
    }
}

impl Node {
    /// The node is well formed: no dependent occurs twice.
    pub open spec fn wf(&self) -> bool {
        self@.dependents.no_duplicates()
    }

    /// A node without dependents.
    pub fn new(id: Uuid) -> (node: Self)
        ensures
            node.wf(),
            node@ == (NodeView { id: uuid_bytes(id), dependents: Seq::empty() }),
    {
        let node = Node { id, dependents: Vec::new() };
        assert(node@.dependents =~= Seq::<Seq<u8>>::empty());
        node
    }

    /// The node's identifier.
    pub fn id(&self) -> (id: Uuid)
        ensures
            uuid_bytes(id) == self@.id,
    {
        self.id
    }

    /// How many dependents the node notifies.
    pub fn dependent_count(&self) -> (n: usize)
        ensures
            n == self@.dependents.len(),
    {
        self.dependents.len()
    }

    /// Registers `dependent` to be notified after this node. A dependent that
    /// is registered already stays where it is.
    pub fn add_dependent(&mut self, dependent: Uuid)
        requires
            old(self).wf(),
        ensures
            final(self).wf(),
            final(self)@ == with_dependent(old(self)@, uuid_bytes(dependent)),
    {
        let ghost before = self@.dependents;
        let mut i: usize = 0;
        while i < self.dependents.len()
            invariant
                i <= self.dependents.len(),
                self@.dependents == before,
                *self == *old(self),
                self.wf(),
                forall|j: int| 0 <= j < i ==> before[j] != uuid_bytes(dependent),
            decreases self.dependents.len() - i,
        {
            if same_id(&self.dependents[i], &dependent) {
                assert(before[i as int] == uuid_bytes(dependent));
                return ;
            }
            i += 1;
        }
        self.dependents.push(dependent);
        assert(self@.dependents =~= before.push(uuid_bytes(dependent)));
        assert(!before.contains(uuid_bytes(dependent)));
    }

    /// Asks for this node's action to run on `arguments`.
    pub fn execute(&self, arguments: Container) -> (invocation: Invocation)
        ensures
            invocation@ == (self@.id, arguments@),
            invocation.arguments == arguments,
    {
        Invocation { node: self.id, arguments }
    }

    /// Asks for the action of each dependent to run, once and in order, each
    /// on a copy of `arguments` of its own.
    pub fn propagate(&self, arguments: Container) -> (run: Vec<Invocation>)
        ensures
            invocation_views(run@) == propagation(self@.dependents, arguments@),
            forall|i: int|
                0 <= i < run@.len() ==> (#[trigger] run@[i]).arguments.entries()
                    == arguments.entries(),
    {
        let mut run: Vec<Invocation> = Vec::new();
        let mut i: usize = 0;
        while i < self.dependents.len()
            invariant
                i <= self.dependents.len(),
                run@.len() == i,
                forall|j: int|
                    0 <= j < i ==> (#[trigger] run@[j])@ == (self@.dependents[j], arguments@)
                        && run@[j].arguments.entries() == arguments.entries(),
            decreases self.dependents.len() - i,
        {
            let cloned_arguments = arguments.clone();
            run.push(Invocation { node: self.dependents[i], arguments: cloned_arguments });
            i += 1;
        }
        assert(invocation_views(run@) =~= propagation(self@.dependents, arguments@));
        run
    }
}

} // verus!
