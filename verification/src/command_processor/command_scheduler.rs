//! The scheduler's share of the work: emptying the command queue and working
//! out what the commands in it ask of the graph.
//!
//! The queue is a stack: the command that was pushed last is dispatched
//! first.

use crate::network::graph::{arguments_of, plan, Graph};
use crate::network::node::{invocation_views, Invocation, InvocationView, NodeView};
use crate::protocol::commands::AdaCommand;
use vstd::prelude::*;

verus! {

/// What emptying a queue asks of a graph: what its last command asks, then
/// what the commands before it ask, the later ones first.
pub open spec fn drain_plan(graph: Map<Seq<u8>, NodeView>, queue: Seq<AdaCommand>) -> Seq<
    InvocationView,
>
    decreases queue.len(),
{
    if queue.len() == 0 {
        Seq::empty()
    } else {
        plan(graph, queue.last().header@, arguments_of(queue.last().data)) + drain_plan(
            graph,
            queue.drop_last(),
        )
    }
}

/// Takes the command that is due next off the queue: the one that was pushed
/// last.
pub fn next_command(command_queue: &mut Vec<AdaCommand>) -> (next: Option<AdaCommand>)
    ensures
        old(command_queue)@.len() == 0 ==> {
            &&& next is None
            &&& final(command_queue)@ == old(command_queue)@
        },
        old(command_queue)@.len() > 0 ==> {
            &&& next == Some(old(command_queue)@.last())
            &&& final(command_queue)@ == old(command_queue)@.drop_last()
        },
{
    command_queue.pop()
}

/// One poll of the queue: takes every command off it, the last one first, and
/// returns what they ask of the graph, in the order in which they were
/// taken. The queue is empty afterwards.
pub fn listen(command_queue: &mut Vec<AdaCommand>, graph: &Graph) -> (run: Vec<Invocation>)
    requires
        graph.wf(),
    ensures
        final(command_queue)@.len() == 0,
        invocation_views(run@) == drain_plan(graph@, old(command_queue)@),
        (forall|j: int|
            0 <= j < old(command_queue)@.len() ==> (#[trigger] old(command_queue)@[j]).wf())
            ==> forall|i: int| 0 <= i < run@.len() ==> (#[trigger] run@[i]).arguments.wf(),
{
    let mut run: Vec<Invocation> = Vec::new();
    assert(invocation_views(run@) =~= Seq::<InvocationView>::empty());
    while command_queue.len() > 0
        invariant
            graph.wf(),
            command_queue@.len() <= old(command_queue)@.len(),
            forall|j: int|
                0 <= j < command_queue@.len() ==> (#[trigger] command_queue@[j]) == old(command_queue)@[j],
            (forall|j: int|
                0 <= j < old(command_queue)@.len() ==> (#[trigger] old(command_queue)@[j]).wf())
                ==> forall|i: int| 0 <= i < run@.len() ==> (#[trigger] run@[i]).arguments.wf(),
            invocation_views(run@) + drain_plan(graph@, command_queue@) == drain_plan(
                graph@,
                old(command_queue)@,
            ),
        decreases command_queue.len(),
    {
        let ghost done = invocation_views(run@);
        let ghost waiting = command_queue@;
        let next = next_command(command_queue);
        if let Some(command) = next {
            let mut part = graph.dispatch(command);
            let ghost asked = invocation_views(part@);
            run.append(&mut part);
            proof {
                assert(invocation_views(run@) =~= done + asked);
                assert(drain_plan(graph@, waiting) == asked + drain_plan(graph@, command_queue@));
                assert((done + asked) + drain_plan(graph@, command_queue@) =~= done + (asked
                    + drain_plan(graph@, command_queue@)));
            }
        }
    }
    assert(invocation_views(run@) + Seq::<InvocationView>::empty() =~= invocation_views(run@));
    run
}

/// Last in, first out: with a command pushed onto a queue, emptying the queue
/// first asks what that command asks, and then what emptying the queue
/// without it would have asked.
pub proof fn lemma_last_in_first_out(
    graph: Map<Seq<u8>, NodeView>,
    queue: Seq<AdaCommand>,
    command: AdaCommand,
)
    ensures
        drain_plan(graph, queue.push(command)) == plan(
            graph,
            command.header@,
            arguments_of(command.data),
        ) + drain_plan(graph, queue),
{
    assert(queue.push(command).drop_last() =~= queue);
}

} // verus!
