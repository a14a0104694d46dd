use ada_executor::command_processor::command_scheduler::{listen, next_command};
use ada_executor::network::data_container::{Container, Data};
use ada_executor::network::graph::Graph;
use ada_executor::network::node::{same_id, Invocation, Node};
use ada_executor::protocol::commands::{AdaCommand, AdaCommandHeader, AdaCommandType};
use uuid::Uuid;

fn id(n: u8) -> Uuid {
    Uuid::from_bytes([n; 16])
}

fn command(kind: AdaCommandType, node: Option<Uuid>, data: Option<Container>) -> AdaCommand {
    AdaCommand {
        header: AdaCommandHeader {
            version: 1,
            content_length: 38,
            command_type: kind,
            network: None,
            node,
        },
        data,
    }
}

fn arguments(n: i32) -> Container {
    let mut data = Container::new();
    data.add_item("n", Data::Integer(n));
    data
}

fn number(invocation: &Invocation) -> i32 {
    match invocation.arguments.get_item("n") {
        Some(Data::Integer(n)) => *n,
        _ => panic!("no number"),
    }
}

fn graph() -> Graph {
    let mut graph = Graph::new();
    graph.add_node(Node::new(id(1)));
    let mut parent = Node::new(id(2));
    parent.add_dependent(id(3));
    parent.add_dependent(id(1));
    graph.add_node(parent);
    graph.add_node(Node::new(id(3)));
    graph
}

#[test]
fn identifiers_are_compared_by_their_bytes() {
    assert!(same_id(&id(1), &id(1)));
    assert!(!same_id(&id(1), &id(2)));
    let mut bytes = [1; 16];
    bytes[15] = 2;
    assert!(!same_id(&id(1), &Uuid::from_bytes(bytes)));
    assert!(same_id(&Uuid::nil(), &id(0)));
}

#[test]
fn node_knows_its_identifier() {
    let node = Node::new(id(9));
    assert_eq!(node.id(), id(9));
    assert_eq!(node.dependent_count(), 0);
}

#[test]
fn dependent_is_registered_once() {
    let mut node = Node::new(id(1));
    node.add_dependent(id(2));
    node.add_dependent(id(3));
    node.add_dependent(id(2));
    assert_eq!(node.dependent_count(), 2);
    let run = node.propagate(Container::new());
    assert_eq!(run.len(), 2);
    assert_eq!(run[0].node, id(2));
    assert_eq!(run[1].node, id(3));
}

#[test]
fn execute_asks_for_the_node_itself() {
    let node = Node::new(id(4));
    let invocation = node.execute(arguments(11));
    assert_eq!(invocation.node, id(4));
    assert_eq!(number(&invocation), 11);
}

#[test]
fn propagate_invokes_each_dependent_once() {
    let mut node = Node::new(id(1));
    node.add_dependent(id(2));
    node.add_dependent(id(3));
    let given = arguments(5);
    let bytes = given.get_bytes();
    let mut run = node.propagate(given);
    assert_eq!(run.len(), 2);
    assert_eq!(run.iter().filter(|i| i.node == id(2)).count(), 1);
    assert_eq!(run.iter().filter(|i| i.node == id(3)).count(), 1);
    assert_eq!(run[0].arguments.get_bytes(), bytes);
    assert_eq!(run[1].arguments.get_bytes(), bytes);
    // each dependent has a copy of its own
    run[0].arguments.add_item("n", Data::Integer(6));
    assert_eq!(number(&run[0]), 6);
    assert_eq!(number(&run[1]), 5);
}

#[test]
fn propagate_without_dependents_asks_for_nothing() {
    assert!(Node::new(id(1)).propagate(arguments(1)).is_empty());
}

#[test]
fn node_is_found_under_its_identifier() {
    let graph = graph();
    assert_eq!(graph.len(), 3);
    assert_eq!(graph.get_node(&id(2)).unwrap().id(), id(2));
    assert_eq!(graph.get_node(&id(2)).unwrap().dependent_count(), 2);
    assert_eq!(graph.get_node(&id(3)).unwrap().dependent_count(), 0);
    assert!(graph.get_node(&id(4)).is_none());
    assert!(Graph::new().get_node(&id(1)).is_none());
}

#[test]
fn node_replaces_the_one_with_its_identifier() {
    let mut graph = graph();
    let mut node = Node::new(id(2));
    node.add_dependent(id(3));
    graph.add_node(node);
    assert_eq!(graph.len(), 3);
    assert_eq!(graph.get_node(&id(2)).unwrap().dependent_count(), 1);
    assert_eq!(graph.get_node(&id(1)).unwrap().id(), id(1));
}

#[test]
fn execute_invokes_the_named_node_once() {
    let run = graph().dispatch(command(AdaCommandType::ExecuteNode, Some(id(2)), Some(arguments(8))));
    assert_eq!(run.len(), 1);
    assert_eq!(run[0].node, id(2));
    assert_eq!(number(&run[0]), 8);
}

#[test]
fn execute_without_data_hands_over_an_empty_container() {
    let run = graph().dispatch(command(AdaCommandType::ExecuteNode, Some(id(1)), None));
    assert_eq!(run.len(), 1);
    assert_eq!(run[0].node, id(1));
    assert_eq!(run[0].arguments.len(), 0);
}

#[test]
fn unknown_node_invokes_nothing() {
    let graph = graph();
    for kind in [AdaCommandType::ExecuteNode, AdaCommandType::PropagateNode] {
        assert!(graph.dispatch(command(kind, Some(id(7)), Some(arguments(1)))).is_empty());
        assert!(graph.dispatch(command(kind, None, None)).is_empty());
    }
}

#[test]
fn absent_node_is_the_nil_node() {
    let mut graph = graph();
    graph.add_node(Node::new(Uuid::nil()));
    let run = graph.dispatch(command(AdaCommandType::ExecuteNode, None, None));
    assert_eq!(run.len(), 1);
    assert_eq!(run[0].node, Uuid::nil());
}

#[test]
fn propagate_command_invokes_the_node_and_then_its_dependents() {
    let run = graph().dispatch(command(AdaCommandType::PropagateNode, Some(id(2)), Some(arguments(3))));
    assert_eq!(run.len(), 3);
    assert_eq!(run[0].node, id(2));
    assert_eq!(run[1].node, id(3));
    assert_eq!(run[2].node, id(1));
    assert!(run.iter().all(|i| number(i) == 3));
    let run = graph().dispatch(command(AdaCommandType::PropagateNode, Some(id(3)), None));
    assert_eq!(run.len(), 1);
    assert_eq!(run[0].node, id(3));
}

#[test]
fn other_commands_ask_nothing_of_the_graph() {
    let graph = graph();
    assert!(graph.dispatch(command(AdaCommandType::CloseConnection, Some(id(1)), None)).is_empty());
    assert!(graph.dispatch(command(AdaCommandType::Unknown, Some(id(1)), Some(arguments(1)))).is_empty());
}

#[test]
fn queue_gives_the_last_command_first() {
    let mut queue = vec![
        command(AdaCommandType::ExecuteNode, Some(id(1)), None),
        command(AdaCommandType::ExecuteNode, Some(id(2)), None),
        command(AdaCommandType::ExecuteNode, Some(id(3)), None),
    ];
    assert_eq!(next_command(&mut queue).unwrap().header.node, Some(id(3)));
    assert_eq!(next_command(&mut queue).unwrap().header.node, Some(id(2)));
    assert_eq!(next_command(&mut queue).unwrap().header.node, Some(id(1)));
    assert!(next_command(&mut queue).is_none());
    assert!(queue.is_empty());
}

#[test]
fn scheduler_dispatches_last_in_first_out() {
    let graph = graph();
    let mut queue = Vec::new();
    queue.push(command(AdaCommandType::ExecuteNode, Some(id(1)), Some(arguments(1))));
    queue.push(command(AdaCommandType::ExecuteNode, Some(id(2)), Some(arguments(2))));
    queue.push(command(AdaCommandType::ExecuteNode, Some(id(3)), Some(arguments(3))));
    let run = listen(&mut queue, &graph);
    assert!(queue.is_empty());
    assert_eq!(run.len(), 3);
    assert_eq!((run[0].node, number(&run[0])), (id(3), 3));
    assert_eq!((run[1].node, number(&run[1])), (id(2), 2));
    assert_eq!((run[2].node, number(&run[2])), (id(1), 1));
}

#[test]
fn scheduler_drops_what_names_no_node() {
    let graph = graph();
    let mut queue = Vec::new();
    queue.push(command(AdaCommandType::PropagateNode, Some(id(2)), Some(arguments(1))));
    queue.push(command(AdaCommandType::ExecuteNode, Some(id(9)), Some(arguments(2))));
    queue.push(command(AdaCommandType::CloseConnection, Some(id(1)), None));
    queue.push(command(AdaCommandType::ExecuteNode, Some(id(1)), Some(arguments(4))));
    let run = listen(&mut queue, &graph);
    assert!(queue.is_empty());
    let nodes: Vec<Uuid> = run.iter().map(|i| i.node).collect();
    assert_eq!(nodes, vec![id(1), id(2), id(3), id(1)]);
    let numbers: Vec<i32> = run.iter().map(number).collect();
    assert_eq!(numbers, vec![4, 1, 1, 1]);
    assert!(listen(&mut queue, &graph).is_empty());
}

#[test]
fn dependent_is_added_to_a_node_of_the_graph() {
    let mut graph = graph();
    assert!(graph.add_dependent(&id(3), id(1)));
    assert!(graph.add_dependent(&id(3), id(1)));
    assert!(graph.add_dependent(&id(3), id(2)));
    assert!(!graph.add_dependent(&id(8), id(1)));
    assert_eq!(graph.len(), 3);
    assert_eq!(graph.get_node(&id(3)).unwrap().dependent_count(), 2);
    let run = graph.dispatch(command(AdaCommandType::PropagateNode, Some(id(3)), None));
    let nodes: Vec<Uuid> = run.iter().map(|i| i.node).collect();
    assert_eq!(nodes, vec![id(3), id(1), id(2)]);
}
