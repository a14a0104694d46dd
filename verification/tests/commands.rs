use ada_executor::network::data_container::{Container, Data};
use ada_executor::protocol::commands::{
    AdaCommand, AdaCommandHeader, AdaCommandType, COMMON_HEADER_SIZE,
};
use ada_executor::protocol::protocol_parser::{parse_data_container, parse_header};
use uuid::Uuid;

fn command(kind: AdaCommandType, node: Option<Uuid>, data: Option<Container>) -> AdaCommand {
    AdaCommand {
        header: AdaCommandHeader {
            version: 1,
            content_length: 0,
            command_type: kind,
            network: None,
            node,
        },
        data,
    }
}

#[test]
fn header_size_is_thirty_eight() {
    assert_eq!(COMMON_HEADER_SIZE, 38);
}

#[test]
fn new_command_has_nothing_set() {
    for kind in [AdaCommandType::ExecuteNode, AdaCommandType::Unknown] {
        let command = AdaCommand::new(kind);
        assert_eq!(command.header.command_type, kind);
        assert_eq!(command.header.content_length, COMMON_HEADER_SIZE);
        let header = parse_header(&command.to_bytes()).unwrap();
        assert_eq!(header.content_length, command.header.content_length);
    }
    let command = AdaCommand::new(AdaCommandType::CloseConnection);
    assert_eq!(command.header.command_type, AdaCommandType::CloseConnection);
    assert_eq!(command.header.content_length, 38);
    assert_eq!(command.to_bytes().len(), 38);
    assert_eq!(command.header.version, 0);
    assert!(command.header.node.is_none());
    assert!(command.header.network.is_none());
    assert!(command.data.is_none());
}

#[test]
fn command_types_and_their_bytes() {
    assert_eq!(AdaCommandType::try_from(1), Ok(AdaCommandType::CloseConnection));
    assert_eq!(AdaCommandType::try_from(30), Ok(AdaCommandType::ExecuteNode));
    assert_eq!(AdaCommandType::try_from(31), Ok(AdaCommandType::PropagateNode));
    assert_eq!(AdaCommandType::try_from(0), Ok(AdaCommandType::Unknown));
    assert_eq!(AdaCommandType::try_from(29), Ok(AdaCommandType::Unknown));
    assert_eq!(AdaCommandType::try_from(32), Ok(AdaCommandType::Unknown));
    assert_eq!(AdaCommandType::try_from(255), Ok(AdaCommandType::Unknown));
    assert_eq!(AdaCommandType::CloseConnection.tag(), 1);
    assert_eq!(AdaCommandType::ExecuteNode.tag(), 30);
    assert_eq!(AdaCommandType::PropagateNode.tag(), 31);
    assert_eq!(AdaCommandType::Unknown.tag(), 32);
}

#[test]
fn header_survives_encoding() {
    let network = Uuid::from_bytes([7; 16]);
    let node = Uuid::from_bytes([1, 2, 3, 4, 5, 6, 7, 8, 9, 10, 11, 12, 13, 14, 15, 16]);
    for kind in [
        AdaCommandType::CloseConnection,
        AdaCommandType::ExecuteNode,
        AdaCommandType::PropagateNode,
        AdaCommandType::Unknown,
    ] {
        let command = AdaCommand {
            header: AdaCommandHeader {
                version: 3,
                content_length: 0,
                command_type: kind,
                network: Some(network),
                node: Some(node),
            },
            data: None,
        };
        let bytes = command.to_bytes();
        assert_eq!(bytes.len(), 38);
        let header = parse_header(&bytes[0..38]).unwrap();
        assert_eq!(header.version, 3);
        assert_eq!(header.content_length, 38);
        assert_eq!(header.command_type, kind);
        assert_eq!(header.network, Some(network));
        assert_eq!(header.node, Some(node));
    }
}

#[test]
fn exact_bytes_of_a_frame() {
    let mut data = Container::new();
    data.add_item("k", Data::Boolean(true));
    let node = Uuid::from_bytes([1, 2, 3, 4, 5, 6, 7, 8, 9, 10, 11, 12, 13, 14, 15, 16]);
    let bytes = command(AdaCommandType::PropagateNode, Some(node), Some(data)).to_bytes();
    let mut expected = vec![1, 0, 0, 0, 47, 31];
    expected.extend_from_slice(&[0; 16]);
    expected.extend_from_slice(&[1, 2, 3, 4, 5, 6, 7, 8, 9, 10, 11, 12, 13, 14, 15, 16]);
    expected.extend_from_slice(&[0, 0, 0, 9, 0, 1, b'k', 4, 1]);
    assert_eq!(bytes, expected);
}

#[test]
fn absent_identifiers_are_written_as_zeros() {
    let bytes = command(AdaCommandType::ExecuteNode, None, None).to_bytes();
    assert_eq!(bytes.len(), 38);
    assert_eq!(bytes[0], 1);
    assert_eq!(bytes[1..5].to_vec(), vec![0, 0, 0, 38]);
    assert_eq!(bytes[5], 30);
    assert!(bytes[6..38].iter().all(|b| *b == 0));
    let header = parse_header(&bytes).unwrap();
    assert_eq!(header.network, Some(Uuid::nil()));
    assert_eq!(header.node, Some(Uuid::nil()));
}

#[test]
fn stated_length_is_that_of_the_frame() {
    let mut data = Container::new();
    data.add_item("text", Data::Text("string".repeat(22)));
    let mut command = command(AdaCommandType::ExecuteNode, None, Some(data));
    command.header.content_length = 5;
    let bytes = command.to_bytes();
    let header = parse_header(&bytes[..38]).unwrap();
    assert_eq!(header.content_length as usize, bytes.len());
    assert_eq!(header.content_length, 38 + 4 + (2 + 4 + 1 + 132 + 1));
}

#[test]
fn frame_of_three_entries() {
    let mut data = Container::new();
    data.add_item("int", Data::Integer(1));
    data.add_item("float", Data::Float(2.1f64.to_bits()));
    data.add_item("flag", Data::Boolean(true));
    let bytes = command(AdaCommandType::ExecuteNode, None, Some(data)).to_bytes();
    let header = parse_header(&bytes[..38]).unwrap();
    assert_eq!(header.version, 1);
    assert_eq!(header.command_type, AdaCommandType::ExecuteNode);
    assert_eq!(
        header.content_length,
        38 + (4 + (2 + 3 + 1 + 4) + (2 + 5 + 1 + 8) + (2 + 4 + 1 + 1))
    );
    assert_eq!(header.content_length as usize, bytes.len());
    let back = parse_data_container(bytes.clone(), 38).unwrap();
    assert_eq!(back.len(), 3);
    assert!(matches!(back.get_item("int"), Some(Data::Integer(1))));
    assert!(matches!(back.get_item("float"), Some(Data::Float(b)) if f64::from_bits(*b) == 2.1));
    assert!(matches!(back.get_item("flag"), Some(Data::Boolean(true))));
    let body = parse_data_container(bytes[38..].to_vec(), 0).unwrap();
    assert_eq!(body.get_bytes(), bytes[38..].to_vec());
}
