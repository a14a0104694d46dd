use ada_executor::network::data_container::{Container, Data};
use ada_executor::protocol::protocol_parser::parse_data_container;

fn sample() -> Container {
    let mut data = Container::new();
    data.add_item("int", Data::Integer(1));
    data.add_item("float", Data::Float(2.1f64.to_bits()));
    data.add_item("flag", Data::Boolean(true));
    data
}

fn float_of(data: Option<&Data>) -> f64 {
    match data {
        Some(Data::Float(bits)) => f64::from_bits(*bits),
        _ => panic!("no float"),
    }
}

#[test]
fn new_container_is_empty() {
    let data = Container::new();
    assert_eq!(data.len(), 0);
    assert!(data.get_item("int").is_none());
    assert_eq!(data.get_data_size(), 4);
    assert_eq!(data.get_bytes(), vec![0, 0, 0, 4]);
}

#[test]
fn items_are_found_under_their_keys() {
    let data = sample();
    assert_eq!(data.len(), 3);
    assert!(matches!(data.get_item("int"), Some(Data::Integer(1))));
    assert_eq!(float_of(data.get_item("float")), 2.1);
    assert!(matches!(data.get_item("flag"), Some(Data::Boolean(true))));
    assert!(data.get_item("other").is_none());
    assert!(data.get_item("").is_none());
}

#[test]
fn last_write_wins() {
    let mut data = sample();
    data.add_item("int", Data::Integer(7));
    data.add_item("flag", Data::Text("now a text".to_string()));
    assert_eq!(data.len(), 3);
    assert!(matches!(data.get_item("int"), Some(Data::Integer(7))));
    assert!(matches!(data.get_item("flag"), Some(Data::Text(t)) if t == "now a text"));
    assert_eq!(float_of(data.get_item("float")), 2.1);
}

#[test]
fn wire_tags_of_values() {
    assert_eq!(Data::Integer(5).get_data_type(), 1);
    assert_eq!(Data::Float(0).get_data_type(), 2);
    assert_eq!(Data::Text(String::new()).get_data_type(), 3);
    assert_eq!(Data::Boolean(false).get_data_type(), 4);
}

#[test]
fn blank_values_from_tags() {
    assert!(matches!(Data::try_from(1), Ok(Data::Integer(0))));
    assert!(matches!(Data::try_from(2), Ok(Data::Float(0))));
    assert!(matches!(Data::try_from(3), Ok(Data::Text(t)) if t.is_empty()));
    assert!(matches!(Data::try_from(4), Ok(Data::Boolean(false))));
    assert!(Data::try_from(0).is_err());
    assert!(Data::try_from(5).is_err());
    assert!(Data::try_from(255).is_err());
}

#[test]
fn size_of_each_kind_of_value() {
    let mut data = Container::new();
    data.add_item("k", Data::Integer(0));
    assert_eq!(data.get_data_size(), 4 + 2 + 1 + 1 + 4);
    let mut data = Container::new();
    data.add_item("k", Data::Float(0));
    assert_eq!(data.get_data_size(), 4 + 2 + 1 + 1 + 8);
    let mut data = Container::new();
    data.add_item("k", Data::Text("abc".to_string()));
    assert_eq!(data.get_data_size(), 4 + 2 + 1 + 1 + 3 + 1);
    let mut data = Container::new();
    data.add_item("k", Data::Boolean(true));
    assert_eq!(data.get_data_size(), 4 + 2 + 1 + 1 + 1);
    let mut data = Container::new();
    data.add_item("\u{e9}", Data::Text("\u{20ac}".to_string()));
    assert_eq!(data.get_data_size(), 4 + 2 + 2 + 1 + 3 + 1);
}

#[test]
fn size_is_the_length_of_the_bytes() {
    let mut data = sample();
    assert_eq!(data.get_data_size() as usize, data.get_bytes().len());
    data.add_item("text", Data::Text("string".repeat(22)));
    assert_eq!(data.get_data_size() as usize, data.get_bytes().len());
    data.add_item("", Data::Text(String::new()));
    assert_eq!(data.get_data_size() as usize, data.get_bytes().len());
    assert_eq!(data.get_data_size(), 38 + (2 + 4 + 1 + 132 + 1) + (2 + 1 + 1));
}

#[test]
fn exact_bytes_of_a_container() {
    let mut data = Container::new();
    data.add_item("a", Data::Integer(-2));
    data.add_item("bc", Data::Text("hi".to_string()));
    data.add_item("d", Data::Boolean(false));
    data.add_item("e", Data::Float(1.0f64.to_bits()));
    let expected: Vec<u8> = vec![
        0, 0, 0, 37, //
        0, 1, b'a', 1, 0xff, 0xff, 0xff, 0xfe, //
        0, 2, b'b', b'c', 3, b'h', b'i', 0, //
        0, 1, b'd', 4, 0, //
        0, 1, b'e', 2, 0x3f, 0xf0, 0, 0, 0, 0, 0, 0,
    ];
    assert_eq!(data.get_bytes(), expected);
    assert_eq!(data.get_data_size(), 37);
}

#[test]
fn mixed_container_survives_the_wire() {
    let mut data = sample();
    data.add_item("text", Data::Text("gr\u{fc}\u{df}e \u{1f600}".to_string()));
    data.add_item("neg", Data::Integer(i32::MIN));
    data.add_item("nan", Data::Float(f64::NAN.to_bits()));
    data.add_item("", Data::Boolean(false));
    data.add_item("empty", Data::Text(String::new()));
    let back = parse_data_container(data.get_bytes(), 0).unwrap();
    assert_eq!(back.len(), 8);
    assert!(matches!(back.get_item("int"), Some(Data::Integer(1))));
    assert_eq!(float_of(back.get_item("float")), 2.1);
    assert!(matches!(back.get_item("flag"), Some(Data::Boolean(true))));
    assert!(matches!(back.get_item("text"), Some(Data::Text(t)) if t == "gr\u{fc}\u{df}e \u{1f600}"));
    assert!(matches!(back.get_item("neg"), Some(Data::Integer(i32::MIN))));
    assert!(matches!(back.get_item("nan"), Some(Data::Float(bits)) if *bits == f64::NAN.to_bits()));
    assert!(matches!(back.get_item(""), Some(Data::Boolean(false))));
    assert!(matches!(back.get_item("empty"), Some(Data::Text(t)) if t.is_empty()));
    assert_eq!(back.get_bytes(), data.get_bytes());
}

#[test]
fn empty_container_survives_the_wire() {
    let back = parse_data_container(Container::new().get_bytes(), 0).unwrap();
    assert_eq!(back.len(), 0);
}

#[test]
fn clone_holds_the_same_entries() {
    let data = sample();
    let mut copy = data.clone();
    assert_eq!(copy.get_bytes(), data.get_bytes());
    copy.add_item("int", Data::Integer(2));
    assert!(matches!(data.get_item("int"), Some(Data::Integer(1))));
    assert!(matches!(copy.get_item("int"), Some(Data::Integer(2))));
    let text = Data::Text("t".to_string()).clone();
    assert!(matches!(text, Data::Text(t) if t == "t"));
}
