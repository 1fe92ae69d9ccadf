use memoir::ipc_common::{
    socket_name, socket_name_for, DecodeError, EncodeError, Item, NameSupport, SaveTo, Signal,
};

fn bytes_of(signal: Signal) -> Vec<u8> {
    let mut bytes = Vec::new();
    signal.feed_into(&mut bytes).unwrap();
    bytes
}

fn round_trip(signal: Signal) {
    let bytes = bytes_of(signal.clone());
    let (back, used) = Signal::read_from(&bytes).unwrap();
    assert_eq!(back, signal);
    assert_eq!(used, bytes.len());
}

#[test]
fn every_variant_round_trips() {
    round_trip(Signal::Ack);
    round_trip(Signal::Stop);
    round_trip(Signal::Ping);
    round_trip(Signal::Error { explanation: "no such directory".to_string() });
    round_trip(Signal::Error { explanation: String::new() });
    round_trip(Signal::Output { output: "a\tb\nc\u{e9}".to_string() });
    round_trip(Signal::Save { to: SaveTo::Stdout, time_sec: None });
    round_trip(Signal::Save { to: SaveTo::File { name: "x".to_string() }, time_sec: Some(5) });
    round_trip(Signal::Save { to: SaveTo::Stdout, time_sec: Some(usize::MAX) });
    round_trip(Signal::Save { to: SaveTo::File { name: String::new() }, time_sec: Some(0) });
}

#[test]
fn names_alone_are_text() {
    assert_eq!(bytes_of(Signal::Ack), vec![0x63, b'A', b'c', b'k']);
    assert_eq!(bytes_of(Signal::Stop), vec![0x64, b'S', b't', b'o', b'p']);
    assert_eq!(bytes_of(Signal::Ping), vec![0x64, b'P', b'i', b'n', b'g']);
}

#[test]
fn save_to_stdout_on_the_wire() {
    let mut expected = vec![0xa1, 0x64];
    expected.extend_from_slice(b"Save");
    expected.push(0xa2);
    expected.push(0x62);
    expected.extend_from_slice(b"to");
    expected.push(0x66);
    expected.extend_from_slice(b"Stdout");
    expected.push(0x68);
    expected.extend_from_slice(b"time_sec");
    expected.push(0xf6);
    assert_eq!(bytes_of(Signal::Save { to: SaveTo::Stdout, time_sec: None }), expected);
}

#[test]
fn save_to_file_on_the_wire() {
    let mut expected = vec![0xa1, 0x64];
    expected.extend_from_slice(b"Save");
    expected.push(0xa2);
    expected.push(0x62);
    expected.extend_from_slice(b"to");
    expected.extend_from_slice(&[0xa1, 0x64]);
    expected.extend_from_slice(b"File");
    expected.extend_from_slice(&[0xa1, 0x64]);
    expected.extend_from_slice(b"name");
    expected.extend_from_slice(&[0x61, b'x']);
    expected.push(0x68);
    expected.extend_from_slice(b"time_sec");
    expected.push(0x05);
    assert_eq!(
        bytes_of(Signal::Save { to: SaveTo::File { name: "x".to_string() }, time_sec: Some(5) }),
        expected
    );
}

#[test]
fn error_on_the_wire() {
    let mut expected = vec![0xa1, 0x65];
    expected.extend_from_slice(b"Error");
    expected.extend_from_slice(&[0xa1, 0x6b]);
    expected.extend_from_slice(b"explanation");
    expected.extend_from_slice(&[0x62, b'n', b'o']);
    assert_eq!(bytes_of(Signal::Error { explanation: "no".to_string() }), expected);
}

#[test]
fn feeding_appends() {
    let mut bytes = vec![1, 2, 3];
    Signal::Ack.feed_into(&mut bytes).unwrap();
    assert_eq!(bytes, vec![1, 2, 3, 0x63, b'A', b'c', b'k']);
}

#[test]
fn reading_takes_one_message_and_says_how_much() {
    let mut bytes = bytes_of(Signal::Ack);
    let first = bytes.len();
    bytes.extend(bytes_of(Signal::Output { output: "report".to_string() }));
    let (signal, used) = Signal::read_from(&bytes).unwrap();
    assert_eq!(signal, Signal::Ack);
    assert_eq!(used, first);
    let (signal, used) = Signal::read_from(&bytes[first..]).unwrap();
    assert_eq!(signal, Signal::Output { output: "report".to_string() });
    assert_eq!(used, bytes.len() - first);
}

#[test]
fn fields_of_save_in_either_order() {
    let mut bytes = vec![0xa1, 0x64];
    bytes.extend_from_slice(b"Save");
    bytes.push(0xa2);
    bytes.push(0x68);
    bytes.extend_from_slice(b"time_sec");
    bytes.push(0x18);
    bytes.push(60);
    bytes.push(0x62);
    bytes.extend_from_slice(b"to");
    bytes.push(0x66);
    bytes.extend_from_slice(b"Stdout");
    assert_eq!(
        Signal::read_from(&bytes),
        Ok((Signal::Save { to: SaveTo::Stdout, time_sec: Some(60) }, bytes.len()))
    );
}

#[test]
fn truncated_bytes_are_an_io_error() {
    let bytes = bytes_of(Signal::Output { output: "report".to_string() });
    assert_eq!(Signal::read_from(&bytes[..bytes.len() - 1]), Err(DecodeError::Io));
    assert_eq!(Signal::read_from(&[]), Err(DecodeError::Io));
}

#[test]
fn malformed_bytes_are_a_syntax_error() {
    // 0x1c has a length that the encoding reserves.
    assert_eq!(Signal::read_from(&[0x1c]), Err(DecodeError::Syntax { offset: 0 }));
    assert_eq!(Signal::read_from(&[0x63, b'A', 0x1c]), Err(DecodeError::Io));
}

#[test]
fn a_break_alone_has_no_meaning() {
    // 0xff is a break outside any item of open length.
    assert!(matches!(Signal::read_from(&[0xff]), Err(DecodeError::Semantic { .. })));
}

#[test]
fn unknown_shapes_are_refused() {
    // The text "Nope", the number 7, an array, a table with an unknown name.
    assert_eq!(Signal::read_from(&[0x64, b'N', b'o', b'p', b'e']), Err(DecodeError::UnknownShape));
    assert_eq!(Signal::read_from(&[0x07]), Err(DecodeError::UnknownShape));
    assert_eq!(Signal::read_from(&[0x80]), Err(DecodeError::UnknownShape));
    assert_eq!(Signal::read_from(&[0xf6]), Err(DecodeError::UnknownShape));
    assert_eq!(
        Signal::read_from(&[0xa1, 0x63, b'A', b'c', b'k', 0xa0]),
        Err(DecodeError::UnknownShape)
    );
    // Save with a negative number of seconds.
    let mut bytes = vec![0xa1, 0x64];
    bytes.extend_from_slice(b"Save");
    bytes.push(0xa2);
    bytes.push(0x62);
    bytes.extend_from_slice(b"to");
    bytes.push(0x66);
    bytes.extend_from_slice(b"Stdout");
    bytes.push(0x68);
    bytes.extend_from_slice(b"time_sec");
    bytes.push(0x20);
    assert_eq!(Signal::read_from(&bytes), Err(DecodeError::UnknownShape));
}

#[test]
fn items_of_signals() {
    assert!(matches!(Signal::Ack.to_item(), Item::Text(name) if name == "Ack"));
    assert_eq!(Signal::from_item(Item::Text("Ping".to_string())), Ok(Signal::Ping));
    assert_eq!(Signal::from_item(Item::Null), Err(DecodeError::UnknownShape));
    assert_eq!(Signal::from_item(Item::Other), Err(DecodeError::UnknownShape));
    assert_eq!(Signal::from_item(Item::Unsigned(3)), Err(DecodeError::UnknownShape));
    let save = Signal::Save { to: SaveTo::File { name: "out.tsv".to_string() }, time_sec: None };
    assert_eq!(Signal::from_item(save.to_item()), Ok(save));
    assert_eq!(SaveTo::from_item(SaveTo::Stdout.to_item()), Some(SaveTo::Stdout));
    assert_eq!(SaveTo::from_item(Item::Text("Stderr".to_string())), None);
}

#[test]
fn a_table_with_a_field_too_many_is_no_signal() {
    let fields = vec![
        (Item::Text("output".to_string()), Item::Text("a".to_string())),
        (Item::Text("more".to_string()), Item::Null),
    ];
    let item = Item::Table(vec![(Item::Text("Output".to_string()), Item::Table(fields))]);
    assert_eq!(Signal::from_item(item), Err(DecodeError::UnknownShape));
}

#[test]
fn explanations() {
    assert_eq!(DecodeError::Io.explanation(), "the message ends before it is complete");
    assert_eq!(
        DecodeError::Syntax { offset: 120 }.explanation(),
        "the message is malformed at byte 120"
    );
    assert_eq!(
        DecodeError::Semantic { offset: Some(0) }.explanation(),
        "the message has no meaning at byte 0"
    );
    assert_eq!(DecodeError::Semantic { offset: None }.explanation(), "the message has no meaning");
    assert_eq!(
        DecodeError::RecursionLimitExceeded.explanation(),
        "the message is nested too deeply"
    );
    assert_eq!(DecodeError::UnknownShape.explanation(), "the message is no known signal");
}

#[test]
fn the_endpoint_has_one_of_two_names() {
    assert_eq!(socket_name_for(NameSupport::OnlyPaths), "/tmp/memoirrs.sock");
    assert_eq!(socket_name_for(NameSupport::OnlyNamespaced), "@memoirrs.sock");
    assert_eq!(socket_name_for(NameSupport::Both), "@memoirrs.sock");
    let name = socket_name();
    assert!(name == "/tmp/memoirrs.sock" || name == "@memoirrs.sock");
}

#[test]
fn a_message_nested_too_deeply_is_refused() {
    // Three hundred arrays of one item, one in the other, around a zero.
    let mut bytes = vec![0x81; 300];
    bytes.push(0x00);
    assert_eq!(Signal::read_from(&bytes), Err(DecodeError::RecursionLimitExceeded));
}

#[test]
fn what_the_encoder_wrote_goes_behind_the_bytes() {
    let mut bytes = vec![9, 8];
    assert_eq!(Signal::feed_bytes(Ok(vec![1, 2, 3]), &mut bytes), Ok(()));
    assert_eq!(bytes, vec![9, 8, 1, 2, 3]);
    assert_eq!(Signal::feed_bytes(Ok(Vec::new()), &mut bytes), Ok(()));
    assert_eq!(bytes, vec![9, 8, 1, 2, 3]);
}

#[test]
fn an_error_of_the_encoder_leaves_the_bytes() {
    let mut bytes = vec![9, 8];
    assert_eq!(Signal::feed_bytes(Err(EncodeError::Io), &mut bytes), Err(EncodeError::Io));
    assert_eq!(bytes, vec![9, 8]);
    assert_eq!(Signal::feed_bytes(Err(EncodeError::Value), &mut bytes), Err(EncodeError::Value));
    assert_eq!(bytes, vec![9, 8]);
}

#[test]
fn every_signal_is_fed() {
    for signal in [
        Signal::Ack,
        Signal::Stop,
        Signal::Ping,
        Signal::Error { explanation: "e".to_string() },
        Signal::Output { output: "o".to_string() },
        Signal::Save { to: SaveTo::Stdout, time_sec: Some(1) },
        Signal::Save { to: SaveTo::File { name: "f".to_string() }, time_sec: None },
    ] {
        let mut bytes = vec![0xf6];
        assert_eq!(signal.feed_into(&mut bytes), Ok(()));
        assert!(bytes.len() > 1);
        assert_eq!(bytes[0], 0xf6);
    }
}

#[test]
fn only_bytes_that_end_too_early_ask_for_more() {
    assert!(DecodeError::Io.is_incomplete());
    assert!(!DecodeError::Syntax { offset: 0 }.is_incomplete());
    assert!(!DecodeError::Semantic { offset: None }.is_incomplete());
    assert!(!DecodeError::RecursionLimitExceeded.is_incomplete());
    assert!(!DecodeError::UnknownShape.is_incomplete());
}
