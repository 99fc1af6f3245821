use httprs::server::tcp::{EchoAction, EchoProcess, EchoRead, EchoTotals};

#[test]
fn echo_session_with_prefix() {
    let process = EchoProcess { prefix: Some("test".to_string()) };
    let mut totals = EchoTotals::new();

    let action = process.on_read(&mut totals, EchoRead::Bytes(b"echo".to_vec()));
    match &action {
        EchoAction::Echo { framing, data } => {
            assert_eq!(framing.clone(), vec![b"test".to_vec(), b": ".to_vec()]);
            assert_eq!(data.clone(), b"echo".to_vec());
            let mut sent: Vec<u8> = Vec::new();
            for piece in framing {
                sent.extend_from_slice(piece);
            }
            sent.extend_from_slice(data);
            assert_eq!(String::from_utf8(sent).unwrap(), "test: echo");
        }
        other => panic!("unexpected action {:?}", other),
    }
    assert!(totals.record_write(&action, Some(4)));

    let action = process.on_read(&mut totals, EchoRead::Bytes(Vec::new()));
    assert!(matches!(action, EchoAction::Stop));
    assert_eq!((totals.readed, totals.writed), (4, 4));
}

#[test]
fn echo_without_prefix_has_no_framing() {
    let process = EchoProcess { prefix: None };
    let mut totals = EchoTotals::new();
    let action = process.on_read(&mut totals, EchoRead::Bytes(vec![1, 2, 3]));
    match &action {
        EchoAction::Echo { framing, data } => {
            assert!(framing.is_empty());
            assert_eq!(data.clone(), vec![1, 2, 3]);
        }
        other => panic!("unexpected action {:?}", other),
    }
    // a partial write counts only what was written
    assert!(totals.record_write(&action, Some(2)));
    assert_eq!((totals.readed, totals.writed), (3, 2));
}

#[test]
fn echo_read_errors() {
    let process = EchoProcess { prefix: Some("p".to_string()) };
    let mut totals = EchoTotals::new();

    let action = process.on_read(&mut totals, EchoRead::WouldBlock);
    assert!(matches!(action, EchoAction::Continue));
    assert!(totals.record_write(&action, Some(0)));

    let action = process.on_read(&mut totals, EchoRead::Failed("broken pipe".to_string()));
    match &action {
        EchoAction::SendError(text) => assert_eq!(text, "broken pipe"),
        other => panic!("unexpected action {:?}", other),
    }
    // the error text counts for nothing written
    assert!(totals.record_write(&action, Some(0)));
    assert_eq!((totals.readed, totals.writed), (0, 0));

    let action = process.on_read(&mut totals, EchoRead::Closed);
    assert!(matches!(action, EchoAction::Stop));
}

#[test]
fn echo_stops_on_failed_write() {
    let process = EchoProcess { prefix: None };
    let mut totals = EchoTotals::new();
    let action = process.on_read(&mut totals, EchoRead::Bytes(b"abc".to_vec()));
    assert!(!totals.record_write(&action, None));
    assert_eq!((totals.readed, totals.writed), (3, 0));
}
