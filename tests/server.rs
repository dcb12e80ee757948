use scow::command::Frame;
use scow::connection::ReadBuffer;
use scow::handler::{handle_frame, Db};

/// Sends `request` through the wire format to a handler over `db`, and reads the
/// reply back the way a client does.
fn exchange(db: &mut Db, request: Frame) -> Frame {
    let mut server_side = ReadBuffer::new();
    server_side.receive(request.to_string().as_bytes());
    let received = server_side.parse_frame().unwrap().unwrap();
    assert!(server_side.is_empty());
    let reply = handle_frame(db, received);
    let mut client_side = ReadBuffer::new();
    client_side.receive(reply.to_string().as_bytes());
    let answer = client_side.parse_frame().unwrap().unwrap();
    assert!(client_side.is_empty());
    answer
}

#[test]
fn set_then_get() {
    let mut db = Db::new();

    let set_result = exchange(&mut db, Frame::Write("key".to_string(), "testval".to_string()));
    assert_eq!(set_result, Frame::Success);

    let set_results2 = exchange(&mut db, Frame::Write("key2".to_string(), "testval2".to_string()));
    assert_eq!(set_results2, Frame::Success);

    let get_result = exchange(&mut db, Frame::Read("key".to_string()));
    assert_eq!(get_result, Frame::Value("testval".to_string()));
}

#[test]
fn unknown_key() {
    let mut db = Db::new();

    let set_result = exchange(&mut db, Frame::Read("unknown".to_string()));
    assert_eq!(set_result, Frame::Error("Key not found.".to_string()));
}

#[test]
fn overwrite_keeps_last_value() {
    let mut db = Db::new();
    assert_eq!(exchange(&mut db, Frame::Write("k".to_string(), "v1".to_string())), Frame::Success);
    assert_eq!(exchange(&mut db, Frame::Write("k".to_string(), "v2".to_string())), Frame::Success);
    assert_eq!(exchange(&mut db, Frame::Read("k".to_string())), Frame::Value("v2".to_string()));
}

#[test]
fn read_of_key_never_written_among_others() {
    let mut db = Db::new();
    exchange(&mut db, Frame::Write("a".to_string(), "1".to_string()));
    exchange(&mut db, Frame::Write("b".to_string(), "2".to_string()));
    assert_eq!(
        exchange(&mut db, Frame::Read("c".to_string())),
        Frame::Error("Key not found.".to_string())
    );
}

#[test]
fn value_with_spaces_round_trips() {
    let mut db = Db::new();
    exchange(&mut db, Frame::Write("greeting".to_string(), "hello  big world".to_string()));
    assert_eq!(
        exchange(&mut db, Frame::Read("greeting".to_string())),
        Frame::Value("hello  big world".to_string())
    );
}

#[test]
fn empty_value_round_trips() {
    let mut db = Db::new();
    exchange(&mut db, Frame::Write("e".to_string(), String::new()));
    assert_eq!(exchange(&mut db, Frame::Read("e".to_string())), Frame::Value(String::new()));
}

#[test]
fn non_ascii_text_round_trips() {
    let mut db = Db::new();
    exchange(&mut db, Frame::Write("clé".to_string(), "värde ✓".to_string()));
    assert_eq!(
        exchange(&mut db, Frame::Read("clé".to_string())),
        Frame::Value("värde ✓".to_string())
    );
}
