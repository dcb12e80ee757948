use scow::command::Frame;
use scow::handler::{execute_command, handle_frame, Db};
use scow::protocol::{Command, Response};

#[test]
fn db_get_and_set() {
    let mut db = Db::new();
    assert_eq!(db.get("k"), None);
    db.set("k".to_string(), "v".to_string());
    assert_eq!(db.get("k"), Some("v".to_string()));
    db.set("k".to_string(), "w".to_string());
    assert_eq!(db.get("k"), Some("w".to_string()));
}

#[test]
fn add_server_leaves_entries_alone() {
    let mut db = Db::new();
    db.add_server("127.0.0.1:9990".to_string(), "zero".to_string());
    assert_eq!(db.get("127.0.0.1:9990"), None);
}

#[test]
fn execute_command_read_and_write() {
    let mut db = Db::new();
    assert_eq!(
        execute_command(&mut db, Command::Read("x".to_string())),
        Response::Error("Key not found.".to_string())
    );
    assert_eq!(
        execute_command(&mut db, Command::Write("x".to_string(), "y".to_string())),
        Response::Success
    );
    assert_eq!(
        execute_command(&mut db, Command::Read("x".to_string())),
        Response::Value("y".to_string())
    );
}

#[test]
fn response_into_frame() {
    assert_eq!(Response::Success.into_frame(), Frame::Success);
    assert_eq!(Response::Value("v".to_string()).into_frame(), Frame::Value("v".to_string()));
    assert_eq!(Response::Error("e".to_string()).into_frame(), Frame::Error("e".to_string()));
}

#[test]
fn response_frames_are_rejected() {
    let mut db = Db::new();
    for frame in [
        Frame::Success,
        Frame::Value("v".to_string()),
        Frame::Error("e".to_string()),
        Frame::RequestVote,
        Frame::Vote("1".to_string()),
        Frame::AddServer("127.0.0.1:9991".to_string()),
    ] {
        assert_eq!(handle_frame(&mut db, frame), Frame::Error("Unsupported frame.".to_string()));
    }
    assert_eq!(db.get("v"), None);
}
