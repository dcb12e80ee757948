use scow::command::{get_line, get_u8, CmdError, Frame};

fn parse_all(bytes: &[u8]) -> Result<Frame, CmdError> {
    let mut pos: usize = 0;
    Frame::parse(bytes, &mut pos)
}

#[test]
fn renders_each_frame_as_its_line() {
    assert_eq!(Frame::Read("k".to_string()).to_string(), "READ k\r\n");
    assert_eq!(Frame::Write("k".to_string(), "v w".to_string()).to_string(), "WRITE k v w\r\n");
    assert_eq!(Frame::Success.to_string(), "OK\r\n");
    assert_eq!(Frame::Value("v".to_string()).to_string(), "VALUE v\r\n");
    assert_eq!(Frame::Error("oops".to_string()).to_string(), "ERR oops\r\n");
    assert_eq!(Frame::RequestVote.to_string(), "REQVOTE\r\n");
    assert_eq!(Frame::Vote("3".to_string()).to_string(), "VOTE 3\r\n");
    assert_eq!(Frame::AddServer("127.0.0.1:9991".to_string()).to_string(), "ADDSERVER 127.0.0.1:9991\r\n");
}

#[test]
fn every_frame_parses_back() {
    let frames = vec![
        Frame::Read("key".to_string()),
        Frame::Write("key".to_string(), "a value".to_string()),
        Frame::Success,
        Frame::Value("v".to_string()),
        Frame::Error("Key not found.".to_string()),
        Frame::RequestVote,
        Frame::Vote("7".to_string()),
        Frame::AddServer("10.0.0.2:9999".to_string()),
    ];
    for f in frames {
        let text = f.to_string();
        let mut pos: usize = 0;
        assert_eq!(Frame::parse(text.as_bytes(), &mut pos), Ok(f));
        assert_eq!(pos, text.len());
    }
}

#[test]
fn get_u8_reads_and_moves() {
    let src = [7u8, 9u8];
    let mut pos: usize = 1;
    assert_eq!(get_u8(&src, &mut pos), Ok(9u8));
    assert_eq!(pos, 2);
    assert_eq!(get_u8(&src, &mut pos), Err(CmdError::Incomplete));
    assert_eq!(pos, 2);
}

#[test]
fn get_line_stops_at_first_terminator() {
    let src = b"Rab\r\ncd\r\n";
    let mut pos: usize = 1;
    assert_eq!(get_line(src, &mut pos), Ok(&b"ab"[..]));
    assert_eq!(pos, 5);
    assert_eq!(get_line(src, &mut pos), Ok(&b"cd"[..]));
    assert_eq!(pos, 9);
    assert_eq!(get_line(src, &mut pos), Err(CmdError::Incomplete));
}

#[test]
fn get_line_without_terminator_is_incomplete() {
    let src = b"Rab\r";
    let mut pos: usize = 1;
    assert_eq!(get_line(src, &mut pos), Err(CmdError::Incomplete));
    assert_eq!(pos, 1);
}

#[test]
fn check_reports_the_frame_end() {
    let src = b"OK\r\nVALUE x\r\n";
    let mut pos: usize = 0;
    assert_eq!(Frame::check(src, &mut pos), Ok(()));
    assert_eq!(pos, 4);
    assert_eq!(Frame::check(src, &mut pos), Ok(()));
    assert_eq!(pos, 13);
}

#[test]
fn check_on_partial_line_is_incomplete() {
    let mut pos: usize = 0;
    assert_eq!(Frame::check(b"READ ke", &mut pos), Err(CmdError::Incomplete));
    let mut pos: usize = 0;
    assert_eq!(Frame::check(b"", &mut pos), Err(CmdError::Incomplete));
}

#[test]
fn check_rejects_unknown_tag() {
    let mut pos: usize = 0;
    assert!(matches!(Frame::check(b"X hello\r\n", &mut pos), Err(CmdError::Other(_))));
    let mut pos: usize = 0;
    assert!(matches!(Frame::check(b"x", &mut pos), Err(CmdError::Other(_))));
}

#[test]
fn parse_accepts_one_letter_tags() {
    assert_eq!(parse_all(b"R k\r\n"), Ok(Frame::Read("k".to_string())));
    assert_eq!(parse_all(b"W k v\r\n"), Ok(Frame::Write("k".to_string(), "v".to_string())));
    assert_eq!(parse_all(b"O\r\n"), Ok(Frame::Success));
    assert_eq!(parse_all(b"V v\r\n"), Ok(Frame::Value("v".to_string())));
    assert_eq!(parse_all(b"G v\r\n"), Ok(Frame::Value("v".to_string())));
    assert_eq!(parse_all(b"E bad\r\n"), Ok(Frame::Error("bad".to_string())));
}

#[test]
fn write_without_value_has_empty_value() {
    assert_eq!(parse_all(b"WRITE k\r\n"), Ok(Frame::Write("k".to_string(), String::new())));
}

#[test]
fn missing_field_is_a_protocol_error() {
    assert!(matches!(parse_all(b"READ\r\n"), Err(CmdError::Other(_))));
    assert!(matches!(parse_all(b"WRITE\r\n"), Err(CmdError::Other(_))));
    assert!(matches!(parse_all(b"VALUE\r\n"), Err(CmdError::Other(_))));
}

#[test]
fn invalid_utf8_field_is_a_protocol_error() {
    assert!(matches!(parse_all(b"READ \xff\xfe\r\n"), Err(CmdError::Other(_))));
    assert!(matches!(parse_all(b"WRITE k \xc3\r\n"), Err(CmdError::Other(_))));
}

#[test]
fn non_ascii_field_decodes() {
    assert_eq!(parse_all("VALUE ünï\r\n".as_bytes()), Ok(Frame::Value("ünï".to_string())));
}

#[test]
fn unknown_tag_is_a_protocol_error() {
    assert!(matches!(parse_all(b"PING\r\n"), Err(CmdError::Other(_))));
}

#[test]
fn non_utf8_tag_word_is_a_protocol_error() {
    let message = "protocol error, invalid format (fromUtf8)".to_string();
    assert_eq!(parse_all(b"R\xff k\r\n"), Err(CmdError::Other(message.clone())));
    assert_eq!(parse_all(b"REQVOTE \xff\r\n"), Err(CmdError::Other(message.clone())));
    assert_eq!(parse_all(b"READ \xff\xfe\r\n"), Err(CmdError::Other(message.clone())));
    assert_eq!(parse_all(b"W\xc3 k v\r\n"), Err(CmdError::Other(message)));
}

#[test]
fn ok_line_is_not_decoded() {
    assert_eq!(parse_all(b"O\xff\r\n"), Ok(Frame::Success));
}

#[test]
fn position_past_the_end_is_incomplete() {
    let src = b"OK\r\n";
    let mut pos: usize = 9;
    assert_eq!(get_line(src, &mut pos), Err(CmdError::Incomplete));
    assert_eq!(pos, 9);
    let mut pos: usize = 9;
    assert_eq!(Frame::check(src, &mut pos), Err(CmdError::Incomplete));
    let mut pos: usize = 9;
    assert_eq!(Frame::parse(src, &mut pos), Err(CmdError::Incomplete));
}
