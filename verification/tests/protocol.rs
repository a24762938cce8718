use queued_build_hook::protocol::{labelled, read_line, write_line, DRV_PATH_ENV, OUT_PATHS_ENV};

#[test]
fn a_written_line_reads_back() {
    let json = "{\"type\":\"pause\"}".to_string();
    let line = write_line(Ok(json.clone())).unwrap();
    assert_eq!(line, "{\"type\":\"pause\"}\n");
    assert_eq!(line.matches('\n').count(), 1);
    assert_eq!(read_line(Ok(line)), Ok(json));
}

#[test]
fn line_ends_are_dropped() {
    assert_eq!(read_line(Ok("{} \r\n".into())), Ok("{}".into()));
    assert_eq!(read_line(Ok(" {}".into())), Ok(" {}".into()));
    assert_eq!(read_line(Ok("\n".into())), Ok("".into()));
}

#[test]
fn end_of_stream_is_an_empty_request() {
    assert_eq!(read_line(Ok(String::new())), Err("empty request".into()));
}

#[test]
fn failures_name_their_step() {
    assert_eq!(read_line(Err("gone".into())), Err("read: gone".into()));
    assert_eq!(write_line(Err("deep".into())), Err("encode: deep".into()));
    assert_eq!(labelled("decode", "eof"), "decode: eof");
}

#[test]
fn env_vars_are_those_of_nix() {
    assert_eq!(DRV_PATH_ENV, "DRV_PATH");
    assert_eq!(OUT_PATHS_ENV, "OUT_PATHS");
}

#[test]
fn messages_in_one_buffer_read_back_in_turn() {
    let messages = ["{\"a\":\"x\\ny\"}", "{}"];
    let mut buffer = String::new();
    for message in messages {
        buffer.push_str(&write_line(Ok(message.to_string())).unwrap());
    }
    let mut unread = buffer.as_bytes();
    for message in messages {
        let mut line = String::new();
        std::io::BufRead::read_line(&mut unread, &mut line).unwrap();
        assert_eq!(read_line(Ok(line)), Ok(message.to_string()));
    }
    assert_eq!(read_line(Ok(String::new())), Err("empty request".into()));
    assert!(unread.is_empty());
}
