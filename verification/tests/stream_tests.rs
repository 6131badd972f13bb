use epkg::libkrun::stream::{
    raw_mode, RawModeBits, TermFlags,
    build_command_request, connect_error, connect_failed, decode_payload, encode_payload,
    react, reverse_line_payload, replies_ended, reply_line_payload, resize_message, resolve_io_mode,
    stdin_chunk, stdin_eof, take_lines, Handler, IoMode, Reaction, StreamMessage,
};

#[test]
fn base64_payloads() {
    assert_eq!(encode_payload(b"hi"), "aGk=");
    assert_eq!(encode_payload(b"abc"), "YWJj");
    assert_eq!(encode_payload(b"a"), "YQ==");
    assert_eq!(encode_payload(b""), "");
    assert_eq!(encode_payload(&[0xff, 0xfe]), "//4=");
    assert_eq!(decode_payload("aGk=").unwrap(), b"hi".to_vec());
    assert_eq!(decode_payload("aGk").err(), Some("Invalid padding".to_string()));
    assert!(decode_payload("aGl=").is_err());
    assert!(decode_payload("a Gk=").is_err());
}

#[test]
fn payloads_round_trip() {
    for data in [&b""[..], b"x", b"xy", b"xyz", b"\x00\x10\xff\x80hello"] {
        assert_eq!(decode_payload(&encode_payload(data)).unwrap(), data.to_vec());
    }
}

#[test]
fn io_modes() {
    assert_eq!(resolve_io_mode(&IoMode::Auto, true, false), (true, false));
    assert_eq!(resolve_io_mode(&IoMode::Auto, false, false), (false, false));
    assert_eq!(resolve_io_mode(&IoMode::Auto, true, true), (false, true));
    assert_eq!(resolve_io_mode(&IoMode::Tty, false, true), (true, false));
    assert_eq!(resolve_io_mode(&IoMode::Stream, true, false), (false, false));
    assert_eq!(resolve_io_mode(&IoMode::Batch, true, false), (false, true));
}

#[test]
fn command_requests() {
    let cmd = vec!["ls".to_string(), "-la".to_string()];
    let env = vec![("PATH".to_string(), "/bin".to_string())];
    let r = build_command_request(&cmd, &IoMode::Batch, false, false, true, Some(60), Some(10), Some(&env[..]), Some("/w"), Some(&b"in"[..]), 7);
    assert_eq!(r.command, cmd);
    assert!(!r.pty && r.batch && r.reuse_vm);
    assert_eq!((r.vm_keep_timeout_secs, r.extend_timeout_secs), (Some(60), Some(10)));
    assert_eq!(r.env, Some(env.clone()));
    assert_eq!(r.cwd, Some("/w".to_string()));
    assert_eq!(r.stdin, Some("aW4=".to_string()));
    assert_eq!(r.host_time, 7);
    let q = build_command_request(&cmd, &IoMode::Tty, false, false, false, Some(60), Some(10), Some(&[][..]), None, Some(&b""[..]), 0);
    assert!(q.pty && !q.batch && !q.reuse_vm);
    assert_eq!((q.vm_keep_timeout_secs, q.extend_timeout_secs), (None, None));
    assert_eq!(q.env, None);
    assert_eq!(q.cwd, None);
    assert_eq!(q.stdin, None);
}

#[test]
fn reply_lines() {
    assert_eq!(reply_line_payload(&Handler::Simple, "  READY \n"), None);
    assert_eq!(reply_line_payload(&Handler::Simple, " \n"), None);
    assert_eq!(reply_line_payload(&Handler::Simple, " {\"type\":\"exit\"} \n"), Some("{\"type\":\"exit\"}".to_string()));
    assert_eq!(reply_line_payload(&Handler::Pty, "READY\n"), Some("READY\n".to_string()));
    assert_eq!(reply_line_payload(&Handler::WindowsStream, "READY\n"), Some("READY".to_string()));
    assert_eq!(reply_line_payload(&Handler::OutputOnly, "READY"), None);
    assert_eq!(reply_line_payload(&Handler::OutputOnly, " READY"), Some(" READY".to_string()));
    assert_eq!(reply_line_payload(&Handler::Reverse, "READY\r\n"), None);
}

fn out(data: &str) -> StreamMessage {
    StreamMessage::Stdout { data: data.to_string(), seq: 0 }
}

#[test]
fn reactions() {
    assert!(matches!(react(&Handler::Simple, &out("aGk=")), Reaction::Stdout(b) if b == b"hi".to_vec()));
    assert!(matches!(react(&Handler::Simple, &StreamMessage::Stderr { data: "aGk=".to_string(), seq: 1 }), Reaction::Stderr(b) if b == b"hi".to_vec()));
    assert!(matches!(react(&Handler::Simple, &out("%%%%")), Reaction::Ignore));
    assert!(matches!(react(&Handler::OutputOnly, &out("%%%%")), Reaction::Fail(m) if m == "Failed to decode stdout: Invalid symbol 37, offset 0."));
    assert!(matches!(react(&Handler::Pty, &StreamMessage::Exit { code: 3 }), Reaction::Exit(3)));
    let err = StreamMessage::Error { message: "bad".to_string() };
    assert!(matches!(react(&Handler::Simple, &err), Reaction::Exit(-1)));
    assert!(matches!(react(&Handler::Reverse, &err), Reaction::Exit(-1)));
    assert!(matches!(react(&Handler::WindowsStream, &err), Reaction::Ignore));
    assert!(matches!(react(&Handler::WindowsBatch, &err), Reaction::Fail(m) if m == "VM error: bad"));
    assert!(matches!(react(&Handler::OutputOnly, &err), Reaction::Fail(m) if m == "VM error: bad"));
    assert!(matches!(react(&Handler::Simple, &StreamMessage::Resize { cols: 1, rows: 2 }), Reaction::Ignore));
}

#[test]
fn end_of_replies() {
    assert_eq!(replies_ended(&Handler::Simple, None), Ok(-1));
    assert_eq!(replies_ended(&Handler::Pty, None), Ok(-1));
    assert_eq!(replies_ended(&Handler::WindowsBatch, None), Ok(0));
    assert_eq!(replies_ended(&Handler::OutputOnly, Some(4)), Ok(4));
    assert_eq!(replies_ended(&Handler::Reverse, Some(2)), Ok(2));
    assert_eq!(
        replies_ended(&Handler::Reverse, None),
        Err("VM connection closed prematurely - command may not have executed".to_string())
    );
}

#[test]
fn stdin_forwarding() {
    let (m, next) = stdin_chunk(b"ab", 4);
    assert!(matches!(m, StreamMessage::Stdin { ref data, seq: 4 } if data == "YWI="));
    assert_eq!(next, 5);
    assert!(matches!(stdin_eof(5), StreamMessage::StdinEof { seq: 5 }));
    assert!(matches!(resize_message(80, 24), StreamMessage::Resize { cols: 80, rows: 24 }));
}

#[test]
fn reverse_lines() {
    let mut pending = vec![1u8];
    let lines = take_lines(&mut pending, b"a\nbc\n d");
    assert_eq!(lines, vec![vec![1u8, b'a', b'\n'], b"bc\n".to_vec()]);
    assert_eq!(pending, b" d".to_vec());
    let more = take_lines(&mut pending, b"\n");
    assert_eq!(more, vec![b" d\n".to_vec()]);
    assert!(pending.is_empty());
    let none = take_lines(&mut pending, b"");
    assert!(none.is_empty());
    assert_eq!(reverse_line_payload(&[0xff, b'a', b'\n']), Some("\u{FFFD}a".to_string()));
    assert_eq!(reverse_line_payload(b" ok\n"), Some("ok".to_string()));
    assert_eq!(reverse_line_payload(b"READY\n"), None);
}

#[test]
fn reassembly_keeps_every_byte() {
    let mut pending = b"xy".to_vec();
    let data = b"1\n22\n\n333";
    let lines = take_lines(&mut pending, data);
    let mut all: Vec<u8> = lines.concat();
    all.extend_from_slice(&pending);
    assert_eq!(all, b"xy1\n22\n\n333".to_vec());
    assert!(lines.iter().all(|l| l.last() == Some(&b'\n')));
}

#[test]
fn connecting() {
    assert_eq!(connect_failed(0), (1, false));
    assert_eq!(connect_failed(29), (30, true));
    assert_eq!(connect_error("/s.sock", "refused"), "Failed to connect to Unix socket /s.sock after 30 retries: refused");
}

#[test]
fn raw_terminal_mode() {
    let t = TermFlags { iflag: 0b1111, oflag: 0b11, cflag: 0b1010, lflag: 0b1111_0000 };
    let bits = RawModeBits { input_off: 0b0101, output_off: 0b01, local_off: 0b0011_0000, control_off: 0b1000, control_on: 0b0001 };
    let r = raw_mode(&t, &bits);
    assert_eq!((r.iflag, r.oflag, r.cflag, r.lflag), (0b1010, 0b10, 0b0011, 0b1100_0000));
}
