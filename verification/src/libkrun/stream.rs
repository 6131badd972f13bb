//! The command bridge to a VM: the request the host sends, and the line protocol of the
//! replies (JSON messages, one per line, with base64 payloads).
//!
//! Sockets, pipes, terminals, threads and JSON parsing belong to the caller; this module
//! decides what each line and each message means and what to send.
use vstd::prelude::*;
use crate::text::{chars_of, string_from_chars, push_str, trim, trim_chars};
use base64::Engine;

verus! {

// ---------------------------------------------------------------------------
// Base64 (the STANDARD engine of the `base64` crate: padded, canonical)
// ---------------------------------------------------------------------------

/// The character for a 6-bit value in the standard alphabet.
pub open spec fn b64_char(v: int) -> char {
    if v < 26 {
        (65 + v) as char
    } else if v < 52 {
        (97 + v - 26) as char
    } else if v < 62 {
        (48 + v - 52) as char
    } else if v == 62 {
        '+'
    } else {
        '/'
    }
}

/// Standard base64 with `=` padding: every three bytes give four characters.
pub open spec fn b64_encode(b: Seq<u8>) -> Seq<char>
    decreases b.len(),
{
    if b.len() == 0 {
        seq![]
    } else if b.len() == 1 {
        seq![b64_char(b[0] as int / 4), b64_char((b[0] % 4) * 16), '=', '=']
    } else if b.len() == 2 {
        seq![
            b64_char(b[0] as int / 4),
            b64_char((b[0] % 4) * 16 + b[1] / 16),
            b64_char((b[1] % 16) * 4),
            '=',
        ]
    } else {
        seq![
            b64_char(b[0] as int / 4),
            b64_char((b[0] % 4) * 16 + b[1] / 16),
            b64_char((b[1] % 16) * 4 + b[2] / 64),
            b64_char(b[2] as int % 64),
        ] + b64_encode(b.skip(3))
    }
}

/// The message of `base64::DecodeError` for an input that does not decode.
pub uninterp spec fn b64_decode_error(s: Seq<char>) -> Seq<char>;

/// `STANDARD.encode(data)` of the `base64` crate: padded standard base64.
#[verifier::external_body]
fn base64_encode(data: &[u8]) -> (s: String)
    requires
        data@.len() <= usize::MAX / 2,
    ensures
        s@ == b64_encode(data@),
{
    base64::engine::general_purpose::STANDARD.encode(data)
}

/// `STANDARD.decode(data)` of the `base64` crate. The engine requires canonical padding
/// and no trailing bits, so it accepts exactly the encodings of byte strings; a
/// failure is converted to the error's message, which is a function of the input.
#[verifier::external_body]
fn base64_decode(data: &str) -> (r: Result<Vec<u8>, String>)
    ensures
        match r {
            Ok(b) => data@ == b64_encode(b@),
            Err(m) => (forall|b: Seq<u8>| data@ != #[trigger] b64_encode(b)) && m@
                == b64_decode_error(data@),
        },
{
    match base64::engine::general_purpose::STANDARD.decode(data) {
        Ok(b) => Ok(b),
        Err(e) => Err(e.to_string()),
    }
}

/// Encodes a payload for the wire.
pub fn encode_payload(data: &[u8]) -> (s: String)
    requires
        data@.len() <= usize::MAX / 2,
    ensures
        s@ == b64_encode(data@),
{
    base64_encode(data)
}

/// Decodes a payload from the wire: the bytes whose encoding it is, or the decoder's
/// message when it is no encoding.
pub fn decode_payload(data: &str) -> (r: Result<Vec<u8>, String>)
    ensures
        match r {
            Ok(b) => data@ == b64_encode(b@),
            Err(m) => (forall|b: Seq<u8>| data@ != #[trigger] b64_encode(b)) && m@
                == b64_decode_error(data@),
        },
{
    base64_decode(data)
}

// ---------------------------------------------------------------------------
// I/O modes and the command request
// ---------------------------------------------------------------------------

/// How the command's standard streams are connected.
pub enum IoMode {
    /// A terminal when standard input is one (batch on Windows).
    Auto,
    Tty,
    Stream,
    Batch,
}

/// Whether the session uses a pseudo-terminal, and whether it runs in batch mode:
/// `Auto` means a terminal when standard input is one, except on Windows, where it is
/// batch mode.
pub open spec fn io_flags(mode: IoMode, stdin_is_tty: bool, windows: bool) -> (bool, bool) {
    match mode {
        IoMode::Auto => if windows {
            (false, true)
        } else {
            (stdin_is_tty, false)
        },
        IoMode::Tty => (true, false),
        IoMode::Stream => (false, false),
        IoMode::Batch => (false, true),
    }
}

/// Resolves the I/O mode ([`io_flags`]); `stdin_is_tty` is asked of the host only in
/// `Auto` mode off Windows.
pub fn resolve_io_mode(io_mode: &IoMode, stdin_is_tty: bool, windows: bool) -> (r: (bool, bool))
    ensures
        r == io_flags(*io_mode, stdin_is_tty, windows),
{
    match io_mode {
        IoMode::Auto => if windows {
            (false, true)
        } else {
            (stdin_is_tty, false)
        },
        IoMode::Tty => (true, false),
        IoMode::Stream => (false, false),
        IoMode::Batch => (false, true),
    }
}

/// The request the host sends to the guest.
pub struct CommandRequest {
    pub command: Vec<String>,
    pub pty: bool,
    /// Present (as `true`) only in batch mode.
    pub batch: bool,
    /// Present (as `true`) only when the VM is reused.
    pub reuse_vm: bool,
    pub vm_keep_timeout_secs: Option<u32>,
    pub extend_timeout_secs: Option<u32>,
    /// The environment, present only when not empty.
    pub env: Option<Vec<(String, String)>>,
    pub cwd: Option<String>,
    /// Standard input for the command, base64-encoded, present only when not empty.
    pub stdin: Option<String>,
    /// The host's clock in nanoseconds since the epoch.
    pub host_time: u64,
}

fn copy_strings(v: &[String]) -> (r: Vec<String>)
    ensures
        r@ == v@,
{
    let mut r: Vec<String> = Vec::new();
    let mut i: usize = 0;
    while i < v.len()
        invariant
            i <= v@.len(),
            r@ == v@.take(i as int),
        decreases v@.len() - i,
    {
        let s = v[i].clone();
        assert(s == v@[i as int]);
        r.push(s);
        i = i + 1;
        assert(r@ =~= v@.take(i as int));
    }
    assert(v@.take(i as int) =~= v@);
    r
}

fn copy_pairs(v: &[(String, String)]) -> (r: Vec<(String, String)>)
    ensures
        r@ == v@,
{
    let mut r: Vec<(String, String)> = Vec::new();
    let mut i: usize = 0;
    while i < v.len()
        invariant
            i <= v@.len(),
            r@ == v@.take(i as int),
        decreases v@.len() - i,
    {
        let a = v[i].0.clone();
        let b = v[i].1.clone();
        assert(a == v@[i as int].0 && b == v@[i as int].1);
        r.push((a, b));
        i = i + 1;
        assert(r@ =~= v@.take(i as int));
    }
    assert(v@.take(i as int) =~= v@);
    r
}

/// Builds the request: the command, the terminal and batch flags of the I/O mode, the
/// timeouts only when the VM is reused, the environment only when not empty, and
/// standard input base64-encoded only when not empty.
pub fn build_command_request(
    cmd_parts: &[String],
    io_mode: &IoMode,
    stdin_is_tty: bool,
    windows: bool,
    reuse_vm: bool,
    vm_keep_timeout_secs: Option<u32>,
    extend_timeout_secs: Option<u32>,
    env_vars: Option<&[(String, String)]>,
    cwd: Option<&str>,
    stdin: Option<&[u8]>,
    host_time_ns: u64,
) -> (r: CommandRequest)
    requires
        match stdin {
            Some(d) => d@.len() <= usize::MAX / 2,
            None => true,
        },
    ensures
        r.command@ == cmd_parts@,
        (r.pty, r.batch) == io_flags(*io_mode, stdin_is_tty, windows),
        r.reuse_vm == reuse_vm,
        r.vm_keep_timeout_secs == (if reuse_vm {
            vm_keep_timeout_secs
        } else {
            None
        }),
        r.extend_timeout_secs == (if reuse_vm {
            extend_timeout_secs
        } else {
            None
        }),
        match env_vars {
            Some(e) => if e@.len() > 0 {
                r.env matches Some(v) && v@ == e@
            } else {
                r.env is None
            },
            None => r.env is None,
        },
        match cwd {
            Some(d) => r.cwd matches Some(c) && c@ == d@,
            None => r.cwd is None,
        },
        match stdin {
            Some(d) => if d@.len() > 0 {
                r.stdin matches Some(s) && s@ == b64_encode(d@)
            } else {
                r.stdin is None
            },
            None => r.stdin is None,
        },
        r.host_time == host_time_ns,
{
    let (pty, batch) = resolve_io_mode(io_mode, stdin_is_tty, windows);
    let command = copy_strings(cmd_parts);
    let env = match env_vars {
        Some(e) => if e.len() > 0 {
            Some(copy_pairs(e))
        } else {
            None
        },
        None => None,
    };
    let encoded = match stdin {
        Some(d) => if d.len() > 0 {
            Some(base64_encode(d))
        } else {
            None
        },
        None => None,
    };
    CommandRequest {
        command,
        pty,
        batch,
        reuse_vm,
        vm_keep_timeout_secs: if reuse_vm {
            vm_keep_timeout_secs
        } else {
            None
        },
        extend_timeout_secs: if reuse_vm {
            extend_timeout_secs
        } else {
            None
        },
        env,
        cwd: match cwd {
            Some(d) => Some(d.to_owned()),
            None => None,
        },
        stdin: encoded,
        host_time: host_time_ns,
    }
}

// ---------------------------------------------------------------------------
// Stream messages
// ---------------------------------------------------------------------------

/// A message of the streaming protocol.
pub enum StreamMessage {
    Stdin { data: String, seq: u64 },
    StdinEof { seq: u64 },
    Stdout { data: String, seq: u64 },
    Stderr { data: String, seq: u64 },
    Resize { cols: u16, rows: u16 },
    Exit { code: i32 },
    Signal { sig: i32 },
    Error { message: String },
}

/// Which reply handler reads the guest's messages.
pub enum Handler {
    /// Unix, without a terminal (stream or batch mode).
    Simple,
    /// Unix, with a terminal: lines are parsed untrimmed.
    Pty,
    /// Windows, forwarding standard input: guest errors are not final.
    WindowsStream,
    /// Windows batch mode: a guest error fails the command.
    WindowsBatch,
    /// Output only (reverse connections in batch mode): a payload that does not decode or a
    /// guest error fails the command.
    OutputOnly,
    /// Reverse connections forwarding standard input.
    Reverse,
}

/// The text of a reply line to parse as a message, or `None` to skip the line. Blank
/// lines are skipped by every handler, and the `READY` handshake by all but the
/// terminal and Windows streaming handlers (where it does not parse anyway).
pub open spec fn line_payload(h: Handler, line: Seq<char>) -> Option<Seq<char>> {
    match h {
        Handler::Pty => Some(line),
        Handler::WindowsStream => if trim(line).len() == 0 {
            None
        } else {
            Some(trim(line))
        },
        Handler::OutputOnly => if trim(line).len() == 0 || line == "READY"@ {
            None
        } else {
            Some(line)
        },
        _ => if trim(line).len() == 0 || trim(line) == "READY"@ {
            None
        } else {
            Some(trim(line))
        },
    }
}

fn is_ready(v: &Vec<char>) -> (b: bool)
    ensures
        b == (v@ == "READY"@),
{
    let r = chars_of("READY");
    if v.len() != r.len() {
        return false;
    }
    let mut i: usize = 0;
    while i < v.len()
        invariant
            i <= v@.len(),
            v@.len() == r@.len(),
            r@ == "READY"@,
            forall|j: int| 0 <= j < i ==> v@[j] == r@[j],
        decreases v@.len() - i,
    {
        if v[i] != r[i] {
            assert(v@[i as int] != r@[i as int]);
            return false;
        }
        i = i + 1;
    }
    assert(v@ =~= r@);
    true
}

/// The text of a reply line to parse ([`line_payload`]).
pub fn reply_line_payload(handler: &Handler, line: &str) -> (r: Option<String>)
    ensures
        match r {
            Some(s) => line_payload(*handler, line@) == Some(s@),
            None => line_payload(*handler, line@) is None,
        },
{
    let v = chars_of(line);
    let t = trim_chars(&v);
    match handler {
        Handler::Pty => Some(line.to_owned()),
        Handler::WindowsStream => if t.len() == 0 {
            None
        } else {
            Some(string_from_chars(&t))
        },
        Handler::OutputOnly => if t.len() == 0 || is_ready(&v) {
            None
        } else {
            Some(line.to_owned())
        },
        _ => if t.len() == 0 || is_ready(&t) {
            None
        } else {
            Some(string_from_chars(&t))
        },
    }
}

/// What the host does with a message from the guest.
pub enum Reaction {
    /// Write these bytes to standard output.
    Stdout(Vec<u8>),
    /// Write these bytes to standard error.
    Stderr(Vec<u8>),
    /// The command finished with this exit code.
    Exit(i32),
    /// The command failed with this message.
    Fail(String),
    /// Nothing.
    Ignore,
}

/// The spec view of a reaction.
pub enum SpecReaction {
    Stdout(Seq<u8>),
    Stderr(Seq<u8>),
    Exit(i32),
    Fail(Seq<char>),
    Ignore,
}

impl View for Reaction {
    type V = SpecReaction;

    open spec fn view(&self) -> SpecReaction {
        match self {
            Reaction::Stdout(b) => SpecReaction::Stdout(b@),
            Reaction::Stderr(b) => SpecReaction::Stderr(b@),
            Reaction::Exit(c) => SpecReaction::Exit(*c),
            Reaction::Fail(m) => SpecReaction::Fail(m@),
            Reaction::Ignore => SpecReaction::Ignore,
        }
    }
}

/// Whether `data` is the encoding of `bytes`.
pub open spec fn decodes_to(data: Seq<char>, bytes: Seq<u8>) -> bool {
    data == b64_encode(bytes)
}

/// Whether `data` decodes at all.
pub open spec fn decodes(data: Seq<char>) -> bool {
    exists|b: Seq<u8>| #[trigger] b64_encode(b) == data
}

/// How a handler reacts to a message: output payloads are decoded and written (a payload
/// that does not decode is dropped, or fails the output-only handler); `Exit` ends with
/// its code; `Error` ends with code -1, fails the Windows batch and output-only handlers,
/// and is ignored by the Windows streaming handler; other messages are ignored.
pub open spec fn reaction_ok(h: Handler, msg: StreamMessage, r: SpecReaction) -> bool {
    match msg {
        StreamMessage::Stdout { data, .. } => if decodes(data@) {
            r matches SpecReaction::Stdout(b) && decodes_to(data@, b)
        } else if h is OutputOnly {
            r matches SpecReaction::Fail(m) && m == "Failed to decode stdout: "@ + b64_decode_error(
                data@,
            )
        } else {
            r is Ignore
        },
        StreamMessage::Stderr { data, .. } => if decodes(data@) {
            r matches SpecReaction::Stderr(b) && decodes_to(data@, b)
        } else if h is OutputOnly {
            r matches SpecReaction::Fail(m) && m == "Failed to decode stderr: "@ + b64_decode_error(
                data@,
            )
        } else {
            r is Ignore
        },
        StreamMessage::Exit { code } => r == SpecReaction::Exit(code),
        StreamMessage::Error { message } => match h {
            Handler::WindowsStream => r is Ignore,
            Handler::WindowsBatch => r == SpecReaction::Fail("VM error: "@ + message@),
            Handler::OutputOnly => r == SpecReaction::Fail("VM error: "@ + message@),
            _ => r == SpecReaction::Exit(-1i32),
        },
        _ => r is Ignore,
    }
}

fn prefixed(prefix: &str, rest: &str) -> (s: String)
    ensures
        s@ == prefix@ + rest@,
{
    let mut v = chars_of(prefix);
    push_str(&mut v, rest);
    string_from_chars(&v)
}

/// How the handler reacts to a message ([`reaction_ok`]).
pub fn react(handler: &Handler, msg: &StreamMessage) -> (r: Reaction)
    ensures
        reaction_ok(*handler, *msg, r@),
{
    match msg {
        StreamMessage::Stdout { data, .. } => match base64_decode(data.as_str()) {
            Ok(b) => {
                assert(b64_encode(b@) == data@);
                Reaction::Stdout(b)
            },
            Err(e) => match handler {
                Handler::OutputOnly => Reaction::Fail(prefixed("Failed to decode stdout: ", e.as_str())),
                _ => Reaction::Ignore,
            },
        },
        StreamMessage::Stderr { data, .. } => match base64_decode(data.as_str()) {
            Ok(b) => {
                assert(b64_encode(b@) == data@);
                Reaction::Stderr(b)
            },
            Err(e) => match handler {
                Handler::OutputOnly => Reaction::Fail(prefixed("Failed to decode stderr: ", e.as_str())),
                _ => Reaction::Ignore,
            },
        },
        StreamMessage::Exit { code } => Reaction::Exit(*code),
        StreamMessage::Error { message } => match handler {
            Handler::WindowsStream => Reaction::Ignore,
            Handler::WindowsBatch => Reaction::Fail(prefixed("VM error: ", message.as_str())),
            Handler::OutputOnly => Reaction::Fail(prefixed("VM error: ", message.as_str())),
            _ => Reaction::Exit(-1),
        },
        _ => Reaction::Ignore,
    }
}

/// The outcome once the guest's replies end (end of stream or a read error) with the
/// exit code seen so far: the Unix handlers report -1 when none was seen, the Windows
/// and output-only handlers 0, and a reverse connection that closes before any exit
/// message is an error.
pub open spec fn end_of_replies(h: Handler, exit: Option<i32>) -> Result<i32, Seq<char>> {
    match exit {
        Some(c) => Ok(c),
        None => match h {
            Handler::Simple => Ok(-1i32),
            Handler::Pty => Ok(-1i32),
            Handler::Reverse => Err(
                "VM connection closed prematurely - command may not have executed"@,
            ),
            _ => Ok(0i32),
        },
    }
}

/// The outcome once the replies end ([`end_of_replies`]).
pub fn replies_ended(handler: &Handler, exit: Option<i32>) -> (r: Result<i32, String>)
    ensures
        match r {
            Ok(c) => end_of_replies(*handler, exit) == Ok::<i32, Seq<char>>(c),
            Err(m) => end_of_replies(*handler, exit) == Err::<i32, Seq<char>>(m@),
        },
{
    match exit {
        Some(c) => Ok(c),
        None => match handler {
            Handler::Simple => Ok(-1),
            Handler::Pty => Ok(-1),
            Handler::Reverse => Err(
                "VM connection closed prematurely - command may not have executed".to_owned(),
            ),
            _ => Ok(0),
        },
    }
}

// ---------------------------------------------------------------------------
// Forwarding standard input
// ---------------------------------------------------------------------------

/// The message carrying a chunk of standard input, and the next sequence number.
pub fn stdin_chunk(data: &[u8], seq: u64) -> (r: (StreamMessage, u64))
    requires
        seq < u64::MAX,
        data@.len() <= usize::MAX / 2,
    ensures
        r.0 matches StreamMessage::Stdin { data: d, seq: s } && d@ == b64_encode(data@) && s == seq,
        r.1 == seq + 1,
{
    (StreamMessage::Stdin { data: base64_encode(data), seq }, seq + 1)
}

/// The message closing the guest's standard input.
pub fn stdin_eof(seq: u64) -> (m: StreamMessage)
    ensures
        m matches StreamMessage::StdinEof { seq: s } && s == seq,
{
    StreamMessage::StdinEof { seq }
}

/// The message announcing a new terminal size.
pub fn resize_message(cols: u16, rows: u16) -> (m: StreamMessage)
    ensures
        m matches StreamMessage::Resize { cols: c, rows: r } && c == cols && r == rows,
{
    StreamMessage::Resize { cols, rows }
}

// ---------------------------------------------------------------------------
// Reassembling lines on a reverse connection
// ---------------------------------------------------------------------------

/// Appends `data` to the pending bytes; every completed line (ending in `\n`, which it
/// keeps) is taken out in order, and the bytes after the last `\n` stay pending.
pub open spec fn split_lines(pending: Seq<u8>, data: Seq<u8>) -> (Seq<Seq<u8>>, Seq<u8>)
    decreases data.len(),
{
    if data.len() == 0 {
        (seq![], pending)
    } else {
        let p = pending.push(data[0]);
        if data[0] == 10 {
            let r = split_lines(seq![], data.drop_first());
            (seq![p] + r.0, r.1)
        } else {
            split_lines(p, data.drop_first())
        }
    }
}

/// The views of a list of byte vectors.
pub open spec fn byte_views(v: Seq<Vec<u8>>) -> Seq<Seq<u8>> {
    Seq::new(v.len(), |i: int| v[i]@)
}

/// Takes the completed lines out of `pending` after appending `data` ([`split_lines`]).
pub fn take_lines(pending: &mut Vec<u8>, data: &[u8]) -> (lines: Vec<Vec<u8>>)
    ensures
        (byte_views(lines@), final(pending)@) == split_lines(old(pending)@, data@),
{
    let mut lines: Vec<Vec<u8>> = Vec::new();
    let mut i: usize = 0;
    assert(data@.skip(0) =~= data@);
    while i < data.len()
        invariant
            i <= data@.len(),
            byte_views(lines@) + split_lines(pending@, data@.skip(i as int)).0 == split_lines(
                old(pending)@,
                data@,
            ).0,
            split_lines(pending@, data@.skip(i as int)).1 == split_lines(old(pending)@, data@).1,
        decreases data@.len() - i,
    {
        let ghost rest = data@.skip(i as int);
        let ghost before = byte_views(lines@);
        assert(rest.drop_first() =~= data@.skip(i + 1));
        let b = data[i];
        pending.push(b);
        if b == 10 {
            let mut line: Vec<u8> = Vec::new();
            std::mem::swap(&mut line, pending);
            lines.push(line);
            proof {
                assert(pending@ =~= Seq::<u8>::empty());
                assert(byte_views(lines@) =~= before.push(line@));
                let r = split_lines(Seq::<u8>::empty(), data@.skip(i + 1));
                assert(before.push(line@) + r.0 =~= before + (seq![line@] + r.0));
            }
        }
        i = i + 1;
    }
    assert(data@.skip(i as int) =~= Seq::<u8>::empty());
    assert(byte_views(lines@) + Seq::<Seq<u8>>::empty() =~= byte_views(lines@));
    lines
}

/// `String::from_utf8_lossy`: the text of a byte string, each invalid sequence replaced
/// by U+FFFD.
pub uninterp spec fn utf8_lossy(b: Seq<u8>) -> Seq<char>;

/// `String::from_utf8_lossy` on a received line; the contract names the result without
/// stating UTF-8 decoding.
#[verifier::external_body]
fn line_text(line: &[u8]) -> (s: String)
    ensures
        s@ == utf8_lossy(line@),
{
    String::from_utf8_lossy(line).into_owned()
}

/// The text to parse from a line received on a reverse connection: the line decoded as
/// UTF-8 (invalid sequences replaced), then as [`line_payload`] says for that handler.
pub fn reverse_line_payload(line: &[u8]) -> (r: Option<String>)
    ensures
        match r {
            Some(s) => line_payload(Handler::Reverse, utf8_lossy(line@)) == Some(s@),
            None => line_payload(Handler::Reverse, utf8_lossy(line@)) is None,
        },
{
    let text = line_text(line);
    reply_line_payload(&Handler::Reverse, text.as_str())
}

// ---------------------------------------------------------------------------
// Connecting
// ---------------------------------------------------------------------------

/// How many times the host tries to connect to the guest's socket.
pub open spec fn connect_attempts() -> u32 {
    30
}

/// After a failed connection attempt: the number of failures so far, and whether to give
/// up (after 30) rather than wait and retry.
pub fn connect_failed(failures: u32) -> (r: (u32, bool))
    requires
        failures < connect_attempts(),
    ensures
        r.0 == failures + 1,
        r.1 == (failures + 1 >= connect_attempts()),
{
    let n = failures + 1;
    (n, n >= 30)
}

/// The message when the socket could not be reached.
pub fn connect_error(sock_path: &str, last_error: &str) -> (m: String)
    ensures
        m@ == "Failed to connect to Unix socket "@ + sock_path@ + " after 30 retries: "@
            + last_error@,
{
    let mut v = chars_of("Failed to connect to Unix socket ");
    push_str(&mut v, sock_path);
    push_str(&mut v, " after 30 retries: ");
    push_str(&mut v, last_error);
    string_from_chars(&v)
}


// ---------------------------------------------------------------------------
// Raw terminal mode
// ---------------------------------------------------------------------------

/// The four flag words of a terminal's settings.
pub struct TermFlags {
    pub iflag: u64,
    pub oflag: u64,
    pub cflag: u64,
    pub lflag: u64,
}

/// The platform's flag bits that raw mode touches.
pub struct RawModeBits {
    /// `IGNBRK | BRKINT | PARMRK | ISTRIP | INLCR | IGNCR | ICRNL | IXON`.
    pub input_off: u64,
    /// `OPOST`.
    pub output_off: u64,
    /// `ECHO | ECHONL | ICANON | ISIG | IEXTEN`.
    pub local_off: u64,
    /// `CSIZE | PARENB`.
    pub control_off: u64,
    /// `CS8`.
    pub control_on: u64,
}

/// Raw mode (as `cfmakeraw`): input processing, output processing, echo, canonical mode
/// and signals off; 8-bit characters without parity.
pub fn raw_mode(t: &TermFlags, bits: &RawModeBits) -> (r: TermFlags)
    ensures
        r.iflag == t.iflag & !bits.input_off,
        r.oflag == t.oflag & !bits.output_off,
        r.lflag == t.lflag & !bits.local_off,
        r.cflag == (t.cflag & !bits.control_off) | bits.control_on,
{
    TermFlags {
        iflag: t.iflag & !bits.input_off,
        oflag: t.oflag & !bits.output_off,
        cflag: (t.cflag & !bits.control_off) | bits.control_on,
        lflag: t.lflag & !bits.local_off,
    }
}

// ---------------------------------------------------------------------------
// Laws
// ---------------------------------------------------------------------------

/// The bytes of a list of lines, in order.
pub open spec fn concat_lines(lines: Seq<Seq<u8>>) -> Seq<u8>
    decreases lines.len(),
{
    if lines.len() == 0 {
        seq![]
    } else {
        lines[0] + concat_lines(lines.drop_first())
    }
}

/// Reassembling lines loses and reorders nothing: the lines taken out, followed by the
/// bytes left pending, are the pending bytes followed by the new data; every line taken
/// out ends with `\n`.
pub proof fn lemma_split_lines_keeps_bytes(pending: Seq<u8>, data: Seq<u8>)
    ensures
        concat_lines(split_lines(pending, data).0) + split_lines(pending, data).1 == pending + data,
        forall|i: int|
            0 <= i < split_lines(pending, data).0.len() ==> (#[trigger] split_lines(
                pending,
                data,
            ).0[i]).len() > 0 && split_lines(pending, data).0[i].last() == 10,
{
    lemma_split_lines_bytes(pending, data);
    lemma_split_lines_newlines(pending, data);
}

proof fn lemma_line_then_rest(p: Seq<u8>, lines: Seq<Seq<u8>>, left: Seq<u8>, rest: Seq<u8>)
    requires
        concat_lines(lines) + left == rest,
    ensures
        concat_lines(seq![p] + lines) + left == p + rest,
{
    assert((seq![p] + lines).drop_first() =~= lines);
    assert(concat_lines(seq![p] + lines) == p + concat_lines(lines));
    assert(p + concat_lines(lines) + left =~= p + (concat_lines(lines) + left));
}

proof fn lemma_split_lines_bytes(pending: Seq<u8>, data: Seq<u8>)
    ensures
        concat_lines(split_lines(pending, data).0) + split_lines(pending, data).1 == pending + data,
    decreases data.len(),
{
    if data.len() == 0 {
        assert(pending + data =~= pending);
    } else {
        let p = pending.push(data[0]);
        assert(p + data.drop_first() =~= pending + data);
        if data[0] == 10 {
            lemma_split_lines_bytes(seq![], data.drop_first());
            let r = split_lines(seq![], data.drop_first());
            assert(Seq::<u8>::empty() + data.drop_first() =~= data.drop_first());
            lemma_line_then_rest(p, r.0, r.1, data.drop_first());
        } else {
            lemma_split_lines_bytes(p, data.drop_first());
        }
    }
}

proof fn lemma_split_lines_newlines(pending: Seq<u8>, data: Seq<u8>)
    ensures
        forall|i: int|
            0 <= i < split_lines(pending, data).0.len() ==> (#[trigger] split_lines(
                pending,
                data,
            ).0[i]).len() > 0 && split_lines(pending, data).0[i].last() == 10,
    decreases data.len(),
{
    if data.len() > 0 {
        let p = pending.push(data[0]);
        if data[0] == 10 {
            lemma_split_lines_newlines(seq![], data.drop_first());
            let r = split_lines(seq![], data.drop_first());
            let all = seq![p] + r.0;
            assert(split_lines(pending, data).0 == all);
            assert forall|i: int| 0 <= i < all.len() implies (#[trigger] all[i]).len() > 0
                && all[i].last() == 10 by {
                if i > 0 {
                    assert(all[i] == r.0[i - 1]);
                } else {
                    assert(all[0] == p);
                    assert(p.last() == data[0]);
                }
            }
        } else {
            lemma_split_lines_newlines(p, data.drop_first());
            assert(split_lines(pending, data) == split_lines(p, data.drop_first()));
        }
    }
}

proof fn lemma_b64_char(u: int, v: int)
    requires
        0 <= u < 64,
        0 <= v < 64,
    ensures
        b64_char(u) != '=',
        b64_char(u) == b64_char(v) ==> u == v,
{
}

proof fn lemma_sextets(x0: u8, x1: u8, x2: u8, y0: u8, y1: u8, y2: u8)
    requires
        x0 / 4 == y0 / 4,
        (x0 % 4) * 16 + x1 / 16 == (y0 % 4) * 16 + y1 / 16,
        (x1 % 16) * 4 + x2 / 64 == (y1 % 16) * 4 + y2 / 64,
        x2 % 64 == y2 % 64,
    ensures
        x0 == y0,
        x1 == y1,
        x2 == y2,
{
}

proof fn lemma_b64_len(b: Seq<u8>)
    ensures
        b.len() == 0 <==> b64_encode(b).len() == 0,
        b.len() > 0 ==> b64_encode(b).len() >= 4,
    decreases b.len(),
{
    if b.len() >= 3 {
        lemma_b64_len(b.skip(3));
    }
}

/// Base64 encoding is injective: different byte strings never share an encoding, so a
/// payload decodes to exactly the bytes that were encoded.
pub proof fn lemma_b64_injective(a: Seq<u8>, b: Seq<u8>)
    requires
        b64_encode(a) == b64_encode(b),
    ensures
        a == b,
    decreases a.len(),
{
    let e = b64_encode(a);
    lemma_b64_len(a);
    lemma_b64_len(b);
    if a.len() == 0 {
        assert(b.len() == 0);
        assert(a =~= b);
    } else {
        assert(b.len() > 0);
        let a0 = a[0] as int;
        let b0 = b[0] as int;
        lemma_b64_char(a0 / 4, b0 / 4);
        if a.len() == 1 {
            if b.len() == 1 {
                lemma_b64_char((a0 % 4) * 16, (b0 % 4) * 16);
                assert(a =~= b);
            } else if b.len() == 2 {
                lemma_b64_char((b[1] as int % 16) * 4, 0);
                assert(e[2] == '=');
            } else {
                lemma_b64_char(b[2] as int % 64, 0);
                assert(e[3] == '=');
            }
        } else if a.len() == 2 {
            if b.len() == 1 {
                lemma_b64_char((a[1] as int % 16) * 4, 0);
                assert(e[2] != '=');
            } else if b.len() == 2 {
                lemma_b64_char((a0 % 4) * 16 + a[1] as int / 16, (b0 % 4) * 16 + b[1] as int / 16);
                lemma_b64_char((a[1] as int % 16) * 4, (b[1] as int % 16) * 4);
                lemma_sextets(a[0], a[1], 0, b[0], b[1], 0);
                assert(a =~= b);
            } else {
                lemma_b64_char(b[2] as int % 64, 0);
                assert(e[3] == '=');
            }
        } else {
            if b.len() == 1 {
                lemma_b64_char(a[2] as int % 64, 0);
                assert(e[3] != '=');
            } else if b.len() == 2 {
                lemma_b64_char(a[2] as int % 64, 0);
                assert(e[3] != '=');
            } else {
                lemma_b64_char((a0 % 4) * 16 + a[1] as int / 16, (b0 % 4) * 16 + b[1] as int / 16);
                lemma_b64_char(
                    (a[1] as int % 16) * 4 + a[2] as int / 64,
                    (b[1] as int % 16) * 4 + b[2] as int / 64,
                );
                lemma_b64_char(a[2] as int % 64, b[2] as int % 64);
                assert(e[0] == b64_char(a0 / 4) && e[0] == b64_char(b0 / 4));
                assert(e[1] == b64_char((a0 % 4) * 16 + a[1] as int / 16));
                assert(e[1] == b64_char((b0 % 4) * 16 + b[1] as int / 16));
                assert(e[2] == b64_char((a[1] as int % 16) * 4 + a[2] as int / 64));
                assert(e[2] == b64_char((b[1] as int % 16) * 4 + b[2] as int / 64));
                assert(e[3] == b64_char(a[2] as int % 64) && e[3] == b64_char(b[2] as int % 64));
                lemma_sextets(a[0], a[1], a[2], b[0], b[1], b[2]);
                assert(e.skip(4) == b64_encode(a.skip(3)));
                assert(e.skip(4) == b64_encode(b.skip(3)));
                lemma_b64_injective(a.skip(3), b.skip(3));
                assert(a =~= seq![a[0], a[1], a[2]] + a.skip(3));
                assert(b =~= seq![b[0], b[1], b[2]] + b.skip(3));
            }
        }
    }
}

/// A payload encoded for the wire decodes, and only to the bytes that were encoded.
pub proof fn lemma_payload_round_trip(data: Seq<u8>, decoded: Seq<u8>)
    ensures
        decodes(b64_encode(data)),
        decodes_to(b64_encode(data), decoded) ==> decoded == data,
{
    assert(b64_encode(data) == b64_encode(data));
    if decodes_to(b64_encode(data), decoded) {
        lemma_b64_injective(decoded, data);
    }
}

/// A payload goes to the stream it was tagged with, whatever the handler: when `data` is
/// the encoding of `bytes`, every handler writes `bytes` to standard output for a
/// `Stdout` message and to standard error for a `Stderr` message.
pub proof fn lemma_payload_keeps_its_stream(
    h: Handler,
    data: String,
    seq: u64,
    bytes: Seq<u8>,
    r: SpecReaction,
)
    requires
        b64_encode(bytes) == data@,
    ensures
        reaction_ok(h, StreamMessage::Stdout { data, seq }, r) ==> r == SpecReaction::Stdout(bytes),
        reaction_ok(h, StreamMessage::Stderr { data, seq }, r) ==> r == SpecReaction::Stderr(bytes),
{
    assert(decodes(data@));
    if reaction_ok(h, StreamMessage::Stdout { data, seq }, r) {
        let b = r->Stdout_0;
        lemma_b64_injective(b, bytes);
    }
    if reaction_ok(h, StreamMessage::Stderr { data, seq }, r) {
        let b = r->Stderr_0;
        lemma_b64_injective(b, bytes);
    }
}

} // verus!
