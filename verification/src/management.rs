//! Requests and responses as lines of bytes.
use crate::paths;
use crate::rpc;
use crate::rpc::{ApiError, ApiResult};
use crate::text;
use vstd::prelude::*;
use vstd::string::*;
use vstd::utf8::*;

verus! {

/// Most bytes of a request or a response.
pub const MAX_RPC_BYTES: usize = 8_388_608;

/// The byte at the end of a line.
pub const NEWLINE: u8 = 10;

/// A text without the carriage returns and newlines at its end.
pub open spec fn trimmed(line: Seq<char>) -> Seq<char>
    decreases line.len(),
{
    if line.len() > 0 && (line.last() == '\n' || line.last() == '\r') {
        trimmed(line.drop_last())
    } else {
        line
    }
}

pub fn trim_line(line: &str) -> (r: String)
    ensures
        r@ == trimmed(line@),
{
    let chars = text::chars_of(line);
    let mut end: usize = chars.len();
    assert(line@.take(end as int) =~= line@);
    while end > 0 && (chars[end - 1] == '\n' || chars[end - 1] == '\r')
        invariant
            chars@ == line@,
            end <= chars@.len(),
            trimmed(line@) == trimmed(line@.take(end as int)),
        decreases end,
    {
        assert(line@.take(end as int).drop_last() =~= line@.take(end - 1));
        end -= 1;
    }
    let r = line.substring_char(0, end);
    assert(r@ =~= line@.take(end as int));
    r.to_string()
}

pub open spec fn ends_line(line: Seq<char>) -> bool {
    line.len() > 0 && line.last() == '\n'
}

fn is_line(line: &str) -> (r: bool)
    ensures
        r == ends_line(line@),
{
    let len: usize = line.unicode_len();
    len > 0 && line.get_char(len - 1) == '\n'
}

/// What reading a line from a connection comes to. The bytes are those up to and with the first
/// newline, but at most one more than are allowed.
#[derive(Debug)]
pub enum LineRead {
    TimedOut,
    Failed,
    Read { bytes: Vec<u8> },
}

#[verifier::ext_equal]
pub enum LineReadView {
    TimedOut,
    Failed,
    Read { bytes: Seq<u8> },
}

impl View for LineRead {
    type V = LineReadView;

    open spec fn view(&self) -> LineReadView {
        match self {
            LineRead::TimedOut => LineReadView::TimedOut,
            LineRead::Failed => LineReadView::Failed,
            LineRead::Read { bytes } => LineReadView::Read { bytes: bytes@ },
        }
    }
}

/// The request that was read: a line of UTF-8 within the limit, without its end.
pub open spec fn request_of(read: LineReadView) -> Result<Seq<char>, rpc::ApiErrorView> {
    match read {
        LineReadView::TimedOut => Err(
            rpc::api_error("request_timeout"@, "Management request timed out"@),
        ),
        LineReadView::Failed => Err(
            rpc::api_error("invalid_request"@, "Request is not valid UTF-8 JSON"@),
        ),
        LineReadView::Read { bytes } => if !valid_utf8(bytes) {
            Err(rpc::api_error("invalid_request"@, "Request is not valid UTF-8 JSON"@))
        } else if bytes.len() == 0 {
            Err(rpc::api_error("empty_request"@, "Request was empty"@))
        } else if bytes.len() > MAX_RPC_BYTES {
            Err(
                rpc::api_error(
                    "request_too_large"@,
                    "Request exceeds the management API limit"@,
                ),
            )
        } else if !ends_line(decode_utf8(bytes)) {
            Err(rpc::api_error("invalid_request"@, "Request must end with a newline"@))
        } else {
            Ok(trimmed(decode_utf8(bytes)))
        },
    }
}

/// The model of a text or of the error that came in its place.
pub open spec fn text_outcome(r: ApiResult<String>) -> Result<Seq<char>, rpc::ApiErrorView> {
    match r {
        Ok(text) => Ok(text@),
        Err(error) => Err(error@),
    }
}

/// Takes the request that was read from a connection.
pub fn take_request(read: LineRead) -> (r: ApiResult<String>)
    ensures
        text_outcome(r) == request_of(read@),
{
    let bytes = match read {
        LineRead::TimedOut => {
            return Err(ApiError::new("request_timeout", "Management request timed out"));
        },
        LineRead::Failed => {
            return Err(ApiError::new("invalid_request", "Request is not valid UTF-8 JSON"));
        },
        LineRead::Read { bytes } => bytes,
    };
    let len: usize = bytes.len();
    let line = match text::text_from_utf8(bytes) {
        Some(line) => line,
        None => {
            return Err(ApiError::new("invalid_request", "Request is not valid UTF-8 JSON"));
        },
    };
    if len == 0 {
        return Err(ApiError::new("empty_request", "Request was empty"));
    }
    if len > MAX_RPC_BYTES {
        return Err(
            ApiError::new("request_too_large", "Request exceeds the management API limit"),
        );
    }
    if !is_line(line.as_str()) {
        return Err(ApiError::new("invalid_request", "Request must end with a newline"));
    }
    Ok(trim_line(line.as_str()))
}

/// The error for a request that is not one of the known requests, for the given reason.
pub fn unknown_request(reason: &str) -> (error: ApiError)
    ensures
        error@ == rpc::api_error("invalid_request"@, "Invalid RPC request: "@ + reason@),
{
    let message = text::join2("Invalid RPC request: ", reason);
    ApiError::new("invalid_request", message.as_str())
}

/// Why the controller gave no answer.
#[derive(Clone, Copy, Debug, PartialEq, Eq, Structural)]
pub enum NoReply {
    Stopping,
    Stopped,
    TimedOut,
}

pub open spec fn no_reply_error(reason: NoReply) -> rpc::ApiErrorView {
    match reason {
        NoReply::Stopping => rpc::api_error(
            "daemon_stopping"@,
            "Controller daemon is stopping"@,
        ),
        NoReply::Stopped => rpc::api_error(
            "daemon_stopping"@,
            "Controller daemon stopped before replying"@,
        ),
        NoReply::TimedOut => rpc::api_error(
            "request_timeout"@,
            "Controller did not reply in time"@,
        ),
    }
}

/// The error for a request that the controller gave no answer to.
pub fn without_reply(reason: NoReply) -> (error: ApiError)
    ensures
        error@ == no_reply_error(reason),
{
    match reason {
        NoReply::Stopping => ApiError::new("daemon_stopping", "Controller daemon is stopping"),
        NoReply::Stopped => ApiError::new(
            "daemon_stopping",
            "Controller daemon stopped before replying",
        ),
        NoReply::TimedOut => ApiError::new(
            "request_timeout",
            "Controller did not reply in time",
        ),
    }
}

/// Whether a connection is served: only one of the same user is.
pub fn serves_peer(peer: Option<u32>, own: u32) -> (r: bool)
    ensures
        r == (peer == Some(own)),
{
    match peer {
        Some(uid) => uid == own,
        None => false,
    }
}

/// What is written where a response cannot be serialised.
pub open spec fn unserializable_text() -> Seq<char> {
    "{\"ok\":false,\"error\":{\"code\":\"serialization_error\",\"message\":\"Could not serialize response\"}}"@
}

/// What is written where a response is too large.
pub open spec fn oversized_text() -> Seq<char> {
    "{\"ok\":false,\"error\":{\"code\":\"response_too_large\",\"message\":\"Controller response exceeds the management API limit\"}}"@
}

/// The line that is written for a response, where it could be serialised.
pub open spec fn response_line(serialized: Option<Seq<u8>>) -> Seq<u8> {
    let bytes = match serialized {
        Some(bytes) => bytes,
        None => encode_utf8(unserializable_text()),
    };
    (if bytes.len() > MAX_RPC_BYTES {
        encode_utf8(oversized_text())
    } else {
        bytes
    }).push(NEWLINE)
}

/// The line that is written for a response, where it could be serialised.
pub fn frame_response(serialized: Option<Vec<u8>>) -> (line: Vec<u8>)
    ensures
        line@ == response_line(paths::opt_bytes(serialized)),
{
    let mut bytes = match serialized {
        Some(bytes) => bytes,
        None => {
            "{\"ok\":false,\"error\":{\"code\":\"serialization_error\",\"message\":\"Could not serialize response\"}}".as_bytes_vec()
        },
    };
    if bytes.len() > MAX_RPC_BYTES {
        bytes =
        "{\"ok\":false,\"error\":{\"code\":\"response_too_large\",\"message\":\"Controller response exceeds the management API limit\"}}".as_bytes_vec();
    }
    bytes.push(NEWLINE);
    bytes
}

/// The line of a request, where it could be serialised and is within the limit.
pub open spec fn request_line(serialized: Option<Seq<u8>>) -> Result<
    Seq<u8>,
    rpc::ApiErrorView,
> {
    match serialized {
        None => Err(rpc::api_error("serialization_error"@, "Could not serialize request"@)),
        Some(bytes) => if bytes.len() > MAX_RPC_BYTES {
            Err(
                rpc::api_error(
                    "request_too_large"@,
                    "Request exceeds the management API limit"@,
                ),
            )
        } else {
            Ok(bytes.push(NEWLINE))
        },
    }
}

/// The line of a request, where it could be serialised and is within the limit.
pub fn frame_request(serialized: Option<Vec<u8>>) -> (r: ApiResult<Vec<u8>>)
    ensures
        (match r {
            Ok(line) => Ok(line@),
            Err(error) => Err(error@),
        }) == request_line(paths::opt_bytes(serialized)),
{
    match serialized {
        None => Err(ApiError::new("serialization_error", "Could not serialize request")),
        Some(bytes) => {
            if bytes.len() > MAX_RPC_BYTES {
                return Err(
                    ApiError::new(
                        "request_too_large",
                        "Request exceeds the management API limit",
                    ),
                );
            }
            let mut line = bytes;
            line.push(NEWLINE);
            Ok(line)
        },
    }
}

/// What connecting to the daemon comes to.
#[derive(Clone, Copy, Debug, PartialEq, Eq, Structural)]
pub enum Connection {
    TimedOut,
    Failed,
    /// The daemon is there; the user whose it is, where that is known.
    Connected { uid: Option<u32> },
}

/// The verdict on a connection to the daemon at a socket: the daemon must be of the same user.
pub open spec fn connection_verdict(connection: Connection, own: u32, socket: Seq<char>) -> Result<
    (),
    rpc::ApiErrorView,
> {
    match connection {
        Connection::TimedOut => Err(
            rpc::api_error("daemon_unavailable"@, "Controller connection timed out"@),
        ),
        Connection::Failed => Err(
            rpc::api_error("daemon_unavailable"@, "Could not connect to "@ + socket),
        ),
        Connection::Connected { uid } => match uid {
            None => Err(
                rpc::api_error("daemon_unavailable"@, "Could not verify controller identity"@),
            ),
            Some(uid) => if uid == own {
                Ok(())
            } else {
                Err(
                    rpc::api_error(
                        "daemon_unavailable"@,
                        "Controller socket belongs to another user"@,
                    ),
                )
            },
        },
    }
}

/// Checks a connection to the daemon at a socket.
pub fn check_connection(connection: Connection, own: u32, socket: &str) -> (r: ApiResult<()>)
    ensures
        rpc::verdict(r) == connection_verdict(connection, own, socket@),
{
    match connection {
        Connection::TimedOut => Err(
            ApiError::new("daemon_unavailable", "Controller connection timed out"),
        ),
        Connection::Failed => {
            let message = text::join2("Could not connect to ", socket);
            Err(ApiError::new("daemon_unavailable", message.as_str()))
        },
        Connection::Connected { uid } => match uid {
            None => Err(
                ApiError::new("daemon_unavailable", "Could not verify controller identity"),
            ),
            Some(uid) => if uid == own {
                Ok(())
            } else {
                Err(
                    ApiError::new(
                        "daemon_unavailable",
                        "Controller socket belongs to another user",
                    ),
                )
            },
        },
    }
}

/// What an exchange with the daemon comes to. The bytes are those of the answer up to and with the
/// first newline, but at most one more than are allowed.
#[derive(Debug)]
pub enum Exchange {
    TimedOut,
    WriteFailed,
    FinishFailed,
    ReadFailed,
    Answered { bytes: Vec<u8> },
}

#[verifier::ext_equal]
pub enum ExchangeView {
    TimedOut,
    WriteFailed,
    FinishFailed,
    ReadFailed,
    Answered { bytes: Seq<u8> },
}

impl View for Exchange {
    type V = ExchangeView;

    open spec fn view(&self) -> ExchangeView {
        match self {
            Exchange::TimedOut => ExchangeView::TimedOut,
            Exchange::WriteFailed => ExchangeView::WriteFailed,
            Exchange::FinishFailed => ExchangeView::FinishFailed,
            Exchange::ReadFailed => ExchangeView::ReadFailed,
            Exchange::Answered { bytes } => ExchangeView::Answered { bytes: bytes@ },
        }
    }
}

/// The answer of the daemon: a line of UTF-8 within the limit, without its end.
pub open spec fn answer_of(exchange: ExchangeView) -> Result<Seq<char>, rpc::ApiErrorView> {
    match exchange {
        ExchangeView::TimedOut => Err(
            rpc::api_error("daemon_timeout"@, "Controller request timed out"@),
        ),
        ExchangeView::WriteFailed => Err(
            rpc::api_error("daemon_unavailable"@, "Could not write to daemon"@),
        ),
        ExchangeView::FinishFailed => Err(
            rpc::api_error("daemon_unavailable"@, "Could not finish daemon request"@),
        ),
        ExchangeView::ReadFailed => Err(
            rpc::api_error("protocol_error"@, "Could not read daemon response"@),
        ),
        ExchangeView::Answered { bytes } => if !valid_utf8(bytes) {
            Err(rpc::api_error("protocol_error"@, "Could not read daemon response"@))
        } else if bytes.len() == 0 {
            Err(
                rpc::api_error(
                    "protocol_error"@,
                    "Daemon closed the socket without a response"@,
                ),
            )
        } else if bytes.len() > MAX_RPC_BYTES || !ends_line(decode_utf8(bytes)) {
            Err(
                rpc::api_error("protocol_error"@, "Daemon response is invalid or too large"@),
            )
        } else {
            Ok(trimmed(decode_utf8(bytes)))
        },
    }
}

/// Takes the answer of the daemon.
pub fn take_answer(exchange: Exchange) -> (r: ApiResult<String>)
    ensures
        text_outcome(r) == answer_of(exchange@),
{
    let bytes = match exchange {
        Exchange::TimedOut => {
            return Err(ApiError::new("daemon_timeout", "Controller request timed out"));
        },
        Exchange::WriteFailed => {
            return Err(ApiError::new("daemon_unavailable", "Could not write to daemon"));
        },
        Exchange::FinishFailed => {
            return Err(ApiError::new("daemon_unavailable", "Could not finish daemon request"));
        },
        Exchange::ReadFailed => {
            return Err(ApiError::new("protocol_error", "Could not read daemon response"));
        },
        Exchange::Answered { bytes } => bytes,
    };
    let len: usize = bytes.len();
    let line = match text::text_from_utf8(bytes) {
        Some(line) => line,
        None => {
            return Err(ApiError::new("protocol_error", "Could not read daemon response"));
        },
    };
    if len == 0 {
        return Err(
            ApiError::new("protocol_error", "Daemon closed the socket without a response"),
        );
    }
    if len > MAX_RPC_BYTES || !is_line(line.as_str()) {
        return Err(ApiError::new("protocol_error", "Daemon response is invalid or too large"));
    }
    Ok(trim_line(line.as_str()))
}

/// The error for an answer that is not JSON.
pub fn unreadable_answer() -> (error: ApiError)
    ensures
        error@ == rpc::api_error("protocol_error"@, "Daemon returned invalid JSON"@),
{
    ApiError::new("protocol_error", "Daemon returned invalid JSON")
}

/// A text that is written as one line: without newlines, and not ending in a carriage return.
pub open spec fn is_one_line(text: Seq<char>) -> bool {
    &&& text.len() > 0 ==> text.last() != '\r'
    &&& forall|i: int| 0 <= i < text.len() ==> #[trigger] text[i] != '\n'
}

proof fn lemma_line_bytes(text: Seq<char>)
    ensures
        encode_utf8(text).push(NEWLINE) == encode_utf8(text.push('\n')),
        valid_utf8(encode_utf8(text.push('\n'))),
        decode_utf8(encode_utf8(text.push('\n'))) == text.push('\n'),
    decreases text.len(),
{
    encode_utf8_valid_utf8(text.push('\n'));
    encode_utf8_decode_utf8(text.push('\n'));
    if text.len() == 0 {
        assert(text.push('\n').drop_first() =~= Seq::<char>::empty());
        assert(encode_scalar(10u32) =~= seq![10u8]) by {
            assert((10u32 & 0x7F) as u8 == 10u8) by (bit_vector);
        }
        assert(text.push('\n')[0] as u32 == 10u32);
        assert(encode_utf8(Seq::<char>::empty()) =~= Seq::<u8>::empty());
        assert(text =~= Seq::<char>::empty());
        assert(encode_utf8(text.push('\n')) =~= encode_utf8(text).push(NEWLINE));
    } else {
        lemma_line_bytes(text.drop_first());
        assert(text.push('\n').drop_first() =~= text.drop_first().push('\n'));
        assert(encode_utf8(text.push('\n')) =~= encode_utf8(text).push(NEWLINE));
    }
}

proof fn lemma_trimmed_line(text: Seq<char>)
    requires
        is_one_line(text),
    ensures
        trimmed(text.push('\n')) == text,
        ends_line(text.push('\n')),
{
    assert(text.push('\n').drop_last() =~= text);
    if text.len() > 0 {
        assert(text[text.len() - 1] != '\n');
    }
    assert(trimmed(text) == text);
}

/// A request that is written as one line arrives as it was, as long as the line is within the
/// limit.
pub proof fn lemma_request_arrives(text: Seq<char>)
    requires
        is_one_line(text),
        text::byte_len(text) < MAX_RPC_BYTES,
    ensures
        request_line(Some(encode_utf8(text))) is Ok,
        request_of(
            LineReadView::Read { bytes: request_line(Some(encode_utf8(text)))->Ok_0 },
        ) == Ok::<Seq<char>, rpc::ApiErrorView>(text),
{
    lemma_line_bytes(text);
    lemma_trimmed_line(text);
}

/// A response that is written as one line arrives as it was, as long as the line is within the
/// limit.
pub proof fn lemma_response_arrives(text: Seq<char>)
    requires
        is_one_line(text),
        text::byte_len(text) < MAX_RPC_BYTES,
    ensures
        answer_of(
            ExchangeView::Answered { bytes: response_line(Some(encode_utf8(text))) },
        ) == Ok::<Seq<char>, rpc::ApiErrorView>(text),
{
    lemma_line_bytes(text);
    lemma_trimmed_line(text);
}

/// Whatever is to be answered, one line is written, which is within the limit.
pub proof fn lemma_response_is_line(serialized: Option<Seq<u8>>)
    ensures
        response_line(serialized).last() == NEWLINE,
        response_line(serialized).len() <= MAX_RPC_BYTES + 1,
{
    reveal_strlit(
        "{\"ok\":false,\"error\":{\"code\":\"serialization_error\",\"message\":\"Could not serialize response\"}}",
    );
    reveal_strlit(
        "{\"ok\":false,\"error\":{\"code\":\"response_too_large\",\"message\":\"Controller response exceeds the management API limit\"}}",
    );
    lemma_encoded_length(unserializable_text());
    lemma_encoded_length(oversized_text());
}

/// A text takes at most four bytes for each character.
proof fn lemma_encoded_length(text: Seq<char>)
    ensures
        encode_utf8(text).len() <= 4 * text.len(),
    decreases text.len(),
{
    if text.len() > 0 {
        lemma_encoded_length(text.drop_first());
    }
}

} // verus!
