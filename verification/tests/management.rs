use localsend_controller::management::{
    check_connection, frame_request, frame_response, serves_peer, take_answer, take_request,
    trim_line, unknown_request, unreadable_answer, without_reply, Connection, Exchange, LineRead,
    NoReply, MAX_RPC_BYTES,
};

fn read(bytes: Vec<u8>) -> Result<String, (String, String)> {
    take_request(LineRead::Read { bytes }).map_err(|error| (error.code, error.message))
}

fn answer(bytes: Vec<u8>) -> Result<String, (String, String)> {
    take_answer(Exchange::Answered { bytes }).map_err(|error| (error.code, error.message))
}

fn told(code: &str, message: &str) -> Result<String, (String, String)> {
    Err((code.to_string(), message.to_string()))
}

#[test]
fn requests_are_lines() {
    assert_eq!(
        read(b"{\"command\":\"ping\"}\n".to_vec()),
        Ok("{\"command\":\"ping\"}".to_string())
    );
    assert_eq!(read(b"x\r\n".to_vec()), Ok("x".to_string()));
    assert_eq!(read(b"\n".to_vec()), Ok(String::new()));
    assert_eq!(
        read(b"x".to_vec()),
        told("invalid_request", "Request must end with a newline")
    );
    assert_eq!(
        read(vec![]),
        told("empty_request", "Request was empty")
    );
    assert_eq!(
        read(vec![0xff, b'\n']),
        told("invalid_request", "Request is not valid UTF-8 JSON")
    );
    let mut full = vec![b' '; MAX_RPC_BYTES - 1];
    full.push(b'\n');
    assert_eq!(read(full).unwrap().len(), MAX_RPC_BYTES - 1);
    assert_eq!(
        read(vec![b' '; MAX_RPC_BYTES + 1]),
        told(
            "request_too_large",
            "Request exceeds the management API limit"
        )
    );
    let failed = |line: LineRead| {
        let error = take_request(line).unwrap_err();
        (error.code, error.message)
    };
    assert_eq!(
        failed(LineRead::TimedOut),
        (
            "request_timeout".to_string(),
            "Management request timed out".to_string()
        )
    );
    assert_eq!(
        failed(LineRead::Failed),
        (
            "invalid_request".to_string(),
            "Request is not valid UTF-8 JSON".to_string()
        )
    );
}

#[test]
fn the_ends_of_lines_are_trimmed() {
    for sample in ["", "a", "a\n", "a\r\n\r\n", "\n\ra\n", "a \n", "é\r"] {
        assert_eq!(trim_line(sample), sample.trim_end_matches(['\r', '\n']));
    }
}

#[test]
fn what_is_written_arrives() {
    let request = "{\"command\":\"send-text\",\"text\":\"é\\n\"}";
    let line = frame_request(Some(request.as_bytes().to_vec())).unwrap();
    assert_eq!(read(line), Ok(request.to_string()));
    let line = frame_response(Some(request.as_bytes().to_vec()));
    assert_eq!(answer(line), Ok(request.to_string()));
}

#[test]
fn requests_that_cannot_be_sent_are_refused() {
    let error = frame_request(None).unwrap_err();
    assert_eq!(error.code, "serialization_error");
    assert_eq!(error.message, "Could not serialize request");
    let error = frame_request(Some(vec![b'x'; MAX_RPC_BYTES + 1])).unwrap_err();
    assert_eq!(error.code, "request_too_large");
    let line = frame_request(Some(vec![b'x'; MAX_RPC_BYTES])).unwrap();
    assert_eq!(line.len(), MAX_RPC_BYTES + 1);
    assert!(read(line).is_err());
}

#[test]
fn responses_that_cannot_be_written_are_replaced() {
    let parse = |line: Vec<u8>| {
        assert_eq!(line.last(), Some(&b'\n'));
        serde_json::from_slice::<serde_json::Value>(&line).unwrap()
    };
    let value = parse(frame_response(None));
    assert_eq!(value["ok"], false);
    assert_eq!(value["error"]["code"], "serialization_error");
    assert_eq!(value["error"]["message"], "Could not serialize response");
    let value = parse(frame_response(Some(vec![b'x'; MAX_RPC_BYTES + 1])));
    assert_eq!(value["ok"], false);
    assert_eq!(value["error"]["code"], "response_too_large");
    assert_eq!(
        value["error"]["message"],
        "Controller response exceeds the management API limit"
    );
    assert_eq!(
        frame_response(Some(vec![b'x'; MAX_RPC_BYTES])).len(),
        MAX_RPC_BYTES + 1
    );
}

#[test]
fn answers_are_lines() {
    assert_eq!(
        answer(vec![]),
        told(
            "protocol_error",
            "Daemon closed the socket without a response"
        )
    );
    let invalid = told("protocol_error", "Daemon response is invalid or too large");
    assert_eq!(answer(b"x".to_vec()), invalid);
    assert_eq!(answer(vec![b'\n'; MAX_RPC_BYTES + 1]), invalid);
    assert_eq!(
        answer(vec![0xff]),
        told("protocol_error", "Could not read daemon response")
    );
    let failed = |exchange: Exchange| {
        let error = take_answer(exchange).unwrap_err();
        (error.code, error.message)
    };
    let pair = |code: &str, message: &str| (code.to_string(), message.to_string());
    assert_eq!(
        failed(Exchange::TimedOut),
        pair("daemon_timeout", "Controller request timed out")
    );
    assert_eq!(
        failed(Exchange::WriteFailed),
        pair("daemon_unavailable", "Could not write to daemon")
    );
    assert_eq!(
        failed(Exchange::FinishFailed),
        pair("daemon_unavailable", "Could not finish daemon request")
    );
    assert_eq!(
        failed(Exchange::ReadFailed),
        pair("protocol_error", "Could not read daemon response")
    );
    assert_eq!(unreadable_answer().message, "Daemon returned invalid JSON");
    assert_eq!(
        unknown_request("expected value").message,
        "Invalid RPC request: expected value"
    );
}

#[test]
fn connections_are_between_the_same_user() {
    assert!(serves_peer(Some(5), 5));
    assert!(!serves_peer(Some(6), 5));
    assert!(!serves_peer(None, 5));
    assert!(check_connection(Connection::Connected { uid: Some(5) }, 5, "/s").is_ok());
    let message = |connection: Connection| {
        let error = check_connection(connection, 5, "/s").unwrap_err();
        assert_eq!(error.code, "daemon_unavailable");
        error.message
    };
    assert_eq!(
        message(Connection::TimedOut),
        "Controller connection timed out"
    );
    assert_eq!(message(Connection::Failed), "Could not connect to /s");
    assert_eq!(
        message(Connection::Connected { uid: None }),
        "Could not verify controller identity"
    );
    assert_eq!(
        message(Connection::Connected { uid: Some(6) }),
        "Controller socket belongs to another user"
    );
}

#[test]
fn a_missing_reply_is_explained() {
    let pair = |reason: NoReply| {
        let error = without_reply(reason);
        (error.code, error.message)
    };
    assert_eq!(
        pair(NoReply::Stopping),
        (
            "daemon_stopping".to_string(),
            "Controller daemon is stopping".to_string()
        )
    );
    assert_eq!(
        pair(NoReply::Stopped),
        (
            "daemon_stopping".to_string(),
            "Controller daemon stopped before replying".to_string()
        )
    );
    assert_eq!(
        pair(NoReply::TimedOut),
        (
            "request_timeout".to_string(),
            "Controller did not reply in time".to_string()
        )
    );
}
