use localsend_controller::rpc::{ApiError, RpcResponse, TransferState};

#[test]
fn response_envelopes_have_one_payload_branch() {
    let mut status = serde_json::Map::new();
    status.insert(
        "status".to_string(),
        serde_json::Value::String("running".to_string()),
    );
    let success = RpcResponse::success(Ok(serde_json::Value::Object(status.clone())));
    assert_eq!(success.ok, true);
    assert_eq!(success.result, Some(serde_json::Value::Object(status)));
    assert!(success.error.is_none());

    let failure = RpcResponse::failure(ApiError::new(
        "stale_request",
        "Request is no longer pending",
    ));
    assert_eq!(failure.ok, false);
    assert_eq!(failure.error.as_ref().unwrap().code, "stale_request");
    assert_eq!(
        failure.error.as_ref().unwrap().message,
        "Request is no longer pending"
    );
    assert!(failure.error.unwrap().details.is_none());
    assert!(failure.result.is_none());
}

#[test]
fn a_result_that_is_no_json_is_answered_with_an_error() {
    let broken = serde_json::from_str::<serde_json::Value>("{").unwrap_err();
    let response = RpcResponse::success(Err(broken));
    assert!(!response.ok);
    assert!(response.result.is_none());
    let error = response.error.unwrap();
    assert_eq!(error.code, "serialization_error");
    assert_eq!(error.message, "Could not serialize the response");
}

#[test]
fn results_become_responses() {
    let value = serde_json::Value::Bool(true);
    let response = RpcResponse::from_result(Ok(Ok(value.clone())));
    assert!(response.ok);
    assert_eq!(response.result, Some(value));

    let response = RpcResponse::from_result(Err(ApiError::new("peer_busy", "busy")));
    assert!(!response.ok);
    assert_eq!(response.error.unwrap().code, "peer_busy");

    let broken = serde_json::from_str::<serde_json::Value>("[").unwrap_err();
    let response = RpcResponse::from_result(Ok(Err(broken)));
    assert_eq!(response.error.unwrap().code, "serialization_error");
}

#[test]
fn errors_are_copied_with_their_details() {
    let mut error = ApiError::new("code", "message");
    error.details = Some(serde_json::Value::from(7u64));
    let copy = error.clone();
    assert_eq!(copy, error);
    assert_eq!(copy.details, Some(serde_json::Value::from(7u64)));
}

#[test]
fn four_states_are_final() {
    assert!(TransferState::Completed.terminal());
    assert!(TransferState::Declined.terminal());
    assert!(TransferState::Cancelled.terminal());
    assert!(TransferState::Failed.terminal());
    assert!(!TransferState::Preparing.terminal());
    assert!(!TransferState::Transferring.terminal());
    assert!(!TransferState::Cancelling.terminal());
}
