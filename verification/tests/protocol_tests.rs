use lsp_core::cursor::ByteCursor;
use lsp_core::protocol::{
    into_notification_params, into_request_id_params, read_message, write_error_response,
    write_message, write_notification, write_success_response, Error, ErrorCodes, Message,
    RequestMessage, ResponseError,
};

fn json(text: &str) -> serde_json::Value {
    serde_json::from_str(text).unwrap()
}

#[test]
fn write_message_frames_the_body_exactly() {
    let mut out: Vec<u8> = Vec::new();
    write_message(&mut out, &b"hello".to_vec());
    assert_eq!(b"Content-Length: 5\r\n\r\nhello".to_vec(), out);
}

#[test]
fn round_trip_request() {
    let value = json("{\"id\":1,\"method\":\"foo\",\"params\":{\"a\":1}}");
    let body = serde_json::to_vec(&value).unwrap();
    let mut out: Vec<u8> = Vec::new();
    write_message(&mut out, &body);
    let mut cur = ByteCursor::new(out);
    match read_message(&mut cur).unwrap() {
        Message::Request(req) => {
            assert_eq!(1, req.id);
            assert_eq!("foo", req.method);
            assert_eq!(json("{\"a\":1}"), req.params);
        },
        other => panic!("expected a request, got {:?}", other),
    }
}

#[test]
fn round_trip_response() {
    let result = json("{\"ok\":true}");
    let mut out: Vec<u8> = Vec::new();
    write_success_response(&mut out, 7, &result);
    let mut cur = ByteCursor::new(out);
    match read_message(&mut cur).unwrap() {
        Message::Response(resp) => {
            assert_eq!(7, resp.id);
            assert_eq!(Some(result), resp.result);
            assert!(resp.error.is_none());
        },
        other => panic!("expected a response, got {:?}", other),
    }
}

#[test]
fn round_trip_error_response() {
    let error = ResponseError::new(ErrorCodes::InvalidParams, "bad \"quotes\" and \\slashes\\\nhere".to_string());
    let mut out: Vec<u8> = Vec::new();
    write_error_response(&mut out, 9, &error);
    let mut cur = ByteCursor::new(out);
    match read_message(&mut cur).unwrap() {
        Message::Response(resp) => {
            assert_eq!(9, resp.id);
            assert!(resp.result.is_none());
            let e = resp.error.unwrap();
            assert_eq!(-32602, e.code);
            assert_eq!("bad \"quotes\" and \\slashes\\\nhere", e.message);
            assert!(e.data.is_none());
        },
        other => panic!("expected a response, got {:?}", other),
    }
}

#[test]
fn round_trip_notification() {
    let params = json("{\"uri\":\"file:///x\"}");
    let mut out: Vec<u8> = Vec::new();
    write_notification(&mut out, "textDocument/didOpen", &params);
    let mut cur = ByteCursor::new(out);
    match read_message(&mut cur).unwrap() {
        Message::Notification(n) => {
            assert_eq!("textDocument/didOpen", n.method);
            assert_eq!(params, n.params);
        },
        other => panic!("expected a notification, got {:?}", other),
    }
}

#[test]
fn success_response_bytes_match_the_wire_form() {
    let mut out: Vec<u8> = Vec::new();
    write_success_response(&mut out, 2, &serde_json::Value::Null);
    let expected = b"Content-Length: 38\r\n\r\n{\"jsonrpc\":\"2.0\",\"id\":2,\"result\":null}";
    assert_eq!(expected.to_vec(), out);
}

#[test]
fn error_response_bytes_match_the_wire_form() {
    let error = ResponseError::new(ErrorCodes::ServerNotInitialized, "oops".to_string());
    let mut out: Vec<u8> = Vec::new();
    write_error_response(&mut out, 1, &error);
    let body = "{\"jsonrpc\":\"2.0\",\"id\":1,\"error\":{\"code\":-32002,\"message\":\"oops\"}}";
    let expected = format!("Content-Length: {}\r\n\r\n{}", body.len(), body);
    assert_eq!(expected.into_bytes(), out);
}

#[test]
fn truncated_payload_fails() {
    // the header claims fifty bytes but the stream delivers only ten
    let mut frame = b"Content-Length: 50\r\n\r\n".to_vec();
    frame.extend_from_slice(b"0123456789");
    let mut cur = ByteCursor::new(frame);
    match read_message(&mut cur) {
        Err(Error::ProtocolError(msg)) => assert_eq!("Unexpected end of stream", msg),
        other => panic!("expected an error, got {:?}", other),
    }
}

#[test]
fn malformed_payload_fails() {
    let mut out: Vec<u8> = Vec::new();
    write_message(&mut out, &b"{not json".to_vec());
    let mut cur = ByteCursor::new(out);
    match read_message(&mut cur) {
        Err(Error::ProtocolError(msg)) => assert_eq!("Failed to parse message", msg),
        other => panic!("expected an error, got {:?}", other),
    }
}

#[test]
fn payload_matching_no_shape_fails() {
    let body = serde_json::to_vec(&json("{\"params\":{}}")).unwrap();
    let mut out: Vec<u8> = Vec::new();
    write_message(&mut out, &body);
    let mut cur = ByteCursor::new(out);
    match read_message(&mut cur) {
        Err(Error::ProtocolError(msg)) => assert_eq!("Failed to parse message", msg),
        other => panic!("expected an error, got {:?}", other),
    }
}

#[test]
fn request_method_mismatch_always_fails() {
    // the params would decode fine; the method check alone rejects it
    let req = RequestMessage {
        id: 3,
        method: "textDocument/definition".to_string(),
        params: json("{}"),
    };
    assert!(into_request_id_params(req, "initialize").is_err());
    let req = RequestMessage { id: 4, method: "initialize".to_string(), params: json("{}") };
    let (id, params) = into_request_id_params(req, "initialize").unwrap();
    assert_eq!(4, id);
    assert_eq!(json("{}"), params);
}

#[test]
fn notification_method_mismatch_always_fails() {
    let n = lsp_core::protocol::NotificationMessage {
        method: "exit".to_string(),
        params: serde_json::Value::Null,
    };
    assert!(into_notification_params(n, "initialized").is_err());
    let n = lsp_core::protocol::NotificationMessage {
        method: "initialized".to_string(),
        params: json("{}"),
    };
    assert_eq!(json("{}"), into_notification_params(n, "initialized").unwrap());
}

#[test]
fn mismatch_error_names_expected_and_actual_method() {
    let req = RequestMessage { id: 1, method: "zzz".to_string(), params: json("{}") };
    match into_request_id_params(req, "initialize") {
        Err(Error::ProtocolError(m)) => assert_eq!("Expected initialize but got zzz", m),
        other => panic!("expected a protocol error, got {:?}", other),
    }
    let n = lsp_core::protocol::NotificationMessage {
        method: "exit".to_string(),
        params: serde_json::Value::Null,
    };
    match into_notification_params(n, "initialized") {
        Err(Error::ProtocolError(m)) => assert_eq!("Expected initialized but got exit", m),
        other => panic!("expected a protocol error, got {:?}", other),
    }
}

#[test]
fn error_code_values_are_fixed() {
    assert_eq!(-32700, i32::from(ErrorCodes::ParseError));
    assert_eq!(-32600, i32::from(ErrorCodes::InvalidRequest));
    assert_eq!(-32601, i32::from(ErrorCodes::MethodNotFound));
    assert_eq!(-32602, i32::from(ErrorCodes::InvalidParams));
    assert_eq!(-32603, i32::from(ErrorCodes::InternalError));
    assert_eq!(-32099, i32::from(ErrorCodes::serverErrorStart));
    assert_eq!(-32000, i32::from(ErrorCodes::serverErrorEnd));
    assert_eq!(-32002, i32::from(ErrorCodes::ServerNotInitialized));
    assert_eq!(-32001, i32::from(ErrorCodes::UnknownErrorCode));
    assert_eq!(-32800, i32::from(ErrorCodes::RequestCancelled));
    assert_eq!(-32801, i32::from(ErrorCodes::ContentModified));
}
