use lsp_core::cursor::ByteCursor;
use lsp_core::protocol::{read_message, Message};
use lsp_core::server::{handle_notification, handle_request, start};
use lsp_core::session::{exit_notification, initialize_request, shutdown_request, ServerContext, State};

fn json(text: &str) -> serde_json::Value {
    serde_json::from_str(text).unwrap()
}

fn frame(body: &str) -> Vec<u8> {
    let mut f = format!("Content-Length: {}\r\n\r\n", body.len()).into_bytes();
    f.extend_from_slice(body.as_bytes());
    f
}

fn expected_initialize_result() -> serde_json::Value {
    let opts = lsp_types::TextDocumentSyncOptions {
        open_close: Some(true),
        change: Some(lsp_types::TextDocumentSyncKind::FULL),
        will_save: Some(true),
        will_save_wait_until: Some(false),
        save: None,
    };
    let caps = lsp_types::ServerCapabilities {
        text_document_sync: Some(lsp_types::TextDocumentSyncCapability::Options(opts)),
        ..Default::default()
    };
    let res = lsp_types::InitializeResult { capabilities: caps, server_info: None };
    serde_json::to_value(&res).unwrap()
}

#[test]
fn shutdown_then_exit_is_graceful() {
    let mut ctx = ServerContext::new();
    assert_eq!(State::Initialized, ctx.state);
    let reply = shutdown_request(&mut ctx).unwrap();
    assert_eq!(serde_json::Value::Null, reply);
    assert_eq!(State::ShuttingDown, ctx.state);
    assert!(ctx.exit_code.is_none());
    exit_notification(&mut ctx).unwrap();
    assert_eq!(Some(0), ctx.exit_code);
}

#[test]
fn exit_without_shutdown_is_ungraceful() {
    let mut ctx = ServerContext::new();
    exit_notification(&mut ctx).unwrap();
    assert_eq!(Some(1), ctx.exit_code);
    assert_eq!(State::Initialized, ctx.state);
}

#[test]
fn late_initialize_is_always_an_error() {
    let err = initialize_request().unwrap_err();
    assert_eq!(-32002, err.code);
    let mut ctx = ServerContext::new();
    let mut out: Vec<u8> = Vec::new();
    let req = lsp_core::protocol::RequestMessage {
        id: 5,
        method: "initialize".to_string(),
        params: json("{}"),
    };
    handle_request(&mut out, &mut ctx, req).unwrap();
    let mut cur = ByteCursor::new(out);
    match read_message(&mut cur).unwrap() {
        Message::Response(resp) => {
            assert_eq!(5, resp.id);
            assert!(resp.result.is_none());
            assert_eq!(-32002, resp.error.unwrap().code);
        },
        other => panic!("expected a response, got {:?}", other),
    }
}

#[test]
fn unknown_request_method_gets_method_not_found() {
    let mut ctx = ServerContext::new();
    let mut out: Vec<u8> = Vec::new();
    let req = lsp_core::protocol::RequestMessage {
        id: 8,
        method: "textDocument/definition".to_string(),
        params: json("{}"),
    };
    handle_request(&mut out, &mut ctx, req).unwrap();
    assert_eq!(State::Initialized, ctx.state);
    let mut cur = ByteCursor::new(out);
    match read_message(&mut cur).unwrap() {
        Message::Response(resp) => {
            assert_eq!(8, resp.id);
            assert_eq!(-32601, resp.error.unwrap().code);
        },
        other => panic!("expected a response, got {:?}", other),
    }
}

#[test]
fn unknown_notification_is_ignored() {
    let mut ctx = ServerContext::new();
    let n = lsp_core::protocol::NotificationMessage {
        method: "textDocument/didSave".to_string(),
        params: json("{}"),
    };
    handle_notification(&mut ctx, n).unwrap();
    assert_eq!(State::Initialized, ctx.state);
    assert!(ctx.exit_code.is_none());
}

#[test]
fn full_session_with_shutdown_exits_zero() {
    let mut input: Vec<u8> = Vec::new();
    input.extend_from_slice(&frame("{\"id\":1,\"method\":\"initialize\",\"params\":{\"capabilities\":{}}}"));
    input.extend_from_slice(&frame("{\"method\":\"initialized\",\"params\":{}}"));
    input.extend_from_slice(&frame("{\"id\":2,\"method\":\"shutdown\",\"params\":null}"));
    input.extend_from_slice(&frame("{\"method\":\"exit\",\"params\":null}"));
    let mut cur = ByteCursor::new(input);
    let mut out: Vec<u8> = Vec::new();
    let code = start(&mut cur, &mut out).unwrap();
    assert_eq!(0, code);
    let mut replies = ByteCursor::new(out);
    match read_message(&mut replies).unwrap() {
        Message::Response(resp) => {
            assert_eq!(1, resp.id);
            assert_eq!(Some(expected_initialize_result()), resp.result);
            assert!(resp.error.is_none());
        },
        other => panic!("expected the initialize response, got {:?}", other),
    }
    match read_message(&mut replies).unwrap() {
        Message::Response(resp) => {
            assert_eq!(2, resp.id);
            assert_eq!(Some(serde_json::Value::Null), resp.result);
            assert!(resp.error.is_none());
        },
        other => panic!("expected the shutdown response, got {:?}", other),
    }
}

#[test]
fn session_skipping_shutdown_exits_one() {
    let mut input: Vec<u8> = Vec::new();
    input.extend_from_slice(&frame("{\"id\":1,\"method\":\"initialize\",\"params\":{}}"));
    input.extend_from_slice(&frame("{\"method\":\"initialized\",\"params\":{}}"));
    input.extend_from_slice(&frame("{\"method\":\"exit\",\"params\":null}"));
    let mut cur = ByteCursor::new(input);
    let mut out: Vec<u8> = Vec::new();
    let code = start(&mut cur, &mut out).unwrap();
    assert_eq!(1, code);
}

#[test]
fn handshake_with_wrong_first_message_is_fatal() {
    let mut input: Vec<u8> = Vec::new();
    input.extend_from_slice(&frame("{\"method\":\"initialized\",\"params\":{}}"));
    let mut cur = ByteCursor::new(input);
    let mut out: Vec<u8> = Vec::new();
    assert!(start(&mut cur, &mut out).is_err());
    assert!(out.is_empty());
}

#[test]
fn truncated_frame_aborts_the_session() {
    let mut input: Vec<u8> = Vec::new();
    input.extend_from_slice(&frame("{\"id\":1,\"method\":\"initialize\",\"params\":{}}"));
    input.extend_from_slice(&frame("{\"method\":\"initialized\",\"params\":{}}"));
    input.extend_from_slice(b"Content-Length: 50\r\n\r\n0123456789");
    let mut cur = ByteCursor::new(input);
    let mut out: Vec<u8> = Vec::new();
    assert!(start(&mut cur, &mut out).is_err());
}
