//! The dispatch layer: the fixed capability descriptor, the two-phase
//! handshake, routing of requests and notifications, and the main
//! receive-dispatch-reply loop with its termination condition.

use vstd::prelude::*;
use crate::cursor::ByteCursor;
use crate::header::{header_outcome, lemma_header_outcome_used, HeaderOutcome};
use crate::json::{json_field, json_parsed, json_text, null_text, str_eq};
use crate::protocol::{
    error_body, expected_message_error, frame_bytes, id_num, into_notification_params,
    into_request_id_params, method_str, read_message, shape_of, spec_code, success_body,
    write_error_response, write_success_response, Error, ErrorCodes, Message,
    NotificationMessage, RequestMessage, Shape,
};
use crate::session::{
    exit_notification, initialize_request, shutdown_request, ServerContext, State,
};

verus! {

/// How document changes are synced to the server.
#[derive(Debug, PartialEq, Eq, Structural, Clone, Copy)]
pub enum SyncKind {
    NoSync,
    Full,
    Incremental,
}

/// The part of the capability descriptor this core sets: the document
/// synchronization options. Everything else in the negotiated payload is
/// outside the core's scope and stays unset.
#[derive(Debug, PartialEq, Eq, Structural, Clone, Copy)]
pub struct ServerCapabilities {
    pub open_close: Option<bool>,
    pub change: Option<SyncKind>,
    pub will_save: Option<bool>,
    pub will_save_wait_until: Option<bool>,
    pub save: Option<bool>,
}

/// The fixed descriptor the handshake replies with.
pub open spec fn spec_default_capabilities() -> ServerCapabilities {
    ServerCapabilities {
        open_close: Some(true),
        change: Some(SyncKind::Full),
        will_save: Some(true),
        will_save_wait_until: Some(false),
        save: None,
    }
}

pub fn create_server_capabilities() -> (r: ServerCapabilities)
    ensures
        r == spec_default_capabilities(),
{
    ServerCapabilities {
        open_close: Some(true),
        change: Some(SyncKind::Full),
        will_save: Some(true),
        will_save_wait_until: Some(false),
        save: None,
    }
}

/// The serialized initialize result for a capability descriptor; the text
/// depends on the descriptor alone.
pub uninterp spec fn capability_payload(c: ServerCapabilities) -> serde_json::Value;

/// Relies on lsp_types::TextDocumentSyncOptions / ServerCapabilities /
/// InitializeResult and serde_json::to_value: builds the wire form of the
/// initialize result carrying exactly these capabilities. Serializing
/// these types cannot fail, so the fallback arm is never taken.
#[verifier::external_body]
fn initialize_result_value(c: &ServerCapabilities) -> (r: serde_json::Value)
    ensures
        r == capability_payload(*c),
{
    let change = match c.change {
        None => None,
        Some(SyncKind::NoSync) => Some(lsp_types::TextDocumentSyncKind::NONE),
        Some(SyncKind::Full) => Some(lsp_types::TextDocumentSyncKind::FULL),
        Some(SyncKind::Incremental) => Some(lsp_types::TextDocumentSyncKind::INCREMENTAL),
    };
    let save = match c.save { None => None, Some(b) => Some(lsp_types::TextDocumentSyncSaveOptions::Supported(b)) };
    let opts = lsp_types::TextDocumentSyncOptions { open_close: c.open_close, change,
        will_save: c.will_save, will_save_wait_until: c.will_save_wait_until, save };
    let mut caps = lsp_types::ServerCapabilities::default();
    caps.text_document_sync = Some(lsp_types::TextDocumentSyncCapability::Options(opts));
    let res = lsp_types::InitializeResult { capabilities: caps, server_info: None };
    match serde_json::to_value(&res) { Ok(v) => v, Err(_) => serde_json::Value::Null }
}

/// Writes a success response whose result is the initialize result for
/// the given capability descriptor.
pub fn write_success_result(out: &mut Vec<u8>, id: u64, caps: &ServerCapabilities)
    ensures
        final(out)@ == old(out)@ + frame_bytes(
            success_body(id, json_text(capability_payload(*caps))),
        ),
{
    let v = initialize_result_value(caps);
    write_success_response(out, id, &v);
}

/// Routes one request by method name and writes its reply frame: a second
/// `initialize` always gets the server-not-initialized error; `shutdown`
/// moves the state and gets the null success; any other method gets the
/// method-not-found error, so no request is ever a fatal condition.
pub fn handle_request(out: &mut Vec<u8>, ctx: &mut ServerContext, msg: RequestMessage) -> (r:
    Result<(), Error>)
    ensures
        r is Ok,
        msg.method@ == "initialize"@ ==> (*final(ctx) == *old(ctx) && final(out)@ == old(out)@
            + frame_bytes(
            error_body(
                msg.id,
                spec_code(ErrorCodes::ServerNotInitialized) as int,
                "Unexpected initialize message"@,
                None,
            ),
        )),
        msg.method@ == "shutdown"@ ==> (final(ctx).state == State::ShuttingDown
            && final(ctx).exit_code == old(ctx).exit_code && final(out)@ == old(out)@
            + frame_bytes(success_body(msg.id, null_text()))),
        (msg.method@ != "initialize"@ && msg.method@ != "shutdown"@) ==> (*final(ctx) == *old(ctx)
            && final(out)@ == old(out)@ + frame_bytes(
            error_body(
                msg.id,
                spec_code(ErrorCodes::MethodNotFound) as int,
                "Method not found"@,
                None,
            ),
        )),
{
    proof {
        reveal_strlit("initialize");
        reveal_strlit("shutdown");
        assert("initialize"@.len() != "shutdown"@.len());
    }
    let id = msg.id;
    let res = if str_eq(msg.method.as_str(), "initialize") {
        initialize_request()
    } else if str_eq(msg.method.as_str(), "shutdown") {
        shutdown_request(ctx)
    } else {
        Err(crate::protocol::ResponseError::new(
            ErrorCodes::MethodNotFound,
            "Method not found".to_owned(),
        ))
    };
    match res {
        Ok(value) => write_success_response(out, id, &value),
        Err(error) => write_error_response(out, id, &error),
    }
    Ok(())
}

/// Routes one notification by method name: `exit` runs the terminal
/// transition; every other notification, known or not, is ignored — no
/// reply channel exists for it.
pub fn handle_notification(ctx: &mut ServerContext, msg: NotificationMessage) -> (r: Result<
    (),
    Error,
>)
    ensures
        r is Ok,
        msg.method@ == "exit"@ ==> (final(ctx).state == old(ctx).state && final(ctx).exit_code
            == Some(
            if old(ctx).state == State::ShuttingDown {
                0i32
            } else {
                1i32
            },
        )),
        msg.method@ != "exit"@ ==> *final(ctx) == *old(ctx),
{
    if str_eq(msg.method.as_str(), "exit") {
        exit_notification(ctx)
    } else {
        Ok(())
    }
}

/// The first fully framed, parsed payload at the front of `rem`, with the
/// total bytes its frame occupies.
pub open spec fn first_payload_value(rem: Seq<u8>) -> Option<(serde_json::Value, int)> {
    match header_outcome(rem) {
        HeaderOutcome::Length { n, used } => if rem.skip(used).len() >= n {
            match json_parsed(rem.skip(used).take(n as int)) {
                Some(v) => Some((v, used + n)),
                None => None,
            }
        } else {
            None
        },
        _ => None,
    }
}

/// Whether the front of `rem` carries one complete, parseable frame whose
/// payload decodes to one of the three shapes.
pub open spec fn reads_message(rem: Seq<u8>) -> bool {
    match first_payload_value(rem) {
        Some(p) => shape_of(p.0) != Shape::Bad,
        None => false,
    }
}

/// Whether the front of `rem` is a complete frame holding an `initialize`
/// request.
pub open spec fn first_is_initialize_request(rem: Seq<u8>) -> bool {
    &&& first_payload_value(rem) is Some
    &&& shape_of(first_payload_value(rem)->Some_0.0) == Shape::Request
    &&& method_str(first_payload_value(rem)->Some_0.0) == Some("initialize"@)
}

/// The bytes the two handshake frames occupy.
pub open spec fn handshake_used(rem: Seq<u8>) -> int {
    let p1 = first_payload_value(rem)->Some_0;
    p1.1 + first_payload_value(rem.skip(p1.1))->Some_0.1
}

/// Whether `rem` opens with a legal handshake: an `initialize` request
/// frame followed by an `initialized` notification frame.
pub open spec fn handshake_ok(rem: Seq<u8>) -> bool {
    &&& reads_message(rem)
    &&& {
        let p1 = first_payload_value(rem)->Some_0;
        let rem2 = rem.skip(p1.1);
        &&& shape_of(p1.0) == Shape::Request
        &&& method_str(p1.0) == Some("initialize"@)
        &&& reads_message(rem2)
        &&& shape_of(first_payload_value(rem2)->Some_0.0) == Shape::Notification
        &&& method_str(first_payload_value(rem2)->Some_0.0) == Some("initialized"@)
    }
}

/// The mandatory two-step handshake. The first message must be an
/// `initialize` request: its params are handed back and the fixed
/// capability descriptor is sent as its success reply. The second must be
/// an `initialized` notification. Any other shape or method is fatal.
pub fn initialize(cur: &mut ByteCursor, out: &mut Vec<u8>) -> (r: Result<serde_json::Value, Error>)
    requires
        old(cur).wf(),
    ensures
        final(cur).wf(),
        final(cur).stream() == old(cur).stream(),
        (r is Ok) == handshake_ok(old(cur).remaining()),
        match r {
            Ok(params) => {
                let m1 = first_payload_value(old(cur).remaining());
                let v1 = m1->Some_0.0;
                let m2 = first_payload_value(old(cur).remaining().skip(m1->Some_0.1));
                &&& m1 is Some
                &&& shape_of(v1) == Shape::Request
                &&& method_str(v1) == Some("initialize"@)
                &&& Some(params) == json_field(v1, "params"@)
                &&& final(out)@ == old(out)@ + frame_bytes(
                    success_body(
                        id_num(v1)->Some_0,
                        json_text(capability_payload(spec_default_capabilities())),
                    ),
                )
                &&& m2 is Some
                &&& shape_of(m2->Some_0.0) == Shape::Notification
                &&& method_str(m2->Some_0.0) == Some("initialized"@)
                &&& final(cur).position() == old(cur).position() + handshake_used(
                    old(cur).remaining(),
                )
            },
            Err(_) => {
                if first_is_initialize_request(old(cur).remaining()) {
                    final(out)@ == old(out)@ + frame_bytes(
                        success_body(
                            id_num(first_payload_value(old(cur).remaining())->Some_0.0)->Some_0,
                            json_text(capability_payload(spec_default_capabilities())),
                        ),
                    )
                } else {
                    final(out)@ == old(out)@
                }
            },
        },
{
    let ghost rem0 = old(cur).remaining();
    let message = match read_message(cur) {
        Err(e) => {
            return Err(e);
        },
        Ok(m) => m,
    };
    let (id, params) = match message {
        Message::Request(req) => {
            match into_request_id_params(req, "initialize") {
                Err(e) => {
                    return Err(e);
                },
                Ok(p) => p,
            }
        },
        _ => {
            return Err(expected_message_error("initialize", &message));
        },
    };
    let capabilities = create_server_capabilities();
    write_success_result(out, id, &capabilities);
    let ghost rem1 = cur.remaining();
    proof {
        assert(rem1 =~= rem0.skip(first_payload_value(rem0)->Some_0.1));
    }
    let message = match read_message(cur) {
        Err(e) => {
            return Err(e);
        },
        Ok(m) => m,
    };
    match message {
        Message::Notification(notif) => {
            match into_notification_params(notif, "initialized") {
                Err(e) => {
                    return Err(e);
                },
                Ok(_) => {},
            }
        },
        _ => {
            return Err(expected_message_error("initialized", &message));
        },
    }
    Ok(params)
}

/// The reply frame a request gets, by its method.
pub open spec fn request_reply(id: u64, m: Seq<char>) -> Seq<u8> {
    if m == "initialize"@ {
        frame_bytes(
            error_body(
                id,
                spec_code(ErrorCodes::ServerNotInitialized) as int,
                "Unexpected initialize message"@,
                None,
            ),
        )
    } else if m == "shutdown"@ {
        frame_bytes(success_body(id, null_text()))
    } else {
        frame_bytes(
            error_body(id, spec_code(ErrorCodes::MethodNotFound) as int, "Method not found"@, None),
        )
    }
}

/// What running the main loop over the frames of a byte sequence does:
/// whether it completes with an exit notification, the exit code, every
/// reply frame it writes (also on a fault, up to the fault), and the bytes
/// it consumes when it completes.
pub struct SessionSpec {
    pub completes: bool,
    pub code: i32,
    pub replies: Seq<u8>,
    pub used: int,
}

/// One message frame at a time: a request appends its reply and may move
/// the state to ShuttingDown; an `exit` notification ends the session with
/// the code its state dictates; another notification changes nothing; a
/// response frame, an undecodable payload, or a framing fault ends the
/// session without completing.
pub open spec fn session_rec(rem: Seq<u8>, state: State) -> SessionSpec
    decreases rem.len(),
    via session_rec_dec
{
    match first_payload_value(rem) {
        None => SessionSpec { completes: false, code: 0, replies: Seq::empty(), used: 0 },
        Some(p) => {
            let v = p.0;
            if shape_of(v) == Shape::Request {
                let id = id_num(v)->Some_0;
                let m = method_str(v)->Some_0;
                let st2 = if m == "shutdown"@ {
                    State::ShuttingDown
                } else {
                    state
                };
                let rest = session_rec(rem.skip(p.1), st2);
                SessionSpec {
                    completes: rest.completes,
                    code: rest.code,
                    replies: request_reply(id, m) + rest.replies,
                    used: p.1 + rest.used,
                }
            } else if shape_of(v) == Shape::Notification {
                let m = method_str(v)->Some_0;
                if m == "exit"@ {
                    SessionSpec {
                        completes: true,
                        code: if state == State::ShuttingDown {
                            0i32
                        } else {
                            1i32
                        },
                        replies: Seq::empty(),
                        used: p.1,
                    }
                } else {
                    let rest = session_rec(rem.skip(p.1), state);
                    SessionSpec {
                        completes: rest.completes,
                        code: rest.code,
                        replies: rest.replies,
                        used: p.1 + rest.used,
                    }
                }
            } else {
                SessionSpec { completes: false, code: 0, replies: Seq::empty(), used: 0 }
            }
        },
    }
}

#[via_fn]
proof fn session_rec_dec(rem: Seq<u8>, state: State) {
    lemma_header_outcome_used(rem, None);
}

/// The main loop: read one message, dispatch it, and stop with the exit
/// code as soon as one is set. Receiving a response message is fatal —
/// this core never issues outbound requests. The result, the replies, the
/// final session state and the bytes consumed are exactly what
/// `session_rec` says of the inbound bytes.
pub fn serve(cur: &mut ByteCursor, out: &mut Vec<u8>, ctx: &mut ServerContext) -> (r: Result<
    i32,
    Error,
>)
    requires
        old(cur).wf(),
        old(ctx).exit_code is None,
    ensures
        final(cur).wf(),
        final(cur).stream() == old(cur).stream(),
        ({
            let s = session_rec(old(cur).remaining(), old(ctx).state);
            &&& (r is Ok) == s.completes
            &&& final(out)@ == old(out)@ + s.replies
            &&& (r matches Ok(code) ==> {
                &&& code == s.code
                &&& (code == 0 || code == 1)
                &&& final(ctx).exit_code == Some(code)
                &&& (code == 0 <==> final(ctx).state == State::ShuttingDown)
                &&& final(cur).position() == old(cur).position() + s.used
            })
        }),
{
    loop
        invariant
            old(cur).wf(),
            cur.wf(),
            cur.stream() == old(cur).stream(),
            old(cur).position() <= cur.position(),
            ctx.exit_code is None,
            out@.len() >= old(out)@.len(),
            out@.take(old(out)@.len() as int) == old(out)@,
            ({
                let s0 = session_rec(old(cur).remaining(), old(ctx).state);
                let s = session_rec(cur.remaining(), ctx.state);
                &&& s0.completes == s.completes
                &&& (s.completes ==> s0.code == s.code)
                &&& s0.replies == out@.skip(old(out)@.len() as int) + s.replies
                &&& (s.completes ==> s0.used == (cur.position() - old(cur).position()) + s.used)
            }),
        decreases cur.remaining().len(),
    {
        let ghost rem = cur.remaining();
        let ghost pos_b = cur.position();
        let ghost out_b = out@;
        let ghost st_b = ctx.state;
        proof {
            reveal_strlit("initialize");
            reveal_strlit("shutdown");
            reveal_strlit("exit");
            assert("initialize"@.len() != "shutdown"@.len());
            assert("initialize"@.len() != "exit"@.len());
            assert("shutdown"@.len() != "exit"@.len());
        }
        let message = match read_message(cur) {
            Err(e) => {
                proof {
                    assert(session_rec(rem, st_b).completes == false);
                    assert(session_rec(rem, st_b).replies =~= Seq::<u8>::empty());
                    lemma_out_closes(old(out)@, out@, session_rec(rem, st_b).replies);
                }
                return Err(e);
            },
            Ok(m) => m,
        };
        let ghost p = first_payload_value(rem)->Some_0;
        proof {
            assert(first_payload_value(rem) is Some);
            assert(cur.remaining() =~= rem.skip(p.1));
            assert(cur.position() == pos_b + p.1);
        }
        match message {
            Message::Request(request) => {
                let ghost m = request.method@;
                match handle_request(out, ctx, request) {
                    Err(e) => {
                        return Err(e);
                    },
                    Ok(_) => {},
                }
                proof {
                    assert(out@ =~= out_b + request_reply(id_num(p.0)->Some_0, m));
                    assert(session_rec(rem, st_b) == SessionSpec {
                        completes: session_rec(rem.skip(p.1), ctx.state).completes,
                        code: session_rec(rem.skip(p.1), ctx.state).code,
                        replies: request_reply(id_num(p.0)->Some_0, m) + session_rec(
                            rem.skip(p.1),
                            ctx.state,
                        ).replies,
                        used: p.1 + session_rec(rem.skip(p.1), ctx.state).used,
                    });
                    assert(out@.take(old(out)@.len() as int) =~= old(out)@);
                    assert(out@.skip(old(out)@.len() as int) =~= out_b.skip(
                        old(out)@.len() as int,
                    ) + request_reply(id_num(p.0)->Some_0, m));
                    assert(session_rec(old(cur).remaining(), old(ctx).state).replies =~= out@.skip(
                        old(out)@.len() as int,
                    ) + session_rec(cur.remaining(), ctx.state).replies);
                }
            },
            Message::Notification(notification) => {
                let ghost m = notification.method@;
                match handle_notification(ctx, notification) {
                    Err(e) => {
                        return Err(e);
                    },
                    Ok(_) => {},
                }
                proof {
                    if m == "exit"@ {
                        assert(session_rec(rem, st_b) == SessionSpec {
                            completes: true,
                            code: if st_b == State::ShuttingDown {
                                0i32
                            } else {
                                1i32
                            },
                            replies: Seq::<u8>::empty(),
                            used: p.1,
                        });
                        assert(session_rec(rem, st_b).replies =~= Seq::<u8>::empty());
                        lemma_out_closes(old(out)@, out@, session_rec(rem, st_b).replies);
                    } else {
                        assert(session_rec(rem, st_b) == SessionSpec {
                            completes: session_rec(rem.skip(p.1), ctx.state).completes,
                            code: session_rec(rem.skip(p.1), ctx.state).code,
                            replies: session_rec(rem.skip(p.1), ctx.state).replies,
                            used: p.1 + session_rec(rem.skip(p.1), ctx.state).used,
                        });
                    }
                }
            },
            Message::Response(_) => {
                proof {
                    assert(session_rec(rem, st_b).completes == false);
                    assert(session_rec(rem, st_b).replies =~= Seq::<u8>::empty());
                    lemma_out_closes(old(out)@, out@, session_rec(rem, st_b).replies);
                }
                return Err(Error::ProtocolError("Unexpected response message".to_owned()));
            },
        }
        match ctx.exit_code {
            Some(exit_code) => {
                proof {
                    lemma_out_closes(old(out)@, out@, Seq::<u8>::empty());
                }
                return Ok(exit_code);
            },
            None => {},
        }
    }
}

/// When the replies still owed are none, the output already holds exactly
/// the prefix plus every reply of the whole run.
proof fn lemma_out_closes(base: Seq<u8>, now: Seq<u8>, owed: Seq<u8>)
    requires
        now.len() >= base.len(),
        now.take(base.len() as int) == base,
        owed.len() == 0,
    ensures
        now =~= base + (now.skip(base.len() as int) + owed),
{
    assert(now =~= base + (now.skip(base.len() as int) + owed));
}

/// Runs a whole session over in-memory bytes: the handshake, then the
/// main loop; the result is the process exit code, 0 for a graceful
/// shutdown-then-exit and 1 for an exit without shutdown.
pub fn start(cur: &mut ByteCursor, out: &mut Vec<u8>) -> (r: Result<i32, Error>)
    requires
        old(cur).wf(),
    ensures
        final(cur).wf(),
        final(cur).stream() == old(cur).stream(),
        ({
            let rem = old(cur).remaining();
            let s = session_rec(rem.skip(handshake_used(rem)), State::Initialized);
            &&& (r is Ok) == (handshake_ok(rem) && s.completes)
            &&& (handshake_ok(rem) ==> final(out)@ == old(out)@ + frame_bytes(
                success_body(
                    id_num(first_payload_value(rem)->Some_0.0)->Some_0,
                    json_text(capability_payload(spec_default_capabilities())),
                ),
            ) + s.replies)
            &&& (!handshake_ok(rem) ==> (if first_is_initialize_request(rem) {
                final(out)@ == old(out)@ + frame_bytes(
                    success_body(
                        id_num(first_payload_value(rem)->Some_0.0)->Some_0,
                        json_text(capability_payload(spec_default_capabilities())),
                    ),
                )
            } else {
                final(out)@ == old(out)@
            }))
            &&& (r matches Ok(code) ==> code == s.code && (code == 0 || code == 1)
                && final(cur).position() == old(cur).position() + handshake_used(rem) + s.used)
        }),
{
    let ghost rem = old(cur).remaining();
    let _params = match initialize(cur, out) {
        Err(e) => {
            return Err(e);
        },
        Ok(p) => p,
    };
    let ghost out_mid = out@;
    let mut ctx = ServerContext::new();
    proof {
        lemma_header_outcome_used(rem, None);
        let p1 = first_payload_value(rem)->Some_0;
        assert(0 <= p1.1 <= rem.len());
        lemma_header_outcome_used(rem.skip(p1.1), None);
        let p2 = first_payload_value(rem.skip(p1.1))->Some_0;
        assert(0 <= p2.1 <= rem.skip(p1.1).len());
        assert(0 <= handshake_used(rem) <= rem.len());
        assert(cur.remaining() =~= rem.skip(handshake_used(rem)));
    }
    let r = serve(cur, out, &mut ctx);
    proof {
        let s = session_rec(rem.skip(handshake_used(rem)), State::Initialized);
        assert(out@ =~= old(out)@ + frame_bytes(
            success_body(
                id_num(first_payload_value(rem)->Some_0.0)->Some_0,
                json_text(capability_payload(spec_default_capabilities())),
            ),
        ) + s.replies);
    }
    r
}

} // verus!
