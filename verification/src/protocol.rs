//! The message model and the framing codec: the three message shapes, the
//! fixed error-code enumeration, decoding of an inbound payload into one
//! shape by explicit key presence, and the outbound envelopes with their
//! exact byte-level contracts.

use vstd::prelude::*;
use vstd::string::{StringExecFns, StringSliceAdditionalSpecFns};
use vstd::utf8::encode_utf8;
use crate::bytes::{dec_bytes, escape_json, lit_bytes, lower_ascii, push_dec, push_bytes, push_escaped, push_lit};
use crate::cursor::ByteCursor;
use crate::header::{header_outcome, lemma_header_outcome_used, read_header, HeaderError,
    HeaderOutcome};
use crate::json::{get_field, json_field, json_i64, json_parsed, json_str, json_text, json_u64,
    parse_json, str_eq, value_as_i64, value_as_string, value_as_u64, value_to_bytes};

verus! {

/// The one error the codec and the dispatcher surface: a protocol fault
/// with a human-readable description.
#[derive(Debug)]
pub enum Error {
    ProtocolError(String),
}

/// Whether `r` is a protocol error carrying exactly the message `msg`.
pub open spec fn is_protocol_err<T>(r: Result<T, Error>, msg: Seq<char>) -> bool {
    match r {
        Err(Error::ProtocolError(s)) => s@ == msg,
        _ => false,
    }
}

fn protocol_error(msg: &str) -> (e: Error)
    ensures
        e matches Error::ProtocolError(s) && s@ == msg@,
{
    Error::ProtocolError(msg.to_owned())
}

/// A request: expects exactly one correlated response, selected by `id`.
#[derive(Debug)]
pub struct RequestMessage {
    pub id: u64,
    pub method: String,
    pub params: serde_json::Value,
}

/// A response: carries the originating request's `id` and a result or an
/// error. An outbound response holds exactly one of the two; an inbound
/// one is stored as received.
#[derive(Debug)]
pub struct ResponseMessage {
    pub id: u64,
    pub result: Option<serde_json::Value>,
    pub error: Option<ResponseError>,
}

/// The error member of a response.
#[derive(Debug)]
pub struct ResponseError {
    pub code: i32,
    pub message: String,
    pub data: Option<serde_json::Value>,
}

/// A notification: no `id`, and no reply is ever sent.
#[derive(Debug)]
pub struct NotificationMessage {
    pub method: String,
    pub params: serde_json::Value,
}

/// The three shapes a decoded payload can take.
#[derive(Debug)]
pub enum Message {
    Request(RequestMessage),
    Response(ResponseMessage),
    Notification(NotificationMessage),
}

/// The fixed error-code enumeration of the protocol.
#[derive(Debug, Clone, Copy, PartialEq, Eq, Structural)]
#[allow(non_camel_case_types)]
pub enum ErrorCodes {
    ParseError,
    InvalidRequest,
    MethodNotFound,
    InvalidParams,
    InternalError,
    serverErrorStart,
    serverErrorEnd,
    ServerNotInitialized,
    UnknownErrorCode,
    RequestCancelled,
    ContentModified,
}

/// The integer each code stands for on the wire.
pub open spec fn spec_code(code: ErrorCodes) -> i32 {
    match code {
        ErrorCodes::ParseError => -32700i32,
        ErrorCodes::InvalidRequest => -32600i32,
        ErrorCodes::MethodNotFound => -32601i32,
        ErrorCodes::InvalidParams => -32602i32,
        ErrorCodes::InternalError => -32603i32,
        ErrorCodes::serverErrorStart => -32099i32,
        ErrorCodes::serverErrorEnd => -32000i32,
        ErrorCodes::ServerNotInitialized => -32002i32,
        ErrorCodes::UnknownErrorCode => -32001i32,
        ErrorCodes::RequestCancelled => -32800i32,
        ErrorCodes::ContentModified => -32801i32,
    }
}

impl core::convert::From<ErrorCodes> for i32 {
    fn from(code: ErrorCodes) -> (r: i32) {
        match code {
            ErrorCodes::ParseError => -32700,
            ErrorCodes::InvalidRequest => -32600,
            ErrorCodes::MethodNotFound => -32601,
            ErrorCodes::InvalidParams => -32602,
            ErrorCodes::InternalError => -32603,
            ErrorCodes::serverErrorStart => -32099,
            ErrorCodes::serverErrorEnd => -32000,
            ErrorCodes::ServerNotInitialized => -32002,
            ErrorCodes::UnknownErrorCode => -32001,
            ErrorCodes::RequestCancelled => -32800,
            ErrorCodes::ContentModified => -32801,
        }
    }
}

impl vstd::std_specs::convert::FromSpecImpl<ErrorCodes> for i32 {
    open spec fn obeys_from_spec() -> bool {
        true
    }

    open spec fn from_spec(code: ErrorCodes) -> i32 {
        spec_code(code)
    }
}

impl ResponseError {
    /// A response error for a fixed code, with no data member.
    pub fn new(code: ErrorCodes, message: String) -> (r: ResponseError)
        ensures
            r.code == spec_code(code),
            r.message == message,
            r.data is None,
    {
        ResponseError { code: i32::from(code), message, data: None }
    }
}

/// The method member of a payload, when present and a string.
pub open spec fn method_str(v: serde_json::Value) -> Option<Seq<char>> {
    match json_field(v, "method"@) {
        Some(m) => json_str(m),
        None => None,
    }
}

/// The id member of a payload, when present and an unsigned integer.
pub open spec fn id_num(v: serde_json::Value) -> Option<u64> {
    match json_field(v, "id"@) {
        Some(i) => json_u64(i),
        None => None,
    }
}

/// Whether an error member decodes: an integer `code` in 32-bit range and
/// a string `message`.
pub open spec fn error_obj_ok(e: serde_json::Value) -> bool {
    &&& json_field(e, "code"@) is Some
    &&& json_i64(json_field(e, "code"@)->Some_0) is Some
    &&& i32::MIN as i64 <= json_i64(json_field(e, "code"@)->Some_0)->Some_0 <= i32::MAX as i64
    &&& json_field(e, "message"@) is Some
    &&& json_str(json_field(e, "message"@)->Some_0) is Some
}

pub enum Shape {
    Request,
    Notification,
    Response,
    Bad,
}

/// The shape a payload decodes to, by explicit key presence: a `method`
/// key selects request (with `id`) or notification (without); otherwise an
/// `id` key selects response; anything else, or a member of the wrong
/// type, is undecodable.
pub open spec fn shape_of(v: serde_json::Value) -> Shape {
    if json_field(v, "method"@) is Some {
        if method_str(v) is None {
            Shape::Bad
        } else if json_field(v, "id"@) is Some {
            if id_num(v) is Some && json_field(v, "params"@) is Some {
                Shape::Request
            } else {
                Shape::Bad
            }
        } else {
            if json_field(v, "params"@) is Some {
                Shape::Notification
            } else {
                Shape::Bad
            }
        }
    } else if json_field(v, "id"@) is Some {
        if id_num(v) is Some && (match json_field(v, "error"@) {
            Some(e) => error_obj_ok(e),
            None => true,
        }) {
            Shape::Response
        } else {
            Shape::Bad
        }
    } else {
        Shape::Bad
    }
}

/// How a decoded message relates to the payload value it came from.
pub open spec fn classify_rel(v: serde_json::Value, r: Result<Message, Error>) -> bool {
    match r {
        Ok(m) => match m {
            Message::Request(req) => {
                &&& shape_of(v) == Shape::Request
                &&& method_str(v) == Some(req.method@)
                &&& id_num(v) == Some(req.id)
                &&& json_field(v, "params"@) == Some(req.params)
            },
            Message::Notification(nt) => {
                &&& shape_of(v) == Shape::Notification
                &&& method_str(v) == Some(nt.method@)
                &&& json_field(v, "params"@) == Some(nt.params)
            },
            Message::Response(resp) => {
                &&& shape_of(v) == Shape::Response
                &&& id_num(v) == Some(resp.id)
                &&& resp.result == json_field(v, "result"@)
                &&& match resp.error {
                    None => json_field(v, "error"@) is None,
                    Some(re) => {
                        let e = json_field(v, "error"@)->Some_0;
                        &&& json_field(v, "error"@) is Some
                        &&& re.code as i64 == json_i64(json_field(e, "code"@)->Some_0)->Some_0
                        &&& json_str(json_field(e, "message"@)->Some_0) == Some(re.message@)
                        &&& re.data == json_field(e, "data"@)
                    },
                }
            },
        },
        _ => shape_of(v) == Shape::Bad && is_protocol_err(r, "Failed to parse message"@),
    }
}

fn decode_error() -> (e: Error)
    ensures
        e matches Error::ProtocolError(s) && s@ == "Failed to parse message"@,
{
    protocol_error("Failed to parse message")
}

/// Decodes one payload value into the message shape its keys select.
pub fn classify_value(v: serde_json::Value) -> (r: Result<Message, Error>)
    ensures
        classify_rel(v, r),
{
    let method_field = get_field(&v, "method");
    let id_field = get_field(&v, "id");
    match method_field {
        Some(mf) => {
            let method = match value_as_string(&mf) {
                None => {
                    return Err(decode_error());
                },
                Some(s) => s,
            };
            match id_field {
                Some(idf) => {
                    let id = match value_as_u64(&idf) {
                        None => {
                            return Err(decode_error());
                        },
                        Some(i) => i,
                    };
                    let params = match get_field(&v, "params") {
                        None => {
                            return Err(decode_error());
                        },
                        Some(p) => p,
                    };
                    Ok(Message::Request(RequestMessage { id, method, params }))
                },
                None => {
                    let params = match get_field(&v, "params") {
                        None => {
                            return Err(decode_error());
                        },
                        Some(p) => p,
                    };
                    Ok(Message::Notification(NotificationMessage { method, params }))
                },
            }
        },
        None => {
            match id_field {
                Some(idf) => {
                    let id = match value_as_u64(&idf) {
                        None => {
                            return Err(decode_error());
                        },
                        Some(i) => i,
                    };
                    let result = get_field(&v, "result");
                    let error = match get_field(&v, "error") {
                        None => None,
                        Some(e) => {
                            let code_f = match get_field(&e, "code") {
                                None => {
                                    return Err(decode_error());
                                },
                                Some(c) => c,
                            };
                            let code64 = match value_as_i64(&code_f) {
                                None => {
                                    return Err(decode_error());
                                },
                                Some(c) => c,
                            };
                            if code64 < i32::MIN as i64 || code64 > i32::MAX as i64 {
                                return Err(decode_error());
                            }
                            let msg_f = match get_field(&e, "message") {
                                None => {
                                    return Err(decode_error());
                                },
                                Some(m) => m,
                            };
                            let msg = match value_as_string(&msg_f) {
                                None => {
                                    return Err(decode_error());
                                },
                                Some(m) => m,
                            };
                            let data = get_field(&e, "data");
                            Some(ResponseError { code: code64 as i32, message: msg, data })
                        },
                    };
                    Ok(Message::Response(ResponseMessage { id, result, error }))
                },
                None => Err(decode_error()),
            }
        },
    }
}

/// How a decode of exactly `payload` relates to a result: a parse failure
/// or an undecodable shape is the one opaque decode error; otherwise the
/// classified message.
pub open spec fn decode_rel(payload: Seq<u8>, r: Result<Message, Error>) -> bool {
    match json_parsed(payload) {
        None => is_protocol_err(r, "Failed to parse message"@),
        Some(v) => classify_rel(v, r),
    }
}

/// Decodes one complete payload.
pub fn decode_payload(payload: Vec<u8>) -> (r: Result<Message, Error>)
    ensures
        decode_rel(payload@, r),
{
    match parse_json(&payload) {
        None => Err(decode_error()),
        Some(v) => classify_value(v),
    }
}

/// Reads one frame: a header, then exactly the announced number of payload
/// bytes, decoded into one message. Header faults, a payload cut short by
/// the end of the stream, and undecodable payloads each surface as the
/// protocol error the contract names.
pub fn read_message(cur: &mut ByteCursor) -> (r: Result<Message, Error>)
    requires
        old(cur).wf(),
    ensures
        final(cur).wf(),
        final(cur).stream() == old(cur).stream(),
        old(cur).position() <= final(cur).position(),
        match header_outcome(old(cur).remaining()) {
            HeaderOutcome::Eof => is_protocol_err(r, "No header"@),
            HeaderOutcome::Invalid => is_protocol_err(r, "Invalid header"@),
            HeaderOutcome::Length { n, used } => {
                if old(cur).remaining().skip(used).len() < n {
                    is_protocol_err(r, "Unexpected end of stream"@)
                } else {
                    &&& final(cur).position() == old(cur).position() + used + n
                    &&& decode_rel(old(cur).remaining().skip(used).take(n as int), r)
                }
            },
        },
        r is Ok ==> final(cur).position() > old(cur).position(),
{
    proof {
        lemma_header_outcome_used(old(cur).remaining(), None::<usize>);
    }
    let n = match read_header(cur) {
        Err(HeaderError::UnexpectedEof) => {
            return Err(protocol_error("No header"));
        },
        Err(HeaderError::InvalidInput) => {
            return Err(protocol_error("Invalid header"));
        },
        Ok(n) => n,
    };
    let payload = match cur.read_exact(n) {
        None => {
            return Err(protocol_error("Unexpected end of stream"));
        },
        Some(p) => p,
    };
    decode_payload(payload)
}

/// The header line of a frame that announces `n` payload bytes.
pub open spec fn frame_header(n: int) -> Seq<u8> {
    lit_bytes("Content-Length: "@) + dec_bytes(n) + lit_bytes("\r\n\r\n"@)
}

/// One whole frame: the header announcing the body's exact length, then
/// the body.
pub open spec fn frame_bytes(body: Seq<u8>) -> Seq<u8> {
    frame_header(body.len() as int) + body
}

/// Decimal rendering of a possibly negative number.
pub open spec fn int_dec(n: int) -> Seq<u8> {
    if n < 0 {
        seq![45u8] + dec_bytes(-n)
    } else {
        dec_bytes(n)
    }
}

/// The serialized error member: `code`, escaped `message`, and the data
/// member exactly when present.
pub open spec fn error_json(code: int, message: Seq<char>, data_text: Option<Seq<u8>>) -> Seq<
    u8,
> {
    lit_bytes("{\"code\":"@) + int_dec(code) + lit_bytes(",\"message\":\""@) + escape_json(
        encode_utf8(message),
    ) + (match data_text {
        None => lit_bytes("\"}"@),
        Some(d) => lit_bytes("\",\"data\":"@) + d + lit_bytes("}"@),
    })
}

/// An outbound success response body.
pub open spec fn success_body(id: u64, result_text: Seq<u8>) -> Seq<u8> {
    lit_bytes("{\"jsonrpc\":\"2.0\",\"id\":"@) + dec_bytes(id as int) + lit_bytes(",\"result\":"@)
        + result_text + lit_bytes("}"@)
}

/// An outbound error response body.
pub open spec fn error_body(id: u64, code: int, message: Seq<char>, data_text: Option<Seq<u8>>)
    -> Seq<u8> {
    lit_bytes("{\"jsonrpc\":\"2.0\",\"id\":"@) + dec_bytes(id as int) + lit_bytes(",\"error\":"@)
        + error_json(code, message, data_text) + lit_bytes("}"@)
}

/// An outbound notification body.
pub open spec fn notification_body(method: Seq<char>, params_text: Seq<u8>) -> Seq<u8> {
    lit_bytes("{\"jsonrpc\":\"2.0\",\"method\":\""@) + escape_json(encode_utf8(method))
        + lit_bytes("\",\"params\":"@) + params_text + lit_bytes("}"@)
}

/// Writes one frame around an already serialized body: the header line
/// announcing the body's exact byte length, then the body.
pub fn write_message(out: &mut Vec<u8>, body: &Vec<u8>)
    ensures
        final(out)@ == old(out)@ + frame_bytes(body@),
{
    let h = "Content-Length: ";
    let t = "\r\n\r\n";
    proof {
        reveal_strlit("Content-Length: ");
        reveal_strlit("\r\n\r\n");
        assert(h.is_ascii());
        assert(t.is_ascii());
    }
    push_lit(out, h);
    push_dec(out, body.len() as u64);
    push_lit(out, t);
    push_bytes(out, body.as_slice());
    proof {
        assert(out@ =~= old(out)@ + frame_bytes(body@));
    }
}

fn push_int_dec(out: &mut Vec<u8>, n: i32)
    ensures
        final(out)@ == old(out)@ + int_dec(n as int),
{
    let wide = n as i64;
    if wide < 0 {
        out.push(45);
        push_dec(out, (-wide) as u64);
        proof {
            assert(out@ =~= old(out)@ + int_dec(n as int));
        }
    } else {
        push_dec(out, wide as u64);
    }
}

/// Writes a success response frame: protocol version marker, the request's
/// id, and the result value's compact text.
pub fn write_success_response(out: &mut Vec<u8>, id: u64, result: &serde_json::Value)
    ensures
        final(out)@ == old(out)@ + frame_bytes(success_body(id, json_text(*result))),
{
    let h1 = "{\"jsonrpc\":\"2.0\",\"id\":";
    let h2 = ",\"result\":";
    let h3 = "}";
    proof {
        reveal_strlit("{\"jsonrpc\":\"2.0\",\"id\":");
        reveal_strlit(",\"result\":");
        reveal_strlit("}");
        assert(h1.is_ascii());
        assert(h2.is_ascii());
        assert(h3.is_ascii());
    }
    let mut body: Vec<u8> = Vec::new();
    push_lit(&mut body, h1);
    push_dec(&mut body, id);
    push_lit(&mut body, h2);
    let rb = value_to_bytes(result);
    push_bytes(&mut body, rb.as_slice());
    push_lit(&mut body, h3);
    proof {
        assert(body@ =~= success_body(id, json_text(*result)));
    }
    write_message(out, &body);
}

/// Writes an error response frame: protocol version marker, the request's
/// id, and the serialized error member.
pub fn write_error_response(out: &mut Vec<u8>, id: u64, error: &ResponseError)
    ensures
        final(out)@ == old(out)@ + frame_bytes(
            error_body(
                id,
                error.code as int,
                error.message@,
                match error.data {
                    None => None,
                    Some(d) => Some(json_text(d)),
                },
            ),
        ),
{
    let h1 = "{\"jsonrpc\":\"2.0\",\"id\":";
    let h2 = ",\"error\":";
    let h3 = "{\"code\":";
    let h4 = ",\"message\":\"";
    let h5 = "\"}";
    let h6 = "\",\"data\":";
    let h7 = "}";
    proof {
        reveal_strlit("{\"jsonrpc\":\"2.0\",\"id\":");
        reveal_strlit(",\"error\":");
        reveal_strlit("{\"code\":");
        reveal_strlit(",\"message\":\"");
        reveal_strlit("\"}");
        reveal_strlit("\",\"data\":");
        reveal_strlit("}");
        assert(h1.is_ascii());
        assert(h2.is_ascii());
        assert(h3.is_ascii());
        assert(h4.is_ascii());
        assert(h5.is_ascii());
        assert(h6.is_ascii());
        assert(h7.is_ascii());
    }
    let mut body: Vec<u8> = Vec::new();
    push_lit(&mut body, h1);
    push_dec(&mut body, id);
    push_lit(&mut body, h2);
    push_lit(&mut body, h3);
    push_int_dec(&mut body, error.code);
    push_lit(&mut body, h4);
    push_escaped(&mut body, error.message.as_str().as_bytes());
    match &error.data {
        None => {
            push_lit(&mut body, h5);
        },
        Some(d) => {
            push_lit(&mut body, h6);
            let db = value_to_bytes(d);
            push_bytes(&mut body, db.as_slice());
            push_lit(&mut body, h7);
        },
    }
    push_lit(&mut body, h7);
    proof {
        if error.data is None {
            assert(body@ =~= error_body(id, error.code as int, error.message@, None));
        } else {
            let d = error.data->Some_0;
            assert(body@ =~= error_body(
                id,
                error.code as int,
                error.message@,
                Some(json_text(d)),
            ));
        }
    }
    write_message(out, &body);
}

/// Writes a notification frame: protocol version marker, the escaped
/// method name, and the params value's compact text.
pub fn write_notification(out: &mut Vec<u8>, method: &str, params: &serde_json::Value)
    ensures
        final(out)@ == old(out)@ + frame_bytes(notification_body(method@, json_text(*params))),
{
    let h1 = "{\"jsonrpc\":\"2.0\",\"method\":\"";
    let h2 = "\",\"params\":";
    let h3 = "}";
    proof {
        reveal_strlit("{\"jsonrpc\":\"2.0\",\"method\":\"");
        reveal_strlit("\",\"params\":");
        reveal_strlit("}");
        assert(h1.is_ascii());
        assert(h2.is_ascii());
        assert(h3.is_ascii());
    }
    let mut body: Vec<u8> = Vec::new();
    push_lit(&mut body, h1);
    push_escaped(&mut body, method.as_bytes());
    push_lit(&mut body, h2);
    let pb = value_to_bytes(params);
    push_bytes(&mut body, pb.as_slice());
    push_lit(&mut body, h3);
    proof {
        assert(body@ =~= notification_body(method@, json_text(*params)));
    }
    write_message(out, &body);
}

/// Round trip of the framing layer: a frame that `write_message` emits for
/// `body` — placed in front of any further bytes — parses back to a header
/// announcing exactly `body.len()`, and the announced bytes after the
/// header are exactly `body`. Together with `decode_rel` this pins what
/// `read_message` returns for such a stream.
pub proof fn lemma_frame_round_trip(body: Seq<u8>, rest: Seq<u8>)
    requires
        body.len() <= usize::MAX,
    ensures
        ({
            let s = frame_bytes(body) + rest;
            let used = frame_header(body.len() as int).len() as int;
            &&& header_outcome(s) == HeaderOutcome::Length { n: body.len() as usize, used }
            &&& s.skip(used).take(body.len() as int) == body
        }),
{
    reveal_strlit("Content-Length: ");
    reveal_strlit("content-length");
    reveal_strlit(": ");
    reveal_strlit("\r\n\r\n");
    let hl = lit_bytes("Content-Length: "@);
    let name = hl.take(14);
    let cs = lit_bytes(": "@);
    let tail = lit_bytes("\r\n\r\n"@);
    let n = body.len() as usize;
    let dec = dec_bytes(n as int);
    assert(hl =~= name + cs) by {
        assert(hl.len() == 16);
        assert(cs.len() == 2);
        assert(hl[14] == 58 && hl[15] == 32);
    }
    assert(lower_ascii(name) =~= crate::header::content_length_name()) by {
        assert forall|i: int|
            0 <= i < 14 implies lower_ascii(name)[i]
            == crate::header::content_length_name()[i] by {
            assert(lower_ascii(name)[i] == crate::bytes::lower_byte(name[i]));
            if i == 0 {
            } else if i == 1 {
            } else if i == 2 {
            } else if i == 3 {
            } else if i == 4 {
            } else if i == 5 {
            } else if i == 6 {
            } else if i == 7 {
            } else if i == 8 {
            } else if i == 9 {
            } else if i == 10 {
            } else if i == 11 {
            } else if i == 12 {
            } else {
            }
        }
    }
    crate::header::lemma_header_single_length(name, n, body + rest);
    let s = frame_bytes(body) + rest;
    assert(s =~= name + cs + dec + tail + (body + rest));
    let used = frame_header(body.len() as int).len() as int;
    assert(used == name.len() + 2 + dec.len() + 4);
    assert(header_outcome(s) == HeaderOutcome::Length { n, used });
    assert(s.skip(used) =~= body + rest);
    assert(s.skip(used).take(body.len() as int) =~= body);
}

/// The wording for a message shape in a handshake failure.
pub open spec fn shape_word(m: Message) -> Seq<char> {
    match m {
        Message::Request(_) => "a request"@,
        Message::Response(_) => "a response"@,
        Message::Notification(_) => "a notification"@,
    }
}

/// A handshake failure: names the expected message and the shape that
/// arrived instead.
pub fn expected_message_error(expected: &str, got: &Message) -> (e: Error)
    ensures
        e matches Error::ProtocolError(s) && s@ == "Expected "@ + expected@
            + " message but got "@ + shape_word(*got),
{
    let mut s = "Expected ".to_owned();
    s.append(expected);
    s.append(" message but got ");
    match got {
        Message::Request(_) => s.append("a request"),
        Message::Response(_) => s.append("a response"),
        Message::Notification(_) => s.append("a notification"),
    }
    proof {
        assert(s@ =~= "Expected "@ + expected@ + " message but got "@ + shape_word(*got));
    }
    Error::ProtocolError(s)
}

/// The text of a method-mismatch failure: it names the expected and the
/// actual method.
pub open spec fn mismatch_message(expected: Seq<char>, actual: Seq<char>) -> Seq<char> {
    "Expected "@ + expected + " but got "@ + actual
}

fn method_mismatch_error(expected: &str, actual: &str) -> (e: Error)
    ensures
        e matches Error::ProtocolError(s) && s@ == mismatch_message(expected@, actual@),
{
    let mut s = "Expected ".to_owned();
    s.append(expected);
    s.append(" but got ");
    s.append(actual);
    proof {
        assert(s@ =~= mismatch_message(expected@, actual@));
    }
    Error::ProtocolError(s)
}

/// Typed extraction for a request: the id and params pass through exactly
/// when the method matches the expected one; a differing method always
/// fails, whatever the params hold, with a message naming the expected and
/// the actual method.
pub fn into_request_id_params(req: RequestMessage, expected_method: &str) -> (r: Result<
    (u64, serde_json::Value),
    Error,
>)
    ensures
        req.method@ == expected_method@ ==> (r matches Ok(p) && p.0 == req.id && p.1
            == req.params),
        req.method@ != expected_method@ ==> is_protocol_err(
            r,
            mismatch_message(expected_method@, req.method@),
        ),
{
    if str_eq(req.method.as_str(), expected_method) {
        Ok((req.id, req.params))
    } else {
        Err(method_mismatch_error(expected_method, req.method.as_str()))
    }
}

/// Typed extraction for a notification: the params pass through exactly
/// when the method matches the expected one; a differing method always
/// fails, with a message naming the expected and the actual method.
pub fn into_notification_params(notif: NotificationMessage, expected_method: &str) -> (r: Result<
    serde_json::Value,
    Error,
>)
    ensures
        notif.method@ == expected_method@ ==> (r matches Ok(p) && p == notif.params),
        notif.method@ != expected_method@ ==> is_protocol_err(
            r,
            mismatch_message(expected_method@, notif.method@),
        ),
{
    if str_eq(notif.method.as_str(), expected_method) {
        Ok(notif.params)
    } else {
        Err(method_mismatch_error(expected_method, notif.method.as_str()))
    }
}

} // verus!
