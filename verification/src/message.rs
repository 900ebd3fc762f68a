//! The two wire message shapes, Request and Response, with their canonical
//! JSON serialization and the decoder that reads them back.
//!
//! A request is `{"id": <string>, "message": <string>}`; a response is
//! `{"id": <string>, "status": <"OK"|"PROCESSING"|"ERROR">, "message":
//! <string>}`. The encoder emits the fields in that order with no
//! insignificant whitespace; the decoder tolerates whitespace between tokens
//! and accepts the fields in any order, and rejects everything else.

use vstd::prelude::*;

use crate::codec::escape_seq;
use crate::codec::lemma_parse_escaped;
use crate::codec::append_escaped;
use crate::codec::parse_string;
use crate::codec::parse_string_at;
use crate::codec::skip_ws;
use crate::codec::skip_ws_at;
use vstd::string::StringExecFns;
use vstd::string::StrSliceExecFns;

verus! {

/// The error the decoder reports on a payload that is not a well-formed
/// serialized message of the expected shape.
#[derive(Debug, Clone, Copy, PartialEq, Eq, Structural)]
pub struct DecodeError;

/// The closed set of statuses a response frame may carry: `Okay` and
/// `Error` are terminal, `Processing` is not.
#[derive(Debug, Clone, Copy, PartialEq, Eq, Hash, Structural)]
pub enum CommandStatus {
    Okay,
    Processing,
    Error,
}

/// One request: an operation tag and a free-form text payload.
#[derive(Debug, Clone, PartialEq, Eq, Hash)]
pub struct Request {
    pub id: String,
    pub message: String,
}

/// One response frame: a frame tag, a status, and a human-readable text.
#[derive(Debug, Clone, PartialEq, Eq)]
pub struct Response {
    pub id: String,
    pub status: CommandStatus,
    pub message: String,
}

/// The mathematical content of a `Request`.
#[verifier::ext_equal]
pub struct RequestView {
    pub id: Seq<char>,
    pub message: Seq<char>,
}

/// The mathematical content of a `Response`.
#[verifier::ext_equal]
pub struct ResponseView {
    pub id: Seq<char>,
    pub status: CommandStatus,
    pub message: Seq<char>,
}

impl View for Request {
    type V = RequestView;

    open spec fn view(&self) -> RequestView {
        RequestView { id: self.id@, message: self.message@ }
    }
}

impl View for Response {
    type V = ResponseView;

    open spec fn view(&self) -> ResponseView {
        ResponseView { id: self.id@, status: self.status, message: self.message@ }
    }
}

/// The characters of the request-tag field name.
pub open spec fn id_key() -> Seq<char> {
    seq!['i', 'd']
}

/// The characters of the status field name.
pub open spec fn status_key() -> Seq<char> {
    seq!['s', 't', 'a', 't', 'u', 's']
}

/// The characters of the text field name.
pub open spec fn message_key() -> Seq<char> {
    seq!['m', 'e', 's', 's', 'a', 'g', 'e']
}

/// The wire name of each status value.
pub open spec fn status_chars(st: CommandStatus) -> Seq<char> {
    match st {
        CommandStatus::Okay => seq!['O', 'K'],
        CommandStatus::Processing => seq!['P', 'R', 'O', 'C', 'E', 'S', 'S', 'I', 'N', 'G'],
        CommandStatus::Error => seq!['E', 'R', 'R', 'O', 'R'],
    }
}

/// The status a wire name denotes, if it denotes one.
pub open spec fn status_of_chars(t: Seq<char>) -> Option<CommandStatus> {
    if t == status_chars(CommandStatus::Okay) {
        Some(CommandStatus::Okay)
    } else if t == status_chars(CommandStatus::Processing) {
        Some(CommandStatus::Processing)
    } else if t == status_chars(CommandStatus::Error) {
        Some(CommandStatus::Error)
    } else {
        None
    }
}

/// One serialized object member: a quoted, escaped field name, a colon, and
/// a quoted, escaped string value.
pub open spec fn member_chars(k: Seq<char>, v: Seq<char>) -> Seq<char> {
    seq!['"'] + escape_seq(k) + seq!['"', ':', '"'] + escape_seq(v) + seq!['"']
}

/// The canonical serialization of a request.
pub open spec fn spec_encode_request(r: RequestView) -> Seq<char> {
    seq!['{'] + member_chars(id_key(), r.id) + seq![','] + member_chars(message_key(), r.message)
        + seq!['}']
}

/// The canonical serialization of a response.
pub open spec fn spec_encode_response(r: ResponseView) -> Seq<char> {
    seq!['{'] + member_chars(id_key(), r.id) + seq![','] + member_chars(
        status_key(),
        status_chars(r.status),
    ) + seq![','] + member_chars(message_key(), r.message) + seq!['}']
}

/// Parses one object member at `i`: a string key, a colon, and a string
/// value, with whitespace allowed around the tokens.
pub open spec fn parse_member(s: Seq<char>, i: int) -> Option<((Seq<char>, Seq<char>), int)> {
    let i1 = skip_ws(s, i);
    match parse_string(s, i1) {
        None => None,
        Some((k, i2)) => {
            let i3 = skip_ws(s, i2);
            if 0 <= i3 && i3 < s.len() && s[i3] == ':' {
                let i4 = skip_ws(s, i3 + 1);
                match parse_string(s, i4) {
                    None => None,
                    Some((v, i5)) => Some(((k, v), i5)),
                }
            } else {
                None
            }
        },
    }
}

/// The request the two parsed members describe, when they are exactly the
/// request-tag field and the text field, in either order.
pub open spec fn request_of_members(
    k1: Seq<char>,
    v1: Seq<char>,
    k2: Seq<char>,
    v2: Seq<char>,
) -> Option<RequestView> {
    if k1 == id_key() && k2 == message_key() {
        Some(RequestView { id: v1, message: v2 })
    } else if k1 == message_key() && k2 == id_key() {
        Some(RequestView { id: v2, message: v1 })
    } else {
        None
    }
}

/// Builds a response view once the status name is recognized.
pub open spec fn response_of_fields(
    id: Seq<char>,
    status: Seq<char>,
    message: Seq<char>,
) -> Option<ResponseView> {
    match status_of_chars(status) {
        Some(st) => Some(ResponseView { id, status: st, message }),
        None => None,
    }
}

/// The response the three parsed members describe, when they are exactly the
/// three response fields, in any order.
pub open spec fn response_of_members(
    k1: Seq<char>,
    v1: Seq<char>,
    k2: Seq<char>,
    v2: Seq<char>,
    k3: Seq<char>,
    v3: Seq<char>,
) -> Option<ResponseView> {
    if k1 == id_key() && k2 == status_key() && k3 == message_key() {
        response_of_fields(v1, v2, v3)
    } else if k1 == id_key() && k2 == message_key() && k3 == status_key() {
        response_of_fields(v1, v3, v2)
    } else if k1 == status_key() && k2 == id_key() && k3 == message_key() {
        response_of_fields(v2, v1, v3)
    } else if k1 == status_key() && k2 == message_key() && k3 == id_key() {
        response_of_fields(v3, v1, v2)
    } else if k1 == message_key() && k2 == id_key() && k3 == status_key() {
        response_of_fields(v2, v3, v1)
    } else if k1 == message_key() && k2 == status_key() && k3 == id_key() {
        response_of_fields(v3, v2, v1)
    } else {
        None
    }
}

/// What the request decoder accepts: one object holding exactly the
/// request-tag field and the text field, and nothing after it but
/// whitespace.
pub open spec fn spec_decode_request(s: Seq<char>) -> Option<RequestView> {
    let i0 = skip_ws(s, 0);
    if !(0 <= i0 && i0 < s.len() && s[i0] == '{') {
        None
    } else {
        match parse_member(s, i0 + 1) {
            None => None,
            Some(((k1, v1), i1)) => {
                let i2 = skip_ws(s, i1);
                if 0 <= i2 && i2 < s.len() && s[i2] == ',' {
                    match parse_member(s, i2 + 1) {
                        None => None,
                        Some(((k2, v2), i3)) => {
                            let i4 = skip_ws(s, i3);
                            if 0 <= i4 && i4 < s.len() && s[i4] == '}' && skip_ws(s, i4 + 1)
                                == s.len() {
                                request_of_members(k1, v1, k2, v2)
                            } else {
                                None
                            }
                        },
                    }
                } else {
                    None
                }
            },
        }
    }
}

/// What the response decoder accepts: one object holding exactly the three
/// response fields, and nothing after it but whitespace.
pub open spec fn spec_decode_response(s: Seq<char>) -> Option<ResponseView> {
    let i0 = skip_ws(s, 0);
    if !(0 <= i0 && i0 < s.len() && s[i0] == '{') {
        None
    } else {
        match parse_member(s, i0 + 1) {
            None => None,
            Some(((k1, v1), i1)) => {
                let i2 = skip_ws(s, i1);
                if 0 <= i2 && i2 < s.len() && s[i2] == ',' {
                    match parse_member(s, i2 + 1) {
                        None => None,
                        Some(((k2, v2), i3)) => {
                            let i4 = skip_ws(s, i3);
                            if 0 <= i4 && i4 < s.len() && s[i4] == ',' {
                                match parse_member(s, i4 + 1) {
                                    None => None,
                                    Some(((k3, v3), i5)) => {
                                        let i6 = skip_ws(s, i5);
                                        if 0 <= i6 && i6 < s.len() && s[i6] == '}' && skip_ws(
                                            s,
                                            i6 + 1,
                                        ) == s.len() {
                                            response_of_members(k1, v1, k2, v2, k3, v3)
                                        } else {
                                            None
                                        }
                                    },
                                }
                            } else {
                                None
                            }
                        },
                    }
                } else {
                    None
                }
            },
        }
    }
}

/// Escaping a string of ordinary characters, with no quote, no backslash
/// and no control character, leaves it unchanged.
pub proof fn lemma_escape_plain(t: Seq<char>)
    requires
        forall|k: int| 0 <= k < t.len() ==> (#[trigger] t[k]) != '"' && t[k] != '\\' && (
        t[k] as u32) >= 0x20,
    ensures
        escape_seq(t) == t,
    decreases t.len(),
{
    if t.len() == 0 {
        assert(escape_seq(t) =~= t);
    } else {
        assert(t[0] != '"' && t[0] != '\\' && (t[0] as u32) >= 0x20);
        lemma_escape_plain(t.skip(1));
        assert(escape_seq(t) =~= t);
    }
}

/// The three field names pass through escaping unchanged.
pub proof fn lemma_keys_plain()
    ensures
        escape_seq(id_key()) == id_key(),
        escape_seq(status_key()) == status_key(),
        escape_seq(message_key()) == message_key(),
{
    lemma_escape_plain(id_key());
    lemma_escape_plain(status_key());
    lemma_escape_plain(message_key());
}

/// Every wire status name passes through escaping unchanged.
pub proof fn lemma_status_chars_plain(st: CommandStatus)
    ensures
        escape_seq(status_chars(st)) == status_chars(st),
{
    lemma_escape_plain(status_chars(st));
}

impl Request {
    /// Builds a request from its two fields.
    pub fn new(id: &str, message: &str) -> (r: Request)
        ensures
            r@ == (RequestView { id: id@, message: message@ }),
    {
        Request { id: String::from_str(id), message: String::from_str(message) }
    }

    /// Serializes the request to its canonical textual form; this never
    /// fails for an in-memory value.
    pub fn to_serialized_string(&self) -> (out: String)
        ensures
            out@ == spec_encode_request(self@),
    {
        let mut out = String::new();
        out.append("{\"id\":\"");
        append_escaped(&mut out, self.id.as_str());
        out.append("\",\"message\":\"");
        append_escaped(&mut out, self.message.as_str());
        out.append("\"}");
        proof {
            reveal_strlit("{\"id\":\"");
            reveal_strlit("\",\"message\":\"");
            reveal_strlit("\"}");
            lemma_keys_plain();
            assert("{\"id\":\""@ =~= seq!['{', '"', 'i', 'd', '"', ':', '"']);
            assert("\",\"message\":\""@ =~= seq!['"', ',', '"', 'm', 'e', 's', 's', 'a', 'g', 'e', '"', ':', '"']);
            assert("\"}"@ =~= seq!['"', '}']);
            assert(out@ =~= spec_encode_request(self@));
        }
        out
    }

    /// The canonical serialization, as its sequence of bytes.
    pub fn serialize_to_bytes(&self) -> (out: Vec<u8>)
        ensures
            out@ == vstd::utf8::encode_utf8(spec_encode_request(self@)),
    {
        let s = self.to_serialized_string();
        s.as_str().as_bytes_vec()
    }
}

impl Response {
    /// Builds a response frame from its three fields.
    pub fn new(id: &str, status: CommandStatus, message: &str) -> (r: Response)
        ensures
            r@ == (ResponseView { id: id@, status: status, message: message@ }),
    {
        Response { id: String::from_str(id), status, message: String::from_str(message) }
    }

    /// Serializes the response to its canonical textual form; this never
    /// fails for an in-memory value.
    #[verifier::rlimit(100)]
    pub fn to_serialized_string(&self) -> (out: String)
        ensures
            out@ == spec_encode_response(self@),
    {
        let mut out = String::new();
        out.append("{\"id\":\"");
        append_escaped(&mut out, self.id.as_str());
        out.append("\",\"status\":\"");
        match self.status {
            CommandStatus::Okay => out.append("OK"),
            CommandStatus::Processing => out.append("PROCESSING"),
            CommandStatus::Error => out.append("ERROR"),
        }
        out.append("\",\"message\":\"");
        append_escaped(&mut out, self.message.as_str());
        out.append("\"}");
        proof {
            reveal_strlit("{\"id\":\"");
            reveal_strlit("\",\"status\":\"");
            reveal_strlit("OK");
            reveal_strlit("PROCESSING");
            reveal_strlit("ERROR");
            reveal_strlit("\",\"message\":\"");
            reveal_strlit("\"}");
            lemma_keys_plain();
            lemma_status_chars_plain(self.status);
            assert("{\"id\":\""@ =~= seq!['{', '"', 'i', 'd', '"', ':', '"']);
            assert("\",\"status\":\""@ =~= seq!['"', ',', '"', 's', 't', 'a', 't', 'u', 's', '"', ':', '"']);
            assert("OK"@ =~= status_chars(CommandStatus::Okay));
            assert("PROCESSING"@ =~= status_chars(CommandStatus::Processing));
            assert("ERROR"@ =~= status_chars(CommandStatus::Error));
            assert("\",\"message\":\""@ =~= seq!['"', ',', '"', 'm', 'e', 's', 's', 'a', 'g', 'e', '"', ':', '"']);
            assert("\"}"@ =~= seq!['"', '}']);
            assert(out@ =~= spec_encode_response(self@));
        }
        out
    }

    /// The canonical serialization, as its sequence of bytes.
    pub fn serialize_to_bytes(&self) -> (out: Vec<u8>)
        ensures
            out@ == vstd::utf8::encode_utf8(spec_encode_response(self@)),
    {
        let s = self.to_serialized_string();
        s.as_str().as_bytes_vec()
    }
}

/// Parses one object member, mirroring `parse_member`.
fn parse_member_at(s: &str, n: usize, i: usize) -> (r: Option<((String, String), usize)>)
    requires
        n == s@.len(),
        i <= n,
    ensures
        r is Some <==> parse_member(s@, i as int) is Some,
        r matches Some(((k, v), j)) ==> parse_member(s@, i as int) == Some(((k@, v@), j as int))
            && i < j <= n,
{
    let i1 = skip_ws_at(s, n, i);
    match parse_string_at(s, n, i1) {
        Some((k, i2)) => {
            let i3 = skip_ws_at(s, n, i2);
            if i3 < n {
                let c = s.get_char(i3);
                if c == ':' {
                    let i4 = skip_ws_at(s, n, i3 + 1);
                    match parse_string_at(s, n, i4) {
                        Some((v, i5)) => Some(((k, v), i5)),
                        None => None,
                    }
                } else {
                    None
                }
            } else {
                None
            }
        },
        None => None,
    }
}

/// The status a wire name denotes, if it denotes one.
fn status_from_string(v: &String) -> (r: Option<CommandStatus>)
    ensures
        r == status_of_chars(v@),
{
    proof {
        reveal_strlit("OK");
        reveal_strlit("PROCESSING");
        reveal_strlit("ERROR");
        assert("OK"@ =~= status_chars(CommandStatus::Okay));
        assert("PROCESSING"@ =~= status_chars(CommandStatus::Processing));
        assert("ERROR"@ =~= status_chars(CommandStatus::Error));
    }
    let okay = String::from_str("OK");
    let processing = String::from_str("PROCESSING");
    let error = String::from_str("ERROR");
    if v.eq(&okay) {
        Some(CommandStatus::Okay)
    } else if v.eq(&processing) {
        Some(CommandStatus::Processing)
    } else if v.eq(&error) {
        Some(CommandStatus::Error)
    } else {
        None
    }
}

/// Decodes a serialized request; fails on any payload that is not a
/// well-formed request object.
pub fn decode_request(s: &str) -> (r: Result<Request, DecodeError>)
    ensures
        r matches Ok(req) ==> spec_decode_request(s@) == Some(req@),
        r is Err <==> spec_decode_request(s@) is None,
{
    let n = s.unicode_len();
    let i0 = skip_ws_at(s, n, 0);
    if i0 >= n {
        return Err(DecodeError);
    }
    if s.get_char(i0) != '{' {
        return Err(DecodeError);
    }
    match parse_member_at(s, n, i0 + 1) {
        None => Err(DecodeError),
        Some(((k1, v1), i1)) => {
            let i2 = skip_ws_at(s, n, i1);
            if i2 >= n {
                return Err(DecodeError);
            }
            if s.get_char(i2) != ',' {
                return Err(DecodeError);
            }
            match parse_member_at(s, n, i2 + 1) {
                None => Err(DecodeError),
                Some(((k2, v2), i3)) => {
                    let i4 = skip_ws_at(s, n, i3);
                    if i4 >= n {
                        return Err(DecodeError);
                    }
                    if s.get_char(i4) != '}' {
                        return Err(DecodeError);
                    }
                    if skip_ws_at(s, n, i4 + 1) != n {
                        return Err(DecodeError);
                    }
                    proof {
                        reveal_strlit("id");
                        reveal_strlit("message");
                        assert("id"@ =~= id_key());
                        assert("message"@ =~= message_key());
                    }
                    let idk = String::from_str("id");
                    let msgk = String::from_str("message");
                    if k1.eq(&idk) && k2.eq(&msgk) {
                        Ok(Request { id: v1, message: v2 })
                    } else if k1.eq(&msgk) && k2.eq(&idk) {
                        Ok(Request { id: v2, message: v1 })
                    } else {
                        Err(DecodeError)
                    }
                },
            }
        },
    }
}

/// Builds a response from the three field values once the status name is
/// recognized, mirroring `response_of_fields`.
fn response_from_fields(idv: String, stv: String, msgv: String) -> (r: Result<
    Response,
    DecodeError,
>)
    ensures
        r matches Ok(resp) ==> response_of_fields(idv@, stv@, msgv@) == Some(resp@),
        r is Err <==> response_of_fields(idv@, stv@, msgv@) is None,
{
    match status_from_string(&stv) {
        Some(st) => Ok(Response { id: idv, status: st, message: msgv }),
        None => Err(DecodeError),
    }
}

/// Decodes a serialized response; fails on any payload that is not a
/// well-formed response frame.
pub fn decode_response(s: &str) -> (r: Result<Response, DecodeError>)
    ensures
        r matches Ok(resp) ==> spec_decode_response(s@) == Some(resp@),
        r is Err <==> spec_decode_response(s@) is None,
{
    let n = s.unicode_len();
    let i0 = skip_ws_at(s, n, 0);
    if i0 >= n {
        return Err(DecodeError);
    }
    if s.get_char(i0) != '{' {
        return Err(DecodeError);
    }
    match parse_member_at(s, n, i0 + 1) {
        None => Err(DecodeError),
        Some(((k1, v1), i1)) => {
            let i2 = skip_ws_at(s, n, i1);
            if i2 >= n {
                return Err(DecodeError);
            }
            if s.get_char(i2) != ',' {
                return Err(DecodeError);
            }
            match parse_member_at(s, n, i2 + 1) {
                None => Err(DecodeError),
                Some(((k2, v2), i3)) => {
                    let i4 = skip_ws_at(s, n, i3);
                    if i4 >= n {
                        return Err(DecodeError);
                    }
                    if s.get_char(i4) != ',' {
                        return Err(DecodeError);
                    }
                    match parse_member_at(s, n, i4 + 1) {
                        None => Err(DecodeError),
                        Some(((k3, v3), i5)) => {
                            let i6 = skip_ws_at(s, n, i5);
                            if i6 >= n {
                                return Err(DecodeError);
                            }
                            if s.get_char(i6) != '}' {
                                return Err(DecodeError);
                            }
                            if skip_ws_at(s, n, i6 + 1) != n {
                                return Err(DecodeError);
                            }
                            proof {
                                reveal_strlit("id");
                                reveal_strlit("status");
                                reveal_strlit("message");
                                assert("id"@ =~= id_key());
                                assert("status"@ =~= status_key());
                                assert("message"@ =~= message_key());
                            }
                            let idk = String::from_str("id");
                            let stk = String::from_str("status");
                            let msgk = String::from_str("message");
                            if k1.eq(&idk) && k2.eq(&stk) && k3.eq(&msgk) {
                                response_from_fields(v1, v2, v3)
                            } else if k1.eq(&idk) && k2.eq(&msgk) && k3.eq(&stk) {
                                response_from_fields(v1, v3, v2)
                            } else if k1.eq(&stk) && k2.eq(&idk) && k3.eq(&msgk) {
                                response_from_fields(v2, v1, v3)
                            } else if k1.eq(&stk) && k2.eq(&msgk) && k3.eq(&idk) {
                                response_from_fields(v3, v1, v2)
                            } else if k1.eq(&msgk) && k2.eq(&idk) && k3.eq(&stk) {
                                response_from_fields(v2, v3, v1)
                            } else if k1.eq(&msgk) && k2.eq(&stk) && k3.eq(&idk) {
                                response_from_fields(v3, v2, v1)
                            } else {
                                Err(DecodeError)
                            }
                        },
                    }
                },
            }
        },
    }
}

/// Parsing one member off a string that holds a serialized member at `i`
/// yields exactly that member's field name and value.
proof fn lemma_parse_member_exact(s: Seq<char>, i: int, k: Seq<char>, v: Seq<char>)
    requires
        0 <= i,
        i + member_chars(k, v).len() <= s.len(),
        s.subrange(i, i + member_chars(k, v).len()) == member_chars(k, v),
    ensures
        parse_member(s, i) == Some(((k, v), i + member_chars(k, v).len())),
{
    let mc = member_chars(k, v);
    let ek = escape_seq(k);
    let ev = escape_seq(v);
    let lk = ek.len() as int;
    let lv = ev.len() as int;
    assert(mc.len() == lk + lv + 5);
    assert forall|j: int| 0 <= j < mc.len() implies s[i + j] == mc[j] by {
        assert(s.subrange(i, i + mc.len())[j] == s[i + j]);
    }
    assert(mc[0] == '"');
    assert(s[i + 0] == mc[0]);
    assert(skip_ws(s, i) == i);
    assert forall|j: int| 0 <= j < lk + 1 implies s[i + 1 + j] == (ek + seq!['"'])[j] by {
        assert(s[i + (1 + j)] == mc[1 + j]);
    }
    assert(s.subrange(i + 1, i + 1 + lk + 1) =~= ek + seq!['"']);
    lemma_parse_escaped(s, i + 1, k);
    assert(parse_string(s, i) == Some((k, i + lk + 2)));
    assert(s[i + (lk + 2)] == mc[lk + 2]);
    assert(mc[lk + 2] == ':');
    assert(skip_ws(s, i + lk + 2) == i + lk + 2);
    assert(s[i + (lk + 3)] == mc[lk + 3]);
    assert(mc[lk + 3] == '"');
    assert(skip_ws(s, i + lk + 3) == i + lk + 3);
    assert forall|j: int| 0 <= j < lv + 1 implies s[i + lk + 4 + j] == (ev + seq!['"'])[j] by {
        assert(s[i + (lk + 4 + j)] == mc[lk + 4 + j]);
    }
    assert(s.subrange(i + lk + 4, i + lk + 4 + lv + 1) =~= ev + seq!['"']);
    lemma_parse_escaped(s, i + lk + 4, v);
    assert(parse_string(s, i + lk + 3) == Some((v, i + lk + lv + 5)));
}

/// Round trip for requests: decoding a request's canonical serialization
/// yields the request back, for every request value.
#[verifier::rlimit(100)]
pub proof fn lemma_request_round_trip(r: RequestView)
    ensures
        spec_decode_request(spec_encode_request(r)) == Some(r),
{
    let s = spec_encode_request(r);
    let mc1 = member_chars(id_key(), r.id);
    let mc2 = member_chars(message_key(), r.message);
    let p1 = 1 + mc1.len() as int;
    let p2 = p1 + 1 + mc2.len() as int;
    assert(s.len() == p2 + 1);
    assert(s[0] == '{');
    assert(skip_ws(s, 0) == 0);
    assert(s.subrange(1, p1) =~= mc1);
    lemma_parse_member_exact(s, 1, id_key(), r.id);
    assert(s[p1] == ',');
    assert(skip_ws(s, p1) == p1);
    assert(s.subrange(p1 + 1, p2) =~= mc2);
    lemma_parse_member_exact(s, p1 + 1, message_key(), r.message);
    assert(s[p2] == '}');
    assert(skip_ws(s, p2) == p2);
    assert(skip_ws(s, p2 + 1) == s.len());
    assert(id_key() != message_key());
    assert(request_of_members(id_key(), r.id, message_key(), r.message) == Some(r)) by {
        assert(RequestView { id: r.id, message: r.message } =~= r);
    }
}

/// Round trip for responses: decoding a response's canonical serialization
/// yields the response back, for every response value.
#[verifier::rlimit(100)]
pub proof fn lemma_response_round_trip(r: ResponseView)
    ensures
        spec_decode_response(spec_encode_response(r)) == Some(r),
{
    let s = spec_encode_response(r);
    let mc1 = member_chars(id_key(), r.id);
    let mc2 = member_chars(status_key(), status_chars(r.status));
    let mc3 = member_chars(message_key(), r.message);
    let p1 = 1 + mc1.len() as int;
    let p2 = p1 + 1 + mc2.len() as int;
    let p3 = p2 + 1 + mc3.len() as int;
    assert(s.len() == p3 + 1);
    assert(s[0] == '{');
    assert(skip_ws(s, 0) == 0);
    assert(s.subrange(1, p1) =~= mc1);
    lemma_parse_member_exact(s, 1, id_key(), r.id);
    assert(s[p1] == ',');
    assert(skip_ws(s, p1) == p1);
    assert(s.subrange(p1 + 1, p2) =~= mc2);
    lemma_parse_member_exact(s, p1 + 1, status_key(), status_chars(r.status));
    assert(s[p2] == ',');
    assert(skip_ws(s, p2) == p2);
    assert(s.subrange(p2 + 1, p3) =~= mc3);
    lemma_parse_member_exact(s, p2 + 1, message_key(), r.message);
    assert(s[p3] == '}');
    assert(skip_ws(s, p3) == p3);
    assert(skip_ws(s, p3 + 1) == s.len());
    assert(id_key() != message_key() && id_key() != status_key() && status_key()
        != message_key());
    assert(status_of_chars(status_chars(r.status)) == Some(r.status));
    assert(response_of_members(
        id_key(),
        r.id,
        status_key(),
        status_chars(r.status),
        message_key(),
        r.message,
    ) == Some(r)) by {
        assert(ResponseView { id: r.id, status: r.status, message: r.message } =~= r);
    }
}

/// Every character of a serialized response is printable: in particular no
/// newline stands inside a serialized response.
pub proof fn lemma_encode_response_printable(r: ResponseView)
    ensures
        forall|k: int| 0 <= k < spec_encode_response(r).len() ==> (#[trigger] spec_encode_response(
            r,
        )[k]) as u32 >= 0x20,
{
    let s = spec_encode_response(r);
    crate::codec::lemma_escape_seq_no_control(id_key());
    crate::codec::lemma_escape_seq_no_control(r.id);
    crate::codec::lemma_escape_seq_no_control(status_key());
    crate::codec::lemma_escape_seq_no_control(status_chars(r.status));
    crate::codec::lemma_escape_seq_no_control(message_key());
    crate::codec::lemma_escape_seq_no_control(r.message);
    lemma_member_chars_printable(id_key(), r.id);
    lemma_member_chars_printable(status_key(), status_chars(r.status));
    lemma_member_chars_printable(message_key(), r.message);
    assert forall|k: int| 0 <= k < s.len() implies (#[trigger] s[k]) as u32 >= 0x20 by {
    }
}

/// Every character of a serialized member is printable, provided the escaped
/// field name and value are.
proof fn lemma_member_chars_printable(k: Seq<char>, v: Seq<char>)
    requires
        forall|m: int| 0 <= m < escape_seq(k).len() ==> (#[trigger] escape_seq(k)[m]) as u32
            >= 0x20,
        forall|m: int| 0 <= m < escape_seq(v).len() ==> (#[trigger] escape_seq(v)[m]) as u32
            >= 0x20,
    ensures
        forall|j: int| 0 <= j < member_chars(k, v).len() ==> (#[trigger] member_chars(k, v)[j])
            as u32 >= 0x20,
{
    assert forall|j: int| 0 <= j < member_chars(k, v).len() implies (#[trigger] member_chars(
        k,
        v,
    )[j]) as u32 >= 0x20 by {
    }
}

} // verus!
