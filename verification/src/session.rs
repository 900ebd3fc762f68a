//! The per-connection protocol logic: the server's reply sequence for one
//! received request, the framing of each reply, and the client's dispatch on
//! each received frame.

use vstd::prelude::*;

use crate::message::CommandStatus;
use crate::message::DecodeError;
use crate::message::Request;
use crate::message::RequestView;
use crate::message::Response;
use crate::message::ResponseView;
use crate::message::decode_request;
use crate::message::decode_response;
use crate::message::lemma_encode_response_printable;
use crate::message::spec_decode_request;
use crate::message::spec_decode_response;
use crate::message::spec_encode_response;
use vstd::string::StringExecFns;

verus! {

/// How many intermediate frames the server streams before the terminal one.
pub const PROCESSING_FRAME_COUNT: usize = 9;

/// The fixed intermediate frame the server streams while it works.
pub open spec fn spec_processing_response() -> ResponseView {
    ResponseView {
        id: "processing"@,
        status: CommandStatus::Processing,
        message: "still processing..."@,
    }
}

/// The terminal response a request selects: the request tag `"request"` is
/// answered with success, every other tag with an error.
pub open spec fn spec_terminal_response(r: RequestView) -> ResponseView {
    if r.id == "request"@ {
        ResponseView { id: "response"@, status: CommandStatus::Okay, message: "Roger that"@ }
    } else {
        ResponseView { id: "what"@, status: CommandStatus::Error, message: "Sorry what?"@ }
    }
}

/// One frame on the wire: a serialized response and its newline delimiter.
pub open spec fn spec_frame(r: ResponseView) -> Seq<char> {
    spec_encode_response(r) + seq!['\n']
}

/// Framing law: every frame ends in exactly one newline, and no newline
/// stands anywhere before it.
pub proof fn lemma_frame_newline(r: ResponseView)
    ensures
        spec_frame(r).len() > 0,
        spec_frame(r).last() == '\n',
        forall|k: int| 0 <= k < spec_frame(r).len() - 1 ==> (#[trigger] spec_frame(r)[k]) != '\n',
{
    lemma_encode_response_printable(r);
    assert forall|k: int| 0 <= k < spec_frame(r).len() - 1 implies (#[trigger] spec_frame(r)[k])
        != '\n' by {
        assert(spec_frame(r)[k] == spec_encode_response(r)[k]);
        assert((spec_encode_response(r)[k]) as u32 >= 0x20);
        assert(('\n') as u32 == 10);
    }
}

/// The fixed intermediate response.
pub fn processing_response() -> (resp: Response)
    ensures
        resp@ == spec_processing_response(),
{
    Response::new("processing", CommandStatus::Processing, "still processing...")
}

/// Selects the terminal response for a received request.
pub fn terminal_response(req: &Request) -> (resp: Response)
    ensures
        resp@ == spec_terminal_response(req@),
{
    let key = String::from_str("request");
    if req.id.eq(&key) {
        Response::new("response", CommandStatus::Okay, "Roger that")
    } else {
        Response::new("what", CommandStatus::Error, "Sorry what?")
    }
}

/// Serializes a response and appends its single newline delimiter.
pub fn frame_response(resp: &Response) -> (out: String)
    ensures
        out@ == spec_frame(resp@),
{
    let mut out = resp.to_serialized_string();
    out.append("\n");
    proof {
        reveal_strlit("\n");
        assert("\n"@ =~= seq!['\n']);
    }
    out
}

/// The full ordered frame sequence one connection's request bytes produce:
/// the fixed number of intermediate frames, then exactly one terminal frame;
/// nothing when the request does not decode.
pub open spec fn spec_session_frames(raw: Seq<char>) -> Option<Seq<Seq<char>>> {
    match spec_decode_request(raw) {
        Some(req) => Some(
            Seq::new(
                (PROCESSING_FRAME_COUNT + 1) as nat,
                |k: int|
                    if k < PROCESSING_FRAME_COUNT {
                        spec_frame(spec_processing_response())
                    } else {
                        spec_frame(spec_terminal_response(req))
                    },
            ),
        ),
        None => None,
    }
}

/// The frame sequence a reply computation describes, frame by frame.
pub open spec fn frames_view(r: Result<Vec<String>, DecodeError>) -> Option<Seq<Seq<char>>> {
    match r {
        Ok(frames) => Some(frames@.map_values(|f: String| f@)),
        Err(e) => None,
    }
}

/// Computes every frame the server writes for one connection, in order: on a
/// request that decodes, the intermediate frames followed by the terminal
/// frame; on one that does not, the decode error and no frames at all.
pub fn session_reply_frames(raw: &str) -> (r: Result<Vec<String>, DecodeError>)
    ensures
        frames_view(r) == spec_session_frames(raw@),
{
    match decode_request(raw) {
        Err(e) => Err(e),
        Ok(req) => {
            let mut frames: Vec<String> = Vec::new();
            let mut k: usize = 0;
            while k < PROCESSING_FRAME_COUNT
                invariant
                    k <= PROCESSING_FRAME_COUNT,
                    frames.len() == k,
                    forall|j: int| 0 <= j < k ==> (#[trigger] frames[j])@ == spec_frame(
                        spec_processing_response(),
                    ),
                decreases PROCESSING_FRAME_COUNT - k,
            {
                let resp = processing_response();
                frames.push(frame_response(&resp));
                k = k + 1;
            }
            let terminal = terminal_response(&req);
            frames.push(frame_response(&terminal));
            proof {
                assert(frames@.map_values(|f: String| f@) =~~= spec_session_frames(
                    raw@,
                ).unwrap());
            }
            Ok(frames)
        },
    }
}

/// What the client does with one decoded frame.
pub enum ClientStep {
    /// The frame was intermediate: keep reading.
    Continue(Response),
    /// The frame was terminal: stop reading.
    Finished(Response),
}

/// Whether a status ends the response stream.
pub open spec fn spec_is_terminal(st: CommandStatus) -> bool {
    st == CommandStatus::Okay || st == CommandStatus::Error
}

/// Whether a status ends the response stream.
pub fn is_terminal_status(st: &CommandStatus) -> (r: bool)
    ensures
        r == spec_is_terminal(*st),
{
    match st {
        CommandStatus::Okay => true,
        CommandStatus::Error => true,
        CommandStatus::Processing => false,
    }
}

/// One step of the client's read loop: decode the frame, then stop on a
/// terminal status and continue on an intermediate one.
pub fn client_step(line: &str) -> (r: Result<ClientStep, DecodeError>)
    ensures
        r matches Ok(step) ==> match step {
            ClientStep::Continue(resp) => spec_decode_response(line@) == Some(resp@)
                && !spec_is_terminal(resp@.status),
            ClientStep::Finished(resp) => spec_decode_response(line@) == Some(resp@)
                && spec_is_terminal(resp@.status),
        },
        r is Err <==> spec_decode_response(line@) is None,
{
    match decode_response(line) {
        Err(e) => Err(e),
        Ok(resp) => {
            if is_terminal_status(&resp.status) {
                Ok(ClientStep::Finished(resp))
            } else {
                Ok(ClientStep::Continue(resp))
            }
        },
    }
}

/// Serves a sequence of connections strictly one after the other: each
/// connection's reply frames are those of its own request alone, so no frame
/// of one session can appear in another.
pub fn serve_sessions(inputs: &Vec<String>) -> (outs: Vec<Result<Vec<String>, DecodeError>>)
    ensures
        outs.len() == inputs.len(),
        forall|k: int| 0 <= k < outs.len() ==> frames_view(#[trigger] outs[k])
            == spec_session_frames(inputs[k]@),
{
    let mut outs: Vec<Result<Vec<String>, DecodeError>> = Vec::new();
    let mut k: usize = 0;
    while k < inputs.len()
        invariant
            k <= inputs.len(),
            outs.len() == k,
            forall|j: int| 0 <= j < k ==> frames_view(#[trigger] outs[j]) == spec_session_frames(
                inputs[j]@,
            ),
        decreases inputs.len() - k,
    {
        let reply = session_reply_frames(inputs[k].as_str());
        outs.push(reply);
        k = k + 1;
    }
    outs
}

} // verus!
